//! A word-guessing game library: a configuration parser that yields secret
//! phrases with partial hints, a guessing state machine that tracks lives and
//! outcome, and an image-disclosure engine that reveals an ASCII picture as
//! the round progresses.
pub mod dictionary;
pub mod errors;
pub mod game;
pub mod image;
pub mod secret;
pub mod session;
pub mod text;
