//! The configuration errors that the library reports.
use vstd::prelude::*;

verus! {

/// What can be wrong with a configuration: a modifier line with an unknown
/// keyword, a secret without a single hidden character (an unwinnable
/// round), or a configuration without any secret at all.
#[derive(Clone, Copy, PartialEq, Eq, Structural, Debug)]
pub enum ConfigError {
    UnknownModifier,
    UnwinnableSecret,
    EmptyDictionary,
}

} // verus!
