use vstd::prelude::*;

verus! {

/// The errors that mutation operations on the configuration model return.
///
/// Each variant carries the key that caused the failure.
#[derive(Debug, Clone, PartialEq, Eq)]
pub enum ConfigError {
    /// A lookup missed: the named key is not a variant in the target set,
    /// or the target context has no variant set at all.
    ConfigKeyNotFound(String),
    /// A `pre_command` update was rejected: the new value is either the
    /// variant's own key (self-reference) or names no variant in the set.
    InvalidPreCommand(String),
}

} // verus!
