use vstd::prelude::*;

verus! {

/// Why a configuration token was refused.
#[derive(Debug, Clone, Copy, PartialEq, Eq, Structural)]
pub enum ConfigError {
    /// The token does not match any recognised form.
    ConfigurationParse,
    /// The token is well formed but names an unusable value (a width of zero).
    InvalidConfiguration,
}

} // verus!
