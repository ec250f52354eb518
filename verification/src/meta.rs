//! Metadata keys the library itself reads.
use vstd::prelude::*;

verus! {

/// Marks a setting secret (stored in the credential store).
pub const SECRET: &'static str = "secret";

/// Set on a setting whose value an environment variable overrides.
pub const ENV_OVERRIDE: &'static str = "env_override";

} // verus!
