use vstd::prelude::*;

verus! {

/// Instantiate message: nothing to configure.
#[derive(Clone, Debug, PartialEq, Eq)]
pub struct InstantiateMsg {}

/// Execute messages.
#[derive(Clone, Debug, PartialEq, Eq)]
pub enum ExecuteMsg {
    /// Register the sender with a shared secret key.
    Register { secret_key: String },
    /// Authenticate the sender with a code.
    Authenticate { totp_code: String },
}

} // verus!
