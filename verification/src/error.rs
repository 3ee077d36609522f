use vstd::prelude::*;

verus! {

/// Why an operation of the service was refused.
#[derive(Clone, Copy, Debug, PartialEq, Eq, Structural)]
pub enum ContractError {
    /// The registered secret is not Base32 text.
    Encoding,
    /// The keyed hash refused the secret as a key.
    HmacKey,
    /// The keyed hash gave a digest too short to truncate.
    HmacLength,
    /// No secret is registered for the identity.
    NotRegistered,
    /// The submitted code matches no step of the drift window.
    InvalidCode,
}

impl ContractError {
    /// The text that tells a caller what went wrong.
    pub open spec fn message_text(self) -> Seq<char> {
        match self {
            ContractError::Encoding => "Invalid secret key encoding"@,
            ContractError::HmacKey => "HMAC error"@,
            ContractError::HmacLength => "Invalid HMAC result length"@,
            ContractError::NotRegistered => "User not registered"@,
            ContractError::InvalidCode => "Invalid TOTP code"@,
        }
    }

    /// The text that tells a caller what went wrong.
    pub fn message(&self) -> (text: &'static str)
        ensures
            text@ == self.message_text(),
    {
        match self {
            ContractError::Encoding => "Invalid secret key encoding",
            ContractError::HmacKey => "HMAC error",
            ContractError::HmacLength => "Invalid HMAC result length",
            ContractError::NotRegistered => "User not registered",
            ContractError::InvalidCode => "Invalid TOTP code",
        }
    }
}

} // verus!
