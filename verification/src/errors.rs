use vstd::prelude::*;

verus! {

/// The failure conditions of the decrypt-parse-query-cleanup pipeline.
///
/// `InvalidPath`, `DecryptionFailed` and `ReadFailed` arise while acquiring
/// the decrypted artifact; `MalformedGrid` while parsing its contents;
/// `InvalidCoordinate` while resolving a coordinate token; `CleanupFailed`
/// while removing the temporary plaintext file.
#[derive(Clone, Copy, PartialEq, Eq, Debug)]
pub enum RatrixError {
    InvalidPath,
    DecryptionFailed,
    ReadFailed,
    MalformedGrid,
    InvalidCoordinate,
    CleanupFailed,
}

impl RatrixError {
    /// The fixed description printed for each failure condition.
    pub open spec fn message_spec(self) -> Seq<char> {
        match self {
            RatrixError::InvalidPath => "Provided path is invalid"@,
            RatrixError::DecryptionFailed => "Decryption tool failed"@,
            RatrixError::ReadFailed => "Unable to read decrypted file"@,
            RatrixError::MalformedGrid => "Decrypted contents do not form an 8x8 grid"@,
            RatrixError::InvalidCoordinate => "Invalid position provided"@,
            RatrixError::CleanupFailed => "Unable to delete temp file"@,
        }
    }

    /// A human-readable description, one fixed sentence per variant.
    pub fn message(&self) -> (m: String)
        ensures
            m@ == self.message_spec(),
    {
        match self {
            RatrixError::InvalidPath => String::from_str("Provided path is invalid"),
            RatrixError::DecryptionFailed => String::from_str("Decryption tool failed"),
            RatrixError::ReadFailed => String::from_str("Unable to read decrypted file"),
            RatrixError::MalformedGrid => String::from_str(
                "Decrypted contents do not form an 8x8 grid",
            ),
            RatrixError::InvalidCoordinate => String::from_str("Invalid position provided"),
            RatrixError::CleanupFailed => String::from_str("Unable to delete temp file"),
        }
    }
}

} // verus!
