use vstd::prelude::*;

verus! {

/// Why an operation on settings or on an export failed. Each variant
/// carries a description of the failure.
#[derive(Clone, Debug)]
pub enum AccelError {
    /// An input was rejected before any work was done.
    Validation(String),
    /// A file or directory could not be read, written or created.
    Io(String),
    /// Structured text could not be encoded or decoded.
    Serialization(String),
    /// The external program could not be started.
    Spawn(String),
}

/// `prefix` followed by `cause`.
pub fn joined(prefix: &str, cause: &str) -> (r: String)
    ensures
        r@ == prefix@ + cause@,
{
    let p = prefix.to_owned();
    p.concat(cause)
}

impl AccelError {
    /// The description of the failure.
    pub fn message(&self) -> (r: String)
        ensures
            r@ == match self {
                AccelError::Validation(m) => m@,
                AccelError::Io(m) => m@,
                AccelError::Serialization(m) => m@,
                AccelError::Spawn(m) => m@,
            },
    {
        match self {
            AccelError::Validation(m) => m.clone(),
            AccelError::Io(m) => m.clone(),
            AccelError::Serialization(m) => m.clone(),
            AccelError::Spawn(m) => m.clone(),
        }
    }
}

} // verus!
