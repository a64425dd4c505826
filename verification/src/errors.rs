use vstd::prelude::*;

verus! {

/// The error taxonomy of the persistence layer.
///
/// Every operation reports failure through exactly one of these kinds.
/// The kinds that stand for an engine failure (`Get`, `SetFailed`,
/// `Communicate`, `SledError`) carry the engine's own error: the cause
/// is preserved for diagnostics, never interpreted by this layer, and a
/// value of one of those kinds can only come from a real engine
/// failure. No error is retried or recovered here.
#[derive(Debug)]
pub enum DatabaseError {
    /// The requested key is absent (on a read or a delete).
    NotFound,
    /// A batch retrieval failed at the engine level; the engine's
    /// failure is carried.
    Get(sled::Error),
    /// A single-key write failed at the engine level; the engine's
    /// failure is carried.
    SetFailed(sled::Error),
    /// The write path's store call failed after successful
    /// serialization; the engine's failure is carried.
    Communicate(sled::Error),
    /// Stored bytes could not be decoded to the requested type, or a
    /// stored key was not valid UTF-8.
    Deserialize,
    /// A typed value could not be encoded to bytes prior to writing.
    Serialize,
    /// Reserved for a delete-specific engine failure distinct from
    /// `NotFound`; no operation of this layer currently produces it.
    NoDelete,
    /// An opaque wrapped failure from the underlying engine, not
    /// otherwise classified.
    SledError(sled::Error),
}

impl DatabaseError {
    /// A short human-readable description of the error kind. The
    /// engine's own cause stays opaque: every error of one kind
    /// describes itself the same way.
    pub fn message(&self) -> (r: &'static str)
        ensures
            r@ == match self {
                DatabaseError::NotFound => "No matches found"@,
                DatabaseError::Get(_) => "Could not get from database"@,
                DatabaseError::SetFailed(_) => "Could not set to database"@,
                DatabaseError::Communicate(_) => "Could not communicate with database"@,
                DatabaseError::Deserialize => "Could not deserialize binary data"@,
                DatabaseError::Serialize => "Could not serialize binary data"@,
                DatabaseError::NoDelete => "Could not delete from database"@,
                DatabaseError::SledError(_) => "Database internal error"@,
            },
    {
        match self {
            DatabaseError::NotFound => "No matches found",
            DatabaseError::Get(_) => "Could not get from database",
            DatabaseError::SetFailed(_) => "Could not set to database",
            DatabaseError::Communicate(_) => "Could not communicate with database",
            DatabaseError::Deserialize => "Could not deserialize binary data",
            DatabaseError::Serialize => "Could not serialize binary data",
            DatabaseError::NoDelete => "Could not delete from database",
            DatabaseError::SledError(_) => "Database internal error",
        }
    }
}

} // verus!
