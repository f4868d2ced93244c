//! Values that the native presence layer hands to the bridge.

use vstd::prelude::*;

verus! {

/// The account that the native layer reports once a connection is ready.
#[derive(Clone, Debug, PartialEq, Eq)]
pub struct Identity {
    pub id: u64,
    pub username: String,
}

impl Identity {
    pub fn new(id: u64, username: String) -> (r: Identity)
        ensures
            r.id == id,
            r.username == username,
    {
        Identity { id, username }
    }

    /// A copy of this identity, field for field.
    pub fn duplicate(&self) -> (r: Identity)
        ensures
            r == *self,
    {
        Identity { id: self.id, username: self.username.clone() }
    }
}

/// A non-recoverable failure of the native layer, described in words.
#[derive(Clone, Debug, PartialEq, Eq)]
pub struct NativeError {
    pub message: String,
}

impl NativeError {
    pub fn new(message: String) -> (r: NativeError)
        ensures
            r.message == message,
    {
        NativeError { message }
    }

    /// A copy of this error, field for field.
    pub fn duplicate(&self) -> (r: NativeError)
        ensures
            r == *self,
    {
        NativeError { message: self.message.clone() }
    }
}

} // verus!
