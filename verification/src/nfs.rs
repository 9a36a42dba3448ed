//! The alternate, NFS-based file-serving protocol.

use vstd::prelude::*;

verus! {

/// A read-only filesystem served over NFS.  The protocol adapter that
/// drives it is an external collaborator outside this library; the type
/// records the one policy the library fixes for it: the service never
/// honours a mutating request.
#[derive(Debug)]
pub struct ReadOnlyNfsFilesystem {}

impl ReadOnlyNfsFilesystem {
    /// The service is read-only: no write, create, rename or remove
    /// request is ever honoured.
    pub fn is_read_only(&self) -> (r: bool)
        ensures
            r,
    {
        true
    }
}

} // verus!
