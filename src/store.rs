//! The write side of the store: what a `put` hands to the file system.

use vstd::prelude::*;

use crate::locate::split_id;
use crate::primitives::{deflated_of, inflated_of};
use crate::types::GitObject;

verus! {

/// Where and what to write for one object: its identifier, the directory
/// and file names derived from it, and the compressed frame.
#[derive(Debug, Clone)]
pub struct StoredObject {
    pub id: String,
    pub dir: String,
    pub file: String,
    pub data: Vec<u8>,
}

impl GitObject {
    /// Computes the identifier, the location and the compressed bytes under
    /// which this object is stored. What it returns depends on the object's
    /// fields alone, so writing it again writes the same bytes to the same
    /// place, and the bytes decompress to the object's frame.
    pub fn to_stored(&self) -> (r: StoredObject)
        ensures
            r.id@ == self.spec_id(),
            r.id@.len() == 40,
            r.dir@ == r.id@.subrange(0, 2),
            r.file@ == r.id@.subrange(2, 40),
            r.data@ == deflated_of(self.spec_frame()),
            inflated_of(r.data@) == Some(self.spec_frame()),
    {
        let id = self.hash();
        let data = self.compressed();
        let (dir, file) = split_id(id.as_str());
        StoredObject { id, dir, file, data }
    }
}

} // verus!
