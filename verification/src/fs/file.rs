//! A file: a name, a fixed-size data buffer and the number of bytes in use.

use vstd::prelude::*;
use crate::bytes::memcpy;
use crate::fs::model::{file_well_formed, truncated, FileModel, MAX_DATA};
use crate::name::Name;

verus! {

/// A file of at most `MAX_DATA` bytes.
#[derive(Clone, Copy, Debug)]
pub struct File {
    name: Name,
    data: [u8; MAX_DATA],
    len: usize,
}

impl View for File {
    type V = FileModel;

    /// The name and the bytes in use.
    closed spec fn view(&self) -> FileModel {
        FileModel { name: self.name@, data: self.data@.take(self.len as int) }
    }
}

impl File {
    /// The length counter is within the buffer.
    pub closed spec fn wf(&self) -> bool {
        self.len <= MAX_DATA
    }

    /// A well-formed file has a well-formed model.
    pub proof fn lemma_wf(self)
        requires
            self.wf(),
        ensures
            file_well_formed(self@),
    {
        self.name.lemma_bounds();
    }

    /// An empty file called `name`.
    pub fn new(name: Name) -> (r: File)
        ensures
            r.wf(),
            r@ == (FileModel { name: name@, data: Seq::empty() }),
    {
        let r = File { name, data: [0u8; MAX_DATA], len: 0 };
        assert(r.data@.take(0) =~= Seq::<u8>::empty());
        r
    }

    /// The file's name.
    pub fn name(&self) -> (r: Name)
        ensures
            r@ == self@.name,
    {
        self.name
    }

    /// Number of bytes the file holds.
    pub fn len(&self) -> (n: usize)
        requires
            self.wf(),
        ensures
            n == self@.data.len(),
    {
        self.len
    }

    /// The bytes the file holds.
    pub fn data(&self) -> (r: &[u8])
        requires
            self.wf(),
        ensures
            r@ == self@.data,
    {
        vstd::slice::slice_subrange(&self.data, 0, self.len)
    }

    /// Replaces the content by `bytes`, cut to `MAX_DATA` bytes. Nothing of the
    /// old content remains.
    pub fn write(&mut self, bytes: &[u8])
        requires
            old(self).wf(),
        ensures
            final(self).wf(),
            final(self)@ == (FileModel { name: old(self)@.name, data: truncated(bytes@) }),
    {
        let n = if bytes.len() < MAX_DATA {
            bytes.len()
        } else {
            MAX_DATA
        };
        memcpy(&mut self.data, bytes, n);
        self.len = n;
        assert(self.data@.take(n as int) =~= truncated(bytes@));
    }
}

} // verus!
