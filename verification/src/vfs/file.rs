//! Open files.

use vstd::prelude::*;
use std::collections::BTreeMap;

verus! {

/// An open file: its content and the place of the next read.
pub struct FileHandle {
    pos: u64,
    content: Vec<u8>,
}

impl FileHandle {
    /// The place of the next read.
    pub closed spec fn position(&self) -> u64 {
        self.pos
    }

    /// The bytes of the file.
    pub closed spec fn bytes(&self) -> Seq<u8> {
        self.content@
    }

    /// A handle at the start of `content`.
    pub fn new(content: Vec<u8>) -> (handle: FileHandle)
        ensures
            handle.position() == 0,
            handle.bytes() == content@,
    {
        FileHandle { pos: 0, content }
    }

    /// Reading is not provided yet: a request for `size` bytes leaves the
    /// handle as it is.
    pub fn read(&mut self, size: u64)
        ensures
            final(self).position() == old(self).position(),
            final(self).bytes() == old(self).bytes(),
    {
    }
}

/// The table of open files, by number.
pub struct FileLoader {
    handles: BTreeMap<usize, FileHandle>,
}

impl FileLoader {
    /// The open files, by number.
    pub closed spec fn files(&self) -> Map<usize, FileHandle> {
        self.handles@
    }

    /// A table without open files.
    pub fn new() -> (loader: FileLoader)
        ensures
            loader.files() == Map::<usize, FileHandle>::empty(),
    {
        FileLoader { handles: BTreeMap::new() }
    }

    /// Opening is not provided yet: a request for `path` leaves the table as
    /// it is.
    pub fn open(&mut self, path: &str)
        ensures
            final(self).files() == old(self).files(),
    {
    }
}

} // verus!
