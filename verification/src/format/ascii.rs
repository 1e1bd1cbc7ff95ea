//! The reader of the textual dialect.
use crate::error::{ReadError, ReadErrorModel};
use crate::format::base::{BaseFBXReader, Object};
use vstd::prelude::*;

verus! {

/// A reader of the textual dialect, which this library does not parse: it holds the file and
/// reports that it is not a binary document.
#[derive(Debug)]
pub struct AsciiFBX {
    data: Vec<u8>,
}

impl AsciiFBX {
    /// The bytes of the file.
    pub closed spec fn data(&self) -> Seq<u8> {
        self.data@
    }

    pub fn new(data: Vec<u8>) -> (reader: AsciiFBX)
        ensures
            reader.data() == data@,
    {
        AsciiFBX { data }
    }
}

impl BaseFBXReader for AsciiFBX {
    fn read(&mut self) -> (object: Result<Object, ReadError>)
        ensures
            final(self).data() == old(self).data(),
            object matches Err(e) && e@ == ReadErrorModel::NotBinaryFBX,
    {
        Err(ReadError::NotBinaryFBX)
    }
}

} // verus!
