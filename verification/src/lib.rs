//! A reader for binary FBX documents.
//!
//! The byte-level grammar of the format is written down once, as specification functions
//! over `Seq<u8>` in [`format::grammar`]; the executable parser in [`format::binary`] is
//! proved to compute exactly what that grammar says.
use crate::error::{ReadError, ReadErrorModel};
use crate::format::grammar::{file, has_magic_prefix, magic_prefix};
use crate::format::{AsciiFBX, BaseFBXReader, BinaryFBX, Object};
use vstd::prelude::*;

pub mod binary;
pub mod error;
pub mod format;
pub mod inflate;
pub mod query;
pub mod text;

verus! {

/// The 23 bytes that a binary document starts with: `Kaydara FBX Binary`, two spaces and the
/// bytes 00 1A 00.
pub const FBX_MAGIC_BINARY_BYTES: [u8; 23] = [
    0x4b, 0x61, 0x79, 0x64, 0x61, 0x72, 0x61, 0x20, 0x46, 0x42, 0x58, 0x20, 0x42, 0x69, 0x6e, 0x61,
    0x72, 0x79, 0x20, 0x20, 0x00, 0x1a, 0x00,
];

/// Whether `data` starts with the magic prefix of the binary dialect.
pub fn has_fbx_magic_bytes(data: &[u8]) -> (found: bool)
    ensures
        found == has_magic_prefix(data@),
{
    if data.len() < 23 {
        return false;
    }
    let mut i: usize = 0;
    while i < 23
        invariant
            i <= 23,
            data@.len() >= 23,
            forall|j: int| 0 <= j < i ==> data@[j] == magic_prefix()[j],
        decreases 23 - i,
    {
        if data[i] != FBX_MAGIC_BINARY_BYTES[i] {
            assert(data@.subrange(0, 23)[i as int] != magic_prefix()[i as int]);
            return false;
        }
        i = i + 1;
    }
    assert(data@.subrange(0, 23) =~= magic_prefix());
    true
}

/// Reads the document that the file `data` holds.
pub fn read_fbx(data: Vec<u8>) -> (object: Result<Object, ReadError>)
    ensures
        match object {
            Ok(object) => file(data@) == Ok::<_, ReadErrorModel>(object@),
            Err(e) => file(data@) == Err::<crate::format::base::ObjectModel, _>(e@),
        },
{
    if has_fbx_magic_bytes(data.as_slice()) {
        let mut fbx = BinaryFBX::new(data);
        fbx.read()
    } else {
        let mut fbx = AsciiFBX::new(data);
        fbx.read()
    }
}

} // verus!
