//! Directory entries: the fixed 32-byte records that trail the archive
//! and index each resource by absolute byte offset, size and kind.

use vstd::prelude::*;
use vstd::bytes::{spec_u32_to_le_bytes, u32_to_le_bytes};

use crate::name::{name_field, write_name_field, WadName};

verus! {

/// The resource kinds a directory entry can tag; the mipmap texture is
/// the only kind this encoder produces.
#[derive(Clone, Copy, PartialEq, Eq, Structural, Debug)]
pub enum WadDirEntryType {
    MipMap,
}

impl WadDirEntryType {
    /// The kind's one-byte on-disk tag.
    pub open spec fn spec_as_u8(self) -> u8 {
        match self {
            WadDirEntryType::MipMap => 0x43,
        }
    }

    pub fn as_u8(&self) -> (r: u8)
        ensures
            r == self.spec_as_u8(),
    {
        match self {
            WadDirEntryType::MipMap => 0x43,
        }
    }
}

/// The mathematical model of a directory entry.
pub struct WadDirEntryView {
    pub data_offset: u32,
    pub size: u32,
    pub entry_type: WadDirEntryType,
    pub name: Seq<u8>,
}

/// The fixed 32-byte on-disk form of a directory entry: data offset,
/// disk size (always duplicating the size, as nothing is compressed),
/// size, kind tag, compression flag (always 0), two zero padding bytes
/// and the 16-byte name field.
pub open spec fn dir_entry_bytes(e: WadDirEntryView) -> Seq<u8>
    recommends
        e.name.len() <= 16,
{
    spec_u32_to_le_bytes(e.data_offset) + spec_u32_to_le_bytes(e.size) + spec_u32_to_le_bytes(
        e.size,
    ) + seq![e.entry_type.spec_as_u8(), 0u8, 0u8, 0u8] + name_field(e.name)
}

pub proof fn lemma_dir_entry_bytes_len(e: WadDirEntryView)
    requires
        e.name.len() <= 16,
    ensures
        dir_entry_bytes(e).len() == 32,
{
    vstd::bytes::lemma_auto_spec_u32_to_from_le_bytes();
}

/// One directory record, borrowing the name it indexes.
pub struct WadDirEntry<'a> {
    data_offset: u32,
    size: u32,
    entry_type: WadDirEntryType,
    name: &'a WadName,
}

impl<'a> View for WadDirEntry<'a> {
    type V = WadDirEntryView;

    closed spec fn view(&self) -> WadDirEntryView {
        WadDirEntryView {
            data_offset: self.data_offset,
            size: self.size,
            entry_type: self.entry_type,
            name: self.name@,
        }
    }
}

impl<'a> WadDirEntry<'a> {
    pub fn new(data_offset: u32, size: u32, entry_type: WadDirEntryType, name: &'a WadName) -> (r:
        Self)
        ensures
            r@ == (WadDirEntryView { data_offset, size, entry_type, name: name@ }),
    {
        WadDirEntry { data_offset, size, entry_type, name }
    }

    pub fn data_offset(&self) -> (r: u32)
        ensures
            r == self@.data_offset,
    {
        self.data_offset
    }

    /// The on-disk size of the resource: equal to `size`, since this
    /// encoder never compresses.
    pub fn disk_size(&self) -> (r: u32)
        ensures
            r == self@.size,
    {
        self.size
    }

    pub fn size(&self) -> (r: u32)
        ensures
            r == self@.size,
    {
        self.size
    }

    pub fn entry_type(&self) -> (r: WadDirEntryType)
        ensures
            r == self@.entry_type,
    {
        self.entry_type
    }

    /// The compression flag: always 0, "uncompressed".
    pub fn compression(&self) -> (r: u8)
        ensures
            r == 0,
    {
        0
    }

    /// The entry's reserved padding: always two zero bytes.
    pub fn padding(&self) -> (r: [u8; 2])
        ensures
            r@ == seq![0u8, 0u8],
    {
        [0u8; 2]
    }

    pub fn name(&self) -> (r: &WadName)
        ensures
            r@ == self@.name,
    {
        self.name
    }

    /// Serializes the 32-byte entry, appending to `out`; returns the
    /// number of bytes written.
    pub fn write(&self, out: &mut Vec<u8>) -> (n: usize)
        requires
            self@.name.len() <= 16,
        ensures
            final(out)@ == old(out)@ + dir_entry_bytes(self@),
            n == 32,
    {
        let ob = u32_to_le_bytes(self.data_offset());
        out.extend_from_slice(ob.as_slice());
        let db = u32_to_le_bytes(self.disk_size());
        out.extend_from_slice(db.as_slice());
        let sb = u32_to_le_bytes(self.size());
        out.extend_from_slice(sb.as_slice());
        out.push(self.entry_type().as_u8());
        out.push(self.compression());
        out.push(0u8);
        out.push(0u8);
        write_name_field(out, self.name);
        proof {
            lemma_dir_entry_bytes_len(self@);
            assert(out@ =~= old(out)@ + dir_entry_bytes(self@));
        }
        32
    }
}

} // verus!
