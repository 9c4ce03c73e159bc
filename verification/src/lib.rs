//! Encoder for the WAD3 texture-archive container format.
//!
//! A [`Wad`] is an ordered mapping from resource names to texture data.
//! [`Wad::save`] serializes it: a 12-byte header, every texture record in
//! key order, then a directory of fixed 32-byte entries referencing the
//! records by absolute byte offset.

use vstd::prelude::*;

mod dir;
mod name;
mod texture;

use vstd::bytes::{spec_u32_to_le_bytes, u32_to_le_bytes};
use vstd::pervasive::VecAdditionalExecFns;

use dir::dir_entry_bytes;
use dir::lemma_dir_entry_bytes_len;
use texture::lemma_bytes_for_len;

pub use dir::{WadDirEntry, WadDirEntryType, WadDirEntryView};
pub use name::{
    bytes_eq, lemma_lex_irrefl, lemma_lex_total, lemma_lex_trans, lex_lt, name_field,
    name_lt_bytes, write_name_field, WadName,
};
pub use texture::{
    palette_bytes, palette_to_u8_slice, MipMap, MipMapView, Palette, Rgb, WadData, WadDataView,
};

verus! {

/// One archive entry in the mathematical model: the resource's name
/// bytes and its data.
pub type ArchiveEntry = (Seq<u8>, WadDataView);

/// Entry names are strictly increasing: sorted, with no duplicates.
pub open spec fn sorted_names(entries: Seq<ArchiveEntry>) -> bool {
    forall|i: int, j: int|
        #![trigger entries[i], entries[j]]
        0 <= i < j < entries.len() ==> lex_lt(entries[i].0, entries[j].0)
}

/// In a well-formed archive no name appears twice: each resource name
/// maps to exactly one entry.
pub proof fn lemma_sorted_names_unique(entries: Seq<ArchiveEntry>, i: int, j: int)
    requires
        sorted_names(entries),
        0 <= i < entries.len(),
        0 <= j < entries.len(),
        i != j,
    ensures
        entries[i].0 != entries[j].0,
{
    if i < j {
        lemma_lex_irrefl(entries[i].0);
    } else {
        lemma_lex_irrefl(entries[j].0);
    }
}

/// The ordered mapping's insert: keeps names strictly sorted in key
/// order and replaces the entry of an existing name.
pub open spec fn sorted_insert(
    entries: Seq<ArchiveEntry>,
    name: Seq<u8>,
    data: WadDataView,
) -> Seq<ArchiveEntry>
    decreases entries.len(),
{
    if entries.len() == 0 {
        seq![(name, data)]
    } else if lex_lt(entries[0].0, name) {
        seq![entries[0]] + sorted_insert(entries.drop_first(), name, data)
    } else if entries[0].0 == name {
        seq![(name, data)] + entries.drop_first()
    } else {
        seq![(name, data)] + entries
    }
}

/// Where the insert lands: with every name before `i` sorting before
/// `name` and the name at `i` (if any) not doing so, the insert either
/// replaces position `i` or splices a new entry in at `i`.
proof fn lemma_sorted_insert_at(
    entries: Seq<ArchiveEntry>,
    name: Seq<u8>,
    data: WadDataView,
    i: int,
)
    requires
        0 <= i <= entries.len(),
        forall|j: int| 0 <= j < i ==> lex_lt((#[trigger] entries[j]).0, name),
        i < entries.len() ==> !lex_lt(entries[i].0, name),
    ensures
        i < entries.len() && entries[i].0 == name ==> sorted_insert(entries, name, data)
            == entries.update(i, (name, data)),
        !(i < entries.len() && entries[i].0 == name) ==> sorted_insert(entries, name, data)
            == entries.take(i) + seq![(name, data)] + entries.skip(i),
    decreases entries.len(),
{
    if entries.len() == 0 {
        assert(sorted_insert(entries, name, data) =~= entries.take(0) + seq![(name, data)]
            + entries.skip(0));
    } else if i == 0 {
        if entries[0].0 == name {
            assert(seq![(name, data)] + entries.drop_first() =~= entries.update(0, (name, data)));
        } else {
            assert(seq![(name, data)] + entries =~= entries.take(0) + seq![(name, data)]
                + entries.skip(0));
        }
    } else {
        let rest = entries.drop_first();
        assert(forall|k: int| 0 <= k < rest.len() ==> rest[k] == entries[k + 1]);
        lemma_sorted_insert_at(rest, name, data, i - 1);
        assert(sorted_insert(entries, name, data) == seq![entries[0]] + sorted_insert(
            rest,
            name,
            data,
        ));
        if i < entries.len() && entries[i].0 == name {
            assert(seq![entries[0]] + rest.update(i - 1, (name, data)) =~= entries.update(
                i,
                (name, data),
            ));
        } else {
            assert(seq![entries[0]] + (rest.take(i - 1) + seq![(name, data)] + rest.skip(i - 1))
                =~= entries.take(i) + seq![(name, data)] + entries.skip(i));
        }
    }
}

/// Total byte size of the first `k` texture records.
pub open spec fn total_size(entries: Seq<ArchiveEntry>, k: int) -> int
    decreases k,
{
    if k <= 0 {
        0
    } else {
        total_size(entries, k - 1) + entries[k - 1].1.spec_size()
    }
}

/// Absolute byte offset of the `i`-th texture record: the 12-byte
/// header plus all preceding records.
pub open spec fn entry_offset(entries: Seq<ArchiveEntry>, i: int) -> int {
    12 + total_size(entries, i)
}

/// The directory kind tag for a resource.
pub open spec fn entry_kind(d: WadDataView) -> WadDirEntryType {
    match d {
        WadDataView::MipMap(_) => WadDirEntryType::MipMap,
    }
}

/// The directory entry describing the `i`-th resource.
pub open spec fn entry_dir_view(entries: Seq<ArchiveEntry>, i: int) -> WadDirEntryView {
    WadDirEntryView {
        data_offset: entry_offset(entries, i) as u32,
        size: entries[i].1.spec_size() as u32,
        entry_type: entry_kind(entries[i].1),
        name: entries[i].0,
    }
}

/// Concatenation of the first `k` texture records' bytes, in entry order.
pub open spec fn records_bytes(entries: Seq<ArchiveEntry>, k: int) -> Seq<u8>
    decreases k,
{
    if k <= 0 {
        Seq::empty()
    } else {
        records_bytes(entries, k - 1) + entries[k - 1].1.bytes_for(entries[k - 1].0)
    }
}

/// Concatenation of the first `k` directory entries' bytes, in entry order.
pub open spec fn dir_bytes(entries: Seq<ArchiveEntry>, k: int) -> Seq<u8>
    decreases k,
{
    if k <= 0 {
        Seq::empty()
    } else {
        dir_bytes(entries, k - 1) + dir_entry_bytes(entry_dir_view(entries, k - 1))
    }
}

/// The 12-byte header: the `WAD3` signature, the directory entry count
/// and the directory's absolute byte offset, both little-endian u32.
pub open spec fn header_bytes(dir_count: u32, dir_offset: u32) -> Seq<u8> {
    seq![0x57u8, 0x41u8, 0x44u8, 0x33u8] + spec_u32_to_le_bytes(dir_count) + spec_u32_to_le_bytes(
        dir_offset,
    )
}

/// The header's directory-offset field: where the directory begins, or
/// 0 for an empty archive.
pub open spec fn archive_dir_offset(entries: Seq<ArchiveEntry>) -> u32 {
    if entries.len() == 0 {
        0u32
    } else {
        (12 + total_size(entries, entries.len() as int)) as u32
    }
}

/// The archive can be encoded: every entry fits the format's fixed
/// fields, and the whole layout fits the u32 offset fields.
pub open spec fn archive_encodable(entries: Seq<ArchiveEntry>) -> bool {
    &&& forall|i: int|
        0 <= i < entries.len() ==> (#[trigger] entries[i]).0.len() <= 16
            && entries[i].1.encodable()
    &&& 12 + total_size(entries, entries.len() as int) <= u32::MAX
    &&& entries.len() <= u32::MAX
}

/// The complete on-disk archive: header, texture records in entry
/// order, then the directory in the same order.
pub open spec fn wad_bytes(entries: Seq<ArchiveEntry>) -> Seq<u8> {
    header_bytes(entries.len() as u32, archive_dir_offset(entries)) + records_bytes(
        entries,
        entries.len() as int,
    ) + dir_bytes(entries, entries.len() as int)
}

/// Record sizes are never negative, so prefix sizes grow with the prefix.
pub proof fn lemma_total_size_mono(entries: Seq<ArchiveEntry>, j: int, k: int)
    requires
        0 <= j <= k,
    ensures
        total_size(entries, j) <= total_size(entries, k),
    decreases k,
{
    if j < k {
        lemma_total_size_mono(entries, j, k - 1);
        match entries[k - 1].1 {
            WadDataView::MipMap(m) => {
                assert(m.spec_size() >= 0);
            },
        }
    }
}

/// Writing the first `k` texture records produces exactly as many bytes
/// as the layout pass accounts for them.
pub proof fn lemma_records_bytes_len(entries: Seq<ArchiveEntry>, k: int)
    requires
        0 <= k <= entries.len(),
        archive_encodable(entries),
    ensures
        records_bytes(entries, k).len() == total_size(entries, k),
    decreases k,
{
    if k > 0 {
        lemma_records_bytes_len(entries, k - 1);
        match entries[k - 1].1 {
            WadDataView::MipMap(m) => {
                lemma_bytes_for_len(m, entries[k - 1].0);
            },
        }
    }
}

/// Every directory entry is exactly 32 bytes.
pub proof fn lemma_dir_bytes_len(entries: Seq<ArchiveEntry>, k: int)
    requires
        0 <= k <= entries.len(),
        archive_encodable(entries),
    ensures
        dir_bytes(entries, k).len() == 32 * k,
    decreases k,
{
    if k > 0 {
        lemma_dir_bytes_len(entries, k - 1);
        lemma_dir_entry_bytes_len(entry_dir_view(entries, k - 1));
    }
}

/// The encoded header states the archive's entry count in bytes 4..8,
/// and in bytes 8..12 the directory offset: the 12-byte header plus the
/// total size of all texture records, or 0 for an empty archive.
pub proof fn lemma_header_fields(entries: Seq<ArchiveEntry>)
    requires
        archive_encodable(entries),
    ensures
        wad_bytes(entries).subrange(0, 4) == seq![0x57u8, 0x41u8, 0x44u8, 0x33u8],
        wad_bytes(entries).subrange(4, 8) == spec_u32_to_le_bytes(entries.len() as u32),
        entries.len() > 0 ==> wad_bytes(entries).subrange(8, 12) == spec_u32_to_le_bytes(
            (12 + total_size(entries, entries.len() as int)) as u32,
        ),
        entries.len() == 0 ==> wad_bytes(entries).subrange(8, 12) == spec_u32_to_le_bytes(0u32),
{
    vstd::bytes::lemma_auto_spec_u32_to_from_le_bytes();
    assert(wad_bytes(entries).subrange(0, 4) =~= seq![0x57u8, 0x41u8, 0x44u8, 0x33u8]);
    assert(wad_bytes(entries).subrange(4, 8) =~= spec_u32_to_le_bytes(entries.len() as u32));
    assert(wad_bytes(entries).subrange(8, 12) =~= spec_u32_to_le_bytes(
        archive_dir_offset(entries),
    ));
}

/// An empty archive is exactly its 12-byte header, with both the entry
/// count and the directory offset zero: no texture or directory bytes
/// follow.
pub proof fn lemma_empty_archive(entries: Seq<ArchiveEntry>)
    requires
        entries.len() == 0,
    ensures
        wad_bytes(entries) == header_bytes(0u32, 0u32),
        wad_bytes(entries).len() == 12,
{
    vstd::bytes::lemma_auto_spec_u32_to_from_le_bytes();
    assert(wad_bytes(entries) =~= header_bytes(0u32, 0u32));
}

/// Round-trip layout law: writing all texture records one after the
/// other consumes exactly the bytes the layout pass accounts for, so
/// the directory begins at `dir_offset` and the records span
/// `dir_offset - 12` bytes.
pub proof fn lemma_layout_round_trip(entries: Seq<ArchiveEntry>)
    requires
        archive_encodable(entries),
    ensures
        records_bytes(entries, entries.len() as int).len() == total_size(
            entries,
            entries.len() as int,
        ),
        entries.len() > 0 ==> records_bytes(entries, entries.len() as int).len()
            == archive_dir_offset(entries) - 12,
{
    lemma_records_bytes_len(entries, entries.len() as int);
    lemma_total_size_mono(entries, 0, entries.len() as int);
}

/// The whole archive's length: the 12-byte header, the records' total
/// size, then 32 bytes per directory entry.
pub proof fn lemma_archive_len(entries: Seq<ArchiveEntry>)
    requires
        archive_encodable(entries),
    ensures
        wad_bytes(entries).len() == 12 + total_size(entries, entries.len() as int) + 32
            * entries.len(),
{
    vstd::bytes::lemma_auto_spec_u32_to_from_le_bytes();
    lemma_records_bytes_len(entries, entries.len() as int);
    lemma_dir_bytes_len(entries, entries.len() as int);
}

/// Within the directory region, entry `i` occupies bytes 32*i..32*(i+1).
proof fn lemma_dir_bytes_extract(entries: Seq<ArchiveEntry>, i: int, k: int)
    requires
        archive_encodable(entries),
        0 <= i < k <= entries.len(),
    ensures
        dir_bytes(entries, k).subrange(32 * i, 32 * (i + 1)) == dir_entry_bytes(
            entry_dir_view(entries, i),
        ),
    decreases k,
{
    lemma_dir_bytes_len(entries, k - 1);
    lemma_dir_entry_bytes_len(entry_dir_view(entries, k - 1));
    if i == k - 1 {
        assert(dir_bytes(entries, k).subrange(32 * i, 32 * (i + 1)) =~= dir_entry_bytes(
            entry_dir_view(entries, i),
        ));
    } else {
        lemma_dir_bytes_extract(entries, i, k - 1);
        assert(dir_bytes(entries, k).subrange(32 * i, 32 * (i + 1)) =~= dir_bytes(
            entries,
            k - 1,
        ).subrange(32 * i, 32 * (i + 1)));
    }
}

/// Directory order law: the directory preserves the archive's entry
/// order. The `i`-th directory entry sits `32 * i` bytes into the
/// directory region, names the `i`-th resource, and its `data_offset`
/// is the 12-byte header plus the sizes of all preceding records.
pub proof fn lemma_directory_order(entries: Seq<ArchiveEntry>, i: int)
    requires
        archive_encodable(entries),
        0 <= i < entries.len(),
    ensures
        entry_dir_view(entries, i).data_offset == 12 + total_size(entries, i),
        entry_dir_view(entries, i).name == entries[i].0,
        entry_dir_view(entries, i).size == entries[i].1.spec_size(),
        wad_bytes(entries).subrange(
            archive_dir_offset(entries) + 32 * i,
            archive_dir_offset(entries) + 32 * (i + 1),
        ) == dir_entry_bytes(entry_dir_view(entries, i)),
{
    let n = entries.len() as int;
    vstd::bytes::lemma_auto_spec_u32_to_from_le_bytes();
    lemma_records_bytes_len(entries, n);
    lemma_dir_bytes_len(entries, n);
    lemma_dir_bytes_extract(entries, i, n);
    lemma_total_size_mono(entries, i, n);
    lemma_total_size_mono(entries, 0, i);
    assert(wad_bytes(entries).subrange(
        archive_dir_offset(entries) + 32 * i,
        archive_dir_offset(entries) + 32 * (i + 1),
    ) =~= dir_bytes(entries, n).subrange(32 * i, 32 * (i + 1)));
}

/// The header that `save` writes.
pub struct WadHeader {
    dir_count: u32,
    dir_offset: u32,
}

impl WadHeader {
    pub closed spec fn spec_dir_count(&self) -> u32 {
        self.dir_count
    }

    pub closed spec fn spec_dir_offset(&self) -> u32 {
        self.dir_offset
    }

    pub fn new(dir_count: u32, dir_offset: u32) -> (r: Self)
        ensures
            r.spec_dir_count() == dir_count,
            r.spec_dir_offset() == dir_offset,
    {
        WadHeader { dir_count, dir_offset }
    }

    /// The header's fixed size: signature plus two u32 fields.
    pub fn size() -> (r: u32)
        ensures
            r == 12,
    {
        12
    }

    /// The 4-byte magic signature, the ASCII bytes of `WAD3`.
    pub fn signature(&self) -> (r: [u8; 4])
        ensures
            r@ == seq![0x57u8, 0x41u8, 0x44u8, 0x33u8],
    {
        [0x57u8, 0x41u8, 0x44u8, 0x33u8]
    }

    pub fn dir_count(&self) -> (r: u32)
        ensures
            r == self.spec_dir_count(),
    {
        self.dir_count
    }

    pub fn dir_offset(&self) -> (r: u32)
        ensures
            r == self.spec_dir_offset(),
    {
        self.dir_offset
    }

    /// Serializes the 12-byte header, appending to `out`; returns the
    /// number of bytes written.
    pub fn write(&self, out: &mut Vec<u8>) -> (n: usize)
        ensures
            final(out)@ == old(out)@ + header_bytes(self.spec_dir_count(), self.spec_dir_offset()),
            n == 12,
    {
        out.push(0x57u8);
        out.push(0x41u8);
        out.push(0x44u8);
        out.push(0x33u8);
        let cb = u32_to_le_bytes(self.dir_count);
        out.extend_from_slice(cb.as_slice());
        let ob = u32_to_le_bytes(self.dir_offset);
        out.extend_from_slice(ob.as_slice());
        proof {
            vstd::bytes::lemma_auto_spec_u32_to_from_le_bytes();
            assert(out@ =~= old(out)@ + header_bytes(self.spec_dir_count(),
            self.spec_dir_offset()));
        }
        12
    }
}

/// The model of a sequence of owned entries.
pub open spec fn entries_view(entries: Seq<(WadName, WadData)>) -> Seq<ArchiveEntry> {
    entries.map(|i: int, e: (WadName, WadData)| (e.0@, e.1@))
}

/// An archive: an ordered mapping from resource names to texture data,
/// keyed by raw name bytes.
pub struct Wad {
    entries: Vec<(WadName, WadData)>,
}

impl View for Wad {
    type V = Seq<ArchiveEntry>;

    closed spec fn view(&self) -> Seq<ArchiveEntry> {
        entries_view(self.entries@)
    }
}

impl Wad {
    /// The archive's invariant: entry names strictly increase in raw
    /// byte order, so each name appears once.
    pub open spec fn wf(&self) -> bool {
        sorted_names(self@)
    }

    pub fn new(entries: Vec<(WadName, WadData)>) -> (r: Self)
        requires
            sorted_names(entries_view(entries@)),
        ensures
            r@ == entries_view(entries@),
            r.wf(),
    {
        Wad { entries }
    }

    /// Inserts `data` under `name`, keeping the entries sorted by raw
    /// name bytes; an existing entry under the same name is silently
    /// replaced.
    #[verifier::loop_isolation(false)]
    pub fn insert(&mut self, name: WadName, data: WadData)
        requires
            old(self).wf(),
            name.wf(),
        ensures
            final(self)@ == sorted_insert(old(self)@, name@, data@),
            final(self).wf(),
    {
        let ghost gname = name@;
        let ghost gdata = data@;
        let n: usize = self.entries.len();
        let mut i: usize = 0;
        while i < n && self.entries[i].0.precedes(&name)
            invariant
                i <= n,
                forall|j: int| 0 <= j < i ==> lex_lt((#[trigger] self@[j]).0, gname),
            decreases n - i,
        {
            proof {
                assert(self@[i as int] == (self.entries@[i as int].0@, self.entries@[
                    i as int].1@));
            }
            i = i + 1;
        }
        proof {
            if i < n {
                assert(self@[i as int] == (self.entries@[i as int].0@, self.entries@[
                    i as int].1@));
            }
        }
        let replace: bool = if i < n {
            self.entries[i].0.same_as(&name)
        } else {
            false
        };
        if replace {
            self.entries.set(i, (name, data));
            proof {
                assert forall|k: int| 0 <= k < self@.len() implies self@[k] == old(
                    self,
                )@.update(i as int, (gname, gdata))[k] by {
                    assert(self@[k] == (self.entries@[k].0@, self.entries@[k].1@));
                    assert(old(self)@[k] == (old(self).entries@[k].0@, old(self).entries@[k].1@));
                }
                assert(self@ =~= old(self)@.update(i as int, (gname, gdata)));
                lemma_sorted_insert_at(old(self)@, gname, gdata, i as int);
                assert forall|p: int, q: int|
                    0 <= p < q < self@.len() implies lex_lt(self@[p].0, self@[q].0) by {
                    assert(lex_lt(old(self)@[p].0, old(self)@[q].0));
                    assert(self@[p].0 == old(self)@[p].0);
                    assert(self@[q].0 == old(self)@[q].0);
                }
            }
        } else {
            self.entries.insert(i, (name, data));
            proof {
                let ev = old(self)@;
                assert forall|k: int| 0 <= k < self@.len() implies self@[k] == (ev.take(i as int)
                    + seq![(gname, gdata)] + ev.skip(i as int))[k] by {
                    assert(self@[k] == (self.entries@[k].0@, self.entries@[k].1@));
                    if k < i {
                        assert(ev[k] == (old(self).entries@[k].0@, old(self).entries@[k].1@));
                    } else if k > i {
                        assert(ev[k - 1] == (old(self).entries@[k - 1].0@, old(
                            self,
                        ).entries@[k - 1].1@));
                    }
                }
                assert(self@ =~= ev.take(i as int) + seq![(gname, gdata)] + ev.skip(i as int));
                lemma_sorted_insert_at(ev, gname, gdata, i as int);
                if i < n {
                    lemma_lex_total(ev[i as int].0, gname);
                }
                assert forall|p: int, q: int|
                    0 <= p < q < self@.len() implies lex_lt(self@[p].0, self@[q].0) by {
                    let ii = i as int;
                    if q < ii {
                        assert(lex_lt(ev[p].0, ev[q].0));
                    } else if p < ii && q == ii {
                        assert(lex_lt(ev[p].0, gname));
                    } else if p < ii && q > ii {
                        assert(lex_lt(ev[p].0, ev[q - 1].0));
                    } else if p == ii {
                        assert(lex_lt(gname, ev[ii].0));
                        if q - 1 > ii {
                            assert(lex_lt(ev[ii].0, ev[q - 1].0));
                            lemma_lex_trans(gname, ev[ii].0, ev[q - 1].0);
                        }
                    } else {
                        assert(lex_lt(ev[p - 1].0, ev[q - 1].0));
                    }
                }
            }
        }
    }

    pub fn into_inner(self) -> (r: Vec<(WadName, WadData)>)
        ensures
            entries_view(r@) == self@,
    {
        self.entries
    }

    /// Serializes the whole archive: header, every texture record in
    /// entry order, then the directory.
    #[verifier::loop_isolation(false)]
    pub fn save(&self) -> (out: Vec<u8>)
        requires
            archive_encodable(self@),
        ensures
            out@ == wad_bytes(self@),
    {
        let n_entries: usize = self.entries.len();
        // Layout pass: resolve every record's offset and size without
        // writing a byte.
        let mut directory: Vec<WadDirEntry> = Vec::new();
        let mut cursor: u32 = WadHeader::size();
        let mut i: usize = 0;
        while i < n_entries
            invariant
                i <= n_entries,
                directory@.len() == i,
                cursor == entry_offset(self@, i as int),
                forall|j: int| 0 <= j < i ==> (#[trigger] directory@[j])@ == entry_dir_view(
                    self@,
                    j,
                ),
            decreases n_entries - i,
        {
            let e = &self.entries[i];
            proof {
                assert(self@[i as int] == (e.0@, e.1@));
            }
            let sz: u32 = match &e.1 {
                WadData::MipMap(m) => m.size(),
            };
            directory.push(WadDirEntry::new(cursor, sz, WadDirEntryType::MipMap, &e.0));
            proof {
                lemma_total_size_mono(self@, i as int + 1, self@.len() as int);
            }
            cursor = cursor + sz;
            i = i + 1;
        }
        // Header: entry count, and the directory offset the layout pass
        // arrived at (0 for an empty archive).
        let dir_offset: u32 = if n_entries == 0 {
            0
        } else {
            cursor
        };
        let mut out: Vec<u8> = Vec::new();
        WadHeader::new(n_entries as u32, dir_offset).write(&mut out);
        // Texture records, in the same order the layout pass used.
        let mut i: usize = 0;
        while i < n_entries
            invariant
                i <= n_entries,
                out@ == header_bytes(n_entries as u32, archive_dir_offset(self@)) + records_bytes(
                    self@,
                    i as int,
                ),
            decreases n_entries - i,
        {
            let e = &self.entries[i];
            proof {
                assert(self@[i as int] == (e.0@, e.1@));
            }
            e.1.write(&mut out, &e.0);
            i = i + 1;
            proof {
                assert(out@ =~= header_bytes(n_entries as u32, archive_dir_offset(self@))
                    + records_bytes(self@, i as int));
            }
        }
        // Directory entries, same order again.
        let mut i: usize = 0;
        while i < n_entries
            invariant
                i <= n_entries,
                directory@.len() == n_entries,
                forall|j: int| 0 <= j < n_entries ==> (#[trigger] directory@[j])@
                    == entry_dir_view(self@, j),
                out@ == header_bytes(n_entries as u32, archive_dir_offset(self@)) + records_bytes(
                    self@,
                    n_entries as int,
                ) + dir_bytes(self@, i as int),
            decreases n_entries - i,
        {
            let e = &directory[i];
            e.write(&mut out);
            i = i + 1;
            proof {
                assert(out@ =~= header_bytes(n_entries as u32, archive_dir_offset(self@))
                    + records_bytes(self@, n_entries as int) + dir_bytes(self@, i as int));
            }
        }
        proof {
            assert(out@ =~= wad_bytes(self@));
        }
        out
    }
}

} // verus!
