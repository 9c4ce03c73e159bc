use wad3::{Palette, Rgb, Wad, WadData, WadDirEntry, WadDirEntryType, WadHeader, WadName};

fn black_palette() -> Palette {
    Palette::new(vec![Rgb { r: 0, g: 0, b: 0 }; 256])
}

fn name(bytes: &[u8]) -> WadName {
    WadName::new(bytes.to_vec())
}

fn le32(v: u32) -> [u8; 4] {
    v.to_le_bytes()
}

#[test]
fn empty_archive_is_exactly_the_header() {
    let wad = Wad::new(Vec::new());
    let out = wad.save();
    let mut expected = Vec::new();
    expected.extend_from_slice(b"WAD3");
    expected.extend_from_slice(&[0, 0, 0, 0]);
    expected.extend_from_slice(&[0, 0, 0, 0]);
    assert_eq!(out, expected);
    assert_eq!(out.len(), 12);
}

#[test]
fn single_entry_archive_layout() {
    // One entry named "TEST", 4x4, mip buffers of length 16, 4, 1 and 0
    // (the short mip3 shows that buffer lengths are taken as given, not
    // validated against the dimensions).
    let mips = (vec![7u8; 16], vec![8u8; 4], vec![9u8; 1], Vec::new());
    let data = WadData::new_mipmap(4, 4, mips, black_palette());
    let wad = Wad::new(vec![(name(b"TEST"), data)]);
    let out = wad.save();

    // size = 40 + 16 + 4 + 1 + 0 + 2 + 768 + 2 = 833; dir_offset = 845.
    assert_eq!(out.len(), 845 + 32);
    assert_eq!(&out[0..4], b"WAD3");
    assert_eq!(&out[4..8], &le32(1));
    assert_eq!(&out[8..12], &le32(845));

    // Texture record at 12: name field, dimensions, sub-offsets.
    let mut name_field = b"TEST".to_vec();
    name_field.resize(16, 0);
    assert_eq!(&out[12..28], &name_field[..]);
    assert_eq!(&out[28..32], &le32(4));
    assert_eq!(&out[32..36], &le32(4));
    assert_eq!(&out[36..40], &le32(40));
    assert_eq!(&out[40..44], &le32(56));
    assert_eq!(&out[44..48], &le32(60));
    assert_eq!(&out[48..52], &le32(61));
    assert_eq!(&out[52..68], &[7u8; 16][..]);
    assert_eq!(&out[68..72], &[8u8; 4][..]);
    assert_eq!(&out[72..73], &[9u8; 1][..]);
    // Palette count 256 as u16 little-endian, 768 palette bytes, 2 pad.
    assert_eq!(&out[73..75], &[0, 1]);
    assert_eq!(&out[75..843], &[0u8; 768][..]);
    assert_eq!(&out[843..845], &[0, 0]);

    // Directory entry at 845: offset 12, both sizes 833, kind 0x43,
    // no compression, padding, name field.
    assert_eq!(&out[845..849], &le32(12));
    assert_eq!(&out[849..853], &le32(833));
    assert_eq!(&out[853..857], &le32(833));
    assert_eq!(out[857], 0x43);
    assert_eq!(out[858], 0);
    assert_eq!(&out[859..861], &[0, 0]);
    assert_eq!(&out[861..877], &name_field[..]);
}

#[test]
fn two_entry_directory_offsets_accumulate() {
    // Two 1x1 textures: each record is 40 + 1 + 0 + 0 + 0 + 772 = 813.
    let make = || {
        WadData::new_mipmap(
            1,
            1,
            (vec![1u8], Vec::new(), Vec::new(), Vec::new()),
            black_palette(),
        )
    };
    let wad = Wad::new(vec![(name(b"AAA"), make()), (name(b"BBB"), make())]);
    let out = wad.save();

    assert_eq!(out.len(), 12 + 2 * 813 + 2 * 32);
    assert_eq!(&out[4..8], &le32(2));
    let dir = 12 + 2 * 813;
    assert_eq!(&out[8..12], &le32(dir as u32));
    // First directory entry points at the first record, just after the
    // header; the second at 12 + 813.
    assert_eq!(&out[dir..dir + 4], &le32(12));
    assert_eq!(&out[dir + 32..dir + 36], &le32(12 + 813));
    // Both carry their names in order.
    assert_eq!(&out[dir + 16..dir + 19], b"AAA");
    assert_eq!(&out[dir + 48..dir + 51], b"BBB");
}

#[test]
fn name_field_is_padded_with_zeros() {
    let mut out = Vec::new();
    let n = wad3::WadName::new(b"AB".to_vec());
    let written = wad3::write_name_field(&mut out, &n);
    assert_eq!(written, 16);
    assert_eq!(out.len(), 16);
    assert_eq!(&out[0..2], b"AB");
    assert_eq!(&out[2..16], &[0u8; 14][..]);
}

#[test]
fn full_length_name_has_no_padding() {
    let mut out = Vec::new();
    let n = name(b"0123456789ABCDEF");
    wad3::write_name_field(&mut out, &n);
    assert_eq!(&out[..], b"0123456789ABCDEF");
}

#[test]
fn mip_offsets_follow_downscaling_ratios() {
    let data = WadData::new_mipmap(
        16,
        16,
        (vec![0u8; 256], vec![0u8; 64], vec![0u8; 16], vec![0u8; 4]),
        black_palette(),
    );
    let WadData::MipMap(m) = data;
    // 16*16 = 256 pixels: offsets 40, 40+256, +64, +16.
    assert_eq!(m.data_offset(), (40, 296, 360, 376));
    assert_eq!(m.size(), 40 + 256 + 64 + 16 + 4 + 2 + 768 + 2);
    assert_eq!(m.width(), 16);
    assert_eq!(m.height(), 16);
    assert_eq!(m.palette_count(), 256);
    assert_eq!(m.padding(), [0, 0]);
}

#[test]
fn truncating_division_in_offsets() {
    // 3x3 = 9 pixels: 9/4 = 2 and 9/16 = 0, truncated.
    let data = WadData::new_mipmap(
        3,
        3,
        (vec![0u8; 9], vec![0u8; 2], Vec::new(), Vec::new()),
        black_palette(),
    );
    let WadData::MipMap(m) = data;
    assert_eq!(m.data_offset(), (40, 49, 51, 51));
}

#[test]
fn palette_encodes_three_bytes_per_color() {
    let mut colors = vec![Rgb { r: 0, g: 0, b: 0 }; 256];
    colors[0] = Rgb { r: 1, g: 2, b: 3 };
    colors[255] = Rgb { r: 250, g: 251, b: 252 };
    let palette = Palette::new(colors);
    let out = palette.encode();
    assert_eq!(out.len(), 768);
    assert_eq!(&out[0..3], &[1, 2, 3]);
    assert_eq!(&out[3..6], &[0, 0, 0]);
    assert_eq!(&out[765..768], &[250, 251, 252]);
}

#[test]
fn palette_slice_helper_matches_encode() {
    let colors = vec![Rgb { r: 9, g: 8, b: 7 }; 256];
    let palette = Palette::new(colors.clone());
    assert_eq!(wad3::palette_to_u8_slice(&colors), palette.encode());
}

#[test]
fn header_writes_signature_and_fields() {
    let header = WadHeader::new(2, 0x01020304);
    assert_eq!(WadHeader::size(), 12);
    assert_eq!(header.signature(), *b"WAD3");
    assert_eq!(header.dir_count(), 2);
    assert_eq!(header.dir_offset(), 0x01020304);
    let mut out = Vec::new();
    let n = header.write(&mut out);
    assert_eq!(n, 12);
    assert_eq!(&out[0..4], b"WAD3");
    assert_eq!(&out[4..8], &[2, 0, 0, 0]);
    assert_eq!(&out[8..12], &[4, 3, 2, 1]);
}

#[test]
fn directory_entry_writes_all_fields() {
    let n = name(b"LOGO");
    let entry = WadDirEntry::new(12, 833, WadDirEntryType::MipMap, &n);
    assert_eq!(entry.data_offset(), 12);
    assert_eq!(entry.disk_size(), 833);
    assert_eq!(entry.size(), 833);
    assert_eq!(entry.entry_type().as_u8(), 0x43);
    assert_eq!(entry.compression(), 0);
    assert_eq!(entry.padding(), [0, 0]);
    assert_eq!(entry.name().as_bytes(), b"LOGO");
    let mut out = Vec::new();
    let written = entry.write(&mut out);
    assert_eq!(written, 32);
    assert_eq!(&out[0..4], &le32(12));
    assert_eq!(&out[4..8], &le32(833));
    assert_eq!(&out[8..12], &le32(833));
    assert_eq!(out[12], 0x43);
    assert_eq!(out[13], 0);
    assert_eq!(&out[14..16], &[0, 0]);
    let mut name_field = b"LOGO".to_vec();
    name_field.resize(16, 0);
    assert_eq!(&out[16..32], &name_field[..]);
}

#[test]
fn insert_keeps_key_order() {
    let tiny = || {
        WadData::new_mipmap(
            1,
            1,
            (vec![0u8], Vec::new(), Vec::new(), Vec::new()),
            black_palette(),
        )
    };
    let mut wad = Wad::new(Vec::new());
    wad.insert(name(b"BETA"), tiny());
    wad.insert(name(b"ALPHA"), tiny());
    wad.insert(name(b"GAMMA"), tiny());
    let entries = wad.into_inner();
    assert_eq!(entries.len(), 3);
    assert_eq!(entries[0].0.as_bytes(), b"ALPHA");
    assert_eq!(entries[1].0.as_bytes(), b"BETA");
    assert_eq!(entries[2].0.as_bytes(), b"GAMMA");
}

#[test]
fn insert_replaces_an_existing_name() {
    let make = |w: u32| {
        WadData::new_mipmap(
            w,
            1,
            (vec![0u8; w as usize], Vec::new(), Vec::new(), Vec::new()),
            black_palette(),
        )
    };
    let mut wad = Wad::new(Vec::new());
    wad.insert(name(b"X"), make(1));
    wad.insert(name(b"X"), make(2));
    let entries = wad.into_inner();
    assert_eq!(entries.len(), 1);
    let WadData::MipMap(m) = &entries[0].1;
    assert_eq!(m.width(), 2);
}

#[test]
fn lexicographic_name_order() {
    assert!(wad3::name_lt_bytes(b"A", b"B"));
    assert!(wad3::name_lt_bytes(b"A", b"AB"));
    assert!(!wad3::name_lt_bytes(b"AB", b"A"));
    assert!(!wad3::name_lt_bytes(b"A", b"A"));
    assert!(wad3::name_lt_bytes(b"", b"A"));
    assert!(!wad3::name_lt_bytes(b"", b""));
    assert!(wad3::bytes_eq(b"A", b"A"));
    assert!(!wad3::bytes_eq(b"A", b"AB"));
    assert!(name(b"AA").precedes(&name(b"AB")));
    assert!(!name(b"AB").precedes(&name(b"AA")));
    assert!(name(b"AA").same_as(&name(b"AA")));
    assert!(!name(b"AA").same_as(&name(b"AB")));
}

#[test]
fn into_inner_returns_the_entries() {
    let data = WadData::new_mipmap(
        1,
        1,
        (vec![0u8], Vec::new(), Vec::new(), Vec::new()),
        black_palette(),
    );
    let wad = Wad::new(vec![(name(b"ONE"), data)]);
    let entries = wad.into_inner();
    assert_eq!(entries.len(), 1);
    assert_eq!(entries[0].0.as_bytes(), b"ONE");
}
