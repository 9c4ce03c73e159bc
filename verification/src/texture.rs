//! Texture resources and their on-disk record form: a mipmap texture
//! carries its dimensions, four progressively downscaled palette-indexed
//! pixel buffers, and a 256-color palette.

use vstd::prelude::*;
use vstd::bytes::{spec_u16_to_le_bytes, spec_u32_to_le_bytes, u16_to_le_bytes, u32_to_le_bytes};

use crate::name::{name_field, write_name_field, WadName};

verus! {

/// One palette color: red, green, blue, one byte each.
#[derive(Clone, Copy, PartialEq, Eq, Structural, Debug)]
pub struct Rgb {
    pub r: u8,
    pub g: u8,
    pub b: u8,
}

/// A texture palette: exactly 256 colors, always written in full.
pub struct Palette {
    colors: Vec<Rgb>,
}

impl View for Palette {
    type V = Seq<Rgb>;

    closed spec fn view(&self) -> Seq<Rgb> {
        self.colors@
    }
}

/// The packed on-disk form of a color sequence: each color's red, green
/// and blue bytes in order, with no separators.
pub open spec fn palette_bytes(p: Seq<Rgb>) -> Seq<u8>
    decreases p.len(),
{
    if p.len() == 0 {
        Seq::empty()
    } else {
        palette_bytes(p.drop_last()) + seq![p.last().r, p.last().g, p.last().b]
    }
}

pub proof fn lemma_palette_bytes_len(p: Seq<Rgb>)
    ensures
        palette_bytes(p).len() == 3 * p.len(),
    decreases p.len(),
{
    if p.len() > 0 {
        lemma_palette_bytes_len(p.drop_last());
    }
}

impl Palette {
    /// A palette is well formed when it holds exactly 256 colors.
    pub open spec fn wf(&self) -> bool {
        self@.len() == 256
    }

    pub fn new(colors: Vec<Rgb>) -> (r: Self)
        requires
            colors@.len() == 256,
        ensures
            r@ == colors@,
            r.wf(),
    {
        Palette { colors }
    }

    pub fn as_slice(&self) -> (r: &[Rgb])
        ensures
            r@ == self@,
    {
        self.colors.as_slice()
    }

    /// Packs the palette into its 768-byte on-disk form.
    pub fn encode(&self) -> (out: Vec<u8>)
        ensures
            out@ == palette_bytes(self@),
    {
        palette_to_u8_slice(self.colors.as_slice())
    }
}

/// Packs a color sequence into bytes, three per color.
pub fn palette_to_u8_slice(palette: &[Rgb]) -> (out: Vec<u8>)
    ensures
        out@ == palette_bytes(palette@),
{
    let mut out: Vec<u8> = Vec::new();
    let mut i: usize = 0;
    while i < palette.len()
        invariant
            i <= palette@.len(),
            out@ == palette_bytes(palette@.take(i as int)),
        decreases palette@.len() - i,
    {
        let c = palette[i];
        out.push(c.r);
        out.push(c.g);
        out.push(c.b);
        i = i + 1;
        proof {
            assert(palette@.take(i as int).drop_last() =~= palette@.take(i - 1));
            assert(out@ =~= palette_bytes(palette@.take(i as int)));
        }
    }
    proof {
        assert(palette@.take(palette@.len() as int) =~= palette@);
    }
    out
}

/// The mathematical model of a mipmap texture.
pub struct MipMapView {
    pub width: u32,
    pub height: u32,
    pub mip0: Seq<u8>,
    pub mip1: Seq<u8>,
    pub mip2: Seq<u8>,
    pub mip3: Seq<u8>,
    pub palette: Seq<Rgb>,
}

impl MipMapView {
    /// Pixel count of the full-resolution image.
    pub open spec fn pixel_count(self) -> int {
        self.width * self.height
    }

    /// Record-relative byte offset of mip level 0: the fixed preamble
    /// (16-byte name, two u32 dimensions, four u32 offsets).
    pub open spec fn offset0(self) -> int {
        40
    }

    pub open spec fn offset1(self) -> int {
        self.offset0() + self.pixel_count()
    }

    pub open spec fn offset2(self) -> int {
        self.offset1() + self.pixel_count() / 4
    }

    pub open spec fn offset3(self) -> int {
        self.offset2() + self.pixel_count() / 16
    }

    /// All four sub-offsets fit the record's u32 offset fields.
    pub open spec fn offsets_fit(self) -> bool {
        self.offset3() <= u32::MAX
    }

    /// Byte size of the full record: 40-byte preamble, the four mip
    /// buffers as given, a 2-byte color count, 768 palette bytes and
    /// 2 bytes of trailing padding.
    pub open spec fn spec_size(self) -> int {
        40 + self.mip0.len() as int + self.mip1.len() as int + self.mip2.len() as int
            + self.mip3.len() as int + 2 + 768 + 2
    }

    /// The texture is well formed when its palette is full.
    pub open spec fn wf(self) -> bool {
        self.palette.len() == 256
    }

    /// The record can be encoded: well formed, with offsets and size
    /// within the format's u32 fields.
    pub open spec fn encodable(self) -> bool {
        &&& self.wf()
        &&& self.offsets_fit()
        &&& self.spec_size() <= u32::MAX
    }

    /// The complete on-disk record for this texture under `name`.
    pub open spec fn bytes_for(self, name: Seq<u8>) -> Seq<u8> {
        name_field(name) + spec_u32_to_le_bytes(self.width) + spec_u32_to_le_bytes(self.height)
            + spec_u32_to_le_bytes(self.offset0() as u32) + spec_u32_to_le_bytes(
            self.offset1() as u32,
        ) + spec_u32_to_le_bytes(self.offset2() as u32) + spec_u32_to_le_bytes(
            self.offset3() as u32,
        ) + self.mip0 + self.mip1 + self.mip2 + self.mip3 + spec_u16_to_le_bytes(256u16)
            + palette_bytes(self.palette) + seq![0u8, 0u8]
    }
}

/// A record's bytes are exactly as long as its computed size field.
pub proof fn lemma_bytes_for_len(m: MipMapView, name: Seq<u8>)
    requires
        m.wf(),
        name.len() <= 16,
    ensures
        m.bytes_for(name).len() == m.spec_size(),
{
    vstd::bytes::lemma_auto_spec_u32_to_from_le_bytes();
    vstd::bytes::lemma_auto_spec_u16_to_from_le_bytes();
    lemma_palette_bytes_len(m.palette);
}

/// The four sub-offsets form a non-decreasing tuple starting at 40,
/// with gaps equal to the pixel counts of mip levels 0, 1 and 2.
pub proof fn lemma_offsets_monotonic(m: MipMapView)
    ensures
        m.offset0() == 40,
        m.offset1() - m.offset0() == m.width * m.height,
        m.offset2() - m.offset1() == (m.width * m.height) / 4,
        m.offset3() - m.offset2() == (m.width * m.height) / 16,
        m.offset0() <= m.offset1(),
        m.offset1() <= m.offset2(),
        m.offset2() <= m.offset3(),
{
    assert(m.pixel_count() >= 0) by (nonlinear_arith);
    assert(m.pixel_count() / 4 >= 0);
    assert(m.pixel_count() / 16 >= 0);
}

/// A mipmap texture: dimensions, the four mip-level pixel buffers
/// (full, 1/4, 1/16 and 1/64 of the pixel count) and a palette.
pub struct MipMap {
    width: u32,
    height: u32,
    data: (Vec<u8>, Vec<u8>, Vec<u8>, Vec<u8>),
    palette: Palette,
}

impl View for MipMap {
    type V = MipMapView;

    closed spec fn view(&self) -> MipMapView {
        MipMapView {
            width: self.width,
            height: self.height,
            mip0: self.data.0@,
            mip1: self.data.1@,
            mip2: self.data.2@,
            mip3: self.data.3@,
            palette: self.palette@,
        }
    }
}

impl MipMap {
    pub fn width(&self) -> (r: u32)
        ensures
            r == self@.width,
    {
        self.width
    }

    pub fn height(&self) -> (r: u32)
        ensures
            r == self@.height,
    {
        self.height
    }

    /// The four record-relative sub-offsets derived from the dimensions.
    pub fn data_offset(&self) -> (r: (u32, u32, u32, u32))
        requires
            self@.offsets_fit(),
        ensures
            r.0 == self@.offset0(),
            r.1 == self@.offset1(),
            r.2 == self@.offset2(),
            r.3 == self@.offset3(),
    {
        proof {
            lemma_offsets_monotonic(self@);
        }
        let wh: u32 = self.width * self.height;
        let o0: u32 = 40;
        let o1: u32 = o0 + wh;
        let o2: u32 = o1 + wh / 4;
        let o3: u32 = o2 + wh / 16;
        (o0, o1, o2, o3)
    }

    pub fn data(&self) -> (r: &(Vec<u8>, Vec<u8>, Vec<u8>, Vec<u8>))
        ensures
            r.0@ == self@.mip0,
            r.1@ == self@.mip1,
            r.2@ == self@.mip2,
            r.3@ == self@.mip3,
    {
        &self.data
    }

    /// The color count written before the palette: always the full 256.
    pub fn palette_count(&self) -> (r: u16)
        ensures
            r == 256,
    {
        256
    }

    pub fn palette(&self) -> (r: &Palette)
        ensures
            r@ == self@.palette,
    {
        &self.palette
    }

    /// The record's trailing padding: always two zero bytes.
    pub fn padding(&self) -> (r: [u8; 2])
        ensures
            r@ == seq![0u8, 0u8],
    {
        [0u8; 2]
    }

    /// Total on-disk size of this record.
    pub fn size(&self) -> (r: u32)
        requires
            self@.spec_size() <= u32::MAX,
        ensures
            r == self@.spec_size(),
    {
        let t: usize = 40 + self.data.0.len();
        let t: usize = t + self.data.1.len();
        let t: usize = t + self.data.2.len();
        let t: usize = t + self.data.3.len();
        let t: usize = t + 2 + 768 + 2;
        t as u32
    }

    /// Serializes the record under `name`, appending to `out`; returns
    /// the number of bytes written.
    pub fn write(&self, out: &mut Vec<u8>, name: &WadName) -> (n: usize)
        requires
            self@.encodable(),
            name.wf(),
        ensures
            final(out)@ == old(out)@ + self@.bytes_for(name@),
            n == self@.spec_size(),
    {
        proof {
            lemma_bytes_for_len(self@, name@);
        }
        let start: usize = out.len();
        write_name_field(out, name);
        let wb = u32_to_le_bytes(self.width);
        out.extend_from_slice(wb.as_slice());
        let hb = u32_to_le_bytes(self.height);
        out.extend_from_slice(hb.as_slice());
        let offs = self.data_offset();
        let ob = u32_to_le_bytes(offs.0);
        out.extend_from_slice(ob.as_slice());
        let ob = u32_to_le_bytes(offs.1);
        out.extend_from_slice(ob.as_slice());
        let ob = u32_to_le_bytes(offs.2);
        out.extend_from_slice(ob.as_slice());
        let ob = u32_to_le_bytes(offs.3);
        out.extend_from_slice(ob.as_slice());
        out.extend_from_slice(self.data.0.as_slice());
        out.extend_from_slice(self.data.1.as_slice());
        out.extend_from_slice(self.data.2.as_slice());
        out.extend_from_slice(self.data.3.as_slice());
        let cb = u16_to_le_bytes(self.palette_count());
        out.extend_from_slice(cb.as_slice());
        let pb = self.palette.encode();
        out.extend_from_slice(pb.as_slice());
        out.push(0u8);
        out.push(0u8);
        proof {
            assert(out@ =~= old(out)@ + self@.bytes_for(name@));
        }
        out.len() - start
    }
}

/// A resource stored in an archive, tagged by kind; the mipmap texture
/// is the only kind this encoder produces.
pub enum WadData {
    MipMap(MipMap),
}

/// The mathematical model of a resource, tagged by kind.
pub enum WadDataView {
    MipMap(MipMapView),
}

impl View for WadData {
    type V = WadDataView;

    open spec fn view(&self) -> WadDataView {
        match self {
            WadData::MipMap(m) => WadDataView::MipMap(m@),
        }
    }
}

impl WadDataView {
    pub open spec fn spec_size(self) -> int {
        match self {
            WadDataView::MipMap(m) => m.spec_size(),
        }
    }

    pub open spec fn encodable(self) -> bool {
        match self {
            WadDataView::MipMap(m) => m.encodable(),
        }
    }

    pub open spec fn bytes_for(self, name: Seq<u8>) -> Seq<u8> {
        match self {
            WadDataView::MipMap(m) => m.bytes_for(name),
        }
    }
}

impl WadData {
    pub fn new_mipmap(
        width: u32,
        height: u32,
        data: (Vec<u8>, Vec<u8>, Vec<u8>, Vec<u8>),
        palette: Palette,
    ) -> (r: Self)
        ensures
            r@ == (WadDataView::MipMap(
                MipMapView {
                    width,
                    height,
                    mip0: data.0@,
                    mip1: data.1@,
                    mip2: data.2@,
                    mip3: data.3@,
                    palette: palette@,
                },
            )),
    {
        let m = MipMap { width, height, data, palette };
        WadData::MipMap(m)
    }

    /// Serializes the resource under `name`, appending to `out`.
    pub fn write(&self, out: &mut Vec<u8>, name: &WadName) -> (n: usize)
        requires
            self@.encodable(),
            name.wf(),
        ensures
            final(out)@ == old(out)@ + self@.bytes_for(name@),
            n == self@.spec_size(),
    {
        match self {
            WadData::MipMap(m) => m.write(out, name),
        }
    }
}

} // verus!
