//! Data types of the codec: pixels, header metadata, the running pixel
//! cache, and the six chunk encodings of the wire format.

use crate::model;
use vstd::prelude::*;

verus! {

/// How many channels the source image carried.  Purely descriptive
/// metadata: the codec always stores four channels per pixel.
#[derive(Debug, Clone, Copy, PartialEq, Eq, Structural)]
pub enum Channels {
    RGB,
    RGBA,
}

impl Channels {
    /// The byte that stands for this tag in the stream header.
    pub open spec fn spec_tag(self) -> u8 {
        match self {
            Channels::RGB => 3,
            Channels::RGBA => 4,
        }
    }

    pub fn tag(self) -> (t: u8)
        ensures
            t == self.spec_tag(),
    {
        match self {
            Channels::RGB => 3,
            Channels::RGBA => 4,
        }
    }
}

/// Which colorspace the channel values are meant in.  Purely descriptive
/// metadata: recorded in the header, never used by the codec itself.
#[derive(Debug, Clone, Copy, PartialEq, Eq, Structural)]
pub enum ColorSpace {
    SRGB,
    Linear,
}

impl ColorSpace {
    /// The byte that stands for this tag in the stream header.
    pub open spec fn spec_tag(self) -> u8 {
        match self {
            ColorSpace::SRGB => 0,
            ColorSpace::Linear => 1,
        }
    }

    pub fn tag(self) -> (t: u8)
        ensures
            t == self.spec_tag(),
    {
        match self {
            ColorSpace::SRGB => 0,
            ColorSpace::Linear => 1,
        }
    }
}

/// The failures the codec can report.
#[derive(Debug, Clone, Copy, PartialEq, Eq, Structural)]
pub enum QoiError {
    /// The header is shorter than 14 bytes, its magic is wrong, or one of
    /// its tag bytes is invalid.
    FormatError,
    /// The pixel count handed to the encoder does not equal width × height.
    SizeMismatch,
    /// The byte stream ends in the middle of a multi-byte chunk.
    DecodeError,
}

/// One pixel: four independent 8-bit channels, compared by full equality,
/// alpha included.
#[derive(Debug, Clone, Copy, PartialEq, Eq, Structural)]
pub struct Pixel {
    pub r: u8,
    pub g: u8,
    pub b: u8,
    pub a: u8,
}

impl Default for Pixel {
    /// Opaque black, the initial value of the previous-pixel state and of
    /// every cache slot.
    fn default() -> (p: Pixel)
        ensures
            p == model::default_pixel(),
    {
        Pixel { r: 0, g: 0, b: 0, a: 255 }
    }
}

/// Relies on rand::random: draws a value of any type that the crate's
/// Standard distribution covers; nothing is promised of the outcome.
pub assume_specification<T>[ rand::random::<T> ]() -> (r: T)
    where
        rand::distributions::Standard: rand::distributions::Distribution<T>,
;

impl Pixel {
    /// An opaque pixel with random color channels.
    pub fn random() -> (p: Pixel)
        ensures
            p.a == 255,
    {
        Pixel { r: rand::random(), g: rand::random(), b: rand::random(), a: 255 }
    }
}

/// The parsed 14-byte stream header.
#[derive(Debug, Clone, PartialEq, Eq, Structural)]
pub struct QoiHeader {
    pub width: u32,
    pub height: u32,
    pub channels: Channels,
    pub color_space: ColorSpace,
}

impl QoiHeader {
    /// Parses the header at the front of `header`.  Fails with a
    /// `FormatError` if fewer than 14 bytes are available, the magic does
    /// not match, or one of the two tag bytes is invalid.
    pub fn from_u8(header: &[u8]) -> (r: Result<QoiHeader, QoiError>)
        ensures
            r is Ok <==> model::header_valid(header@),
            r is Ok ==> ({
                let h = r->Ok_0;
                &&& h.width == model::parsed_width(header@)
                &&& h.height == model::parsed_height(header@)
                &&& Some(h.channels) == model::parse_channels(header@[12])
                &&& Some(h.color_space) == model::parse_colorspace(header@[13])
            }),
            r is Err ==> r->Err_0 == QoiError::FormatError,
    {
        if header.len() < 14 {
            return Err(QoiError::FormatError);
        }
        if header[0] != 113 || header[1] != 111 || header[2] != 105 || header[3] != 102 {
            return Err(QoiError::FormatError);
        }
        let width: u32 = (header[4] as u32) * 0x1000000 + (header[5] as u32) * 0x10000
            + (header[6] as u32) * 0x100 + (header[7] as u32);
        let height: u32 = (header[8] as u32) * 0x1000000 + (header[9] as u32) * 0x10000
            + (header[10] as u32) * 0x100 + (header[11] as u32);
        let channels = match header[12] {
            3 => Channels::RGB,
            4 => Channels::RGBA,
            _ => {
                return Err(QoiError::FormatError);
            },
        };
        let color_space = match header[13] {
            0 => ColorSpace::SRGB,
            1 => ColorSpace::Linear,
            _ => {
                return Err(QoiError::FormatError);
            },
        };
        Ok(QoiHeader { width, height, channels, color_space })
    }
}

/// The running cache: a direct-mapped table of 64 recently seen pixels,
/// mutated in lockstep by encoder and decoder.
#[derive(Debug, Clone, PartialEq, Eq)]
pub struct QOIHash {
    data: Vec<Pixel>,
}

impl View for QOIHash {
    type V = Seq<Pixel>;

    closed spec fn view(&self) -> Seq<Pixel> {
        self.data@
    }
}

impl QOIHash {
    /// The cache always holds exactly 64 slots.
    pub open spec fn wf(&self) -> bool {
        self@.len() == 64
    }

    /// A fresh cache, every slot holding the default pixel.
    pub fn new() -> (h: QOIHash)
        ensures
            h.wf(),
            h@ == model::init_cache(),
    {
        let data: Vec<Pixel> = vec![Pixel::default(); 64];
        proof {
            assert(data@ =~= model::init_cache());
        }
        QOIHash { data }
    }

    /// The slot a pixel hashes to.
    pub fn get_index(&self, pixel: &Pixel) -> (idx: usize)
        ensures
            idx == model::pixel_hash(*pixel),
            idx < 64,
    {
        let sum: u32 = 3 * (pixel.r as u32) + 5 * (pixel.g as u32) + 7 * (pixel.b as u32) + 11 * (
        pixel.a as u32);
        (sum % 64) as usize
    }

    /// The pixel stored at a slot; used by the decoder to reconstruct an
    /// Index chunk.  Does not mutate the cache.
    pub fn get(&self, index: u8) -> (p: Pixel)
        requires
            self.wf(),
            index < 64,
        ensures
            p == self@[index as int],
    {
        self.data[index as usize]
    }

    /// The slot holding exactly this pixel, if any.  A slot occupied by any
    /// other pixel is a miss, never a partial match.
    pub fn lookup(&self, pixel: &Pixel) -> (r: Option<u8>)
        requires
            self.wf(),
        ensures
            r is Some <==> self@[model::pixel_hash(*pixel)] == *pixel,
            r is Some ==> r->Some_0 == model::pixel_hash(*pixel),
    {
        let index = self.get_index(pixel);
        if self.data[index] == *pixel {
            Some(index as u8)
        } else {
            None
        }
    }

    /// Stores the pixel at its slot, unconditionally evicting whatever the
    /// slot held.
    pub fn insert(&mut self, pixel: &Pixel)
        requires
            old(self).wf(),
        ensures
            final(self).wf(),
            final(self)@ == old(self)@.update(model::pixel_hash(*pixel), *pixel),
    {
        let pos = self.get_index(pixel);
        self.data[pos] = *pixel;
    }
}

/// A literal-RGB chunk: three explicit color channels; the decoder forces
/// alpha to 255.
#[derive(Debug, Clone, PartialEq, Eq, Structural)]
pub struct OpRGB {
    pub r: u8,
    pub g: u8,
    pub b: u8,
}

impl OpRGB {
    pub fn new(r: u8, g: u8, b: u8) -> (c: Self)
        ensures
            c == (OpRGB { r, g, b }),
    {
        OpRGB { r, g, b }
    }

    pub fn get_tag(&self) -> (t: u8)
        ensures
            t == 254,
    {
        254
    }

    pub fn get_encoding(&self) -> (enc: Vec<u8>)
        ensures
            enc@ == seq![254u8, self.r, self.g, self.b],
    {
        let mut enc: Vec<u8> = Vec::new();
        enc.push(self.get_tag());
        enc.push(self.r);
        enc.push(self.g);
        enc.push(self.b);
        enc
    }
}

/// A literal-RGBA chunk: all four channels explicit.
#[derive(Debug, Clone, PartialEq, Eq, Structural)]
pub struct OpRGBA {
    pub r: u8,
    pub g: u8,
    pub b: u8,
    pub a: u8,
}

impl OpRGBA {
    pub fn new(r: u8, g: u8, b: u8, a: u8) -> (c: Self)
        ensures
            c == (OpRGBA { r, g, b, a }),
    {
        OpRGBA { r, g, b, a }
    }

    pub fn get_tag(&self) -> (t: u8)
        ensures
            t == 255,
    {
        255
    }

    pub fn get_encoding(&self) -> (enc: Vec<u8>)
        ensures
            enc@ == seq![255u8, self.r, self.g, self.b, self.a],
    {
        let mut enc: Vec<u8> = Vec::new();
        enc.push(self.get_tag());
        enc.push(self.r);
        enc.push(self.g);
        enc.push(self.b);
        enc.push(self.a);
        enc
    }
}

/// An Index chunk: a reference to one of the 64 cache slots.
#[derive(Debug, Clone, PartialEq, Eq, Structural)]
pub struct OpIndex {
    pub index: u8,
}

impl OpIndex {
    pub fn new(index: u8) -> (c: Self)
        requires
            index < 64,
        ensures
            c.index == index,
    {
        OpIndex { index }
    }

    pub fn get_tag(&self) -> (t: u8)
        ensures
            t == 0,
    {
        0
    }

    pub fn get_encoding(&self) -> (enc: u8)
        requires
            self.index < 64,
        ensures
            enc == self.index,
    {
        self.get_tag() + self.index
    }
}

/// A Diff chunk: three 2-bit channel deltas, each biased by +2, packed
/// into the low six bits of one byte.
#[derive(Debug, Clone, PartialEq, Eq, Structural)]
pub struct OpDiff {
    pub diff: u8,
}

impl OpDiff {
    /// Packs the wrapped deltas `dr`, `dg`, `db`, each of which must lie in
    /// [-2, 1].
    pub fn new(dr: u8, dg: u8, db: u8) -> (c: Self)
        requires
            model::fits_diff(dr),
            model::fits_diff(dg),
            model::fits_diff(db),
        ensures
            c.diff == 16 * dr.wrapping_add(2) + 4 * dg.wrapping_add(2) + db.wrapping_add(2),
            c.diff < 64,
    {
        OpDiff {
            diff: 16 * dr.wrapping_add(2) + 4 * dg.wrapping_add(2) + db.wrapping_add(2),
        }
    }

    pub fn get_tag(&self) -> (t: u8)
        ensures
            t == 1,
    {
        1
    }

    pub fn get_encoding(&self) -> (enc: u8)
        requires
            self.diff < 64,
        ensures
            enc == 64 + self.diff,
    {
        self.get_tag() * 64 + self.diff
    }

    /// The three wrapped channel deltas stored in the chunk.
    pub fn get_diffs(&self) -> (d: (u8, u8, u8))
        requires
            self.diff < 64,
        ensures
            d.0 == (self.diff / 16).wrapping_sub(2),
            d.1 == ((self.diff / 4) % 4).wrapping_sub(2),
            d.2 == (self.diff % 4).wrapping_sub(2),
    {
        let r = (self.diff / 16).wrapping_sub(2);
        let g = ((self.diff / 4) % 4).wrapping_sub(2);
        let b = (self.diff % 4).wrapping_sub(2);
        (r, g, b)
    }
}

/// A Luma chunk: a 6-bit green delta biased by +32, and the red and blue
/// deltas relative to green, biased by +8, in one nibble each.
#[derive(Debug, Clone, PartialEq, Eq, Structural)]
pub struct OpLuma {
    pub dg: u8,
    pub rb: u8,
}

impl OpLuma {
    /// Packs the wrapped deltas `dr`, `dg`, `db`: the green delta must lie
    /// in [-32, 31] and the red and blue deltas must differ from it by a
    /// value in [-8, 7].
    pub fn new(dr: u8, dg: u8, db: u8) -> (c: Self)
        requires
            model::fits_luma_g(dg),
            model::fits_luma_rb(dr, dg),
            model::fits_luma_rb(db, dg),
        ensures
            c.dg == dg.wrapping_add(32),
            c.rb == 16 * dr.wrapping_sub(dg).wrapping_add(8) + db.wrapping_sub(dg).wrapping_add(8),
            c.dg < 64,
    {
        OpLuma {
            dg: dg.wrapping_add(32),
            rb: 16 * dr.wrapping_sub(dg).wrapping_add(8) + db.wrapping_sub(dg).wrapping_add(8),
        }
    }

    pub fn get_tag(&self) -> (t: u8)
        ensures
            t == 2,
    {
        2
    }

    pub fn get_encoding(&self) -> (enc: Vec<u8>)
        requires
            self.dg < 64,
        ensures
            enc@ == seq![(128 + self.dg) as u8, self.rb],
    {
        let mut enc: Vec<u8> = Vec::new();
        enc.push(self.get_tag() * 64 + self.dg);
        enc.push(self.rb);
        enc
    }

    /// The three wrapped channel deltas stored in the chunk.
    pub fn get_diffs(&self) -> (d: (u8, u8, u8))
        ensures
            d.1 == self.dg.wrapping_sub(32),
            d.0 == (self.rb / 16).wrapping_sub(8).wrapping_add(d.1),
            d.2 == (self.rb % 16).wrapping_sub(8).wrapping_add(d.1),
    {
        let dg = self.dg.wrapping_sub(32);
        let dr = (self.rb / 16).wrapping_sub(8).wrapping_add(dg);
        let db = (self.rb % 16).wrapping_sub(8).wrapping_add(dg);
        (dr, dg, db)
    }
}

/// A Run chunk: the count, minus one, of consecutive repeats of the
/// previous pixel.
#[derive(Debug, Clone, PartialEq, Eq, Structural)]
pub struct OpRun {
    pub run: u8,
}

impl OpRun {
    /// `run` is the stored field: one less than the number of pixels the
    /// chunk stands for.  It stays below 62 so that the encoded byte never
    /// collides with the two literal tags 0xFE and 0xFF.
    pub fn new(run: u8) -> (c: Self)
        requires
            run < 62,
        ensures
            c.run == run,
    {
        OpRun { run }
    }

    pub fn get_tag(&self) -> (t: u8)
        ensures
            t == 3,
    {
        3
    }

    pub fn get_encoding(&self) -> (enc: u8)
        requires
            self.run < 62,
        ensures
            enc == 192 + self.run,
    {
        self.get_tag() * 64 + self.run
    }
}

/// One decoded chunk of the byte stream.
#[derive(Debug, Clone, PartialEq, Eq, Structural)]
pub enum Chunk {
    RGB(OpRGB),
    RGBA(OpRGBA),
    Index(OpIndex),
    Diff(OpDiff),
    Luma(OpLuma),
    Run(OpRun),
}

impl Chunk {
    /// The chunk that the bytes starting at `bytes[0]` stand for, assuming
    /// enough bytes are present.
    pub open spec fn of_bytes(bytes: Seq<u8>) -> Chunk {
        let b0 = bytes[0];
        if b0 < 64 {
            Chunk::Index(OpIndex { index: b0 })
        } else if b0 < 128 {
            Chunk::Diff(OpDiff { diff: (b0 - 64) as u8 })
        } else if b0 < 192 {
            Chunk::Luma(OpLuma { dg: (b0 - 128) as u8, rb: bytes[1] })
        } else if b0 == 254 {
            Chunk::RGB(OpRGB { r: bytes[1], g: bytes[2], b: bytes[3] })
        } else if b0 == 255 {
            Chunk::RGBA(OpRGBA { r: bytes[1], g: bytes[2], b: bytes[3], a: bytes[4] })
        } else {
            Chunk::Run(OpRun { run: (b0 - 192) as u8 })
        }
    }

    /// Reads one chunk from the front of `bytes`.  The chunk's byte length
    /// is determined by the first byte alone; the caller must supply at
    /// least that many bytes.
    pub fn from_encoding(bytes: &[u8]) -> (c: Chunk)
        requires
            bytes@.len() >= 1,
            bytes@.len() >= model::chunk_len(bytes@[0]),
        ensures
            c == Chunk::of_bytes(bytes@),
    {
        let op = bytes[0];
        if op < 64 {
            Chunk::Index(OpIndex { index: op })
        } else if op < 128 {
            Chunk::Diff(OpDiff { diff: op - 64 })
        } else if op < 192 {
            Chunk::Luma(OpLuma { dg: op - 128, rb: bytes[1] })
        } else if op == 254 {
            Chunk::RGB(OpRGB { r: bytes[1], g: bytes[2], b: bytes[3] })
        } else if op == 255 {
            Chunk::RGBA(OpRGBA { r: bytes[1], g: bytes[2], b: bytes[3], a: bytes[4] })
        } else {
            Chunk::Run(OpRun { run: op - 192 })
        }
    }
}

} // verus!
