//! The mathematical model of the wire format.
//!
//! Everything the executable codec promises is stated over these spec
//! functions: the 14-byte header layout, the per-chunk byte layouts, and the
//! two drivers [`encode_body`] and [`decode_body`] that walk a pixel
//! sequence and a byte sequence respectively, each threading the previous
//! pixel and the 64-slot cache.
//!
//! All channel arithmetic is modulo 256, written with `wrapping_add` and
//! `wrapping_sub`; a delta is kept as the wrapped byte `to - from`, so the
//! value 255 stands for -1, 254 for -2, and so on.

use crate::structs::Channels;
use crate::structs::ColorSpace;
use crate::structs::Pixel;
use vstd::prelude::*;

verus! {

/// Opaque black: the initial previous pixel and the initial cache content.
pub open spec fn default_pixel() -> Pixel {
    Pixel { r: 0, g: 0, b: 0, a: 255 }
}

/// The cache slot of a pixel: a fixed hash of the four channels, reduced
/// modulo the 64 slots.  The byte-wraparound multiplications and additions
/// of the stored layout reduce to plain arithmetic because 256 is a
/// multiple of 64.
pub open spec fn pixel_hash(p: Pixel) -> int {
    (3 * p.r + 5 * p.g + 7 * p.b + 11 * p.a) % 64
}

/// A fresh cache: 64 slots, all holding the default pixel.
pub open spec fn init_cache() -> Seq<Pixel> {
    Seq::new(64, |i: int| default_pixel())
}

// ---------------------------------------------------------------------------
// The 14-byte header.

/// The header: the magic bytes `q o i f`, width and height as big-endian
/// 32-bit integers, then the channel-count and colorspace tag bytes.
pub open spec fn header_bytes(
    width: u32,
    height: u32,
    channels: Channels,
    colorspace: ColorSpace,
) -> Seq<u8> {
    seq![
        113u8,
        111u8,
        105u8,
        102u8,
        ((width / 0x1000000) % 256) as u8,
        ((width / 0x10000) % 256) as u8,
        ((width / 0x100) % 256) as u8,
        (width % 256) as u8,
        ((height / 0x1000000) % 256) as u8,
        ((height / 0x10000) % 256) as u8,
        ((height / 0x100) % 256) as u8,
        (height % 256) as u8,
        channels.spec_tag(),
        colorspace.spec_tag(),
    ]
}

/// The channel-count tag a header byte stands for, if any.
pub open spec fn parse_channels(b: u8) -> Option<Channels> {
    if b == 3 {
        Some(Channels::RGB)
    } else if b == 4 {
        Some(Channels::RGBA)
    } else {
        None
    }
}

/// The colorspace tag a header byte stands for, if any.
pub open spec fn parse_colorspace(b: u8) -> Option<ColorSpace> {
    if b == 0 {
        Some(ColorSpace::SRGB)
    } else if b == 1 {
        Some(ColorSpace::Linear)
    } else {
        None
    }
}

/// A well-formed header: at least 14 bytes, the right magic, and valid tag
/// bytes.
pub open spec fn header_valid(bytes: Seq<u8>) -> bool {
    &&& bytes.len() >= 14
    &&& bytes[0] == 113
    &&& bytes[1] == 111
    &&& bytes[2] == 105
    &&& bytes[3] == 102
    &&& parse_channels(bytes[12]) is Some
    &&& parse_colorspace(bytes[13]) is Some
}

/// The width stored big-endian in header bytes 4 to 7.
pub open spec fn parsed_width(bytes: Seq<u8>) -> int {
    0x1000000 * bytes[4] + 0x10000 * bytes[5] + 0x100 * bytes[6] + bytes[7]
}

/// The height stored big-endian in header bytes 8 to 11.
pub open spec fn parsed_height(bytes: Seq<u8>) -> int {
    0x1000000 * bytes[8] + 0x10000 * bytes[9] + 0x100 * bytes[10] + bytes[11]
}

// ---------------------------------------------------------------------------
// Chunk byte layouts.  Deltas are wrapped bytes: `d` stands for the change
// `d` if `d < 128`, and for `d - 256` otherwise.

/// Does a wrapped delta lie in [-2, 1]?  Exactly then does it fit a 2-bit
/// Diff field.
pub open spec fn fits_diff(d: u8) -> bool {
    d.wrapping_add(2) < 4
}

/// Does a wrapped delta lie in [-32, 31]?  Exactly then does it fit the
/// 6-bit green field of a Luma chunk.
pub open spec fn fits_luma_g(d: u8) -> bool {
    d.wrapping_add(32) < 64
}

/// Does a wrapped delta differ from the green delta by a value in [-8, 7]?
/// Exactly then does it fit a 4-bit red/blue field of a Luma chunk.
pub open spec fn fits_luma_rb(d: u8, dg: u8) -> bool {
    d.wrapping_sub(dg).wrapping_add(8) < 16
}

/// A Run chunk: tag bits 11, then the count minus one, for 1 <= n <= 62.
pub open spec fn run_chunk(n: int) -> Seq<u8> {
    seq![(191 + n) as u8]
}

/// An Index chunk: tag bits 00, then the 6-bit slot number.
pub open spec fn index_chunk(slot: int) -> Seq<u8> {
    seq![slot as u8]
}

/// A Diff chunk: tag bits 01, then three 2-bit fields holding the red,
/// green and blue deltas, each biased by +2.
pub open spec fn diff_chunk(dr: u8, dg: u8, db: u8) -> Seq<u8> {
    seq![
        (64 + 16 * dr.wrapping_add(2) + 4 * dg.wrapping_add(2) + db.wrapping_add(2)) as u8,
    ]
}

/// A Luma chunk: tag bits 10 and the green delta biased by +32, then the
/// red and blue deltas relative to green, biased by +8, in one nibble each.
pub open spec fn luma_chunk(dr: u8, dg: u8, db: u8) -> Seq<u8> {
    seq![
        (128 + dg.wrapping_add(32)) as u8,
        (16 * dr.wrapping_sub(dg).wrapping_add(8) + db.wrapping_sub(dg).wrapping_add(8)) as u8,
    ]
}

/// A literal-RGB chunk: the tag byte 0xFE, then the three color channels.
/// It carries no alpha; the decoder reconstructs alpha 255.
pub open spec fn rgb_chunk(p: Pixel) -> Seq<u8> {
    seq![254u8, p.r, p.g, p.b]
}

/// A literal-RGBA chunk: the tag byte 0xFF, then all four channels.
pub open spec fn rgba_chunk(p: Pixel) -> Seq<u8> {
    seq![255u8, p.r, p.g, p.b, p.a]
}

/// How many bytes the chunk starting with `b0` occupies.  Determined by the
/// first byte alone: the stream is decoded with no backtracking.
pub open spec fn chunk_len(b0: u8) -> int {
    if b0 < 192 {
        if 128 <= b0 {
            2
        } else {
            1
        }
    } else if b0 == 254 {
        4
    } else if b0 == 255 {
        5
    } else {
        1
    }
}

// ---------------------------------------------------------------------------
// The encoder.

/// How many consecutive pixels starting at `i` equal `p`.
pub open spec fn run_extent(pixels: Seq<Pixel>, i: int, p: Pixel) -> int
    decreases pixels.len() - i,
{
    if i < 0 || i >= pixels.len() || pixels[i] != p {
        0
    } else {
        1 + run_extent(pixels, i + 1, p)
    }
}

/// The length of the run emitted at position `i`: the number of consecutive
/// pixels equal to `pixels[i]`, capped at 62, the largest count a Run chunk
/// can carry.
pub open spec fn run_len(pixels: Seq<Pixel>, i: int) -> int {
    let e = run_extent(pixels, i, pixels[i]);
    if e > 62 {
        62
    } else {
        e
    }
}

/// The extent lies between 0 and the number of remaining pixels, and is
/// positive exactly when the pixel at `i` equals `p`.
pub proof fn lemma_run_extent_bounds(pixels: Seq<Pixel>, i: int, p: Pixel)
    requires
        0 <= i <= pixels.len(),
    ensures
        0 <= run_extent(pixels, i, p) <= pixels.len() - i,
        i < pixels.len() && pixels[i] == p ==> run_extent(pixels, i, p) >= 1,
    decreases pixels.len() - i,
{
    if i < pixels.len() && pixels[i] == p {
        lemma_run_extent_bounds(pixels, i + 1, p);
    }
}

/// A block of `n` pixels equal to `p` at `i`, ended by the sequence's end
/// or by a different pixel, is exactly the run extent at `i`.
pub proof fn lemma_run_extent_is(pixels: Seq<Pixel>, i: int, p: Pixel, n: int)
    requires
        0 <= i,
        0 <= n,
        i + n <= pixels.len(),
        forall|j: int| i <= j < i + n ==> pixels[j] == p,
        i + n == pixels.len() || pixels[i + n] != p,
    ensures
        run_extent(pixels, i, p) == n,
    decreases n,
{
    if n > 0 {
        lemma_run_extent_is(pixels, i + 1, p, n - 1);
    }
}

/// Every pixel within the run extent at `i` equals `p`.
pub proof fn lemma_run_extent_prefix(pixels: Seq<Pixel>, i: int, p: Pixel)
    requires
        0 <= i <= pixels.len(),
    ensures
        forall|j: int| i <= j < i + run_extent(pixels, i, p) ==> pixels[j] == p,
    decreases pixels.len() - i,
{
    if i < pixels.len() && pixels[i] == p {
        lemma_run_extent_prefix(pixels, i + 1, p);
    }
}

/// A block of `n` pixels equal to `p` at `i` pushes the run extent at `i`
/// to at least `n`.
pub proof fn lemma_run_extent_at_least(pixels: Seq<Pixel>, i: int, p: Pixel, n: int)
    requires
        0 <= i,
        0 <= n,
        i + n <= pixels.len(),
        forall|j: int| i <= j < i + n ==> pixels[j] == p,
    ensures
        run_extent(pixels, i, p) >= n,
    decreases n,
{
    lemma_run_extent_bounds(pixels, i, p);
    if n > 0 {
        assert(pixels[i] == p);
        lemma_run_extent_at_least(pixels, i + 1, p, n - 1);
    }
}

/// The chunk emitted for a pixel that neither extends a run nor sits in the
/// cache: the alpha channel, which only a literal-RGBA chunk can carry,
/// decides first; then Diff is preferred over Luma, and literal-RGB is the
/// fallback.
pub open spec fn fresh_chunk(prev: Pixel, p: Pixel) -> Seq<u8> {
    let dr = p.r.wrapping_sub(prev.r);
    let dg = p.g.wrapping_sub(prev.g);
    let db = p.b.wrapping_sub(prev.b);
    if p.a != prev.a {
        rgba_chunk(p)
    } else if fits_diff(dr) && fits_diff(dg) && fits_diff(db) {
        diff_chunk(dr, dg, db)
    } else if fits_luma_g(dg) && fits_luma_rb(dr, dg) && fits_luma_rb(db, dg) {
        luma_chunk(dr, dg, db)
    } else {
        rgb_chunk(p)
    }
}

/// Is the pixel emitted as a literal-RGB chunk when it misses the cache?
pub open spec fn takes_rgb_literal(prev: Pixel, p: Pixel) -> bool {
    let dr = p.r.wrapping_sub(prev.r);
    let dg = p.g.wrapping_sub(prev.g);
    let db = p.b.wrapping_sub(prev.b);
    &&& p.a == prev.a
    &&& !(fits_diff(dr) && fits_diff(dg) && fits_diff(db))
    &&& !(fits_luma_g(dg) && fits_luma_rb(dr, dg) && fits_luma_rb(db, dg))
}

/// The encoded body from position `i` on, with previous pixel `prev` and
/// cache `cache`: a run chunk swallows the whole run and leaves the cache
/// alone; a cache hit becomes an Index chunk; any other pixel is inserted
/// into the cache and encoded by [`fresh_chunk`].
pub open spec fn encode_body(pixels: Seq<Pixel>, i: int, prev: Pixel, cache: Seq<Pixel>) -> Seq<u8>
    decreases pixels.len() - i,
    when 0 <= i <= pixels.len()
    via encode_body_decreases
{
    if i >= pixels.len() {
        Seq::empty()
    } else {
        let p = pixels[i];
        if p == prev {
            run_chunk(run_len(pixels, i)) + encode_body(pixels, i + run_len(pixels, i), prev, cache)
        } else if cache[pixel_hash(p)] == p {
            index_chunk(pixel_hash(p)) + encode_body(pixels, i + 1, p, cache)
        } else {
            fresh_chunk(prev, p) + encode_body(pixels, i + 1, p, cache.update(pixel_hash(p), p))
        }
    }
}

#[via_fn]
proof fn encode_body_decreases(pixels: Seq<Pixel>, i: int, prev: Pixel, cache: Seq<Pixel>) {
    if i < pixels.len() {
        lemma_run_extent_bounds(pixels, i, pixels[i]);
    }
}

/// Does every pixel that the encoding of `pixels[i..]` emits as a
/// literal-RGB chunk have alpha 255?  A literal-RGB chunk stores no alpha
/// and decodes as fully opaque, so this is exactly the condition under
/// which the encoding loses nothing.  It holds in particular whenever all
/// pixels are opaque.
pub open spec fn opaque_literals(pixels: Seq<Pixel>, i: int, prev: Pixel, cache: Seq<Pixel>) -> bool
    decreases pixels.len() - i,
    when 0 <= i <= pixels.len()
    via opaque_literals_decreases
{
    if i >= pixels.len() {
        true
    } else {
        let p = pixels[i];
        if p == prev {
            opaque_literals(pixels, i + run_len(pixels, i), prev, cache)
        } else if cache[pixel_hash(p)] == p {
            opaque_literals(pixels, i + 1, p, cache)
        } else {
            &&& (takes_rgb_literal(prev, p) ==> p.a == 255)
            &&& opaque_literals(pixels, i + 1, p, cache.update(pixel_hash(p), p))
        }
    }
}

#[via_fn]
proof fn opaque_literals_decreases(pixels: Seq<Pixel>, i: int, prev: Pixel, cache: Seq<Pixel>) {
    if i < pixels.len() {
        lemma_run_extent_bounds(pixels, i, pixels[i]);
    }
}

// ---------------------------------------------------------------------------
// Flat byte buffers of pixels, four bytes per pixel.

/// The pixels a flat RGBA byte buffer stands for.  Only the three color
/// bytes of each group of four are taken; the pixel is stored fully
/// opaque, whatever the fourth byte holds.
pub open spec fn bytes_to_pixels(bytes: Seq<u8>) -> Seq<Pixel>
    decreases bytes.len(),
{
    if bytes.len() < 4 {
        Seq::empty()
    } else {
        seq![Pixel { r: bytes[0], g: bytes[1], b: bytes[2], a: 255 }] + bytes_to_pixels(
            bytes.skip(4),
        )
    }
}

/// The flat byte buffer of a pixel sequence: each pixel contributes its
/// four channels in order.
pub open spec fn pixels_to_bytes(pixels: Seq<Pixel>) -> Seq<u8>
    decreases pixels.len(),
{
    if pixels.len() == 0 {
        Seq::empty()
    } else {
        seq![pixels[0].r, pixels[0].g, pixels[0].b, pixels[0].a] + pixels_to_bytes(
            pixels.skip(1),
        )
    }
}

// ---------------------------------------------------------------------------
// The decoder.

/// The pixel a Diff chunk reconstructs: each 2-bit field, minus its +2
/// bias, is added to the previous pixel's channel; alpha is inherited.
pub open spec fn diff_pixel(prev: Pixel, b0: u8) -> Pixel {
    Pixel {
        r: prev.r.wrapping_add(((b0 / 16) % 4).wrapping_sub(2)),
        g: prev.g.wrapping_add(((b0 / 4) % 4).wrapping_sub(2)),
        b: prev.b.wrapping_add((b0 % 4).wrapping_sub(2)),
        a: prev.a,
    }
}

/// The pixel a Luma chunk reconstructs: the green delta comes from the
/// first byte minus its +32 bias; the red and blue deltas are the nibbles
/// of the second byte, minus their +8 bias, relative to the green delta;
/// alpha is inherited.
pub open spec fn luma_pixel(prev: Pixel, b0: u8, b1: u8) -> Pixel {
    let dg = (b0 % 64).wrapping_sub(32);
    Pixel {
        r: prev.r.wrapping_add((b1 / 16).wrapping_sub(8).wrapping_add(dg)),
        g: prev.g.wrapping_add(dg),
        b: prev.b.wrapping_add((b1 % 16).wrapping_sub(8).wrapping_add(dg)),
        a: prev.a,
    }
}

/// The decoded pixel sequence of a byte stream, with previous pixel `prev`
/// and cache `cache`, or `None` if the stream ends in the middle of a
/// chunk.  The first byte's two top bits pick the chunk kind, with the two
/// full-byte literal tags 0xFE and 0xFF carved out of the run space; the
/// cache is replayed exactly as the encoder mutated it.
pub open spec fn decode_body(bytes: Seq<u8>, prev: Pixel, cache: Seq<Pixel>) -> Option<Seq<Pixel>>
    decreases bytes.len(),
{
    if bytes.len() == 0 {
        Some(Seq::empty())
    } else {
        let b0 = bytes[0];
        if bytes.len() < chunk_len(b0) {
            None
        } else if b0 < 64 {
            let p = cache[b0 as int];
            match decode_body(bytes.skip(1), p, cache) {
                Some(rest) => Some(seq![p] + rest),
                None => None,
            }
        } else if b0 < 128 {
            let p = diff_pixel(prev, b0);
            match decode_body(bytes.skip(1), p, cache.update(pixel_hash(p), p)) {
                Some(rest) => Some(seq![p] + rest),
                None => None,
            }
        } else if b0 < 192 {
            let p = luma_pixel(prev, b0, bytes[1]);
            match decode_body(bytes.skip(2), p, cache.update(pixel_hash(p), p)) {
                Some(rest) => Some(seq![p] + rest),
                None => None,
            }
        } else if b0 == 254 {
            let p = Pixel { r: bytes[1], g: bytes[2], b: bytes[3], a: 255 };
            match decode_body(bytes.skip(4), p, cache.update(pixel_hash(p), p)) {
                Some(rest) => Some(seq![p] + rest),
                None => None,
            }
        } else if b0 == 255 {
            let p = Pixel { r: bytes[1], g: bytes[2], b: bytes[3], a: bytes[4] };
            match decode_body(bytes.skip(5), p, cache.update(pixel_hash(p), p)) {
                Some(rest) => Some(seq![p] + rest),
                None => None,
            }
        } else {
            match decode_body(bytes.skip(1), prev, cache) {
                Some(rest) => Some(Seq::new((b0 - 191) as nat, |j: int| prev) + rest),
                None => None,
            }
        }
    }
}

} // verus!
