//! Proofs of the codec's global properties: the header round trip and the
//! encode/decode round trip.

use crate::model;
use crate::structs::Channels;
use crate::structs::ColorSpace;
use crate::structs::Pixel;
use vstd::prelude::*;

verus! {

/// Header round trip: a header built from any dimensions and any valid
/// tags is well formed and parses back to exactly those values.
pub proof fn lemma_header_round_trip(
    width: u32,
    height: u32,
    channels: Channels,
    colorspace: ColorSpace,
)
    ensures
        model::header_valid(model::header_bytes(width, height, channels, colorspace)),
        model::parsed_width(model::header_bytes(width, height, channels, colorspace)) == width,
        model::parsed_height(model::header_bytes(width, height, channels, colorspace)) == height,
        model::parse_channels(model::header_bytes(width, height, channels, colorspace)[12])
            == Some(channels),
        model::parse_colorspace(model::header_bytes(width, height, channels, colorspace)[13])
            == Some(colorspace),
{
    assert(0x1000000 * (((width / 0x1000000) % 256) as u8) + 0x10000 * (((width / 0x10000)
        % 256) as u8) + 0x100 * (((width / 0x100) % 256) as u8) + ((width % 256) as u8)
        == width) by (bit_vector);
    assert(0x1000000 * (((height / 0x1000000) % 256) as u8) + 0x10000 * (((height / 0x10000)
        % 256) as u8) + 0x100 * (((height / 0x100) % 256) as u8) + ((height % 256) as u8)
        == height) by (bit_vector);
}

/// Decoding a literal-RGBA chunk reconstructs its pixel exactly and
/// updates the cache at the pixel's slot.
proof fn lemma_rgba_step(prev: Pixel, p: Pixel, cache: Seq<Pixel>, rest: Seq<u8>)
    requires
        cache.len() == 64,
    ensures
        ({
            let bytes = model::rgba_chunk(p) + rest;
            let tail = model::decode_body(rest, p, cache.update(model::pixel_hash(p), p));
            model::decode_body(bytes, prev, cache) == (match tail {
                Some(t) => Some(seq![p] + t),
                None => None::<Seq<Pixel>>,
            })
        }),
{
    let bytes = model::rgba_chunk(p) + rest;
    assert(bytes.skip(5) =~= rest);
}

/// Decoding a literal-RGB chunk reconstructs its pixel, provided the
/// pixel was fully opaque: the chunk stores no alpha and decodes as
/// opaque.
proof fn lemma_rgb_step(prev: Pixel, p: Pixel, cache: Seq<Pixel>, rest: Seq<u8>)
    requires
        cache.len() == 64,
        p.a == 255,
    ensures
        ({
            let bytes = model::rgb_chunk(p) + rest;
            let tail = model::decode_body(rest, p, cache.update(model::pixel_hash(p), p));
            model::decode_body(bytes, prev, cache) == (match tail {
                Some(t) => Some(seq![p] + t),
                None => None::<Seq<Pixel>>,
            })
        }),
{
    let bytes = model::rgb_chunk(p) + rest;
    assert(bytes.skip(4) =~= rest);
}

/// Decoding a Diff chunk built from the wrapped deltas between `prev` and
/// `p` reconstructs `p`: subtracting the +2 bias undoes the packing, and
/// adding each delta back modulo 256 undoes the subtraction.
proof fn lemma_diff_step(prev: Pixel, p: Pixel, cache: Seq<Pixel>, rest: Seq<u8>)
    requires
        cache.len() == 64,
        p.a == prev.a,
        model::fits_diff(p.r.wrapping_sub(prev.r)),
        model::fits_diff(p.g.wrapping_sub(prev.g)),
        model::fits_diff(p.b.wrapping_sub(prev.b)),
    ensures
        ({
            let dr = p.r.wrapping_sub(prev.r);
            let dg = p.g.wrapping_sub(prev.g);
            let db = p.b.wrapping_sub(prev.b);
            let bytes = model::diff_chunk(dr, dg, db) + rest;
            let tail = model::decode_body(rest, p, cache.update(model::pixel_hash(p), p));
            model::decode_body(bytes, prev, cache) == (match tail {
                Some(t) => Some(seq![p] + t),
                None => None::<Seq<Pixel>>,
            })
        }),
{
    let dr = p.r.wrapping_sub(prev.r);
    let dg = p.g.wrapping_sub(prev.g);
    let db = p.b.wrapping_sub(prev.b);
    let bytes = model::diff_chunk(dr, dg, db) + rest;
    let fr = dr.wrapping_add(2);
    let fg = dg.wrapping_add(2);
    let fb = db.wrapping_add(2);
    let b0 = bytes[0];
    assert(b0 == 64 + 16 * fr + 4 * fg + fb);
    assert(b0 / 16 % 4 == fr && b0 / 4 % 4 == fg && b0 % 4 == fb) by (bit_vector)
        requires
            fr < 4,
            fg < 4,
            fb < 4,
            b0 == 64 + 16 * fr + 4 * fg + fb,
    ;
    assert(model::diff_pixel(prev, b0) == p);
    assert(bytes.skip(1) =~= rest);
}

/// Decoding a Luma chunk built from the wrapped deltas between `prev` and
/// `p` reconstructs `p`: the nibble biases and the green reference cancel
/// modulo 256.
proof fn lemma_luma_step(prev: Pixel, p: Pixel, cache: Seq<Pixel>, rest: Seq<u8>)
    requires
        cache.len() == 64,
        p.a == prev.a,
        model::fits_luma_g(p.g.wrapping_sub(prev.g)),
        model::fits_luma_rb(p.r.wrapping_sub(prev.r), p.g.wrapping_sub(prev.g)),
        model::fits_luma_rb(p.b.wrapping_sub(prev.b), p.g.wrapping_sub(prev.g)),
    ensures
        ({
            let dr = p.r.wrapping_sub(prev.r);
            let dg = p.g.wrapping_sub(prev.g);
            let db = p.b.wrapping_sub(prev.b);
            let bytes = model::luma_chunk(dr, dg, db) + rest;
            let tail = model::decode_body(rest, p, cache.update(model::pixel_hash(p), p));
            model::decode_body(bytes, prev, cache) == (match tail {
                Some(t) => Some(seq![p] + t),
                None => None::<Seq<Pixel>>,
            })
        }),
{
    let dr = p.r.wrapping_sub(prev.r);
    let dg = p.g.wrapping_sub(prev.g);
    let db = p.b.wrapping_sub(prev.b);
    let bytes = model::luma_chunk(dr, dg, db) + rest;
    let fg = dg.wrapping_add(32);
    let fr = dr.wrapping_sub(dg).wrapping_add(8);
    let fb = db.wrapping_sub(dg).wrapping_add(8);
    let b0 = bytes[0];
    let b1 = bytes[1];
    assert(b0 == 128 + fg);
    assert(b1 == 16 * fr + fb);
    assert(b0 % 64 == fg) by (bit_vector)
        requires
            fg < 64,
            b0 == 128 + fg,
    ;
    assert(b1 / 16 == fr && b1 % 16 == fb) by (bit_vector)
        requires
            fr < 16,
            fb < 16,
            b1 == 16 * fr + fb,
    ;
    assert(model::luma_pixel(prev, b0, b1) == p);
    assert(bytes.skip(2) =~= rest);
}

/// Decoding the chunk of a pixel that misses the cache reconstructs that
/// very pixel, updates the cache at its slot, and hands the remaining
/// bytes to the rest of the stream.  The one condition is the literal-RGB
/// asymmetry: a pixel that falls through to a literal-RGB chunk must be
/// fully opaque, since that chunk stores no alpha and decodes as opaque.
pub proof fn lemma_fresh_chunk_step(prev: Pixel, p: Pixel, cache: Seq<Pixel>, rest: Seq<u8>)
    requires
        cache.len() == 64,
        model::takes_rgb_literal(prev, p) ==> p.a == 255,
    ensures
        ({
            let bytes = model::fresh_chunk(prev, p) + rest;
            let tail = model::decode_body(rest, p, cache.update(model::pixel_hash(p), p));
            model::decode_body(bytes, prev, cache) == (match tail {
                Some(t) => Some(seq![p] + t),
                None => None::<Seq<Pixel>>,
            })
        }),
{
    let dr = p.r.wrapping_sub(prev.r);
    let dg = p.g.wrapping_sub(prev.g);
    let db = p.b.wrapping_sub(prev.b);
    if p.a != prev.a {
        lemma_rgba_step(prev, p, cache, rest);
    } else if model::fits_diff(dr) && model::fits_diff(dg) && model::fits_diff(db) {
        lemma_diff_step(prev, p, cache, rest);
    } else if model::fits_luma_g(dg) && model::fits_luma_rb(dr, dg) && model::fits_luma_rb(
        db,
        dg,
    ) {
        lemma_luma_step(prev, p, cache, rest);
    } else {
        lemma_rgb_step(prev, p, cache, rest);
    }
}

/// The round trip from position `i` on: decoding the encoding of
/// `pixels[i..]`, started from the same previous pixel and the same cache,
/// yields exactly `pixels[i..]`.  [`model::opaque_literals`] rules out the
/// pixels the wire format cannot carry: a translucent pixel emitted as a
/// literal-RGB chunk would come back opaque.
pub proof fn lemma_encode_decode_from(pixels: Seq<Pixel>, i: int, prev: Pixel, cache: Seq<Pixel>)
    requires
        0 <= i <= pixels.len(),
        cache.len() == 64,
        model::opaque_literals(pixels, i, prev, cache),
    ensures
        model::decode_body(model::encode_body(pixels, i, prev, cache), prev, cache) == Some(
            pixels.subrange(i, pixels.len() as int),
        ),
    decreases pixels.len() - i,
{
    let n = pixels.len() as int;
    if i == n {
        assert(pixels.subrange(n, n) =~= Seq::<Pixel>::empty());
    } else {
        let p = pixels[i];
        if p == prev {
            let rl = model::run_len(pixels, i);
            model::lemma_run_extent_bounds(pixels, i, p);
            model::lemma_run_extent_prefix(pixels, i, p);
            let rest = model::encode_body(pixels, i + rl, prev, cache);
            let bytes = model::run_chunk(rl) + rest;
            assert(model::encode_body(pixels, i, prev, cache) == bytes);
            let b0 = bytes[0];
            assert(b0 == 191 + rl && 192 <= b0 <= 253);
            assert(bytes.skip(1) =~= rest);
            lemma_encode_decode_from(pixels, i + rl, prev, cache);
            assert(Seq::new(rl as nat, |k: int| prev) + pixels.subrange(i + rl, n)
                =~= pixels.subrange(i, n));
        } else if cache[model::pixel_hash(p)] == p {
            let slot = model::pixel_hash(p);
            let rest = model::encode_body(pixels, i + 1, p, cache);
            let bytes = model::index_chunk(slot) + rest;
            assert(model::encode_body(pixels, i, prev, cache) == bytes);
            assert(bytes[0] == slot as u8 && bytes[0] < 64);
            assert(bytes.skip(1) =~= rest);
            lemma_encode_decode_from(pixels, i + 1, p, cache);
            assert(seq![p] + pixels.subrange(i + 1, n) =~= pixels.subrange(i, n));
        } else {
            let cache2 = cache.update(model::pixel_hash(p), p);
            let rest = model::encode_body(pixels, i + 1, p, cache2);
            let bytes = model::fresh_chunk(prev, p) + rest;
            assert(model::encode_body(pixels, i, prev, cache) == bytes);
            lemma_fresh_chunk_step(prev, p, cache, rest);
            lemma_encode_decode_from(pixels, i + 1, p, cache2);
            assert(seq![p] + pixels.subrange(i + 1, n) =~= pixels.subrange(i, n));
        }
    }
}

/// Cache eviction: a pixel whose slot no longer holds it — because some
/// later pixel hashed there and overwrote it — is never encoded as an
/// Index chunk.  Its chunk starts with a Diff, Luma or literal tag, and
/// all of those lie at or above 64, while an Index chunk's first byte
/// lies below 64.
pub proof fn lemma_eviction_no_index(pixels: Seq<Pixel>, i: int, prev: Pixel, cache: Seq<Pixel>)
    requires
        0 <= i < pixels.len(),
        cache.len() == 64,
        pixels[i] != prev,
        cache[model::pixel_hash(pixels[i])] != pixels[i],
    ensures
        model::encode_body(pixels, i, prev, cache).len() > 0,
        model::encode_body(pixels, i, prev, cache)[0] >= 64,
{
    let p = pixels[i];
    let dr = p.r.wrapping_sub(prev.r);
    let dg = p.g.wrapping_sub(prev.g);
    let db = p.b.wrapping_sub(prev.b);
    let chunk = model::fresh_chunk(prev, p);
    if p.a == prev.a && model::fits_diff(dr) && model::fits_diff(dg) && model::fits_diff(db) {
        assert(chunk[0] == 64 + 16 * dr.wrapping_add(2) + 4 * dg.wrapping_add(2)
            + db.wrapping_add(2));
    }
    assert(model::encode_body(pixels, i, prev, cache)[0] == chunk[0]);
}

/// Every encoding of a fully opaque pixel sequence decodes losslessly: no
/// literal-RGB chunk can then lose an alpha value.
pub proof fn lemma_opaque_literals_hold(pixels: Seq<Pixel>, i: int, prev: Pixel, cache: Seq<Pixel>)
    requires
        0 <= i <= pixels.len(),
        forall|j: int| 0 <= j < pixels.len() ==> pixels[j].a == 255,
    ensures
        model::opaque_literals(pixels, i, prev, cache),
    decreases pixels.len() - i,
{
    if i < pixels.len() {
        let p = pixels[i];
        if p == prev {
            model::lemma_run_extent_bounds(pixels, i, p);
            lemma_opaque_literals_hold(pixels, i + model::run_len(pixels, i), prev, cache);
        } else if cache[model::pixel_hash(p)] == p {
            lemma_opaque_literals_hold(pixels, i + 1, p, cache);
        } else {
            lemma_opaque_literals_hold(
                pixels,
                i + 1,
                p,
                cache.update(model::pixel_hash(p), p),
            );
        }
    }
}

/// Round trip over the complete stream: for any pixel sequence of length
/// `width * height` whose encoding emits literal-RGB chunks only for
/// opaque pixels, the encoded stream is the header followed by the body,
/// and decoding the stream past its 14 header bytes yields the pixels
/// back exactly, alpha included.
pub proof fn lemma_round_trip(pixels: Seq<Pixel>, width: u32, height: u32)
    requires
        pixels.len() == width * height,
        model::opaque_literals(pixels, 0, model::default_pixel(), model::init_cache()),
    ensures
        ({
            let stream = model::header_bytes(width, height, Channels::RGB, ColorSpace::SRGB)
                + model::encode_body(pixels, 0, model::default_pixel(), model::init_cache());
            &&& stream.len() >= 14
            &&& model::decode_body(stream.skip(14), model::default_pixel(), model::init_cache())
                == Some(pixels)
        }),
{
    let body = model::encode_body(pixels, 0, model::default_pixel(), model::init_cache());
    let stream = model::header_bytes(width, height, Channels::RGB, ColorSpace::SRGB) + body;
    assert(stream.skip(14) =~= body);
    lemma_encode_decode_from(pixels, 0, model::default_pixel(), model::init_cache());
    assert(pixels.subrange(0, pixels.len() as int) =~= pixels);
}

/// An empty pixel sequence encodes to an empty body — the stream is the
/// header alone — and an empty body decodes to the empty pixel sequence.
pub proof fn lemma_empty_image(pixels: Seq<Pixel>)
    requires
        pixels.len() == 0,
    ensures
        model::encode_body(pixels, 0, model::default_pixel(), model::init_cache())
            == Seq::<u8>::empty(),
        model::decode_body(Seq::<u8>::empty(), model::default_pixel(), model::init_cache())
            == Some(Seq::<Pixel>::empty()),
{
}

} // verus!
