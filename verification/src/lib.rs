//! A verified implementation of a small lossless image codec.
//!
//! A pixel sequence is compressed into a byte stream made of tagged chunks
//! (runs, cache references, small deltas, literals) and decompressed back to
//! the exact original sequence.  The module [`model`] states the wire format
//! as spec functions, [`structs`] holds the data types and the per-chunk
//! encodings, and [`laws`] proves the round-trip properties.

use vstd::prelude::*;

pub mod laws;
pub mod model;
pub mod structs;

pub use structs::Channels;
pub use structs::Chunk;
pub use structs::ColorSpace;
pub use structs::OpDiff;
pub use structs::OpIndex;
pub use structs::OpLuma;
pub use structs::OpRGB;
pub use structs::OpRGBA;
pub use structs::OpRun;
pub use structs::Pixel;
pub use structs::QOIHash;
pub use structs::QoiError;
pub use structs::QoiHeader;

verus! {

/// The 14-byte stream header for an image of the given dimensions and
/// source metadata.
pub fn header(width: u32, height: u32, channels: Channels, colorspace: ColorSpace) -> (h: Vec<u8>)
    ensures
        h@ == model::header_bytes(width, height, channels, colorspace),
{
    let mut h: Vec<u8> = Vec::new();
    h.push(113);
    h.push(111);
    h.push(105);
    h.push(102);
    h.push(((width / 0x1000000) % 256) as u8);
    h.push(((width / 0x10000) % 256) as u8);
    h.push(((width / 0x100) % 256) as u8);
    h.push((width % 256) as u8);
    h.push(((height / 0x1000000) % 256) as u8);
    h.push(((height / 0x10000) % 256) as u8);
    h.push(((height / 0x100) % 256) as u8);
    h.push((height % 256) as u8);
    h.push(channels.tag());
    h.push(colorspace.tag());
    proof {
        assert(h@ =~= model::header_bytes(width, height, channels, colorspace));
    }
    h
}

/// Encodes a pixel sequence into a complete byte stream: the header, then
/// one chunk per run, cache hit, delta or literal, exactly as
/// [`model::encode_body`] lays them out.  Fails with a `SizeMismatch` if
/// the sequence does not hold `width * height` pixels.
#[verifier::loop_isolation(false)]
pub fn encode_from_pix(pixels: &[Pixel], width: u32, height: u32) -> (r: Result<Vec<u8>, QoiError>)
    ensures
        r is Ok <==> pixels@.len() == width * height,
        r is Ok ==> r->Ok_0@ == model::header_bytes(width, height, Channels::RGB, ColorSpace::SRGB)
            + model::encode_body(pixels@, 0, model::default_pixel(), model::init_cache()),
        r is Err ==> r->Err_0 == QoiError::SizeMismatch,
{
    let num_pixels = pixels.len();
    proof {
        assert((width as u64) * (height as u64) <= 0xFFFFFFFFu64 * 0xFFFFFFFFu64)
            by (nonlinear_arith)
            requires
                width as u64 <= 0xFFFFFFFFu64,
                height as u64 <= 0xFFFFFFFFu64,
        ;
    }
    if num_pixels as u64 != (width as u64) * (height as u64) {
        return Err(QoiError::SizeMismatch);
    }
    let mut hash = QOIHash::new();
    let mut encoded = header(width, height, Channels::RGB, ColorSpace::SRGB);
    let mut previous = Pixel::default();
    let ghost head = encoded@;

    let mut i: usize = 0;
    while i < num_pixels
        invariant
            i <= num_pixels,
            hash.wf(),
            encoded@ + model::encode_body(pixels@, i as int, previous, hash@) == head
                + model::encode_body(pixels@, 0, model::default_pixel(), model::init_cache()),
        decreases num_pixels - i,
    {
        let pixel = pixels[i];
        let index = hash.lookup(&pixel);
        if previous == pixel {
            // Extend the run as far as the pixels stay equal, but no
            // further than the 62 a Run chunk can carry.
            let mut num_same: usize = 0;
            while num_same < 61 && num_same + 1 < num_pixels - i && pixels[i + num_same + 1]
                == pixel
                invariant
                    num_same <= 61,
                    i + num_same < num_pixels,
                    forall|j: int| i <= j <= i + num_same ==> pixels@[j] == pixel,
                decreases num_pixels - num_same,
            {
                num_same = num_same + 1;
            }
            proof {
                if num_same == 61 {
                    model::lemma_run_extent_at_least(pixels@, i as int, pixel, 62);
                    assert(model::run_len(pixels@, i as int) == 62);
                } else {
                    model::lemma_run_extent_is(pixels@, i as int, pixel, num_same + 1);
                    assert(model::run_len(pixels@, i as int) == num_same + 1);
                }
            }
            let ghost before = encoded@;
            let ghost n = model::run_len(pixels@, i as int);
            encoded.push(OpRun::new(num_same as u8).get_encoding());
            i = i + num_same + 1;
            proof {
                assert(encoded@ =~= before + model::run_chunk(n));
                assert((before + model::run_chunk(n)) + model::encode_body(
                    pixels@,
                    i as int,
                    previous,
                    hash@,
                ) =~= before + (model::run_chunk(n) + model::encode_body(
                    pixels@,
                    i as int,
                    previous,
                    hash@,
                )));
            }
        } else if index.is_some() {
            let ghost before = encoded@;
            previous = pixel;
            encoded.push(OpIndex::new(index.unwrap()).get_encoding());
            i = i + 1;
            proof {
                let slot = model::pixel_hash(pixel);
                assert(encoded@ =~= before + model::index_chunk(slot));
                assert((before + model::index_chunk(slot)) + model::encode_body(
                    pixels@,
                    i as int,
                    previous,
                    hash@,
                ) =~= before + (model::index_chunk(slot) + model::encode_body(
                    pixels@,
                    i as int,
                    previous,
                    hash@,
                )));
            }
        } else {
            hash.insert(&pixel);
            let dr = pixel.r.wrapping_sub(previous.r);
            let dg = pixel.g.wrapping_sub(previous.g);
            let db = pixel.b.wrapping_sub(previous.b);
            let ghost before = encoded@;
            let ghost fresh = model::fresh_chunk(previous, pixel);
            if pixel.a != previous.a {
                let mut enc = OpRGBA::new(pixel.r, pixel.g, pixel.b, pixel.a).get_encoding();
                encoded.append(&mut enc);
            } else if dr.wrapping_add(2) < 4 && dg.wrapping_add(2) < 4 && db.wrapping_add(2) < 4 {
                encoded.push(OpDiff::new(dr, dg, db).get_encoding());
            } else if dg.wrapping_add(32) < 64 && dr.wrapping_sub(dg).wrapping_add(8) < 16
                && db.wrapping_sub(dg).wrapping_add(8) < 16 {
                let mut enc = OpLuma::new(dr, dg, db).get_encoding();
                encoded.append(&mut enc);
            } else {
                let mut enc = OpRGB::new(pixel.r, pixel.g, pixel.b).get_encoding();
                encoded.append(&mut enc);
            }
            proof {
                assert(encoded@ =~= before + fresh);
            }
            previous = pixel;
            i = i + 1;
            proof {
                assert((before + fresh) + model::encode_body(pixels@, i as int, previous, hash@)
                    =~= before + (fresh + model::encode_body(pixels@, i as int, previous, hash@)));
            }
        }
    }
    Ok(encoded)
}

/// Encodes a flat RGBA byte buffer, four bytes per pixel.  Only the three
/// color bytes of each group are taken; every pixel is stored fully
/// opaque, whatever its fourth byte holds.
#[verifier::loop_isolation(false)]
pub fn encode_from_u8(bytes: &[u8], width: u32, height: u32) -> (r: Result<Vec<u8>, QoiError>)
    requires
        bytes@.len() % 4 == 0,
    ensures
        r is Ok <==> model::bytes_to_pixels(bytes@).len() == width * height,
        r is Ok ==> r->Ok_0@ == model::header_bytes(width, height, Channels::RGB, ColorSpace::SRGB)
            + model::encode_body(
            model::bytes_to_pixels(bytes@),
            0,
            model::default_pixel(),
            model::init_cache(),
        ),
        r is Err ==> r->Err_0 == QoiError::SizeMismatch,
{
    let mut pixels: Vec<Pixel> = Vec::new();
    let n = bytes.len();
    proof {
        assert(bytes@.skip(0) =~= bytes@);
        assert(Seq::<Pixel>::empty() + model::bytes_to_pixels(bytes@) =~= model::bytes_to_pixels(
            bytes@,
        ));
    }
    let mut i: usize = 0;
    while i < n
        invariant
            i <= n,
            i % 4 == 0,
            pixels@ + model::bytes_to_pixels(bytes@.skip(i as int)) == model::bytes_to_pixels(
                bytes@,
            ),
        decreases n - i,
    {
        let ghost s = bytes@.skip(i as int);
        let ghost before = pixels@;
        proof {
            assert(s[0] == bytes@[i as int]);
            assert(s[1] == bytes@[i + 1]);
            assert(s[2] == bytes@[i + 2]);
        }
        let pixel = Pixel { r: bytes[i], g: bytes[i + 1], b: bytes[i + 2], a: 255 };
        pixels.push(pixel);
        i = i + 4;
        proof {
            assert(s.skip(4) =~= bytes@.skip(i as int));
            assert((before + seq![pixel]) + model::bytes_to_pixels(bytes@.skip(i as int)) =~= before
                + (seq![pixel] + model::bytes_to_pixels(bytes@.skip(i as int))));
        }
    }
    proof {
        assert(bytes@.skip(n as int) =~= Seq::<u8>::empty());
        assert(pixels@ + Seq::<Pixel>::empty() =~= pixels@);
    }
    encode_from_pix(pixels.as_slice(), width, height)
}

/// Decodes a byte stream and flattens the pixels back into a byte buffer,
/// four bytes per pixel, channels in order.
#[verifier::loop_isolation(false)]
pub fn decode_to_u8(encoded: &[u8]) -> (r: Result<Vec<u8>, QoiError>)
    ensures
        encoded@.len() < 14 ==> r is Err && r->Err_0 == QoiError::FormatError,
        encoded@.len() >= 14 ==> ({
            let full = model::decode_body(
                encoded@.skip(14),
                model::default_pixel(),
                model::init_cache(),
            );
            &&& (full is Some ==> r is Ok && r->Ok_0@ == model::pixels_to_bytes(full->Some_0))
            &&& (full is None ==> r is Err && r->Err_0 == QoiError::DecodeError)
        }),
{
    let pixels = match decode_to_pix(encoded) {
        Ok(p) => p,
        Err(e) => {
            return Err(e);
        },
    };
    let mut out: Vec<u8> = Vec::new();
    let n = pixels.len();
    proof {
        assert(pixels@.skip(0) =~= pixels@);
        assert(Seq::<u8>::empty() + model::pixels_to_bytes(pixels@) =~= model::pixels_to_bytes(
            pixels@,
        ));
    }
    let mut i: usize = 0;
    while i < n
        invariant
            i <= n,
            out@ + model::pixels_to_bytes(pixels@.skip(i as int)) == model::pixels_to_bytes(
                pixels@,
            ),
        decreases n - i,
    {
        let ghost s = pixels@.skip(i as int);
        let ghost before = out@;
        proof {
            assert(s[0] == pixels@[i as int]);
        }
        let p = pixels[i];
        out.push(p.r);
        out.push(p.g);
        out.push(p.b);
        out.push(p.a);
        i = i + 1;
        proof {
            assert(s.skip(1) =~= pixels@.skip(i as int));
            assert(out@ =~= before + seq![p.r, p.g, p.b, p.a]);
            assert((before + seq![p.r, p.g, p.b, p.a]) + model::pixels_to_bytes(
                pixels@.skip(i as int),
            ) =~= before + (seq![p.r, p.g, p.b, p.a] + model::pixels_to_bytes(
                pixels@.skip(i as int),
            )));
        }
    }
    proof {
        assert(pixels@.skip(n as int) =~= Seq::<Pixel>::empty());
        assert(out@ + Seq::<u8>::empty() =~= out@);
    }
    Ok(out)
}

/// How many bytes the chunk starting with `b0` occupies.
fn chunk_len_of(b0: u8) -> (n: usize)
    ensures
        n == model::chunk_len(b0),
{
    if b0 < 128 {
        1
    } else if b0 < 192 {
        2
    } else if b0 == 254 {
        4
    } else if b0 == 255 {
        5
    } else {
        1
    }
}


/// Reads the chunk at byte position `i`, appends the pixels it stands for
/// to `decoded`, updates the previous pixel and the cache exactly as the
/// model's decoder does, and returns the position of the next chunk.
#[verifier::loop_isolation(false)]
#[verifier::rlimit(60)]
fn decode_step(
    encoded: &[u8],
    i: usize,
    previous: &mut Pixel,
    hash: &mut QOIHash,
    decoded: &mut Vec<Pixel>,
) -> (next: usize)
    requires
        i < encoded@.len(),
        old(hash).wf(),
        encoded@.len() - i >= model::chunk_len(encoded@[i as int]),
    ensures
        next == i + model::chunk_len(encoded@[i as int]),
        final(hash).wf(),
        old(decoded)@.is_prefix_of(final(decoded)@),
        ({
            let emitted = final(decoded)@.skip(old(decoded)@.len() as int);
            let before = model::decode_body(
                encoded@.skip(i as int),
                *old(previous),
                old(hash)@,
            );
            let after = model::decode_body(
                encoded@.skip(next as int),
                *final(previous),
                final(hash)@,
            );
            &&& (after is Some ==> before is Some && before->Some_0 == emitted + after->Some_0)
            &&& (after is None ==> before is None)
        }),
{
    let ghost s = encoded@.skip(i as int);
    let ghost out0 = decoded@;
    proof {
        assert(s[0] == encoded@[i as int]);
    }
    let need = chunk_len_of(encoded[i]);
    let chunk = Chunk::from_encoding(&encoded[i..i + need]);
    match chunk {
        Chunk::Index(idx) => {
            let pixel = hash.get(idx.index);
            *previous = pixel;
            decoded.push(pixel);
            proof {
                assert(s.skip(1) =~= encoded@.skip(i + 1));
                assert(decoded@.skip(out0.len() as int) =~= seq![pixel]);
            }
            i + 1
        },
        Chunk::Diff(d) => {
            let diffs = d.get_diffs();
            proof {
                let b0 = encoded@[i as int];
                let dv = d.diff;
                assert(dv / 16 == (b0 / 16) % 4 && (dv / 4) % 4 == (b0 / 4) % 4 && dv % 4 == b0
                    % 4) by (bit_vector)
                    requires
                        64 <= b0 < 128,
                        dv == b0 - 64,
                ;
            }
            let pixel = Pixel {
                r: previous.r.wrapping_add(diffs.0),
                g: previous.g.wrapping_add(diffs.1),
                b: previous.b.wrapping_add(diffs.2),
                a: previous.a,
            };
            proof {
                assert(pixel == model::diff_pixel(*previous, encoded@[i as int]));
            }
            hash.insert(&pixel);
            *previous = pixel;
            decoded.push(pixel);
            proof {
                assert(s.skip(1) =~= encoded@.skip(i + 1));
                assert(decoded@.skip(out0.len() as int) =~= seq![pixel]);
            }
            i + 1
        },
        Chunk::Luma(l) => {
            proof {
                let b0 = encoded@[i as int];
                let gv = l.dg;
                assert(gv == b0 % 64) by (bit_vector)
                    requires
                        128 <= b0 < 192,
                        gv == b0 - 128,
                ;
                assert(s[1] == encoded@[i + 1]);
            }
            let diffs = l.get_diffs();
            let pixel = Pixel {
                r: previous.r.wrapping_add(diffs.0),
                g: previous.g.wrapping_add(diffs.1),
                b: previous.b.wrapping_add(diffs.2),
                a: previous.a,
            };
            proof {
                assert(pixel == model::luma_pixel(*previous, encoded@[i as int], encoded@[i + 1]));
            }
            hash.insert(&pixel);
            *previous = pixel;
            decoded.push(pixel);
            proof {
                assert(s.skip(2) =~= encoded@.skip(i + 2));
                assert(decoded@.skip(out0.len() as int) =~= seq![pixel]);
            }
            i + 2
        },
        Chunk::RGB(rgb) => {
            proof {
                assert(s[1] == encoded@[i + 1]);
                assert(s[2] == encoded@[i + 2]);
                assert(s[3] == encoded@[i + 3]);
            }
            let pixel = Pixel { r: rgb.r, g: rgb.g, b: rgb.b, a: 255 };
            hash.insert(&pixel);
            *previous = pixel;
            decoded.push(pixel);
            proof {
                assert(s.skip(4) =~= encoded@.skip(i + 4));
                assert(decoded@.skip(out0.len() as int) =~= seq![pixel]);
            }
            i + 4
        },
        Chunk::RGBA(rgba) => {
            proof {
                assert(s[1] == encoded@[i + 1]);
                assert(s[2] == encoded@[i + 2]);
                assert(s[3] == encoded@[i + 3]);
                assert(s[4] == encoded@[i + 4]);
            }
            let pixel = Pixel { r: rgba.r, g: rgba.g, b: rgba.b, a: rgba.a };
            hash.insert(&pixel);
            *previous = pixel;
            decoded.push(pixel);
            proof {
                assert(s.skip(5) =~= encoded@.skip(i + 5));
                assert(decoded@.skip(out0.len() as int) =~= seq![pixel]);
            }
            i + 5
        },
        Chunk::Run(run) => {
            let count = run.run as usize + 1;
            let mut j: usize = 0;
            proof {
                assert(decoded@ =~= out0 + Seq::new(0nat, |k: int| *previous));
            }
            while j < count
                invariant
                    j <= count,
                    decoded@ == out0 + Seq::new(j as nat, |k: int| *previous),
                decreases count - j,
            {
                decoded.push(*previous);
                j = j + 1;
                proof {
                    assert(decoded@ =~= out0 + Seq::new(j as nat, |k: int| *previous));
                }
            }
            proof {
                assert(s.skip(1) =~= encoded@.skip(i + 1));
                assert(decoded@.skip(out0.len() as int) =~= Seq::new(
                    count as nat,
                    |k: int| *previous,
                ));
            }
            i + 1
        },
    }
}

/// Decodes a byte stream back into its pixel sequence, as
/// [`model::decode_body`] reads it.  The first 14 bytes are the header and
/// are skipped; fewer than 14 bytes are a `FormatError`, and a stream that
/// ends in the middle of a multi-byte chunk is a `DecodeError`.
#[verifier::loop_isolation(false)]
pub fn decode_to_pix(encoded: &[u8]) -> (r: Result<Vec<Pixel>, QoiError>)
    ensures
        encoded@.len() < 14 ==> r is Err && r->Err_0 == QoiError::FormatError,
        encoded@.len() >= 14 ==> ({
            let full = model::decode_body(
                encoded@.skip(14),
                model::default_pixel(),
                model::init_cache(),
            );
            &&& (full is Some ==> r is Ok && r->Ok_0@ == full->Some_0)
            &&& (full is None ==> r is Err && r->Err_0 == QoiError::DecodeError)
        }),
{
    if encoded.len() < 14 {
        return Err(QoiError::FormatError);
    }
    let mut decoded: Vec<Pixel> = Vec::new();
    let mut hash = QOIHash::new();
    let mut previous = Pixel::default();
    let total = encoded.len();

    let mut i: usize = 14;
    while i < total
        invariant
            14 <= i <= total,
            hash.wf(),
            ({
                let full = model::decode_body(
                    encoded@.skip(14),
                    model::default_pixel(),
                    model::init_cache(),
                );
                let rest = model::decode_body(encoded@.skip(i as int), previous, hash@);
                &&& (rest is Some ==> full is Some && full->Some_0 == decoded@ + rest->Some_0)
                &&& (rest is None ==> full is None)
            }),
        decreases total - i,
    {
        let op = encoded[i];
        let need = chunk_len_of(op);
        if total - i < need {
            proof {
                assert(encoded@.skip(i as int)[0] == encoded@[i as int]);
                assert(model::decode_body(encoded@.skip(i as int), previous, hash@) is None);
            }
            return Err(QoiError::DecodeError);
        }
        let ghost out0 = decoded@;
        i = decode_step(encoded, i, &mut previous, &mut hash, &mut decoded);
        proof {
            let rest = model::decode_body(encoded@.skip(i as int), previous, hash@);
            let emitted = decoded@.skip(out0.len() as int);
            assert(decoded@ =~= out0 + emitted);
            if rest is Some {
                assert(out0 + (emitted + rest->Some_0) =~= (out0 + emitted) + rest->Some_0);
            }
        }
    }
    proof {
        assert(encoded@.skip(total as int) =~= Seq::<u8>::empty());
        assert(decoded@ + Seq::<Pixel>::empty() =~= decoded@);
    }
    Ok(decoded)
}

} // verus!
