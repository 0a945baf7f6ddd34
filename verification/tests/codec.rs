use qoi::{decode_to_pix, decode_to_u8, encode_from_pix, encode_from_u8, Pixel, QoiError};

/// Walks the chunk structure of an encoded body and returns the first
/// byte of every chunk.
fn chunk_tags(body: &[u8]) -> Vec<u8> {
    let mut tags = Vec::new();
    let mut i = 0;
    while i < body.len() {
        let b0 = body[i];
        tags.push(b0);
        i += if b0 < 128 {
            1
        } else if b0 < 192 {
            2
        } else if b0 == 254 {
            4
        } else if b0 == 255 {
            5
        } else {
            1
        };
    }
    tags
}

#[test]
fn run_of_seventy_splits_into_two_chunks() {
    let pixels = vec![Pixel::default(); 70];
    let encoded = encode_from_pix(&pixels, 70, 1).unwrap();
    // One run of 62 (stored count 61), then one of 8 (stored count 7).
    assert_eq!(&encoded[14..], &[192 + 61, 192 + 7]);
    let tags = chunk_tags(&encoded[14..]);
    assert_eq!(tags.len(), 2);
    assert!(tags.iter().all(|t| *t >= 192 && *t < 254));
    let decoded = decode_to_pix(&encoded).unwrap();
    assert_eq!(pixels, decoded);
}

#[test]
fn evicted_pixel_is_not_index_encoded() {
    // The 64 gray pixels hash to all 64 slots (15 is invertible modulo
    // 64), so every slot, including the one of the first pixel, is
    // overwritten before that pixel reappears.
    let mut pixels = vec![Pixel { r: 200, g: 50, b: 50, a: 255 }];
    for i in 1..=64u8 {
        pixels.push(Pixel { r: i, g: i, b: i, a: 255 });
    }
    pixels.push(Pixel { r: 200, g: 50, b: 50, a: 255 });
    let encoded = encode_from_pix(&pixels, 66, 1).unwrap();
    // No chunk anywhere in the body may be an Index chunk (first byte
    // below 64): in particular the reappearance is not index-encoded.
    let tags = chunk_tags(&encoded[14..]);
    assert!(tags.iter().all(|t| *t >= 64));
    let decoded = decode_to_pix(&encoded).unwrap();
    assert_eq!(pixels, decoded);
}

#[test]
fn cached_pixel_is_index_encoded() {
    let a = Pixel { r: 200, g: 50, b: 50, a: 255 };
    let b = Pixel { r: 0, g: 255, b: 0, a: 255 };
    let pixels = vec![a, b, a];
    let encoded = encode_from_pix(&pixels, 3, 1).unwrap();
    // Two literals, then an Index chunk naming a's slot,
    // (3*200 + 5*50 + 7*50 + 11*255) % 64 == 37.
    assert_eq!(
        &encoded[14..],
        &[254, 200, 50, 50, 254, 0, 255, 0, 37]
    );
    let decoded = decode_to_pix(&encoded).unwrap();
    assert_eq!(pixels, decoded);
}

#[test]
fn alpha_transition_forces_rgba_literal() {
    let pixels = vec![
        Pixel { r: 10, g: 10, b: 10, a: 255 },
        Pixel { r: 10, g: 10, b: 10, a: 128 },
    ];
    let encoded = encode_from_pix(&pixels, 2, 1).unwrap();
    // A Luma chunk for the first pixel, then a literal-RGBA chunk: no
    // delta chunk can carry the alpha change.
    assert_eq!(&encoded[14..], &[170, 136, 255, 10, 10, 10, 128]);
    let decoded = decode_to_pix(&encoded).unwrap();
    assert_eq!(pixels, decoded);
}

#[test]
fn diff_luma_boundary() {
    let pixels = vec![
        Pixel { r: 100, g: 100, b: 100, a: 255 },
        Pixel { r: 101, g: 101, b: 101, a: 255 },
        Pixel { r: 103, g: 101, b: 101, a: 255 },
    ];
    let encoded = encode_from_pix(&pixels, 3, 1).unwrap();
    // A literal for the first pixel; deltas (1,1,1) select Diff; deltas
    // (2,0,0) fall out of Diff's [-2,1] and into Luma.
    assert_eq!(
        &encoded[14..],
        &[254, 100, 100, 100, 0b0111_1111, 160, 168]
    );
    let decoded = decode_to_pix(&encoded).unwrap();
    assert_eq!(pixels, decoded);
}

#[test]
fn empty_image_is_header_only() {
    let none: Vec<Pixel> = Vec::new();
    let encoded = encode_from_pix(&none, 0, 5).unwrap();
    assert_eq!(encoded.len(), 14);
    assert_eq!(decode_to_pix(&encoded).unwrap(), none);

    let encoded = encode_from_pix(&none, 7, 0).unwrap();
    assert_eq!(encoded.len(), 14);
    assert_eq!(decode_to_pix(&encoded).unwrap(), none);
}

#[test]
fn size_mismatch_is_rejected() {
    let pixels = vec![Pixel::default(); 3];
    assert_eq!(
        encode_from_pix(&pixels, 2, 2),
        Err(QoiError::SizeMismatch)
    );
    let bytes = vec![0u8; 16];
    assert_eq!(encode_from_u8(&bytes, 3, 2), Err(QoiError::SizeMismatch));
}

#[test]
fn truncated_stream_is_rejected() {
    let pixels = vec![
        Pixel { r: 10, g: 10, b: 10, a: 255 },
        Pixel { r: 10, g: 10, b: 10, a: 128 },
    ];
    let encoded = encode_from_pix(&pixels, 2, 1).unwrap();
    // Cutting the last byte leaves the literal-RGBA chunk incomplete.
    assert_eq!(
        decode_to_pix(&encoded[..encoded.len() - 1]),
        Err(QoiError::DecodeError)
    );
    // Fewer than 14 bytes: the header itself is truncated.
    assert_eq!(decode_to_pix(&encoded[..10]), Err(QoiError::FormatError));
}

#[test]
fn byte_buffer_roundtrip() {
    let mut bytes = Vec::new();
    for i in 0..16u8 {
        bytes.push(i * 3);
        bytes.push(i * 5);
        bytes.push(i * 7);
        bytes.push(255);
    }
    let encoded = encode_from_u8(&bytes, 4, 4).unwrap();
    let decoded = decode_to_u8(&encoded).unwrap();
    assert_eq!(bytes, decoded);
}

#[test]
fn byte_buffer_alpha_is_forced_opaque() {
    // The fourth byte of each input group is dropped on encode; decoded
    // buffers always carry 255 there.
    let bytes = vec![9, 8, 7, 13];
    let encoded = encode_from_u8(&bytes, 1, 1).unwrap();
    let decoded = decode_to_u8(&encoded).unwrap();
    assert_eq!(decoded, vec![9, 8, 7, 255]);
}

#[test]
fn random_pixels_are_opaque() {
    for _ in 0..100 {
        assert_eq!(Pixel::random().a, 255);
    }
}
