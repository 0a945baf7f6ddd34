use qoi::{encode_from_pix, header, Channels, ColorSpace, Pixel, QoiError, QoiHeader};

#[test]
fn header_roundtrip_all_tags() {
    let cases = [
        (0u32, 0u32, Channels::RGB, ColorSpace::SRGB),
        (1, 1, Channels::RGB, ColorSpace::Linear),
        (640, 480, Channels::RGBA, ColorSpace::SRGB),
        (0xDEADBEEF, 0x01020304, Channels::RGBA, ColorSpace::Linear),
        (u32::MAX, 1, Channels::RGB, ColorSpace::SRGB),
    ];
    for (w, h, c, cs) in cases {
        let bytes = header(w, h, c, cs);
        assert_eq!(bytes.len(), 14);
        let parsed = QoiHeader::from_u8(&bytes).unwrap();
        assert_eq!(parsed.width, w);
        assert_eq!(parsed.height, h);
        assert_eq!(parsed.channels, c);
        assert_eq!(parsed.color_space, cs);
    }
}

#[test]
fn header_layout_is_big_endian() {
    let bytes = header(0x01020304, 0x0A0B0C0D, Channels::RGB, ColorSpace::SRGB);
    assert_eq!(
        bytes,
        vec![113, 111, 105, 102, 1, 2, 3, 4, 0x0A, 0x0B, 0x0C, 0x0D, 3, 0]
    );
}

#[test]
fn invalid_headers_are_rejected() {
    let good = header(2, 2, Channels::RGBA, ColorSpace::Linear);

    // Truncated.
    assert_eq!(
        QoiHeader::from_u8(&good[..13]),
        Err(QoiError::FormatError)
    );

    // Wrong magic.
    let mut bad_magic = good.clone();
    bad_magic[0] = 112;
    assert_eq!(QoiHeader::from_u8(&bad_magic), Err(QoiError::FormatError));

    // Channel tag out of {3, 4}.
    let mut bad_channels = good.clone();
    bad_channels[12] = 5;
    assert_eq!(
        QoiHeader::from_u8(&bad_channels),
        Err(QoiError::FormatError)
    );

    // Colorspace tag out of {0, 1}.
    let mut bad_colorspace = good.clone();
    bad_colorspace[13] = 2;
    assert_eq!(
        QoiHeader::from_u8(&bad_colorspace),
        Err(QoiError::FormatError)
    );
}

#[test]
fn encoded_stream_carries_its_header() {
    let pixels = vec![Pixel::default(); 6];
    let encoded = encode_from_pix(&pixels, 3, 2).unwrap();
    let parsed = QoiHeader::from_u8(&encoded).unwrap();
    assert_eq!(parsed.width, 3);
    assert_eq!(parsed.height, 2);
    assert_eq!(parsed.channels, Channels::RGB);
    assert_eq!(parsed.color_space, ColorSpace::SRGB);
}
