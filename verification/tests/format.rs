use ser_file::{ColorId, FrameFormat, PixelChannels, PixelDepth, PixelEndian, PixelEndianness, Pixels};

const ALL_COLORS: [(ColorId, i32); 11] = [
    (ColorId::MONO, 0),
    (ColorId::BAYER_RGGB, 8),
    (ColorId::BAYER_GRBG, 9),
    (ColorId::BAYER_GBRG, 10),
    (ColorId::BAYER_BGGR, 11),
    (ColorId::BAYER_CYYM, 16),
    (ColorId::BAYER_YCMY, 17),
    (ColorId::BAYER_YMCY, 18),
    (ColorId::BAYER_MYYC, 19),
    (ColorId::RGB, 100),
    (ColorId::BGR, 101),
];

#[test]
fn color_codes_match_the_format_description() {
    for (color, code) in ALL_COLORS {
        assert_eq!(color.code(), code);
        assert_eq!(ColorId::from_code(code), Some(color));
    }
}

#[test]
fn unknown_color_codes_name_nothing() {
    for code in [-1, 1, 7, 12, 15, 20, 99, 102, i32::MAX] {
        assert_eq!(ColorId::from_code(code), None);
    }
}

#[test]
fn endian_codes() {
    assert_eq!(PixelEndian::Big.code(), 0);
    assert_eq!(PixelEndian::Little.code(), 1);
    assert_eq!(PixelEndian::from_code(0), Some(PixelEndian::Big));
    assert_eq!(PixelEndian::from_code(1), Some(PixelEndian::Little));
    assert_eq!(PixelEndian::from_code(2), None);
    let e: PixelEndianness = PixelEndian::Little;
    assert_eq!(e, PixelEndian::Little);
}

#[test]
fn host_endian_is_the_machine_order() {
    let expected = if u16::from_ne_bytes([0, 1]) == 1 {
        PixelEndian::Big
    } else {
        PixelEndian::Little
    };
    assert_eq!(PixelEndian::host_endian(), expected);
}

#[test]
fn more_than_eight_bits_are_sixteen_bit_samples() {
    assert_eq!(PixelDepth::from(8), PixelDepth::U8(8));
    assert_eq!(PixelDepth::from(9), PixelDepth::U16(9));
    assert_eq!(PixelDepth::from(16), PixelDepth::U16(16));
    assert_eq!(PixelDepth::from(0), PixelDepth::U8(0));
    assert_eq!(PixelDepth::from(-3), PixelDepth::U8(-3));
}

#[test]
fn depth_bits_survive() {
    for bits in [-3, 0, 1, 8, 9, 12, 16, i32::MAX] {
        assert_eq!(i32::from(&PixelDepth::from(bits)), bits);
    }
}

#[test]
fn channels_of_colors() {
    for (color, _) in ALL_COLORS {
        let channels = PixelChannels::from(&color);
        if color == ColorId::RGB || color == ColorId::BGR {
            assert_eq!(channels, PixelChannels::Rgb);
            assert_eq!(channels.len(), 3);
        } else {
            assert_eq!(channels, PixelChannels::Luma);
            assert_eq!(channels.len(), 1);
        }
    }
    assert_eq!(ColorId::from(&PixelChannels::Rgb), ColorId::RGB);
    assert_eq!(ColorId::from(&PixelChannels::Luma), ColorId::MONO);
}

#[test]
fn raw_len_counts_samples() {
    let rgb = FrameFormat::new(ColorId::BGR, PixelDepth::U16(12), PixelEndian::Big, 1936, 1096);
    assert_eq!(rgb.raw_len(), 3 * 1936 * 1096);
    let bayer = FrameFormat::new(ColorId::BAYER_BGGR, PixelDepth::U16(16), PixelEndian::Little, 1936, 1096);
    assert_eq!(bayer.raw_len(), 1936 * 1096);
    let empty = FrameFormat::new(ColorId::MONO, PixelDepth::U8(8), PixelEndian::Little, 0, 7);
    assert_eq!(empty.raw_len(), 0);
}

#[test]
fn format_getters_and_setters() {
    let mut f = FrameFormat::new(ColorId::MONO, PixelDepth::U8(8), PixelEndian::Big, 4, 3);
    assert_eq!(*f.color(), ColorId::MONO);
    assert_eq!(*f.depth(), PixelDepth::U8(8));
    assert_eq!(*f.endian(), PixelEndian::Big);
    assert_eq!(*f.width(), 4);
    assert_eq!(*f.height(), 3);
    f.set_color(ColorId::RGB)
        .set_depth(PixelDepth::U16(10))
        .set_endian(PixelEndian::Little)
        .set_width(7)
        .set_height(9);
    assert_eq!(*f.color(), ColorId::RGB);
    assert_eq!(*f.depth(), PixelDepth::U16(10));
    assert_eq!(*f.endian(), PixelEndian::Little);
    assert_eq!(*f.width(), 7);
    assert_eq!(*f.height(), 9);
    assert_eq!(f.raw_len(), 3 * 7 * 9);
}

#[test]
fn pixels_length_and_depth() {
    let p = Pixels::Rgb16(vec![1, 2, 3, 4, 5, 6]);
    assert_eq!(p.len(), 6);
    assert!(p.has_depth(&PixelDepth::U16(16)));
    assert!(!p.has_depth(&PixelDepth::U8(8)));
    let q = Pixels::Luma8(vec![1, 2]);
    assert_eq!(q.len(), 2);
    assert!(q.has_depth(&PixelDepth::U8(7)));
    assert!(!q.has_depth(&PixelDepth::U16(9)));
}
