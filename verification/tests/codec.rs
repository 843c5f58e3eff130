use ser_file::{
    ColorId, FixedString, Frame, FrameFormat, Image, ImageChannels, ImageSamples, ParseError,
    PixelDepth, PixelEndian, Ser, Timestamp,
};

fn header(color: i32, endian: i32, w: i32, h: i32, depth: i32, count: i32, dt: u64, dtu: u64) -> Vec<u8> {
    let mut b = b"LUCAM-RECORDER".to_vec();
    for x in [0i32, color, endian, w, h, depth, count] {
        b.extend_from_slice(&x.to_le_bytes());
    }
    b.extend_from_slice(&[b'O'; 40]);
    b.extend_from_slice(&[b'I'; 40]);
    b.extend_from_slice(&[b'T'; 40]);
    b.extend_from_slice(&dt.to_le_bytes());
    b.extend_from_slice(&dtu.to_le_bytes());
    b
}

fn gray_frame(format: &FrameFormat, data: Vec<u8>) -> Frame {
    let img = Image {
        width: *format.width(),
        height: *format.height(),
        channels: ImageChannels::Luma,
        samples: ImageSamples::U8(data),
    };
    format.try_into_frame(img).ok().unwrap()
}

fn read(bytes: &[u8]) -> Result<(Ser, usize), ParseError> {
    assert!(Ser::is_readable(bytes));
    Ser::from_bytes(bytes)
}

#[test]
fn empty_document_writes_a_bare_header() {
    let format = FrameFormat::new(ColorId::BAYER_BGGR, PixelDepth::U16(12), PixelEndian::Big, 1936, 1096);
    let bytes = Ser::with_format(format).to_bytes();
    assert_eq!(bytes.len(), 178);
    assert_eq!(&bytes[0..14], b"LUCAM-RECORDER");
    assert_eq!(&bytes[14..18], &0i32.to_le_bytes());
    assert_eq!(&bytes[18..22], &11i32.to_le_bytes());
    assert_eq!(&bytes[22..26], &0i32.to_le_bytes());
    assert_eq!(&bytes[26..30], &1936i32.to_le_bytes());
    assert_eq!(&bytes[30..34], &1096i32.to_le_bytes());
    assert_eq!(&bytes[34..38], &12i32.to_le_bytes());
    assert_eq!(&bytes[38..42], &0i32.to_le_bytes());
    assert!(bytes[42..162].iter().all(|b| *b == 0));
    assert!(bytes[162..178].iter().all(|b| *b == 0));
}

#[test]
fn frames_and_trailer_follow_the_header() {
    let format = FrameFormat::new(ColorId::MONO, PixelDepth::U8(8), PixelEndian::Little, 2, 2);
    let mut ser = Ser::with_format(format);
    ser.dates_mut()
        .try_set_dates(Timestamp::Valid(11), Timestamp::Valid(12), vec![])
        .unwrap();
    {
        let mut frames = ser.frames_mut();
        let f = gray_frame(frames.format(), vec![1, 2, 3, 4]);
        frames.try_push(f, Some(Timestamp::Valid(0x0102))).unwrap();
        let f = gray_frame(frames.format(), vec![5, 6, 7, 8]);
        frames.try_push(f, Some(Timestamp::Valid(0x0304))).unwrap();
    }
    let bytes = ser.to_bytes();
    assert_eq!(bytes.len(), 178 + 2 * 4 + 2 * 8);
    assert_eq!(&bytes[38..42], &2i32.to_le_bytes());
    assert_eq!(&bytes[162..170], &11u64.to_le_bytes());
    assert_eq!(&bytes[170..178], &12u64.to_le_bytes());
    assert_eq!(&bytes[178..186], &[1, 2, 3, 4, 5, 6, 7, 8]);
    assert_eq!(&bytes[186..194], &0x0102u64.to_le_bytes());
    assert_eq!(&bytes[194..202], &0x0304u64.to_le_bytes());
}

fn rgb16_image(data: Vec<u16>) -> Image {
    Image { width: 1, height: 1, channels: ImageChannels::Rgb, samples: ImageSamples::U16(data) }
}

#[test]
fn sixteen_bit_samples_follow_the_header_byte_order() {
    let format = FrameFormat::new(ColorId::RGB, PixelDepth::U16(16), PixelEndian::Big, 1, 1);
    let mut ser = Ser::with_format(format);
    let f = format.try_into_frame(rgb16_image(vec![0x0102, 0x0304, 0x0506])).ok().unwrap();
    ser.frames_mut().try_push(f, None).unwrap();
    let bytes = ser.to_bytes();
    assert_eq!(&bytes[22..26], &0i32.to_le_bytes());
    assert_eq!(&bytes[178..], &[1, 2, 3, 4, 5, 6]);
    let (back, _) = read(&bytes).unwrap();
    assert_eq!(back.to_bytes(), bytes);

    let format = FrameFormat::new(ColorId::RGB, PixelDepth::U16(16), PixelEndian::Little, 1, 1);
    let mut ser = Ser::with_format(format);
    let f = format.try_into_frame(rgb16_image(vec![0x0102, 0x0304, 0x0506])).ok().unwrap();
    ser.frames_mut().try_push(f, None).unwrap();
    let bytes = ser.to_bytes();
    assert_eq!(&bytes[22..26], &1i32.to_le_bytes());
    assert_eq!(&bytes[178..], &[2, 1, 4, 3, 6, 5]);
}

#[test]
fn frame_writer_takes_a_byte_order() {
    let format = FrameFormat::new(ColorId::MONO, PixelDepth::U16(16), PixelEndian::Little, 2, 1);
    let img = Image {
        width: 2,
        height: 1,
        channels: ImageChannels::Luma,
        samples: ImageSamples::U16(vec![1, 0x0203]),
    };
    let frame = format.try_into_frame(img).ok().unwrap();
    assert_eq!(frame.to_bytes(PixelEndian::Big), vec![0x00u8, 0x01, 0x02, 0x03]);
    assert_eq!(frame.to_bytes(PixelEndian::Little), vec![0x01u8, 0x00, 0x03, 0x02]);
}

#[test]
fn frame_reader_uses_the_format_byte_order() {
    let big = FrameFormat::new(ColorId::MONO, PixelDepth::U16(16), PixelEndian::Big, 1, 1);
    let (frame, n) = Frame::from_bytes(&[0x01u8, 0x02], &big).ok().unwrap();
    assert_eq!(n, 2);
    assert_eq!(frame.to_bytes(PixelEndian::Big), vec![0x01u8, 0x02]);
    assert_eq!(frame.clone().try_into_image().ok().unwrap(), Image {
        width: 1,
        height: 1,
        channels: ImageChannels::Luma,
        samples: ImageSamples::U16(vec![0x0102]),
    });
    let little = FrameFormat::new(ColorId::MONO, PixelDepth::U16(16), PixelEndian::Little, 1, 1);
    let (frame, _) = Frame::from_bytes(&[0x01u8, 0x02, 0x09], &little).ok().unwrap();
    assert_eq!(frame.try_into_image().ok().unwrap().samples, ImageSamples::U16(vec![0x0201]));
}

#[test]
fn frame_reader_needs_a_whole_frame() {
    let format = FrameFormat::new(ColorId::RGB, PixelDepth::U16(16), PixelEndian::Big, 1, 1);
    assert_eq!(Frame::from_bytes(&[0u8; 5], &format).err(), Some(ParseError::UnexpectedEnd));
    let format = FrameFormat::new(ColorId::MONO, PixelDepth::U8(8), PixelEndian::Big, 2, 2);
    assert_eq!(Frame::from_bytes(&[0u8; 3], &format).err(), Some(ParseError::UnexpectedEnd));
    assert!(Frame::from_bytes(&[0u8; 4], &format).is_ok());
}

#[test]
fn reading_written_bytes_gives_the_document_back() {
    let format = FrameFormat::new(ColorId::MONO, PixelDepth::U8(8), PixelEndian::Little, 3, 1);
    let mut ser = Ser::with_format(format);
    ser.set_lu_id(-5).set_observer(FixedString::from_string(format!("{:<40}", "Me")));
    ser.dates_mut()
        .try_set_dates(Timestamp::Valid(100), Timestamp::Valid(200), vec![])
        .unwrap();
    {
        let mut frames = ser.frames_mut();
        let f = gray_frame(frames.format(), vec![9, 8, 7]);
        frames.try_push(f, Some(Timestamp::Valid(300))).unwrap();
    }
    let bytes = ser.to_bytes();
    let (back, used) = read(&bytes).unwrap();
    assert_eq!(used, bytes.len());
    assert_eq!(*back.lu_id(), -5);
    assert_eq!(back.observer().to_display_string(), format!("{:<40}", "Me"));
    assert_eq!(*back.datetime(), Timestamp::Valid(100));
    assert_eq!(*back.datetime_utc(), Timestamp::Valid(200));
    assert_eq!(back.frame_count(), 1);
    assert_eq!(back.iter_trailer(), &[Timestamp::Valid(300)]);
    let img = back.iter_frames()[0].clone().try_into_image().ok().unwrap();
    assert_eq!(img.samples, ImageSamples::U8(vec![9, 8, 7]));
    assert_eq!(back.to_bytes(), bytes);
}

#[test]
fn writing_read_bytes_gives_the_bytes_back() {
    let mut bytes = header(100, 1, 2, 1, 16, 1, 5, 6);
    bytes.extend_from_slice(&[1, 2, 3, 4, 5, 6, 7, 8, 9, 10, 11, 12]);
    bytes.extend_from_slice(&77u64.to_le_bytes());
    let (ser, used) = read(&bytes).unwrap();
    assert_eq!(used, bytes.len());
    assert_eq!(*ser.color_id(), ColorId::RGB);
    assert_eq!(*ser.pixel_depth_per_plane(), PixelDepth::U16(16));
    assert_eq!(ser.to_bytes(), bytes);
}

#[test]
fn bytes_after_the_file_are_left() {
    let mut bytes = header(0, 0, 1, 1, 8, 1, 0, 0);
    bytes.push(42);
    bytes.extend_from_slice(&[1, 2, 3]);
    let (ser, used) = read(&bytes).unwrap();
    assert_eq!(used, 179);
    assert_eq!(ser.frame_count(), 1);
    assert!(ser.iter_trailer().is_empty());
    assert_eq!(ser.to_bytes(), bytes[..179].to_vec());
}

#[test]
fn short_input_ends_unexpectedly() {
    assert_eq!(read(b"LUCAM").err(), Some(ParseError::UnexpectedEnd));
    assert_eq!(read(b"LUCAM-RECORDER").err(), Some(ParseError::UnexpectedEnd));
    let bytes = header(0, 0, 1, 1, 8, 0, 0, 0);
    assert_eq!(read(&bytes[..100]).err(), Some(ParseError::UnexpectedEnd));
    assert_eq!(read(&bytes[..177]).err(), Some(ParseError::UnexpectedEnd));
}

#[test]
fn wrong_magic_is_refused() {
    let mut bytes = header(0, 0, 1, 1, 8, 0, 0, 0);
    bytes[0] = b'X';
    assert_eq!(read(&bytes).err(), Some(ParseError::BadMagic));
}

#[test]
fn unknown_codes_are_refused() {
    let bytes = header(7, 0, 1, 1, 8, 0, 0, 0);
    assert_eq!(read(&bytes).err(), Some(ParseError::UnknownColorId(7)));
    let bytes = header(0, 2, 1, 1, 8, 0, 0, 0);
    assert_eq!(read(&bytes).err(), Some(ParseError::UnknownPixelEndian(2)));
    // The color id is read before the endianness.
    let bytes = header(3, 9, 1, 1, 8, 0, 0, 0);
    assert_eq!(read(&bytes).err(), Some(ParseError::UnknownColorId(3)));
}

#[test]
fn missing_frames_or_timestamps_end_unexpectedly() {
    let mut bytes = header(0, 0, 2, 2, 8, 2, 0, 0);
    bytes.extend_from_slice(&[0; 7]);
    assert_eq!(read(&bytes).err(), Some(ParseError::UnexpectedEnd));
    let mut bytes = header(0, 0, 1, 1, 8, 1, 1, 0);
    bytes.push(3);
    bytes.extend_from_slice(&[0; 7]);
    assert_eq!(read(&bytes).err(), Some(ParseError::UnexpectedEnd));
}

#[test]
fn negative_frame_count_ends_unexpectedly() {
    let mut bytes = header(0, 0, 1, 1, 8, -1, 0, 0);
    bytes.extend_from_slice(&[0; 16]);
    assert_eq!(read(&bytes).err(), Some(ParseError::UnexpectedEnd));
}

#[test]
fn invalid_datetime_means_no_trailer() {
    let mut bytes = header(0, 0, 1, 1, 8, 1, 1u64 << 62, 9);
    bytes.push(5);
    let (ser, used) = read(&bytes).unwrap();
    assert_eq!(used, 179);
    assert!(!ser.has_frame_timestamps());
    assert_eq!(*ser.datetime(), Timestamp::Invalid(1 << 62));
    assert_eq!(*ser.datetime_utc(), Timestamp::Valid(9));
}

#[test]
fn negative_datetime_means_no_trailer_but_negative_utc_stays_valid() {
    let neg = (1u64 << 63) | 7;
    let mut bytes = header(0, 0, 1, 1, 8, 1, neg, neg);
    bytes.push(5);
    let (ser, used) = read(&bytes).unwrap();
    assert_eq!(used, 179);
    assert!(!ser.has_frame_timestamps());
    assert_eq!(*ser.datetime(), Timestamp::Invalid(neg));
    assert_eq!(*ser.datetime_utc(), Timestamp::Valid(neg));
    assert_eq!(ser.to_bytes(), bytes);
}

#[test]
fn trailer_timestamps_with_the_top_bit_are_valid() {
    let top = (1u64 << 63) | 3;
    let mut bytes = header(0, 0, 1, 1, 8, 1, 11, 12);
    bytes.push(5);
    bytes.extend_from_slice(&top.to_le_bytes());
    let (ser, used) = read(&bytes).unwrap();
    assert_eq!(used, 187);
    assert_eq!(ser.iter_trailer(), &[Timestamp::Valid(top)]);
    assert_eq!(ser.to_bytes(), bytes);
}

#[test]
fn unreadable_headers_are_reported() {
    // A negative count of empty frames would be read without end.
    assert!(!Ser::is_readable(&header(0, 0, 0, 5, 8, -1, 0, 0)));
    // Samples of 8 bits beyond isize::MAX cannot be reserved.
    assert!(!Ser::is_readable(&header(100, 0, -1, -1, 8, 1, 0, 0)));
    // Without frames nothing is computed.
    assert!(Ser::is_readable(&header(100, 0, -1, -1, 8, 0, 0, 0)));
    assert!(Ser::is_readable(&header(0, 0, 0, 5, 8, 3, 0, 0)));
    assert!(Ser::is_readable(b"garbage"));
}

#[test]
fn zero_sized_frames_are_read() {
    let bytes = header(0, 0, 0, 5, 8, 3, 0, 0);
    let (ser, used) = read(&bytes).unwrap();
    assert_eq!(used, 178);
    assert_eq!(ser.frame_count(), 3);
}

#[test]
fn cleared_dates_round_trip() {
    let format = FrameFormat::new(ColorId::MONO, PixelDepth::U16(10), PixelEndian::Little, 1, 1);
    let mut ser = Ser::with_format(format);
    ser.dates_mut()
        .try_set_dates(Timestamp::Valid(1), Timestamp::Valid(2), vec![])
        .unwrap();
    let img = Image {
        width: 1,
        height: 1,
        channels: ImageChannels::Luma,
        samples: ImageSamples::U16(vec![1023]),
    };
    let f = format.try_into_frame(img).ok().unwrap();
    ser.frames_mut().try_push(f, Some(Timestamp::Valid(3))).unwrap();
    ser.dates_mut().clear();
    let bytes = ser.to_bytes();
    assert_eq!(bytes.len(), 178 + 2);
    let (back, used) = read(&bytes).unwrap();
    assert_eq!(used, 180);
    assert!(!back.has_frame_timestamps());
    assert_eq!(back.frame_count(), 1);
    assert_eq!(back.to_bytes(), bytes);
}

#[test]
fn create_a_ser_containing_a_single_image() {
    let img = Image {
        width: 2,
        height: 1,
        channels: ImageChannels::Rgb,
        samples: ImageSamples::U8(vec![1, 2, 3, 4, 5, 6]),
    };
    let format = FrameFormat::try_from_image(&img).ok().unwrap();
    let mut ser = Ser::with_format(format);
    {
        let mut frames = ser.frames_mut();
        let frame = frames.format().try_into_frame(img).ok().unwrap();
        frames.try_push(frame, None).unwrap();
    }
    let bytes = ser.to_bytes();
    assert_eq!(bytes.len(), 178 + 6);
    assert_eq!(&bytes[18..22], &100i32.to_le_bytes());
    assert_eq!(&bytes[34..38], &8i32.to_le_bytes());
    assert_eq!(&bytes[178..], &[1, 2, 3, 4, 5, 6]);
    let (back, _) = read(&bytes).unwrap();
    let out = back.into_iter();
    assert_eq!(out.len(), 1);
    let img = out[0].0.clone().try_into_image().ok().unwrap();
    assert_eq!(img.samples, ImageSamples::U8(vec![1, 2, 3, 4, 5, 6]));
}
