use ser_file::{ColorId, Frame, FrameFormat, PixelDepth, PixelEndian, Ser};
use ser_file::{Image, ImageChannels, ImageLayout, ImageSamples};

fn gray8(w: u32, h: u32, data: Vec<u8>) -> Image {
    Image { width: w, height: h, channels: ImageChannels::Luma, samples: ImageSamples::U8(data) }
}

fn rgb16(w: u32, h: u32, data: Vec<u16>) -> Image {
    Image { width: w, height: h, channels: ImageChannels::Rgb, samples: ImageSamples::U16(data) }
}

#[test]
fn layouts_give_formats() {
    let f = FrameFormat::from_image_layout(ImageLayout::Rgb8, PixelEndian::Big, 3, 2).ok().unwrap();
    assert_eq!((*f.color(), *f.depth(), *f.endian(), *f.width(), *f.height()),
        (ColorId::RGB, PixelDepth::U8(8), PixelEndian::Big, 3, 2));
    let f = FrameFormat::from_image_layout(ImageLayout::Rgb16, PixelEndian::Little, 1, 1).ok().unwrap();
    assert_eq!((*f.color(), *f.depth()), (ColorId::RGB, PixelDepth::U16(16)));
    let f = FrameFormat::from_image_layout(ImageLayout::Luma8, PixelEndian::Little, 1, 1).ok().unwrap();
    assert_eq!((*f.color(), *f.depth()), (ColorId::MONO, PixelDepth::U8(8)));
    let f = FrameFormat::from_image_layout(ImageLayout::Luma16, PixelEndian::Little, 1, 1).ok().unwrap();
    assert_eq!((*f.color(), *f.depth()), (ColorId::MONO, PixelDepth::U16(16)));
}

#[test]
fn other_layouts_are_unsupported() {
    assert_eq!(
        FrameFormat::from_image_layout(ImageLayout::Other, PixelEndian::Little, 1, 1).err(),
        Some("Unsupported image type.")
    );
}

#[test]
fn format_of_an_image() {
    let f = FrameFormat::try_from_image(&gray8(4, 2, vec![0; 8])).ok().unwrap();
    assert_eq!((*f.color(), *f.depth(), *f.width(), *f.height()),
        (ColorId::MONO, PixelDepth::U8(8), 4, 2));
    assert_eq!(*f.endian(), PixelEndian::host_endian());
    let f = FrameFormat::try_from_image(&rgb16(1, 3, vec![0; 9])).ok().unwrap();
    assert_eq!((*f.color(), *f.depth(), *f.width(), *f.height()),
        (ColorId::RGB, PixelDepth::U16(16), 1, 3));
}

#[test]
fn images_with_alpha_are_unsupported() {
    let img = Image {
        width: 1,
        height: 1,
        channels: ImageChannels::Rgba,
        samples: ImageSamples::U8(vec![1, 2, 3, 4]),
    };
    assert_eq!(img.layout(), ImageLayout::Other);
    assert_eq!(FrameFormat::try_from_image(&img).err(), Some("Unsupported image type."));
    let img = Image {
        width: 1,
        height: 1,
        channels: ImageChannels::LumaA,
        samples: ImageSamples::U16(vec![1, 2]),
    };
    assert_eq!(FrameFormat::try_from_image(&img).err(), Some("Unsupported image type."));
}

#[test]
fn frame_of_other_dimensions_is_refused() {
    let f = FrameFormat::new(ColorId::MONO, PixelDepth::U8(8), PixelEndian::Little, 4, 2);
    let r = f.try_into_frame(gray8(2, 4, vec![0; 8]));
    assert_eq!(
        r.err(),
        Some("Incompatible image dimensions. All frames must have the same width and height.")
    );
    let r = f.try_new_frame(gray8(4, 1, vec![0; 4]));
    assert_eq!(
        r.err(),
        Some("Incompatible image dimensions. All frames must have the same width and height.")
    );
}

#[test]
fn frame_round_trips_through_an_image() {
    let f = FrameFormat::new(ColorId::MONO, PixelDepth::U8(8), PixelEndian::Little, 3, 2);
    let data = vec![1u8, 2, 3, 4, 5, 6];
    let frame = f.try_into_frame(gray8(3, 2, data.clone())).ok().unwrap();
    assert!(f.is_compatible(&frame));
    let img = frame.try_into_image().ok().unwrap();
    assert_eq!(img, gray8(3, 2, data));
}

#[test]
fn frame_converts_to_the_format_layout() {
    // A gray image stored in an RGB 16-bit format becomes RGB 16-bit samples.
    let f = FrameFormat::new(ColorId::RGB, PixelDepth::U16(16), PixelEndian::Little, 1, 1);
    let frame = f.try_into_frame(gray8(1, 1, vec![255])).ok().unwrap();
    assert!(f.is_compatible(&frame));
    let img = frame.try_into_image().ok().unwrap();
    assert_eq!(img, rgb16(1, 1, vec![65535u16, 65535, 65535]));
}

#[test]
fn gray_image_in_an_rgb_format() {
    let f = FrameFormat::new(ColorId::RGB, PixelDepth::U16(16), PixelEndian::Little, 2, 1);
    let frame = f.try_into_frame(gray8(2, 1, vec![0, 0])).ok().unwrap();
    assert!(f.is_compatible(&frame));
    let img = frame.try_into_image().ok().unwrap();
    assert_eq!(img, rgb16(2, 1, vec![0; 6]));
}

#[test]
fn rgb_image_in_a_gray_format() {
    let f = FrameFormat::new(ColorId::MONO, PixelDepth::U8(8), PixelEndian::Little, 1, 1);
    let frame = f.try_new_frame(rgb16(1, 1, vec![65535, 65535, 65535])).ok().unwrap();
    assert!(f.is_compatible(&frame));
    assert_eq!(frame.try_into_image().ok().unwrap(), gray8(1, 1, vec![255]));
}

#[test]
fn compatibility_checks_depth_and_size() {
    let f8 = FrameFormat::new(ColorId::MONO, PixelDepth::U8(8), PixelEndian::Little, 2, 2);
    let f16 = FrameFormat::new(ColorId::MONO, PixelDepth::U16(16), PixelEndian::Little, 2, 2);
    let rgb8 = FrameFormat::new(ColorId::RGB, PixelDepth::U8(8), PixelEndian::Little, 2, 2);
    let frame = f8.try_into_frame(gray8(2, 2, vec![0; 4])).ok().unwrap();
    assert!(f8.is_compatible(&frame));
    assert!(!f16.is_compatible(&frame));
    assert!(!rgb8.is_compatible(&frame));
    let other = FrameFormat::new(ColorId::MONO, PixelDepth::U8(8), PixelEndian::Little, 4, 1);
    assert!(!other.is_compatible(&frame));
}

#[test]
fn frames_read_from_bytes_make_images() {
    let f = FrameFormat::new(ColorId::RGB, PixelDepth::U8(8), PixelEndian::Little, 1, 1);
    let (frame, n) = Frame::from_bytes(&[7, 8, 9, 10], &f).ok().unwrap();
    assert_eq!(n, 3);
    let mono = FrameFormat::new(ColorId::MONO, PixelDepth::U8(8), PixelEndian::Little, 1, 1);
    assert!(!mono.is_compatible(&frame));
    assert_eq!(frame.try_into_image().ok().unwrap(), Image {
        width: 1,
        height: 1,
        channels: ImageChannels::Rgb,
        samples: ImageSamples::U8(vec![7, 8, 9]),
    });
}

#[test]
fn extra_samples_are_kept() {
    let f = FrameFormat::new(ColorId::MONO, PixelDepth::U8(8), PixelEndian::Little, 1, 1);
    let frame = f.try_into_frame(gray8(1, 1, vec![4, 5])).ok().unwrap();
    assert!(!f.is_compatible(&frame));
    assert_eq!(frame.try_into_image().ok().unwrap(), gray8(1, 1, vec![4, 5]));
}

#[test]
fn create_a_ser_from_one_image() {
    let img = rgb16(2, 1, vec![1, 2, 3, 4, 5, 6]);
    let format = FrameFormat::try_from_image(&img).ok().unwrap();
    let mut ser = Ser::with_format(format);
    let mut frames = ser.frames_mut();
    let frame = frames.format().try_into_frame(img).ok().unwrap();
    assert!(frames.try_push(frame, None).is_ok());
    assert_eq!(ser.frame_count(), 1);
    let items = ser.iter();
    assert_eq!(items.len(), 1);
    assert!(items[0].1.is_none());
    let back = items[0].0.clone().try_into_image().ok().unwrap();
    assert_eq!(back, rgb16(2, 1, vec![1, 2, 3, 4, 5, 6]));
}

#[test]
fn image_frame_image_round_trip() {
    for img in [
        gray8(2, 1, vec![3, 4]),
        rgb16(1, 1, vec![1, 2, 3]),
        Image { width: 1, height: 2, channels: ImageChannels::Rgb, samples: ImageSamples::U8(vec![1, 2, 3, 4, 5, 6]) },
        Image { width: 1, height: 1, channels: ImageChannels::Luma, samples: ImageSamples::U16(vec![513]) },
    ] {
        let format = FrameFormat::try_from_image(&img).ok().unwrap();
        let copy = Image {
            width: img.width,
            height: img.height,
            channels: img.channels,
            samples: match &img.samples {
                ImageSamples::U8(p) => ImageSamples::U8(p.clone()),
                ImageSamples::U16(p) => ImageSamples::U16(p.clone()),
            },
        };
        let frame = format.try_into_frame(img).ok().unwrap();
        assert_eq!(frame.try_into_image().ok().unwrap(), copy);
    }
}
