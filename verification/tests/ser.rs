use ser_file::{
    ColorId, DateErrors, FixedString, Frame, FrameFormat, FramePushErrors, Image, ImageChannels,
    ImageSamples, PixelDepth, PixelEndian, Ser, Timestamp,
};

fn mono8(w: u32, h: u32) -> FrameFormat {
    FrameFormat::new(ColorId::MONO, PixelDepth::U8(8), PixelEndian::Little, w, h)
}

fn gray_frame(format: &FrameFormat, data: Vec<u8>) -> Frame {
    let img = Image {
        width: *format.width(),
        height: *format.height(),
        channels: ImageChannels::Luma,
        samples: ImageSamples::U8(data),
    };
    format.try_into_frame(img).ok().unwrap()
}

fn first_sample(frame: &Frame) -> u8 {
    match frame.clone().try_into_image().ok().unwrap().samples {
        ImageSamples::U8(p) => p[0],
        ImageSamples::U16(_) => panic!("8-bit frame expected"),
    }
}

#[test]
fn new_document_is_empty() {
    let ser = Ser::with_format(mono8(3, 2));
    assert_eq!(ser.frame_count(), 0);
    assert!(!ser.has_frame_timestamps());
    assert!(!ser.has_timestamp_trailer());
    assert_eq!(*ser.lu_id(), 0);
    assert_eq!(*ser.datetime(), Timestamp::Invalid(0));
    assert_eq!(*ser.datetime_utc(), Timestamp::Invalid(0));
    assert_eq!(ser.observer().to_display_string(), "\0".repeat(40));
    assert_eq!(*ser.color_id(), ColorId::MONO);
    assert_eq!(*ser.pixel_depth_per_plane(), PixelDepth::U8(8));
    let f = ser.frame_format();
    assert_eq!((*f.width(), *f.height(), *f.endian()), (3, 2, PixelEndian::Little));
    assert!(ser.iter_frames().is_empty());
    assert!(ser.iter_trailer().is_empty());
}

#[test]
fn new_is_with_format() {
    let a = Ser::new(mono8(5, 5)).to_bytes();
    let b = Ser::with_format(mono8(5, 5)).to_bytes();
    assert_eq!(a, b);
}

#[test]
fn push_without_dates() {
    let mut ser = Ser::with_format(mono8(2, 1));
    {
        let mut frames = ser.frames_mut();
        let f = gray_frame(frames.format(), vec![1, 2]);
        assert_eq!(frames.try_push(f, None), Ok(()));
        let f = gray_frame(frames.format(), vec![3, 4]);
        assert_eq!(
            frames.try_push(f, Some(Timestamp::Valid(1))),
            Err(FramePushErrors::TimestampUnexpected)
        );
    }
    assert_eq!(ser.frame_count(), 1);
    assert!(ser.iter_trailer().is_empty());
}

#[test]
fn push_incompatible_frame() {
    let mut ser = Ser::with_format(mono8(2, 1));
    let other = mono8(1, 2);
    let f = gray_frame(&other, vec![1, 2]);
    let mut frames = ser.frames_mut();
    assert_eq!(frames.try_push(f, None), Err(FramePushErrors::Incompatible));
    drop(frames);
    assert_eq!(ser.frame_count(), 0);
}

#[test]
fn push_with_dates_needs_timestamps() {
    let mut ser = Ser::with_format(mono8(1, 1));
    assert_eq!(
        ser.dates_mut().try_set_dates(Timestamp::Valid(10), Timestamp::Valid(20), vec![]),
        Ok(())
    );
    assert!(ser.has_frame_timestamps());
    {
        let mut frames = ser.frames_mut();
        let f = gray_frame(frames.format(), vec![9]);
        assert_eq!(frames.try_push(f.clone(), None), Err(FramePushErrors::TimestampExpected));
        assert_eq!(frames.try_push(f, Some(Timestamp::Valid(30))), Ok(()));
    }
    assert_eq!(ser.frame_count(), 1);
    assert_eq!(ser.iter_trailer(), &[Timestamp::Valid(30)]);
    let pairs = ser.iter();
    assert_eq!(pairs.len(), 1);
    assert_eq!(first_sample(pairs[0].0), 9);
    assert_eq!(pairs[0].1, Some(&Timestamp::Valid(30)));
}

#[test]
fn set_dates_refuses_invalid_datetimes() {
    let mut ser = Ser::with_format(mono8(1, 1));
    let mut dates = ser.dates_mut();
    assert_eq!(
        dates.try_set_dates(Timestamp::Invalid(0), Timestamp::Valid(1), vec![]),
        Err(DateErrors::InvalidDatetime)
    );
    assert_eq!(
        dates.try_set_dates(Timestamp::Valid(1), Timestamp::Invalid(0), vec![]),
        Err(DateErrors::InvalidDatetime)
    );
    drop(dates);
    assert!(!ser.has_frame_timestamps());
}

#[test]
fn set_dates_needs_one_timestamp_per_frame() {
    let mut ser = Ser::with_format(mono8(1, 1));
    {
        let mut frames = ser.frames_mut();
        let f = gray_frame(frames.format(), vec![1]);
        frames.try_push(f, None).unwrap();
    }
    assert_eq!(
        ser.dates_mut().try_set_dates(Timestamp::Valid(1), Timestamp::Valid(2), vec![]),
        Err(DateErrors::IncorrectTimestamps)
    );
    assert_eq!(
        ser.dates_mut().try_set_dates(
            Timestamp::Valid(1),
            Timestamp::Valid(2),
            vec![Timestamp::Valid(3)]
        ),
        Ok(())
    );
    assert_eq!(*ser.datetime(), Timestamp::Valid(1));
    assert_eq!(*ser.datetime_utc(), Timestamp::Valid(2));
    assert_eq!(ser.iter_trailer(), &[Timestamp::Valid(3)]);
}

#[test]
fn clear_removes_dates_and_timestamps() {
    let mut ser = Ser::with_format(mono8(1, 1));
    {
        let mut frames = ser.frames_mut();
        let f = gray_frame(frames.format(), vec![1]);
        frames.try_push(f, None).unwrap();
    }
    ser.dates_mut()
        .try_set_dates(Timestamp::Valid(1), Timestamp::Valid(2), vec![Timestamp::Valid(3)])
        .unwrap();
    ser.dates_mut().clear();
    assert!(!ser.has_frame_timestamps());
    assert_eq!(*ser.datetime(), Timestamp::Invalid(0));
    assert_eq!(*ser.datetime_utc(), Timestamp::Invalid(0));
    assert!(ser.iter_trailer().is_empty());
    assert_eq!(ser.frame_count(), 1);
}

#[test]
fn add_frame_fills_missing_timestamps_with_default() {
    let mut ser = Ser::with_format(mono8(1, 1));
    let f = gray_frame(&ser.frame_format(), vec![4]);
    ser.add_frame(f.clone(), Some(Timestamp::Valid(5)));
    assert!(ser.iter_trailer().is_empty());
    ser.dates_mut()
        .try_set_dates(Timestamp::Valid(1), Timestamp::Valid(2), vec![Timestamp::Valid(3)])
        .unwrap();
    ser.add_frame(f.clone(), None);
    ser.add_frame(f, Some(Timestamp::Valid(7)));
    assert_eq!(ser.frame_count(), 3);
    assert_eq!(
        ser.iter_trailer(),
        &[Timestamp::Valid(3), Timestamp::Invalid(0), Timestamp::Valid(7)]
    );
}

#[test]
fn into_iter_pairs_frames_with_timestamps() {
    let mut ser = Ser::with_format(mono8(1, 1));
    let f1 = gray_frame(&ser.frame_format(), vec![1]);
    let f2 = gray_frame(&ser.frame_format(), vec![2]);
    ser.add_frame(f1, None);
    ser.add_frame(f2, None);
    let items = ser.into_iter();
    assert_eq!(items.len(), 2);
    assert_eq!(first_sample(&items[0].0), 1);
    assert_eq!(first_sample(&items[1].0), 2);
    assert_eq!(items[0].1, None);
    assert_eq!(items[1].1, None);
}

#[test]
fn iter_without_trailer_has_no_timestamps() {
    let mut ser = Ser::with_format(mono8(1, 1));
    let f = gray_frame(&ser.frame_format(), vec![1]);
    ser.add_frame(f, None);
    let pairs = ser.iter();
    assert_eq!(pairs.len(), 1);
    assert_eq!(pairs[0].1, None);
    assert_eq!(ser.iter_frames().len(), 1);
}

#[test]
fn names_and_lu_id_setters() {
    let mut ser = Ser::with_format(mono8(1, 1));
    let name = format!("{:<40}", "ZWO ASI385MC");
    ser.set_lu_id(7)
        .set_instrument(FixedString::from_string(name.clone()))
        .set_observer(FixedString::from_string(format!("{:<40}", "Observer")))
        .set_telescope(FixedString::from_string(format!("{:<40}", "Telescope")));
    assert_eq!(*ser.lu_id(), 7);
    assert_eq!(ser.instrument().to_display_string(), name);
    assert_eq!(ser.observer().to_display_string(), format!("{:<40}", "Observer"));
    assert_eq!(ser.telescope().to_display_string(), format!("{:<40}", "Telescope"));
}

#[test]
fn error_messages() {
    assert_eq!(
        FramePushErrors::Incompatible.message(),
        "Frame incompatible. All frames must have the same format."
    );
    assert_eq!(
        FramePushErrors::TimestampExpected.message(),
        "Timestamps MUST be added for each frame when the SER's datetime is valid."
    );
    assert_eq!(
        FramePushErrors::TimestampUnexpected.message(),
        "Timestamps MAY NOT be added when the SER's datetime is invalid."
    );
    assert_eq!(
        DateErrors::InvalidDatetime.message(),
        "Cannot set datetime to invalid timestamp. To clear the datetimes, use the `.clear()` method."
    );
    assert_eq!(
        DateErrors::IncorrectTimestamps.message(),
        "Frame timestamps do not match the number of the frames."
    );
}

#[test]
fn pushes_keep_order_and_skip_refused_frames() {
    let format = mono8(2, 1);
    let mut ser = Ser::with_format(format);
    {
        let mut frames = ser.frames_mut();
        let a = gray_frame(frames.format(), vec![1, 1]);
        let b = gray_frame(&mono8(1, 2), vec![2, 2]);
        let c = gray_frame(frames.format(), vec![3, 3]);
        assert!(frames.try_push(a, None).is_ok());
        assert_eq!(frames.try_push(b, None), Err(FramePushErrors::Incompatible));
        assert_eq!(frames.try_push(c.clone(), Some(Timestamp::Valid(1))), Err(FramePushErrors::TimestampUnexpected));
        assert!(frames.try_push(c, None).is_ok());
    }
    assert_eq!(ser.frame_count(), 2);
    assert_eq!(first_sample(&ser.iter_frames()[0]), 1);
    assert_eq!(first_sample(&ser.iter_frames()[1]), 3);
    assert!(ser.iter_trailer().is_empty());
    assert_eq!(*ser.frame_format().width(), 2);
}

#[test]
fn added_frames_come_back_in_order() {
    let mut ser = Ser::new(mono8(1, 1));
    for k in 0..4u8 {
        ser.add_frame(gray_frame(&mono8(1, 1), vec![k]), Some(Timestamp::Valid(5)));
    }
    assert_eq!(ser.frame_count(), 4);
    for k in 0..4usize {
        assert_eq!(first_sample(&ser.iter_frames()[k]), k as u8);
    }
    assert!(ser.iter_trailer().is_empty());
}

#[test]
fn edits_keep_one_timestamp_per_frame() {
    let mut ser = Ser::with_format(mono8(1, 1));
    ser.frames_mut().try_push(gray_frame(&mono8(1, 1), vec![1]), None).unwrap();
    ser.dates_mut()
        .try_set_dates(Timestamp::Valid(1), Timestamp::Valid(2), vec![Timestamp::Valid(3)])
        .unwrap();
    ser.frames_mut().try_push(gray_frame(&mono8(1, 1), vec![2]), Some(Timestamp::Valid(4))).unwrap();
    assert!(ser.iter().iter().all(|(_, t)| t.is_some()));
    assert_eq!(ser.frame_count(), 2);
    ser.dates_mut().clear();
    assert!(ser.iter().iter().all(|(_, t)| t.is_none()));
    assert_eq!(ser.frame_count(), 2);
}
