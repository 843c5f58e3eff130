//! The SER document: header fields, frames, and the trailer of frame
//! timestamps, with the editors that keep them consistent.

use vstd::prelude::*;

use crate::fixed_string::FixedString;
use crate::format::{ColorId, FormatView, Frame, FrameFormat, FrameView, PixelDepth, PixelEndian};
use crate::timestamp::Timestamp;

verus! {

/// SER format description version 3
///
/// Authors: Heiko Wilkens (version 2), Grischa Hahn (extensions of version 3),
/// 2014 Feb 06.
///
/// Source: <https://grischa-hahn.hier-im-netz.de/astro/ser/SER%20Doc%20V3b.pdf>
///
/// The file starts with the 14 ASCII characters "LUCAM-RECORDER", then the
/// header fields in the order below, all little-endian; the frame count is
/// not stored but is the number of frames. Image data starts at byte 178;
/// the trailer of frame timestamps follows it.
pub struct Ser {
    /// Lumenera camera series ID (currently unused; default = 0).
    pub(crate) lu_id: i32,
    pub(crate) color_id: ColorId,
    /// Byte order of 16 bit image data as the header states it.
    pub(crate) little_endian: PixelEndian,
    /// Width of every image in pixels.
    pub(crate) image_width: i32,
    /// Height of every image in pixels.
    pub(crate) image_height: i32,
    /// True bit depth per pixel per plane.
    pub(crate) pixel_depth_per_plane: PixelDepth,
    /// Name of observer (40 ASCII characters, unused ones 0).
    pub(crate) observer: FixedString<40>,
    /// Name of used camera.
    pub(crate) instrument: FixedString<40>,
    /// Name of used telescope.
    pub(crate) telescope: FixedString<40>,
    /// Start time of image stream (local time). If it is not valid, the
    /// file does not contain a time stamp trailer.
    pub(crate) datetime: Timestamp,
    /// Start time of image stream in UTC.
    pub(crate) datetime_utc: Timestamp,
    pub(crate) image_data: Vec<Frame>,
    /// Time stamps in UTC for every image frame.
    pub(crate) trailer: Vec<Timestamp>,
}

/// What a [Ser] holds.
pub struct SerView {
    pub lu_id: i32,
    pub color: ColorId,
    pub endian: PixelEndian,
    pub width: i32,
    pub height: i32,
    pub depth: PixelDepth,
    pub observer: Seq<u8>,
    pub instrument: Seq<u8>,
    pub telescope: Seq<u8>,
    pub datetime: Timestamp,
    pub datetime_utc: Timestamp,
    pub frames: Seq<FrameView>,
    pub trailer: Seq<Timestamp>,
}

/// The views of frames.
pub open spec fn frame_views(frames: Seq<Frame>) -> Seq<FrameView> {
    frames.map_values(|f: Frame| f@)
}

/// Forty zero bytes: an empty text field.
pub open spec fn empty_text() -> Seq<u8> {
    Seq::new(40, |i: int| 0u8)
}

impl SerView {
    /// A document of the given format, without frames, dates or names.
    pub open spec fn empty_of(format: FormatView) -> SerView {
        SerView {
            lu_id: 0,
            color: format.color,
            endian: format.endian,
            width: format.width as i32,
            height: format.height as i32,
            depth: format.depth,
            observer: empty_text(),
            instrument: empty_text(),
            telescope: empty_text(),
            datetime: Timestamp::Invalid(0),
            datetime_utc: Timestamp::Invalid(0),
            frames: Seq::empty(),
            trailer: Seq::empty(),
        }
    }

    /// The format every frame of the file has.
    pub open spec fn format(self) -> FormatView {
        FormatView {
            color: self.color,
            depth: self.depth,
            endian: self.endian,
            width: self.width as u32,
            height: self.height as u32,
        }
    }

    /// The file carries a timestamp for each frame exactly when its
    /// `datetime` is valid.
    pub open spec fn has_frame_timestamps(self) -> bool {
        self.datetime.spec_is_valid()
    }

    /// The trailer holds one timestamp per frame when the file has frame
    /// timestamps, and none otherwise.
    pub open spec fn trailer_in_step(self) -> bool {
        self.trailer.len() == if self.has_frame_timestamps() {
            self.frames.len()
        } else {
            0
        }
    }

    /// Every frame is compatible with the file's format.
    pub open spec fn frames_compatible(self) -> bool {
        forall|i: int| 0 <= i < self.frames.len() ==> self.format().accepts(#[trigger] self.frames[i])
    }

    /// The document after [Ser::add_frame] of `f` with `t`.
    pub open spec fn added(self, f: FrameView, t: Option<Timestamp>) -> SerView {
        SerView {
            frames: self.frames.push(f),
            trailer: if self.has_frame_timestamps() {
                self.trailer.push(
                    match t {
                        Some(t) => t,
                        None => Timestamp::Invalid(0),
                    },
                )
            } else {
                self.trailer
            },
            ..self
        }
    }

    /// The document after [Ser::add_frame] of each frame of `fs`, with its
    /// timestamp, in turn.
    pub open spec fn added_all(self, fs: Seq<(FrameView, Option<Timestamp>)>) -> SerView
        decreases fs.len(),
    {
        if fs.len() == 0 {
            self
        } else {
            self.added_all(fs.drop_last()).added(fs.last().0, fs.last().1)
        }
    }

    /// The text fields have their 40 bytes.
    pub open spec fn texts_sized(self) -> bool {
        &&& self.observer.len() == 40
        &&& self.instrument.len() == 40
        &&& self.telescope.len() == 40
    }
}

impl View for Ser {
    type V = SerView;

    closed spec fn view(&self) -> SerView {
        SerView {
            lu_id: self.lu_id,
            color: self.color_id,
            endian: self.little_endian,
            width: self.image_width,
            height: self.image_height,
            depth: self.pixel_depth_per_plane,
            observer: self.observer@,
            instrument: self.instrument@,
            telescope: self.telescope@,
            datetime: self.datetime,
            datetime_utc: self.datetime_utc,
            frames: frame_views(self.image_data@),
            trailer: self.trailer@,
        }
    }
}

/// What a document's view is made of.
pub(crate) proof fn lemma_ser_view(s: Ser)
    ensures
        s@ == (SerView {
            lu_id: s.lu_id,
            color: s.color_id,
            endian: s.little_endian,
            width: s.image_width,
            height: s.image_height,
            depth: s.pixel_depth_per_plane,
            observer: s.observer@,
            instrument: s.instrument@,
            telescope: s.telescope@,
            datetime: s.datetime,
            datetime_utc: s.datetime_utc,
            frames: frame_views(s.image_data@),
            trailer: s.trailer@,
        }),
{
}

/// Mutate SER file frames.
///
/// The fields are public so that the contract of [Ser::frames_mut] can
/// follow the borrowed frames and timestamps, to the end of the borrow, to
/// the [Ser] they belong to. Frames pushed with [FramesMut::try_push] keep
/// the frames compatible and the timestamps in step
/// ([lemma_frames_mut_result]); pushing to the fields directly does not.
pub struct FramesMut<'a> {
    pub format: FrameFormat,
    pub has_trailer: bool,
    pub frames: &'a mut Vec<Frame>,
    pub frame_times: &'a mut Vec<Timestamp>,
}

/// What a [FramesMut] holds: the format, whether frames come with
/// timestamps, the frames and the timestamps.
pub struct PushState {
    pub format: FormatView,
    pub has_trailer: bool,
    pub frames: Seq<FrameView>,
    pub times: Seq<Timestamp>,
}

impl PushState {
    /// [FramesMut::try_push] takes `f` with `t`.
    pub open spec fn push_ok(self, f: FrameView, t: Option<Timestamp>) -> bool {
        self.format.accepts(f) && (self.has_trailer == t is Some)
    }

    /// The state after [FramesMut::try_push] of `f` with `t`.
    pub open spec fn pushed(self, f: FrameView, t: Option<Timestamp>) -> PushState {
        if self.push_ok(f, t) {
            PushState {
                frames: self.frames.push(f),
                times: match t {
                    Some(x) => self.times.push(x),
                    None => self.times,
                },
                ..self
            }
        } else {
            self
        }
    }

    /// The state after [FramesMut::try_push] of each frame of `ps`, with
    /// its timestamp, in turn.
    pub open spec fn pushed_all(self, ps: Seq<(FrameView, Option<Timestamp>)>) -> PushState
        decreases ps.len(),
    {
        if ps.len() == 0 {
            self
        } else {
            self.pushed_all(ps.drop_last()).pushed(ps.last().0, ps.last().1)
        }
    }

    /// One timestamp per frame when frames come with timestamps, none
    /// otherwise.
    pub open spec fn in_step(self) -> bool {
        self.times.len() == if self.has_trailer {
            self.frames.len()
        } else {
            0
        }
    }

    /// Every frame is compatible with the format.
    pub open spec fn all_accepted(self) -> bool {
        forall|i: int| 0 <= i < self.frames.len() ==> self.format.accepts(#[trigger] self.frames[i])
    }
}

/// Mutate SER file datetimes and frame timestamps.
///
/// The fields are public so that the contract of [Ser::dates_mut] can
/// follow the borrowed values, to the end of the borrow, to the [Ser] they
/// belong to. [DatesMut::clear] and [DatesMut::try_set_dates] keep the
/// timestamps in step ([lemma_dates_mut_result]); writing to the fields
/// directly does not.
pub struct DatesMut<'a> {
    pub datetime: &'a mut Timestamp,
    pub datetime_utc: &'a mut Timestamp,
    pub frame_count: usize,
    pub frame_times: &'a mut Vec<Timestamp>,
}

/// Why [FramesMut::try_push] refused a frame.
#[derive(Debug, Clone, Copy, PartialEq, Eq)]
pub enum FramePushErrors {
    Incompatible,
    TimestampExpected,
    TimestampUnexpected,
}

/// Why [DatesMut::try_set_dates] refused the dates.
#[derive(Debug, Clone, Copy, PartialEq, Eq)]
pub enum DateErrors {
    InvalidDatetime,
    IncorrectTimestamps,
}

impl FramePushErrors {
    /// The sentence that describes the error.
    pub fn message(&self) -> (r: &'static str)
        ensures
            r@ == match *self {
                FramePushErrors::Incompatible => "Frame incompatible. All frames must have the same format."@,
                FramePushErrors::TimestampExpected => "Timestamps MUST be added for each frame when the SER's datetime is valid."@,
                FramePushErrors::TimestampUnexpected => "Timestamps MAY NOT be added when the SER's datetime is invalid."@,
            },
    {
        match self {
            FramePushErrors::Incompatible => "Frame incompatible. All frames must have the same format.",
            FramePushErrors::TimestampExpected => "Timestamps MUST be added for each frame when the SER's datetime is valid.",
            FramePushErrors::TimestampUnexpected => "Timestamps MAY NOT be added when the SER's datetime is invalid.",
        }
    }
}

impl DateErrors {
    /// The sentence that describes the error.
    pub fn message(&self) -> (r: &'static str)
        ensures
            r@ == match *self {
                DateErrors::InvalidDatetime => "Cannot set datetime to invalid timestamp. To clear the datetimes, use the `.clear()` method."@,
                DateErrors::IncorrectTimestamps => "Frame timestamps do not match the number of the frames."@,
            },
    {
        match self {
            DateErrors::InvalidDatetime => "Cannot set datetime to invalid timestamp. To clear the datetimes, use the `.clear()` method.",
            DateErrors::IncorrectTimestamps => "Frame timestamps do not match the number of the frames.",
        }
    }
}

impl Ser {
    /// A new SER document of the given format, without frames, dates or
    /// names.
    pub fn with_format(format: FrameFormat) -> (r: Self)
        ensures
            r@ == SerView::empty_of(format@),
            r@.trailer_in_step(),
            r@.frames_compatible(),
    {
        let r = Self {
            lu_id: 0,
            color_id: *format.color(),
            little_endian: *format.endian(),
            image_width: *format.width() as i32,
            image_height: *format.height() as i32,
            pixel_depth_per_plane: *format.depth(),
            observer: FixedString::default(),
            instrument: FixedString::default(),
            telescope: FixedString::default(),
            datetime: Timestamp::default(),
            datetime_utc: Timestamp::default(),
            image_data: Vec::new(),
            trailer: Vec::new(),
        };
        assert(frame_views(r.image_data@) =~= Seq::empty());
        r
    }

    /// A new SER document of the given format; the same as
    /// [Ser::with_format].
    pub fn new(format: FrameFormat) -> (r: Self)
        ensures
            r@ == SerView::empty_of(format@),
    {
        Ser::with_format(format)
    }

    /// Creates a new copy of this SER's frame format.
    pub fn frame_format(&self) -> (r: FrameFormat)
        ensures
            r@ == self@.format(),
    {
        FrameFormat::new(
            self.color_id,
            self.pixel_depth_per_plane,
            self.little_endian,
            self.image_width as u32,
            self.image_height as u32,
        )
    }

    /// SER files include timestamps for each frame only if the `datetime`
    /// field is valid.
    pub fn has_frame_timestamps(&self) -> (r: bool)
        ensures
            r == self@.has_frame_timestamps(),
    {
        self.datetime.is_valid()
    }

    /// The same as [Ser::has_frame_timestamps].
    pub fn has_timestamp_trailer(&self) -> (r: bool)
        ensures
            r == self@.has_frame_timestamps(),
    {
        self.datetime.is_valid()
    }

    /// The number of frames.
    pub fn frame_count(&self) -> (r: usize)
        ensures
            r == self@.frames.len(),
    {
        self.image_data.len()
    }

    /// The frames.
    pub fn iter_frames(&self) -> (r: &[Frame])
        ensures
            frame_views(r@) == self@.frames,
    {
        self.image_data.as_slice()
    }

    /// The trailer's frame timestamps.
    pub fn iter_trailer(&self) -> (r: &[Timestamp])
        ensures
            r@ == self@.trailer,
    {
        self.trailer.as_slice()
    }

    /// Each frame, paired with its timestamp when the trailer has one.
    pub fn iter(&self) -> (r: Vec<(&Frame, Option<&Timestamp>)>)
        ensures
            r@.len() == self@.frames.len(),
            forall|i: int|
                0 <= i < r@.len() ==> {
                    &&& (#[trigger] r@[i]).0@ == self@.frames[i]
                    &&& match r@[i].1 {
                        Some(t) => i < self@.trailer.len() && *t == self@.trailer[i],
                        None => i >= self@.trailer.len(),
                    }
                },
            self@.trailer_in_step() ==> forall|i: int|
                0 <= i < r@.len() ==> ((#[trigger] r@[i]).1 is Some
                    == self@.has_frame_timestamps()),
    {
        let mut out: Vec<(&Frame, Option<&Timestamp>)> = Vec::new();
        let n = self.image_data.len();
        let mut i: usize = 0;
        while i < n
            invariant
                0 <= i <= n,
                n == self.image_data@.len(),
                out@.len() == i,
                forall|j: int|
                    0 <= j < i ==> {
                        &&& (#[trigger] out@[j]).0 == self.image_data@[j]
                        &&& match out@[j].1 {
                            Some(t) => j < self.trailer@.len() && *t == self.trailer@[j],
                            None => j >= self.trailer@.len(),
                        }
                    },
            decreases n - i,
        {
            let t = if i < self.trailer.len() {
                Some(&self.trailer[i])
            } else {
                None
            };
            out.push((&self.image_data[i], t));
            i = i + 1;
        }
        out
    }

    /// Moves into the frames, each paired with its timestamp when the
    /// trailer has one.
    pub fn into_iter(self) -> (r: Vec<(Frame, Option<Timestamp>)>)
        ensures
            r@.len() == self@.frames.len(),
            forall|i: int|
                0 <= i < r@.len() ==> {
                    &&& (#[trigger] r@[i]).0@ == self@.frames[i]
                    &&& r@[i].1 == if i < self@.trailer.len() {
                        Some(self@.trailer[i])
                    } else {
                        None
                    }
                },
    {
        let ghost frames0 = self.image_data@;
        let ghost trailer0 = self.trailer@;
        let mut frames = self.image_data;
        let trailer = self.trailer;
        let mut out: Vec<(Frame, Option<Timestamp>)> = Vec::new();
        let n = frames.len();
        // Take frames from the back, then reverse.
        let mut rev: Vec<(Frame, Option<Timestamp>)> = Vec::new();
        let mut k: usize = n;
        while k > 0
            invariant
                0 <= k <= n,
                n == frames0.len(),
                frames@ == frames0.subrange(0, k as int),
                trailer@ == trailer0,
                rev@.len() == n - k,
                forall|j: int|
                    0 <= j < n - k ==> {
                        &&& (#[trigger] rev@[j]).0 == frames0[n - 1 - j]
                        &&& rev@[j].1 == if n - 1 - j < trailer0.len() {
                            Some(trailer0[n - 1 - j])
                        } else {
                            None
                        }
                    },
            decreases k,
        {
            let f = frames.pop().unwrap();
            k = k - 1;
            let t = if k < trailer.len() {
                Some(trailer[k])
            } else {
                None
            };
            rev.push((f, t));
        }
        let mut m: usize = n;
        while m > 0
            invariant
                0 <= m <= n,
                n == frames0.len(),
                rev@.len() == m,
                out@.len() == n - m,
                forall|j: int|
                    0 <= j < m ==> {
                        &&& (#[trigger] rev@[j]).0 == frames0[n - 1 - j]
                        &&& rev@[j].1 == if n - 1 - j < trailer0.len() {
                            Some(trailer0[n - 1 - j])
                        } else {
                            None
                        }
                    },
                forall|j: int|
                    0 <= j < n - m ==> {
                        &&& (#[trigger] out@[j]).0 == frames0[j]
                        &&& out@[j].1 == if j < trailer0.len() {
                            Some(trailer0[j])
                        } else {
                            None
                        }
                    },
            decreases m,
        {
            let e = rev.pop().unwrap();
            m = m - 1;
            out.push(e);
        }
        out
    }

    /// Appends a frame; when the file has frame timestamps, `timestamp` (or
    /// the default timestamp where none is given) is appended to the
    /// trailer. The frame is not checked against the format.
    pub fn add_frame(&mut self, frame: Frame, timestamp: Option<Timestamp>)
        ensures
            final(self)@ == old(self)@.added(frame@, timestamp),
            old(self)@.trailer_in_step() ==> final(self)@.trailer_in_step(),
    {
        self.image_data.push(frame);
        if self.has_timestamp_trailer() {
            let t = match timestamp {
                Some(t) => t,
                None => Timestamp::default(),
            };
            self.trailer.push(t);
        }
        assert(frame_views(self.image_data@) =~= frame_views(old(self).image_data@).push(frame@));
    }

    /// The color id of every frame.
    pub fn color_id(&self) -> (r: &ColorId)
        ensures
            *r == self@.color,
    {
        &self.color_id
    }

    /// The bit depth per plane.
    pub fn pixel_depth_per_plane(&self) -> (r: &PixelDepth)
        ensures
            *r == self@.depth,
    {
        &self.pixel_depth_per_plane
    }

    /// The Lumenera camera series ID.
    pub fn lu_id(&self) -> (r: &i32)
        ensures
            *r == self@.lu_id,
    {
        &self.lu_id
    }

    pub fn set_lu_id(&mut self, val: i32) -> (r: &mut Self)
        ensures
            r@ == (SerView { lu_id: val, ..old(self)@ }),
            final(self)@ == final(r)@,
    {
        self.lu_id = val;
        self
    }

    /// The name of the observer.
    pub fn observer(&self) -> (r: &FixedString<40>)
        ensures
            r@ == self@.observer,
    {
        &self.observer
    }

    pub fn set_observer(&mut self, val: FixedString<40>) -> (r: &mut Self)
        ensures
            r@ == (SerView { observer: val@, ..old(self)@ }),
            final(self)@ == final(r)@,
    {
        self.observer = val;
        self
    }

    /// The name of the camera.
    pub fn instrument(&self) -> (r: &FixedString<40>)
        ensures
            r@ == self@.instrument,
    {
        &self.instrument
    }

    pub fn set_instrument(&mut self, val: FixedString<40>) -> (r: &mut Self)
        ensures
            r@ == (SerView { instrument: val@, ..old(self)@ }),
            final(self)@ == final(r)@,
    {
        self.instrument = val;
        self
    }

    /// The name of the telescope.
    pub fn telescope(&self) -> (r: &FixedString<40>)
        ensures
            r@ == self@.telescope,
    {
        &self.telescope
    }

    pub fn set_telescope(&mut self, val: FixedString<40>) -> (r: &mut Self)
        ensures
            r@ == (SerView { telescope: val@, ..old(self)@ }),
            final(self)@ == final(r)@,
    {
        self.telescope = val;
        self
    }

    /// Start time of the image stream (local time).
    pub fn datetime(&self) -> (r: &Timestamp)
        ensures
            *r == self@.datetime,
    {
        &self.datetime
    }

    /// Start time of the image stream in UTC.
    pub fn datetime_utc(&self) -> (r: &Timestamp)
        ensures
            *r == self@.datetime_utc,
    {
        &self.datetime_utc
    }

    /// Returns a [FramesMut] object for mutating frames.
    pub fn frames_mut<'a>(&'a mut self) -> (r: FramesMut<'a>)
        ensures
            r.format@ == old(self)@.format(),
            r.has_trailer == old(self)@.has_frame_timestamps(),
            frame_views(r.frames@) == old(self)@.frames,
            r.frame_times@ == old(self)@.trailer,
            old(self)@.trailer_in_step() ==> r.in_step(),
            old(self)@.frames_compatible() ==> r.all_accepted(),
            final(self)@ == (SerView {
                frames: frame_views(final(r.frames)@),
                trailer: final(r.frame_times)@,
                ..old(self)@
            }),
    {
        let r = FramesMut {
            format: self.frame_format(),
            has_trailer: self.has_frame_timestamps(),
            frames: &mut self.image_data,
            frame_times: &mut self.trailer,
        };
        proof {
            if old(self)@.frames_compatible() {
                assert forall|i: int| 0 <= i < r.frames@.len() implies r.format@.accepts(
                    #[trigger] r.frames@[i]@,
                ) by {
                    assert(old(self)@.frames[i] == r.frames@[i]@);
                }
            }
        }
        r
    }

    /// Returns a [DatesMut] object for mutating dates and frame timestamps.
    pub fn dates_mut<'a>(&'a mut self) -> (r: DatesMut<'a>)
        ensures
            *r.datetime == old(self)@.datetime,
            *r.datetime_utc == old(self)@.datetime_utc,
            r.frame_count == old(self)@.frames.len(),
            r.frame_times@ == old(self)@.trailer,
            old(self)@.trailer_in_step() ==> r.in_step(),
            final(self)@ == (SerView {
                datetime: *final(r.datetime),
                datetime_utc: *final(r.datetime_utc),
                trailer: final(r.frame_times)@,
                ..old(self)@
            }),
    {
        DatesMut {
            datetime: &mut self.datetime,
            datetime_utc: &mut self.datetime_utc,
            frame_count: self.image_data.len(),
            frame_times: &mut self.trailer,
        }
    }
}

impl<'a> FramesMut<'a> {
    /// The frames and timestamps are in step: one timestamp per frame when
    /// there is a trailer, none otherwise.
    pub open spec fn in_step(&self) -> bool {
        self.frame_times@.len() == if self.has_trailer {
            self.frames@.len()
        } else {
            0
        }
    }

    /// Every frame is compatible with the format.
    pub open spec fn all_accepted(&self) -> bool {
        forall|i: int| 0 <= i < self.frames@.len() ==> self.format@.accepts(#[trigger] self.frames@[i]@)
    }

    /// Document `v` with the frames and timestamps that this holds now.
    pub open spec fn document(&self, v: SerView) -> SerView {
        SerView { frames: frame_views(self.frames@), trailer: self.frame_times@, ..v }
    }

    /// What this holds now, as plain values.
    pub open spec fn state(&self) -> PushState {
        PushState {
            format: self.format@,
            has_trailer: self.has_trailer,
            frames: frame_views(self.frames@),
            times: self.frame_times@,
        }
    }

    /// Returns a reference to the current [FrameFormat].
    pub fn format(&self) -> (r: &FrameFormat)
        ensures
            *r == self.format,
    {
        &self.format
    }

    /// Push a frame onto the frames.
    ///
    /// Frames must have a pixel format compatible with self's
    /// [FrameFormat]. Frame timestamps MUST be specified if the SER's
    /// datetime is set; otherwise, they MAY NOT be specified. Frame
    /// timestamps are in UTC. Nothing changes when the frame is refused.
    pub fn try_push(&mut self, frame: Frame, timestamp: Option<Timestamp>) -> (r: Result<
        (),
        FramePushErrors,
    >)
        requires
            (frame@.width == old(self).format@.width && frame@.height == old(self).format@.height)
                ==> old(self).format@.samples_fit(),
        ensures
            final(self).format == old(self).format,
            final(self).has_trailer == old(self).has_trailer,
            *final(final(self).frames) == *final(old(self).frames),
            *final(final(self).frame_times) == *final(old(self).frame_times),
            !old(self).format@.accepts(frame@) ==> r == Err::<(), _>(FramePushErrors::Incompatible),
            old(self).format@.accepts(frame@) && old(self).has_trailer && timestamp is None ==> r
                == Err::<(), _>(FramePushErrors::TimestampExpected),
            old(self).format@.accepts(frame@) && !old(self).has_trailer && timestamp is Some ==> r
                == Err::<(), _>(FramePushErrors::TimestampUnexpected),
            r is Ok <==> old(self).format@.accepts(frame@) && (old(self).has_trailer
                == timestamp is Some),
            r is Ok ==> final(self).frames@ == old(self).frames@.push(frame),
            r is Ok ==> final(self).frame_times@ == match timestamp {
                Some(t) => old(self).frame_times@.push(t),
                None => old(self).frame_times@,
            },
            r is Err ==> final(self).frames@ == old(self).frames@,
            r is Err ==> final(self).frame_times@ == old(self).frame_times@,
            old(self).in_step() ==> final(self).in_step(),
            old(self).all_accepted() ==> final(self).all_accepted(),
            final(self).state() == old(self).state().pushed(frame@, timestamp),
    {
        proof {
            assert(frame_views(self.frames@.push(frame)) =~= frame_views(self.frames@).push(frame@));
        }
        if !self.format.is_compatible(&frame) {
            return Err(FramePushErrors::Incompatible);
        }
        if self.has_trailer {
            match timestamp {
                Some(ts) => self.frame_times.push(ts),
                None => return Err(FramePushErrors::TimestampExpected),
            }
        } else {
            match timestamp {
                Some(_) => return Err(FramePushErrors::TimestampUnexpected),
                None => (),
            }
        }
        self.frames.push(frame);
        Ok(())
    }
}

impl<'a> DatesMut<'a> {
    /// The timestamps are in step with the frames: one per frame when the
    /// datetime is valid, none otherwise.
    pub open spec fn in_step(&self) -> bool {
        self.frame_times@.len() == if self.datetime.spec_is_valid() {
            self.frame_count as nat
        } else {
            0
        }
    }

    /// Document `v` with the dates and timestamps that this holds now.
    pub open spec fn document(&self, v: SerView) -> SerView {
        SerView {
            datetime: *self.datetime,
            datetime_utc: *self.datetime_utc,
            trailer: self.frame_times@,
            ..v
        }
    }

    /// Clear the file's datetimes and frame timestamps.
    pub fn clear(&mut self)
        ensures
            *final(self).datetime == Timestamp::Invalid(0),
            *final(self).datetime_utc == Timestamp::Invalid(0),
            final(self).frame_times@ == Seq::<Timestamp>::empty(),
            final(self).frame_count == old(self).frame_count,
            *final(final(self).datetime) == *final(old(self).datetime),
            *final(final(self).datetime_utc) == *final(old(self).datetime_utc),
            *final(final(self).frame_times) == *final(old(self).frame_times),
            final(self).in_step(),
    {
        *self.datetime = Timestamp::default();
        *self.datetime_utc = Timestamp::default();
        self.frame_times.clear();
    }

    /// Sets the file's datetimes and frame timestamps.
    ///
    /// The provided datetimes MUST be valid [Timestamp]s. The timestamps
    /// MUST be as many as the frames in the file. Nothing changes when the
    /// dates are refused.
    pub fn try_set_dates(
        &mut self,
        datetime: Timestamp,
        datetime_utc: Timestamp,
        frame_times: Vec<Timestamp>,
    ) -> (r: Result<(), DateErrors>)
        ensures
            final(self).frame_count == old(self).frame_count,
            *final(final(self).datetime) == *final(old(self).datetime),
            *final(final(self).datetime_utc) == *final(old(self).datetime_utc),
            *final(final(self).frame_times) == *final(old(self).frame_times),
            !datetime.spec_is_valid() || !datetime_utc.spec_is_valid() ==> r == Err::<(), _>(
                DateErrors::InvalidDatetime,
            ),
            datetime.spec_is_valid() && datetime_utc.spec_is_valid() && frame_times@.len()
                != old(self).frame_count ==> r == Err::<(), _>(DateErrors::IncorrectTimestamps),
            r is Ok <==> datetime.spec_is_valid() && datetime_utc.spec_is_valid()
                && frame_times@.len() == old(self).frame_count,
            r is Ok ==> *final(self).datetime == datetime && *final(self).datetime_utc
                == datetime_utc && final(self).frame_times@ == frame_times@,
            r is Err ==> *final(self).datetime == *old(self).datetime && *final(self).datetime_utc
                == *old(self).datetime_utc && final(self).frame_times@ == old(self).frame_times@,
            r is Ok ==> final(self).in_step(),
            old(self).in_step() ==> final(self).in_step(),
    {
        if !datetime.is_valid() || !datetime_utc.is_valid() {
            return Err(DateErrors::InvalidDatetime);
        }
        if frame_times.len() != self.frame_count {
            return Err(DateErrors::IncorrectTimestamps);
        }
        *self.datetime = datetime;
        *self.datetime_utc = datetime_utc;
        *self.frame_times = frame_times;
        Ok(())
    }
}

// ----------------------------------------------------------------------
// Laws over sequences of calls
// ----------------------------------------------------------------------

/// Adding frames one after another with [Ser::add_frame] keeps the format,
/// the names and the dates, appends the frames in order, keeps the trailer
/// in step with the frames, and leaves it as it was when the file has no
/// frame timestamps.
pub proof fn lemma_add_frames(v: SerView, fs: Seq<(FrameView, Option<Timestamp>)>)
    ensures
        v.added_all(fs).format() == v.format(),
        v.added_all(fs).lu_id == v.lu_id,
        v.added_all(fs).observer == v.observer,
        v.added_all(fs).instrument == v.instrument,
        v.added_all(fs).telescope == v.telescope,
        v.added_all(fs).datetime == v.datetime,
        v.added_all(fs).datetime_utc == v.datetime_utc,
        v.added_all(fs).frames == v.frames + fs.map_values(|p: (FrameView, Option<Timestamp>)| p.0),
        v.trailer_in_step() ==> v.added_all(fs).trailer_in_step(),
        !v.has_frame_timestamps() ==> v.added_all(fs).trailer == v.trailer,
    decreases fs.len(),
{
    let g = |p: (FrameView, Option<Timestamp>)| p.0;
    if fs.len() == 0 {
        assert(v.frames + fs.map_values(g) =~= v.frames);
    } else {
        let init = fs.drop_last();
        lemma_add_frames(v, init);
        assert(fs.map_values(g) =~= init.map_values(g).push(fs.last().0));
        assert(v.frames + fs.map_values(g) =~= (v.frames + init.map_values(g)).push(fs.last().0));
    }
}

/// A new document that frames are added to holds exactly those frames, in
/// order, with its format, and an empty trailer.
pub proof fn lemma_new_then_add(format: FormatView, fs: Seq<(FrameView, Option<Timestamp>)>)
    ensures
        SerView::empty_of(format).added_all(fs).frames == fs.map_values(
            |p: (FrameView, Option<Timestamp>)| p.0,
        ),
        SerView::empty_of(format).added_all(fs).frames.len() == fs.len(),
        SerView::empty_of(format).added_all(fs).trailer == Seq::<Timestamp>::empty(),
        SerView::empty_of(format).added_all(fs).format() == SerView::empty_of(format).format(),
{
    let v = SerView::empty_of(format);
    lemma_add_frames(v, fs);
    assert(v.frames + fs.map_values(|p: (FrameView, Option<Timestamp>)| p.0) =~= fs.map_values(
        |p: (FrameView, Option<Timestamp>)| p.0,
    ));
}

/// The document that [Ser::frames_mut] hands back holds the frames and
/// timestamps of the [FramesMut] at the end of the borrow: it keeps its
/// format, and, when the [FramesMut] ends in step and with every frame
/// compatible (as [FramesMut::try_push] keeps them), its trailer is in
/// step and its frames are compatible.
pub proof fn lemma_frames_mut_result(v: SerView, fm: FramesMut)
    requires
        fm.format@ == v.format(),
        fm.has_trailer == v.has_frame_timestamps(),
    ensures
        fm.document(v).format() == v.format(),
        fm.in_step() ==> fm.document(v).trailer_in_step(),
        fm.all_accepted() ==> fm.document(v).frames_compatible(),
{
    let w = fm.document(v);
    if fm.all_accepted() {
        assert forall|i: int| 0 <= i < w.frames.len() implies w.format().accepts(
            #[trigger] w.frames[i],
        ) by {
            assert(w.frames[i] == fm.frames@[i]@);
        }
    }
}

/// The document that [Ser::dates_mut] hands back holds the dates and
/// timestamps of the [DatesMut] at the end of the borrow: it keeps its
/// format and frames, and, when the [DatesMut] ends in step (as
/// [DatesMut::clear] and [DatesMut::try_set_dates] keep it), its trailer
/// is in step.
pub proof fn lemma_dates_mut_result(v: SerView, dm: DatesMut)
    requires
        dm.frame_count == v.frames.len(),
    ensures
        dm.document(v).format() == v.format(),
        dm.document(v).frames == v.frames,
        dm.in_step() ==> dm.document(v).trailer_in_step(),
{
}

/// The frames of a sequence of frames with timestamps.
pub open spec fn pushed_frames(ps: Seq<(FrameView, Option<Timestamp>)>) -> Seq<FrameView> {
    ps.map_values(|p: (FrameView, Option<Timestamp>)| p.0)
}

/// Any sequence of [FramesMut::try_push] calls keeps the format and
/// whether frames come with timestamps, keeps every frame compatible and
/// the timestamps in step, adds at most one frame per call, and, when
/// every call is taken, appends exactly the pushed frames in order.
pub proof fn lemma_push_all(s: PushState, ps: Seq<(FrameView, Option<Timestamp>)>)
    ensures
        s.pushed_all(ps).format == s.format,
        s.pushed_all(ps).has_trailer == s.has_trailer,
        s.in_step() ==> s.pushed_all(ps).in_step(),
        s.all_accepted() ==> s.pushed_all(ps).all_accepted(),
        s.frames.len() <= s.pushed_all(ps).frames.len() <= s.frames.len() + ps.len(),
        s.pushed_all(ps).frames.subrange(0, s.frames.len() as int) == s.frames,
        (forall|i: int| 0 <= i < ps.len() ==> #[trigger] s.push_ok(ps[i].0, ps[i].1))
            ==> s.pushed_all(ps).frames == s.frames + pushed_frames(ps),
    decreases ps.len(),
{
    if ps.len() == 0 {
        assert(s.frames + pushed_frames(ps) =~= s.frames);
        assert(s.frames.subrange(0, s.frames.len() as int) =~= s.frames);
    } else {
        let init = ps.drop_last();
        let last = ps.last();
        lemma_push_all(s, init);
        let q = s.pushed_all(init);
        let r = s.pushed_all(ps);
        assert(r == q.pushed(last.0, last.1));
        if q.push_ok(last.0, last.1) {
            assert(r.frames.subrange(0, s.frames.len() as int) =~= q.frames.subrange(
                0,
                s.frames.len() as int,
            ));
            if q.all_accepted() {
                assert forall|i: int| 0 <= i < r.frames.len() implies r.format.accepts(
                    #[trigger] r.frames[i],
                ) by {
                    if i < q.frames.len() {
                        assert(r.frames[i] == q.frames[i]);
                    }
                }
            }
        }
        if forall|i: int| 0 <= i < ps.len() ==> #[trigger] s.push_ok(ps[i].0, ps[i].1) {
            assert forall|i: int| 0 <= i < init.len() implies #[trigger] s.push_ok(
                init[i].0,
                init[i].1,
            ) by {
                assert(init[i] == ps[i]);
                assert(s.push_ok(ps[i].0, ps[i].1));
            }
            assert(last == ps[ps.len() - 1]);
            assert(s.push_ok(ps[ps.len() - 1].0, ps[ps.len() - 1].1));
            assert(q.push_ok(last.0, last.1));
            assert(q.frames == s.frames + pushed_frames(init));
            assert(pushed_frames(ps) =~= pushed_frames(init).push(last.0));
            assert(s.frames + pushed_frames(ps) =~= (s.frames + pushed_frames(init)).push(last.0));
        }
    }
}

/// An edit of a document through [Ser::frames_mut] and [Ser::dates_mut]:
/// [FramesMut::try_push], [DatesMut::try_set_dates] or [DatesMut::clear].
pub enum Edit {
    Push(FrameView, Option<Timestamp>),
    SetDates(Timestamp, Timestamp, Seq<Timestamp>),
    Clear,
}

impl SerView {
    /// The edit is taken: a push of a compatible frame with a timestamp
    /// exactly when the file has frame timestamps; valid dates with one
    /// timestamp per frame; any clear.
    pub open spec fn edit_ok(self, e: Edit) -> bool {
        match e {
            Edit::Push(f, t) => self.format().accepts(f) && (self.has_frame_timestamps()
                == t is Some),
            Edit::SetDates(d, u, ts) => d.spec_is_valid() && u.spec_is_valid() && ts.len()
                == self.frames.len(),
            Edit::Clear => true,
        }
    }

    /// The document after an edit; a refused edit changes nothing.
    pub open spec fn edited(self, e: Edit) -> SerView {
        if !self.edit_ok(e) {
            self
        } else {
            match e {
                Edit::Push(f, t) => SerView {
                    frames: self.frames.push(f),
                    trailer: match t {
                        Some(x) => self.trailer.push(x),
                        None => self.trailer,
                    },
                    ..self
                },
                Edit::SetDates(d, u, ts) => SerView {
                    datetime: d,
                    datetime_utc: u,
                    trailer: ts,
                    ..self
                },
                Edit::Clear => SerView {
                    datetime: Timestamp::Invalid(0),
                    datetime_utc: Timestamp::Invalid(0),
                    trailer: Seq::empty(),
                    ..self
                },
            }
        }
    }

    /// The document after each edit of `es` in turn.
    pub open spec fn edited_all(self, es: Seq<Edit>) -> SerView
        decreases es.len(),
    {
        if es.len() == 0 {
            self
        } else {
            self.edited_all(es.drop_last()).edited(es.last())
        }
    }

    /// How many edits of `es` are pushes that are taken.
    pub open spec fn pushes_taken(self, es: Seq<Edit>) -> nat
        decreases es.len(),
    {
        if es.len() == 0 {
            0
        } else {
            let before = self.edited_all(es.drop_last());
            self.pushes_taken(es.drop_last()) + if es.last() is Push && before.edit_ok(es.last()) {
                1nat
            } else {
                0nat
            }
        }
    }
}

/// A document made by [Ser::with_format] (or read from bytes, see
/// `lemma_read_is_faithful`) and then changed only through
/// [FramesMut::try_push], [DatesMut::try_set_dates] and [DatesMut::clear]
/// keeps its format, keeps every frame compatible, has one frame timestamp
/// per frame when its datetime is valid and none otherwise (so each item
/// of [Ser::iter] has a timestamp exactly when the file has frame
/// timestamps), and holds one more frame for each push taken.
pub proof fn lemma_edits(v: SerView, es: Seq<Edit>)
    requires
        v.trailer_in_step(),
        v.frames_compatible(),
    ensures
        v.edited_all(es).format() == v.format(),
        v.edited_all(es).trailer_in_step(),
        v.edited_all(es).frames_compatible(),
        v.edited_all(es).frames.len() == v.frames.len() + v.pushes_taken(es),
        v.edited_all(es).frames.subrange(0, v.frames.len() as int) == v.frames,
    decreases es.len(),
{
    if es.len() == 0 {
        assert(v.frames.subrange(0, v.frames.len() as int) =~= v.frames);
    } else {
        let init = es.drop_last();
        lemma_edits(v, init);
        let q = v.edited_all(init);
        let r = v.edited_all(es);
        assert(r == q.edited(es.last()));
        if q.edit_ok(es.last()) {
            match es.last() {
                Edit::Push(f, t) => {
                    assert(r.frames.subrange(0, v.frames.len() as int) =~= q.frames.subrange(
                        0,
                        v.frames.len() as int,
                    ));
                    assert forall|i: int| 0 <= i < r.frames.len() implies r.format().accepts(
                        #[trigger] r.frames[i],
                    ) by {
                        if i < q.frames.len() {
                            assert(r.frames[i] == q.frames[i]);
                        }
                    }
                },
                _ => {},
            }
        }
    }
}

/// A new document is in step and its frames are compatible, so
/// [lemma_edits] applies to it.
pub proof fn lemma_new_is_in_step(format: FormatView)
    ensures
        SerView::empty_of(format).trailer_in_step(),
        SerView::empty_of(format).frames_compatible(),
{
}

} // verus!
