//! The pixel format shared by every frame of a SER file.

use vstd::prelude::*;

verus! {

/// Describes the color format of SER frames.
#[allow(non_camel_case_types)]
#[derive(Debug, Clone, Copy, PartialEq, Eq)]
pub enum ColorId {
    MONO,
    BAYER_RGGB,
    BAYER_GRBG,
    BAYER_GBRG,
    BAYER_BGGR,
    BAYER_CYYM,
    BAYER_YCMY,
    BAYER_YMCY,
    BAYER_MYYC,
    RGB,
    BGR,
}

/// Describes the endianness of pixel data in SER frames.
#[derive(Debug, Clone, Copy, PartialEq, Eq)]
pub enum PixelEndian {
    Big,
    Little,
}

/// Another name for [PixelEndian].
pub type PixelEndianness = PixelEndian;

/// Describes the primitive type in which each pixel channel is stored,
/// together with the true bit depth written in the file.
#[derive(Debug, Clone, Copy, PartialEq, Eq)]
pub enum PixelDepth {
    U8(i32),
    U16(i32),
}

/// Number of samples per pixel.
#[derive(Debug, Clone, Copy, PartialEq, Eq)]
pub enum PixelChannels {
    Rgb,
    Luma,
}

/// Container for different pixel formats.
pub enum Pixels {
    Rgb8(Vec<u8>),
    Rgb16(Vec<u16>),
    Luma8(Vec<u8>),
    Luma16(Vec<u16>),
}

/// The samples of a frame, as mathematical sequences.
pub enum PixelData {
    Rgb8(Seq<u8>),
    Rgb16(Seq<u16>),
    Luma8(Seq<u8>),
    Luma16(Seq<u16>),
}

/// A tuple struct containing the dimensions of an image and its pixels.
pub struct Frame(pub(crate) (u32, u32), pub(crate) Pixels);

/// What a [Frame] holds.
pub struct FrameView {
    pub width: u32,
    pub height: u32,
    pub pixels: PixelData,
}

/// The format defining all images in a SER file.
///
/// Only one format per SER file is supported. All images must have the same
/// width, height, bytes per pixel, etc.
#[derive(Clone, Copy)]
pub struct FrameFormat {
    color: ColorId,
    depth: PixelDepth,
    endian: PixelEndian,
    width: u32,
    height: u32,
}

/// What a [FrameFormat] holds.
pub struct FormatView {
    pub color: ColorId,
    pub depth: PixelDepth,
    pub endian: PixelEndian,
    pub width: u32,
    pub height: u32,
}

// ----------------------------------------------------------------------
// Codes of the enumerations in the file header
// ----------------------------------------------------------------------

/// The 32-bit code of a color id in the file header.
pub open spec fn color_code(c: ColorId) -> i32 {
    match c {
        ColorId::MONO => 0,
        ColorId::BAYER_RGGB => 8,
        ColorId::BAYER_GRBG => 9,
        ColorId::BAYER_GBRG => 10,
        ColorId::BAYER_BGGR => 11,
        ColorId::BAYER_CYYM => 16,
        ColorId::BAYER_YCMY => 17,
        ColorId::BAYER_YMCY => 18,
        ColorId::BAYER_MYYC => 19,
        ColorId::RGB => 100,
        ColorId::BGR => 101,
    }
}

/// The color id that a header code stands for, if any.
pub open spec fn color_of_code(code: i32) -> Option<ColorId> {
    if code == 0 {
        Some(ColorId::MONO)
    } else if code == 8 {
        Some(ColorId::BAYER_RGGB)
    } else if code == 9 {
        Some(ColorId::BAYER_GRBG)
    } else if code == 10 {
        Some(ColorId::BAYER_GBRG)
    } else if code == 11 {
        Some(ColorId::BAYER_BGGR)
    } else if code == 16 {
        Some(ColorId::BAYER_CYYM)
    } else if code == 17 {
        Some(ColorId::BAYER_YCMY)
    } else if code == 18 {
        Some(ColorId::BAYER_YMCY)
    } else if code == 19 {
        Some(ColorId::BAYER_MYYC)
    } else if code == 100 {
        Some(ColorId::RGB)
    } else if code == 101 {
        Some(ColorId::BGR)
    } else {
        None
    }
}

/// The 32-bit code of a pixel endianness in the file header.
pub open spec fn endian_code(e: PixelEndian) -> i32 {
    match e {
        PixelEndian::Big => 0,
        PixelEndian::Little => 1,
    }
}

/// The pixel endianness that a header code stands for, if any.
pub open spec fn endian_of_code(code: i32) -> Option<PixelEndian> {
    if code == 0 {
        Some(PixelEndian::Big)
    } else if code == 1 {
        Some(PixelEndian::Little)
    } else {
        None
    }
}

/// The depth that a bit count in the header decodes to: more than 8 bits
/// are stored in 16-bit samples.
pub open spec fn depth_of_bits(bits: i32) -> PixelDepth {
    if bits > 8 {
        PixelDepth::U16(bits)
    } else {
        PixelDepth::U8(bits)
    }
}

/// The bit count a depth is written as.
pub open spec fn depth_bits(d: PixelDepth) -> i32 {
    match d {
        PixelDepth::U8(v) => v,
        PixelDepth::U16(v) => v,
    }
}

/// Samples per pixel for a color id: three for RGB and BGR, one otherwise.
pub open spec fn channel_count(c: ColorId) -> nat {
    if c == ColorId::RGB || c == ColorId::BGR {
        3
    } else {
        1
    }
}

pub open spec fn channels_of(c: ColorId) -> PixelChannels {
    if c == ColorId::RGB || c == ColorId::BGR {
        PixelChannels::Rgb
    } else {
        PixelChannels::Luma
    }
}

impl ColorId {
    /// The code of this color id in the file header.
    pub fn code(&self) -> (r: i32)
        ensures
            r == color_code(*self),
    {
        match self {
            ColorId::MONO => 0,
            ColorId::BAYER_RGGB => 8,
            ColorId::BAYER_GRBG => 9,
            ColorId::BAYER_GBRG => 10,
            ColorId::BAYER_BGGR => 11,
            ColorId::BAYER_CYYM => 16,
            ColorId::BAYER_YCMY => 17,
            ColorId::BAYER_YMCY => 18,
            ColorId::BAYER_MYYC => 19,
            ColorId::RGB => 100,
            ColorId::BGR => 101,
        }
    }

    /// The color id of a header code; `None` for a code that names none.
    pub fn from_code(code: i32) -> (r: Option<ColorId>)
        ensures
            r == color_of_code(code),
    {
        if code == 0 {
            Some(ColorId::MONO)
        } else if code == 8 {
            Some(ColorId::BAYER_RGGB)
        } else if code == 9 {
            Some(ColorId::BAYER_GRBG)
        } else if code == 10 {
            Some(ColorId::BAYER_GBRG)
        } else if code == 11 {
            Some(ColorId::BAYER_BGGR)
        } else if code == 16 {
            Some(ColorId::BAYER_CYYM)
        } else if code == 17 {
            Some(ColorId::BAYER_YCMY)
        } else if code == 18 {
            Some(ColorId::BAYER_YMCY)
        } else if code == 19 {
            Some(ColorId::BAYER_MYYC)
        } else if code == 100 {
            Some(ColorId::RGB)
        } else if code == 101 {
            Some(ColorId::BGR)
        } else {
            None
        }
    }
}

/// `u16::to_ne_bytes` of one: its two bytes in the machine's byte order.
/// Claimed: they are 1, 0 on a little-endian machine and 0, 1 on a
/// big-endian one, as vstd's `endianness()` names the machine's order.
#[verifier::external_body]
fn one_in_native_order() -> (r: [u8; 2])
    ensures
        vstd::endian::endianness() is Little ==> r@ == seq![1u8, 0u8],
        vstd::endian::endianness() is Big ==> r@ == seq![0u8, 1u8],
{
    1u16.to_ne_bytes()
}

impl PixelEndian {
    /// The byte order of the machine this runs on.
    pub fn host_endian() -> (r: Self)
        ensures
            (r == PixelEndian::Little) == (vstd::endian::endianness() is Little),
    {
        let one = one_in_native_order();
        if one[0] == 1 {
            PixelEndian::Little
        } else {
            PixelEndian::Big
        }
    }

    /// The code of this endianness in the file header.
    pub fn code(&self) -> (r: i32)
        ensures
            r == endian_code(*self),
    {
        match self {
            PixelEndian::Big => 0,
            PixelEndian::Little => 1,
        }
    }

    /// The endianness of a header code; `None` for a code that names none.
    pub fn from_code(code: i32) -> (r: Option<PixelEndian>)
        ensures
            r == endian_of_code(code),
    {
        if code == 0 {
            Some(PixelEndian::Big)
        } else if code == 1 {
            Some(PixelEndian::Little)
        } else {
            None
        }
    }
}

/// Every color id has a code, and the code names it back.
pub proof fn lemma_color_code_roundtrip(c: ColorId)
    ensures
        color_of_code(color_code(c)) == Some(c),
{
}

/// A code that names a color id is that color id's code.
pub proof fn lemma_color_of_code_roundtrip(code: i32)
    requires
        color_of_code(code) is Some,
    ensures
        color_code(color_of_code(code)->0) == code,
{
}

/// Every endianness has a code, and the code names it back; a code that
/// names an endianness is its code.
pub proof fn lemma_endian_code_roundtrip(e: PixelEndian, code: i32)
    ensures
        endian_of_code(endian_code(e)) == Some(e),
        endian_of_code(code) is Some ==> endian_code(endian_of_code(code)->0) == code,
{
}

/// The bit count survives decoding it into a depth.
/// A bit count above 8 is stored in 16-bit samples, two bytes each; a bit
/// count of 8 or less in 8-bit samples, one byte each. The bit count
/// itself is kept.
pub proof fn lemma_depth_of_bits_storage(bits: i32)
    ensures
        (depth_of_bits(bits) is U16) <==> bits > 8,
        (depth_of_bits(bits) is U8) <==> bits <= 8,
        depth_of_bits(bits).sample_bytes() == if bits > 8 {
            2nat
        } else {
            1nat
        },
        depth_bits(depth_of_bits(bits)) == bits,
{
}

pub proof fn lemma_depth_bits_roundtrip(bits: i32)
    ensures
        depth_bits(depth_of_bits(bits)) == bits,
{
}

impl From<i32> for PixelDepth {
    fn from(value: i32) -> (r: Self)
        ensures
            r == depth_of_bits(value),
    {
        if value > 8 {
            PixelDepth::U16(value)
        } else {
            PixelDepth::U8(value)
        }
    }
}

impl vstd::std_specs::convert::FromSpecImpl<i32> for PixelDepth {
    open spec fn obeys_from_spec() -> bool {
        true
    }

    open spec fn from_spec(v: i32) -> Self {
        depth_of_bits(v)
    }
}

impl From<&PixelDepth> for i32 {
    fn from(value: &PixelDepth) -> (r: Self) {
        match value {
            PixelDepth::U8(v) => *v,
            PixelDepth::U16(v) => *v,
        }
    }
}

impl vstd::std_specs::convert::FromSpecImpl<&PixelDepth> for i32 {
    open spec fn obeys_from_spec() -> bool {
        true
    }

    open spec fn from_spec(v: &PixelDepth) -> Self {
        depth_bits(*v)
    }
}

impl PixelDepth {
    /// True when the variant is the one the bit count decodes to, as it is
    /// for every depth read from a file.
    pub open spec fn is_canonical(self) -> bool {
        self == depth_of_bits(depth_bits(self))
    }

    /// Bytes per stored sample.
    pub open spec fn sample_bytes(self) -> nat {
        match self {
            PixelDepth::U8(_) => 1,
            PixelDepth::U16(_) => 2,
        }
    }
}

impl From<&ColorId> for PixelChannels {
    fn from(value: &ColorId) -> (r: Self) {
        match value {
            ColorId::RGB => PixelChannels::Rgb,
            ColorId::BGR => PixelChannels::Rgb,
            _ => PixelChannels::Luma,
        }
    }
}

impl vstd::std_specs::convert::FromSpecImpl<&ColorId> for PixelChannels {
    open spec fn obeys_from_spec() -> bool {
        true
    }

    open spec fn from_spec(v: &ColorId) -> Self {
        channels_of(*v)
    }
}

impl From<&PixelChannels> for ColorId {
    fn from(value: &PixelChannels) -> (r: Self) {
        match value {
            PixelChannels::Rgb => ColorId::RGB,
            PixelChannels::Luma => ColorId::MONO,
        }
    }
}

impl vstd::std_specs::convert::FromSpecImpl<&PixelChannels> for ColorId {
    open spec fn obeys_from_spec() -> bool {
        true
    }

    open spec fn from_spec(v: &PixelChannels) -> Self {
        match *v {
            PixelChannels::Rgb => ColorId::RGB,
            PixelChannels::Luma => ColorId::MONO,
        }
    }
}

impl PixelChannels {
    pub open spec fn spec_len(&self) -> usize {
        match *self {
            PixelChannels::Rgb => 3,
            PixelChannels::Luma => 1,
        }
    }

    /// Samples per pixel.
    #[verifier::when_used_as_spec(spec_len)]
    pub fn len(&self) -> (r: usize)
        ensures
            r == self.spec_len(),
    {
        match self {
            PixelChannels::Rgb => 3,
            PixelChannels::Luma => 1,
        }
    }
}

// ----------------------------------------------------------------------
// Pixels and frames
// ----------------------------------------------------------------------

impl PixelData {
    pub open spec fn len(self) -> nat {
        match self {
            PixelData::Rgb8(p) => p.len(),
            PixelData::Rgb16(p) => p.len(),
            PixelData::Luma8(p) => p.len(),
            PixelData::Luma16(p) => p.len(),
        }
    }

    /// True for 16-bit samples.
    pub open spec fn is_wide(self) -> bool {
        self is Rgb16 || self is Luma16
    }

    pub open spec fn channels(self) -> PixelChannels {
        if self is Rgb8 || self is Rgb16 {
            PixelChannels::Rgb
        } else {
            PixelChannels::Luma
        }
    }
}

impl View for Pixels {
    type V = PixelData;

    open spec fn view(&self) -> PixelData {
        match self {
            Pixels::Rgb8(p) => PixelData::Rgb8(p@),
            Pixels::Rgb16(p) => PixelData::Rgb16(p@),
            Pixels::Luma8(p) => PixelData::Luma8(p@),
            Pixels::Luma16(p) => PixelData::Luma16(p@),
        }
    }
}

impl Pixels {
    /// The number of samples.
    pub fn len(&self) -> (r: usize)
        ensures
            r == self@.len(),
    {
        match self {
            Pixels::Rgb8(items) => items.len(),
            Pixels::Rgb16(items) => items.len(),
            Pixels::Luma8(items) => items.len(),
            Pixels::Luma16(items) => items.len(),
        }
    }

    /// True when the samples have the given channel layout.
    pub fn has_channels(&self, channels: &PixelChannels) -> (r: bool)
        ensures
            r == (self@.channels() == *channels),
    {
        match self {
            Pixels::Rgb8(_) => matches!(channels, PixelChannels::Rgb),
            Pixels::Rgb16(_) => matches!(channels, PixelChannels::Rgb),
            Pixels::Luma8(_) => matches!(channels, PixelChannels::Luma),
            Pixels::Luma16(_) => matches!(channels, PixelChannels::Luma),
        }
    }

    /// True when the samples are stored in the primitive type of `depth`.
    pub fn has_depth(&self, depth: &PixelDepth) -> (r: bool)
        ensures
            r == (self@.is_wide() == (*depth is U16)),
    {
        match self {
            Pixels::Rgb8(_) => matches!(depth, PixelDepth::U8(_)),
            Pixels::Rgb16(_) => matches!(depth, PixelDepth::U16(_)),
            Pixels::Luma8(_) => matches!(depth, PixelDepth::U8(_)),
            Pixels::Luma16(_) => matches!(depth, PixelDepth::U16(_)),
        }
    }
}

impl Clone for Pixels {
    fn clone(&self) -> (r: Self)
        ensures
            r@ == self@,
    {
        match self {
            Pixels::Rgb8(p) => Pixels::Rgb8(p.clone()),
            Pixels::Rgb16(p) => Pixels::Rgb16(p.clone()),
            Pixels::Luma8(p) => Pixels::Luma8(p.clone()),
            Pixels::Luma16(p) => Pixels::Luma16(p.clone()),
        }
    }
}

impl Clone for Frame {
    fn clone(&self) -> (r: Self)
        ensures
            r@ == self@,
    {
        Frame(self.0, self.1.clone())
    }
}

impl View for Frame {
    type V = FrameView;

    closed spec fn view(&self) -> FrameView {
        FrameView { width: self.0.0, height: self.0.1, pixels: self.1@ }
    }
}

impl View for FrameFormat {
    type V = FormatView;

    closed spec fn view(&self) -> FormatView {
        FormatView {
            color: self.color,
            depth: self.depth,
            endian: self.endian,
            width: self.width,
            height: self.height,
        }
    }
}

/// What a frame's view is made of.
pub(crate) proof fn lemma_frame_view(f: Frame)
    ensures
        f@ == (FrameView { width: f.0.0, height: f.0.1, pixels: f.1@ }),
{
}

impl FormatView {
    /// Samples in one frame: channels × width × height.
    pub open spec fn samples(self) -> nat {
        channel_count(self.color) * (self.width as nat) * (self.height as nat)
    }

    /// Bytes one frame takes in a file.
    pub open spec fn frame_bytes_len(self) -> nat {
        self.samples() * self.depth.sample_bytes()
    }

    /// The product channels × width × height, evaluated left to right in
    /// `usize`, does not overflow.
    pub open spec fn samples_fit(self) -> bool {
        &&& channel_count(self.color) * self.width <= usize::MAX
        &&& self.samples() <= usize::MAX
    }

    /// A frame is compatible with the format when it has the format's
    /// dimensions, the format's number of samples, the format's channel
    /// layout (RGB for RGB and BGR, one channel otherwise) and samples of
    /// the format's primitive type.
    pub open spec fn accepts(self, f: FrameView) -> bool {
        &&& f.width == self.width
        &&& f.height == self.height
        &&& f.pixels.len() == self.samples()
        &&& f.pixels.channels() == channels_of(self.color)
        &&& f.pixels.is_wide() == (self.depth is U16)
    }
}

impl FrameFormat {
    pub fn new(
        color: ColorId,
        depth: PixelDepth,
        endian: PixelEndian,
        width: u32,
        height: u32,
    ) -> (r: Self)
        ensures
            r@ == (FormatView { color, depth, endian, width, height }),
    {
        Self { color, depth, endian, width, height }
    }

    /// Samples in one frame of this format.
    pub fn raw_len(&self) -> (r: usize)
        requires
            self@.samples_fit(),
        ensures
            r == self@.samples(),
    {
        let channels: PixelChannels = PixelChannels::from(&self.color);
        proof {
            assert(channels.spec_len() == channel_count(self.color));
        }
        channels.len() * self.width as usize * self.height as usize
    }

    /// True when `frame` may be stored in a file of this format: same
    /// dimensions, number of samples, channel layout and sample type. The
    /// number of samples is only computed once the dimensions agree.
    pub fn is_compatible(&self, frame: &Frame) -> (r: bool)
        requires
            (frame@.width == self@.width && frame@.height == self@.height) ==> self@.samples_fit(),
        ensures
            r == self@.accepts(frame@),
    {
        let Frame((w, h), p) = frame;
        self.width == *w && self.height == *h && self.raw_len() == p.len() && p.has_channels(
            &PixelChannels::from(&self.color),
        ) && p.has_depth(&self.depth)
    }

    pub fn color(&self) -> (r: &ColorId)
        ensures
            *r == self@.color,
    {
        &self.color
    }

    pub fn depth(&self) -> (r: &PixelDepth)
        ensures
            *r == self@.depth,
    {
        &self.depth
    }

    pub fn endian(&self) -> (r: &PixelEndian)
        ensures
            *r == self@.endian,
    {
        &self.endian
    }

    pub fn width(&self) -> (r: &u32)
        ensures
            *r == self@.width,
    {
        &self.width
    }

    pub fn height(&self) -> (r: &u32)
        ensures
            *r == self@.height,
    {
        &self.height
    }

    pub fn set_color(&mut self, val: ColorId) -> (r: &mut Self)
        ensures
            r@ == (FormatView { color: val, ..old(self)@ }),
            final(self)@ == final(r)@,
    {
        self.color = val;
        self
    }

    pub fn set_depth(&mut self, val: PixelDepth) -> (r: &mut Self)
        ensures
            r@ == (FormatView { depth: val, ..old(self)@ }),
            final(self)@ == final(r)@,
    {
        self.depth = val;
        self
    }

    pub fn set_endian(&mut self, val: PixelEndian) -> (r: &mut Self)
        ensures
            r@ == (FormatView { endian: val, ..old(self)@ }),
            final(self)@ == final(r)@,
    {
        self.endian = val;
        self
    }

    pub fn set_width(&mut self, val: u32) -> (r: &mut Self)
        ensures
            r@ == (FormatView { width: val, ..old(self)@ }),
            final(self)@ == final(r)@,
    {
        self.width = val;
        self
    }

    pub fn set_height(&mut self, val: u32) -> (r: &mut Self)
        ensures
            r@ == (FormatView { height: val, ..old(self)@ }),
            final(self)@ == final(r)@,
    {
        self.height = val;
        self
    }
}

} // verus!
