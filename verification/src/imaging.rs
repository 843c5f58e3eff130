//! Conversions between frames and images. An [Image] holds an image of
//! the `image` crate as plain values; converting its samples to another
//! channel layout or depth is done by that crate.

use image::{DynamicImage, ImageBuffer};
use vstd::prelude::*;

use crate::format::{
    channels_of, lemma_frame_view, ColorId, FormatView, Frame, FrameFormat, FrameView,
    PixelChannels, PixelData, PixelDepth, PixelEndian, Pixels,
};

verus! {

#[verifier::external_type_specification]
#[verifier::external_body]
pub struct ExDynamicImage(DynamicImage);

/// The channels of each pixel of an image.
#[derive(Debug, Clone, Copy, PartialEq, Eq)]
pub enum ImageChannels {
    Luma,
    LumaA,
    Rgb,
    Rgba,
}

/// The samples of an image, row by row, pixel by pixel, channel by
/// channel.
#[derive(Debug, PartialEq, Eq)]
pub enum ImageSamples {
    U8(Vec<u8>),
    U16(Vec<u16>),
}

/// The samples of an image, as a sequence.
pub enum SampleData {
    U8(Seq<u8>),
    U16(Seq<u16>),
}

/// An image: its size, the channels of each pixel and its samples.
#[derive(Debug, PartialEq, Eq)]
pub struct Image {
    pub width: u32,
    pub height: u32,
    pub channels: ImageChannels,
    pub samples: ImageSamples,
}

pub struct ImageView {
    pub width: u32,
    pub height: u32,
    pub channels: ImageChannels,
    pub samples: SampleData,
}

/// The sample layout of an image, as far as SER frames can store it.
#[derive(Debug, Clone, Copy, PartialEq, Eq)]
pub enum ImageLayout {
    Rgb8,
    Rgb16,
    Luma8,
    Luma16,
    /// Any other layout (with alpha, or floating point).
    Other,
}

impl View for ImageSamples {
    type V = SampleData;

    open spec fn view(&self) -> SampleData {
        match self {
            ImageSamples::U8(p) => SampleData::U8(p@),
            ImageSamples::U16(p) => SampleData::U16(p@),
        }
    }
}

impl View for Image {
    type V = ImageView;

    open spec fn view(&self) -> ImageView {
        ImageView {
            width: self.width,
            height: self.height,
            channels: self.channels,
            samples: self.samples@,
        }
    }
}

/// `ImageBuffer::from_raw` takes `len` samples for `c` channels of
/// `w` × `h` pixels: the product c × w × h, taken left to right in
/// `usize`, does not overflow and is at most `len`.
pub open spec fn raw_fits(c: nat, w: u32, h: u32, len: nat) -> bool {
    &&& c * (w as nat) <= usize::MAX
    &&& c * (w as nat) * (h as nat) <= len
}

/// Samples per pixel.
pub open spec fn channel_width(c: ImageChannels) -> nat {
    match c {
        ImageChannels::Luma => 1,
        ImageChannels::LumaA => 2,
        ImageChannels::Rgb => 3,
        ImageChannels::Rgba => 4,
    }
}

impl SampleData {
    pub open spec fn len(self) -> nat {
        match self {
            SampleData::U8(p) => p.len(),
            SampleData::U16(p) => p.len(),
        }
    }
}

impl ImageView {
    /// Samples that the pixels take: channels × width × height.
    pub open spec fn pixel_samples(self) -> nat {
        channel_width(self.channels) * (self.width as nat) * (self.height as nat)
    }

    /// The image holds a sample for every channel of every pixel (more
    /// are ignored), and any conversion of it fits in memory.
    pub open spec fn is_wf(self) -> bool {
        &&& raw_fits(channel_width(self.channels), self.width, self.height, self.samples.len())
        &&& 8 * (self.width as nat) * (self.height as nat) <= isize::MAX
    }

    /// The image holds exactly one sample for every channel of every pixel.
    pub open spec fn is_exact(self) -> bool {
        self.samples.len() == self.pixel_samples()
    }

    pub open spec fn layout(self) -> ImageLayout {
        match (self.channels, self.samples) {
            (ImageChannels::Rgb, SampleData::U8(_)) => ImageLayout::Rgb8,
            (ImageChannels::Rgb, SampleData::U16(_)) => ImageLayout::Rgb16,
            (ImageChannels::Luma, SampleData::U8(_)) => ImageLayout::Luma8,
            (ImageChannels::Luma, SampleData::U16(_)) => ImageLayout::Luma16,
            _ => ImageLayout::Other,
        }
    }
}

/// `ImageBuffer::from_raw` for 8-bit samples, as an image of the given
/// channels. Claimed, as its source shows: an image comes back exactly
/// when the samples are at least channels × width × height.
#[verifier::external_body]
fn image_u8(width: u32, height: u32, channels: ImageChannels, p: Vec<u8>) -> (r: Option<
    DynamicImage,
>)
    ensures
        r.is_some() == raw_fits(channel_width(channels), width, height, p@.len()),
{
    match channels {
        ImageChannels::Luma => ImageBuffer::from_raw(width, height, p).map(DynamicImage::ImageLuma8),
        ImageChannels::LumaA => ImageBuffer::from_raw(width, height, p).map(DynamicImage::ImageLumaA8),
        ImageChannels::Rgb => ImageBuffer::from_raw(width, height, p).map(DynamicImage::ImageRgb8),
        ImageChannels::Rgba => ImageBuffer::from_raw(width, height, p).map(DynamicImage::ImageRgba8),
    }
}

/// `ImageBuffer::from_raw` for 16-bit samples, as an image of the given
/// channels. Claimed, as its source shows: an image comes back exactly
/// when the samples are at least channels × width × height.
#[verifier::external_body]
fn image_u16(width: u32, height: u32, channels: ImageChannels, p: Vec<u16>) -> (r: Option<
    DynamicImage,
>)
    ensures
        r.is_some() == raw_fits(channel_width(channels), width, height, p@.len()),
{
    match channels {
        ImageChannels::Luma => ImageBuffer::from_raw(width, height, p).map(DynamicImage::ImageLuma16),
        ImageChannels::LumaA => ImageBuffer::from_raw(width, height, p).map(DynamicImage::ImageLumaA16),
        ImageChannels::Rgb => ImageBuffer::from_raw(width, height, p).map(DynamicImage::ImageRgb16),
        ImageChannels::Rgba => ImageBuffer::from_raw(width, height, p).map(DynamicImage::ImageRgba16),
    }
}

/// The `image` crate's image of the same size, channels and samples.
fn dynamic_image(img: &Image) -> DynamicImage
    requires
        img@.is_wf(),
{
    let r = match &img.samples {
        ImageSamples::U8(p) => image_u8(img.width, img.height, img.channels, p.clone()),
        ImageSamples::U16(p) => image_u16(img.width, img.height, img.channels, p.clone()),
    };
    r.unwrap()
}

/// What `DynamicImage::to_luma8` gives for an image: its samples as 8-bit
/// gray values.
pub uninterp spec fn luma8_of(img: ImageView) -> Seq<u8>;

/// What `DynamicImage::to_luma16` gives for an image.
pub uninterp spec fn luma16_of(img: ImageView) -> Seq<u16>;

/// What `DynamicImage::to_rgb8` gives for an image.
pub uninterp spec fn rgb8_of(img: ImageView) -> Seq<u8>;

/// What `DynamicImage::to_rgb16` gives for an image.
pub uninterp spec fn rgb16_of(img: ImageView) -> Seq<u16>;

/// `DynamicImage::to_luma8`, as its raw samples. Claimed, as the source
/// shows: an 8-bit gray image is copied as it is; any other is converted
/// pixel by pixel into one sample per pixel. Which values a conversion
/// gives is left to the name.
#[verifier::external_body]
fn luma8_samples(img: &Image) -> (r: Vec<u8>)
    requires
        img@.is_wf(),
    ensures
        r@ == luma8_of(img@),
        img@.layout() == ImageLayout::Luma8 ==> r@ == img@.samples->U8_0,
        img@.layout() != ImageLayout::Luma8 ==> r@.len() == (img.width as nat) * (
        img.height as nat),
{
    dynamic_image(img).to_luma8().into_raw()
}

/// `DynamicImage::to_luma16`, as its raw samples. Claimed, as the source
/// shows: a 16-bit gray image is copied as it is; any other is converted
/// pixel by pixel into one sample per pixel.
#[verifier::external_body]
fn luma16_samples(img: &Image) -> (r: Vec<u16>)
    requires
        img@.is_wf(),
    ensures
        r@ == luma16_of(img@),
        img@.layout() == ImageLayout::Luma16 ==> r@ == img@.samples->U16_0,
        img@.layout() != ImageLayout::Luma16 ==> r@.len() == (img.width as nat) * (
        img.height as nat),
{
    dynamic_image(img).to_luma16().into_raw()
}

/// `DynamicImage::to_rgb8`, as its raw samples. Claimed, as the source
/// shows: an 8-bit RGB image is copied as it is; any other is converted
/// pixel by pixel into three samples per pixel.
#[verifier::external_body]
fn rgb8_samples(img: &Image) -> (r: Vec<u8>)
    requires
        img@.is_wf(),
    ensures
        r@ == rgb8_of(img@),
        img@.layout() == ImageLayout::Rgb8 ==> r@ == img@.samples->U8_0,
        img@.layout() != ImageLayout::Rgb8 ==> r@.len() == 3 * (img.width as nat) * (
        img.height as nat),
{
    dynamic_image(img).to_rgb8().into_raw()
}

/// `DynamicImage::to_rgb16`, as its raw samples. Claimed, as the source
/// shows: a 16-bit RGB image is copied as it is; any other is converted
/// pixel by pixel into three samples per pixel.
#[verifier::external_body]
fn rgb16_samples(img: &Image) -> (r: Vec<u16>)
    requires
        img@.is_wf(),
    ensures
        r@ == rgb16_of(img@),
        img@.layout() == ImageLayout::Rgb16 ==> r@ == img@.samples->U16_0,
        img@.layout() != ImageLayout::Rgb16 ==> r@.len() == 3 * (img.width as nat) * (
        img.height as nat),
{
    dynamic_image(img).to_rgb16().into_raw()
}

/// The message of a refused image of other dimensions than the format.
pub open spec fn dimension_message() -> &'static str {
    "Incompatible image dimensions. All frames must have the same width and height."
}

/// The byte order of the machine this runs on.
pub open spec fn host_endian_spec() -> PixelEndian {
    if vstd::endian::endianness() is Little {
        PixelEndian::Little
    } else {
        PixelEndian::Big
    }
}

/// The format that an image of the given layout and size gets: RGB or
/// mono, 8 or 16 bits; other layouts are refused.
pub open spec fn format_of_layout(
    layout: ImageLayout,
    endian: PixelEndian,
    width: u32,
    height: u32,
) -> Option<FormatView> {
    match layout {
        ImageLayout::Rgb8 => Some(
            FormatView { color: ColorId::RGB, depth: PixelDepth::U8(8), endian, width, height },
        ),
        ImageLayout::Rgb16 => Some(
            FormatView { color: ColorId::RGB, depth: PixelDepth::U16(16), endian, width, height },
        ),
        ImageLayout::Luma8 => Some(
            FormatView { color: ColorId::MONO, depth: PixelDepth::U8(8), endian, width, height },
        ),
        ImageLayout::Luma16 => Some(
            FormatView { color: ColorId::MONO, depth: PixelDepth::U16(16), endian, width, height },
        ),
        ImageLayout::Other => None,
    }
}

/// The image layout of a frame format: RGB or gray, 8 or 16 bits.
pub open spec fn format_layout(fmt: FormatView) -> ImageLayout {
    match (channels_of(fmt.color), fmt.depth) {
        (PixelChannels::Luma, PixelDepth::U8(_)) => ImageLayout::Luma8,
        (PixelChannels::Luma, PixelDepth::U16(_)) => ImageLayout::Luma16,
        (PixelChannels::Rgb, PixelDepth::U8(_)) => ImageLayout::Rgb8,
        (PixelChannels::Rgb, PixelDepth::U16(_)) => ImageLayout::Rgb16,
    }
}

/// The samples of an image converted to the channels and depth of a
/// format.
pub open spec fn converted(img: ImageView, fmt: FormatView) -> PixelData {
    match (channels_of(fmt.color), fmt.depth) {
        (PixelChannels::Luma, PixelDepth::U8(_)) => PixelData::Luma8(luma8_of(img)),
        (PixelChannels::Luma, PixelDepth::U16(_)) => PixelData::Luma16(luma16_of(img)),
        (PixelChannels::Rgb, PixelDepth::U8(_)) => PixelData::Rgb8(rgb8_of(img)),
        (PixelChannels::Rgb, PixelDepth::U16(_)) => PixelData::Rgb16(rgb16_of(img)),
    }
}

impl Image {
    /// The layout of this image, as far as SER frames can store it.
    pub fn layout(&self) -> (r: ImageLayout)
        ensures
            r == self@.layout(),
    {
        match (self.channels, &self.samples) {
            (ImageChannels::Rgb, ImageSamples::U8(_)) => ImageLayout::Rgb8,
            (ImageChannels::Rgb, ImageSamples::U16(_)) => ImageLayout::Rgb16,
            (ImageChannels::Luma, ImageSamples::U8(_)) => ImageLayout::Luma8,
            (ImageChannels::Luma, ImageSamples::U16(_)) => ImageLayout::Luma16,
            _ => ImageLayout::Other,
        }
    }
}

impl FrameFormat {
    /// The format for images of the given layout, byte order and size.
    pub fn from_image_layout(layout: ImageLayout, endian: PixelEndian, width: u32, height: u32) -> (r:
        Result<FrameFormat, &'static str>)
        ensures
            match format_of_layout(layout, endian, width, height) {
                Some(f) => r matches Ok(g) && g@ == f,
                None => r == Err::<FrameFormat, &'static str>("Unsupported image type."),
            },
    {
        match layout {
            ImageLayout::Rgb8 => Ok(
                FrameFormat::new(ColorId::RGB, PixelDepth::U8(8), endian, width, height),
            ),
            ImageLayout::Rgb16 => Ok(
                FrameFormat::new(ColorId::RGB, PixelDepth::U16(16), endian, width, height),
            ),
            ImageLayout::Luma8 => Ok(
                FrameFormat::new(ColorId::MONO, PixelDepth::U8(8), endian, width, height),
            ),
            ImageLayout::Luma16 => Ok(
                FrameFormat::new(ColorId::MONO, PixelDepth::U16(16), endian, width, height),
            ),
            ImageLayout::Other => Err("Unsupported image type."),
        }
    }

    /// The format matching an image: its size, RGB or mono, 8 or 16 bits,
    /// in the host's byte order. Images with alpha are refused.
    pub fn try_from_image(img: &Image) -> (r: Result<FrameFormat, &'static str>)
        ensures
            match format_of_layout(img@.layout(), host_endian_spec(), img.width, img.height) {
                Some(f) => r matches Ok(g) && g@ == f,
                None => r == Err::<FrameFormat, &'static str>("Unsupported image type."),
            },
            r matches Ok(g) ==> format_layout(g@) == img@.layout(),
    {
        let endian = PixelEndian::host_endian();
        assert(endian == host_endian_spec());
        FrameFormat::from_image_layout(img.layout(), endian, img.width, img.height)
    }

    /// Attempt to convert an image into a [Frame] that is compatible with
    /// this [FrameFormat]: the image must have the format's width and
    /// height; its samples are converted to the format's channels and
    /// depth.
    pub fn try_into_frame(&self, img: Image) -> (r: Result<Frame, &'static str>)
        requires
            img.width == self@.width && img.height == self@.height ==> img@.is_wf(),
        ensures
            r is Ok <==> (img.width == self@.width && img.height == self@.height),
            r is Err ==> r == Err::<Frame, &'static str>(dimension_message()),
            r matches Ok(f) ==> f@ == (FrameView {
                width: self@.width,
                height: self@.height,
                pixels: converted(img@, self@),
            }),
            r matches Ok(f) ==> (img@.is_exact() ==> self@.accepts(f@)),
            r matches Ok(f) ==> (img@.layout() == format_layout(self@) ==> image_of_frame(f@)
                == img@),
    {
        if img.width != *self.width() || img.height != *self.height() {
            return Err(
                "Incompatible image dimensions. All frames must have the same width and height.",
            );
        }
        let ghost v = img@;
        let channels = PixelChannels::from(self.color());
        let pixels = match (channels, *self.depth()) {
            (PixelChannels::Luma, PixelDepth::U8(_)) => Pixels::Luma8(luma8_samples(&img)),
            (PixelChannels::Luma, PixelDepth::U16(_)) => Pixels::Luma16(luma16_samples(&img)),
            (PixelChannels::Rgb, PixelDepth::U8(_)) => Pixels::Rgb8(rgb8_samples(&img)),
            (PixelChannels::Rgb, PixelDepth::U16(_)) => Pixels::Rgb16(rgb16_samples(&img)),
        };
        let r = Frame((*self.width(), *self.height()), pixels);
        proof {
            lemma_frame_view(r);
            let w = v.width as nat;
            let h = v.height as nat;
            if v.is_exact() {
                if v.layout() == ImageLayout::Luma8 || v.layout() == ImageLayout::Luma16 {
                    assert(channel_width(v.channels) == 1);
                }
                if v.layout() == ImageLayout::Rgb8 || v.layout() == ImageLayout::Rgb16 {
                    assert(channel_width(v.channels) == 3);
                }
                assert(self@.samples() == crate::format::channel_count(self@.color) * w * h);
            }
        }
        Ok(r)
    }

    /// The same as [FrameFormat::try_into_frame].
    pub fn try_new_frame(&self, img: Image) -> (r: Result<Frame, &'static str>)
        requires
            img.width == self@.width && img.height == self@.height ==> img@.is_wf(),
        ensures
            r is Ok <==> (img.width == self@.width && img.height == self@.height),
            r is Err ==> r == Err::<Frame, &'static str>(dimension_message()),
            r matches Ok(f) ==> f@ == (FrameView {
                width: self@.width,
                height: self@.height,
                pixels: converted(img@, self@),
            }),
            r matches Ok(f) ==> (img@.is_exact() ==> self@.accepts(f@)),
            r matches Ok(f) ==> (img@.layout() == format_layout(self@) ==> image_of_frame(f@)
                == img@),
    {
        self.try_into_frame(img)
    }
}

/// The image that a frame holds: its size, RGB or gray, and its samples.
pub open spec fn image_of_frame(f: FrameView) -> ImageView {
    ImageView {
        width: f.width,
        height: f.height,
        channels: if f.pixels.channels() == PixelChannels::Rgb {
            ImageChannels::Rgb
        } else {
            ImageChannels::Luma
        },
        samples: match f.pixels {
            PixelData::Rgb8(p) => SampleData::U8(p),
            PixelData::Luma8(p) => SampleData::U8(p),
            PixelData::Rgb16(p) => SampleData::U16(p),
            PixelData::Luma16(p) => SampleData::U16(p),
        },
    }
}

/// The samples of a frame converted from an image depend on the format's
/// channels and depth alone, never on how the image stores its samples:
/// one channel and 8 bits gives what `to_luma8` gives for the whole image,
/// one channel and 16 bits what `to_luma16` gives, three channels and 8
/// bits what `to_rgb8` gives, three channels and 16 bits what `to_rgb16`
/// gives.
pub proof fn lemma_converted_samples(img: ImageView, fmt: FormatView)
    ensures
        channels_of(fmt.color) == PixelChannels::Luma && fmt.depth is U8 ==> converted(img, fmt)
            == PixelData::Luma8(luma8_of(img)),
        channels_of(fmt.color) == PixelChannels::Luma && fmt.depth is U16 ==> converted(img, fmt)
            == PixelData::Luma16(luma16_of(img)),
        channels_of(fmt.color) == PixelChannels::Rgb && fmt.depth is U8 ==> converted(img, fmt)
            == PixelData::Rgb8(rgb8_of(img)),
        channels_of(fmt.color) == PixelChannels::Rgb && fmt.depth is U16 ==> converted(img, fmt)
            == PixelData::Rgb16(rgb16_of(img)),
        (fmt.color == ColorId::RGB || fmt.color == ColorId::BGR) <==> converted(img, fmt).channels()
            == PixelChannels::Rgb,
        converted(img, fmt).is_wide() <==> fmt.depth is U16,
{
}

/// The format for an image of a supported layout has the image's size,
/// the given byte order and the image's layout (RGB for RGB images, mono
/// for gray ones; 16 bits for 16-bit samples, 8 otherwise); only other
/// layouts get none.
pub proof fn lemma_format_of_layout_size(layout: ImageLayout, endian: PixelEndian, width: u32, height: u32)
    ensures
        format_of_layout(layout, endian, width, height) is Some <==> layout != ImageLayout::Other,
        layout != ImageLayout::Other ==> {
            let f = format_of_layout(layout, endian, width, height)->0;
            &&& f.width == width
            &&& f.height == height
            &&& f.endian == endian
            &&& format_layout(f) == layout
            &&& (f.color == ColorId::RGB) <==> (layout == ImageLayout::Rgb8 || layout
                == ImageLayout::Rgb16)
            &&& (f.color == ColorId::MONO) <==> (layout == ImageLayout::Luma8 || layout
                == ImageLayout::Luma16)
            &&& (f.depth == PixelDepth::U16(16)) <==> (layout == ImageLayout::Rgb16 || layout
                == ImageLayout::Luma16)
            &&& (f.depth == PixelDepth::U8(8)) <==> (layout == ImageLayout::Rgb8 || layout
                == ImageLayout::Luma8)
        },
{
}

/// An image turned into a frame of its own layout, and the frame turned
/// back into an image ([Frame::try_into_image]), gives the image back: the
/// frame holds enough samples, so the conversion succeeds.
pub proof fn lemma_image_frame_image(img: ImageView, f: FrameView)
    requires
        img.is_wf(),
        image_of_frame(f) == img,
    ensures
        raw_fits(channel_width(image_of_frame(f).channels), f.width, f.height, f.pixels.len()),
{
    assert(f.pixels.len() == img.samples.len());
}

impl Frame {
    /// Converts the frame into an image of its size, channels and samples;
    /// refused when it has fewer samples than channels × width × height.
    pub fn try_into_image(self) -> (r: Result<Image, &'static str>)
        ensures
            r is Ok <==> raw_fits(
                channel_width(image_of_frame(self@).channels),
                self@.width,
                self@.height,
                self@.pixels.len(),
            ),
            r is Err ==> r == Err::<Image, &'static str>("Unable to convert frame"),
            r matches Ok(img) ==> img@ == image_of_frame(self@),
    {
        proof {
            lemma_frame_view(self);
        }
        let ghost v = self@;
        let Frame((width, height), pixels) = self;
        let (channels, samples) = match pixels {
            Pixels::Rgb8(p) => (ImageChannels::Rgb, ImageSamples::U8(p)),
            Pixels::Rgb16(p) => (ImageChannels::Rgb, ImageSamples::U16(p)),
            Pixels::Luma8(p) => (ImageChannels::Luma, ImageSamples::U8(p)),
            Pixels::Luma16(p) => (ImageChannels::Luma, ImageSamples::U16(p)),
        };
        let len = match &samples {
            ImageSamples::U8(p) => p.len(),
            ImageSamples::U16(p) => p.len(),
        };
        let c: usize = match channels {
            ImageChannels::Rgb => 3,
            _ => 1,
        };
        let img = Image { width, height, channels, samples };
        assert(img@ == image_of_frame(v));
        assert(c == channel_width(img@.channels));
        assert(len == v.pixels.len());
        let fits = match c.checked_mul(width as usize) {
            Some(cw) => match cw.checked_mul(height as usize) {
                Some(n) => n <= len,
                None => false,
            },
            None => false,
        };
        if fits {
            Ok(img)
        } else {
            Err("Unable to convert frame")
        }
    }
}

} // verus!
