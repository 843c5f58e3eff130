//! Reading, editing and writing SER files, the raw video format of
//! astronomical cameras.

use vstd::prelude::*;

pub mod codec;
pub mod encoding;
pub mod fixed_string;
pub mod format;
pub mod imaging;
pub mod ser;
pub mod timestamp;

pub use codec::ParseError;
pub use fixed_string::FixedString;
pub use format::{
    ColorId, Frame, FrameFormat, PixelChannels, PixelDepth, PixelEndian, PixelEndianness, Pixels,
};
pub use imaging::{Image, ImageChannels, ImageLayout, ImageSamples};
pub use ser::{DateErrors, DatesMut, FramePushErrors, FramesMut, Ser};
pub use timestamp::{Timestamp, TimestampError, UnixOffset};

verus! {
}
