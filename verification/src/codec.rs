//! The byte layout of a SER file: what writing a document produces, what
//! reading bytes gives, and the proofs that the two undo each other.

use vstd::prelude::*;

use crate::encoding::{
    enc_u16, i32_at, i32_le, piece, u16_at, u16_be, u16_be_at, u16_le, u16s_bytes, u16s_from,
    u64_at, u64_le,
};
use crate::fixed_string::{lemma_fixed_string_view, FixedString};
use crate::format::{
    channel_count, channels_of, color_code, color_of_code, depth_bits, depth_of_bits, endian_code,
    endian_of_code, lemma_frame_view, ColorId, FormatView, Frame,
    FrameFormat, FrameView, PixelChannels, PixelData, PixelDepth, PixelEndian, Pixels,
};
use crate::ser::{frame_views, lemma_ser_view, Ser, SerView};
use crate::timestamp::{datetime_of, timestamp_of, Timestamp};

verus! {

/// Why bytes could not be read as a SER file.
#[derive(Debug, Clone, Copy, PartialEq, Eq)]
pub enum ParseError {
    /// The bytes end before the file does.
    UnexpectedEnd,
    /// The bytes do not start with "LUCAM-RECORDER".
    BadMagic,
    /// The color id field holds a code that names no color id.
    UnknownColorId(i32),
    /// The endianness field holds a code other than 0 and 1.
    UnknownPixelEndian(i32),
}

/// The 14 ASCII characters "LUCAM-RECORDER" that start every SER file.
pub open spec fn magic() -> Seq<u8> {
    seq![76u8, 85u8, 67u8, 65u8, 77u8, 45u8, 82u8, 69u8, 67u8, 79u8, 82u8, 68u8, 69u8, 82u8]
}

/// Image data starts at this offset.
pub open spec fn header_len() -> int {
    178
}

// ----------------------------------------------------------------------
// Writing
// ----------------------------------------------------------------------

/// 16-bit samples in byte order `e` are stored most significant byte
/// first.
pub open spec fn is_big(e: PixelEndian) -> bool {
    e is Big
}

/// The bytes of a frame: its samples in order, 16-bit ones in byte order
/// `e`. Nothing else: no size, no length.
pub open spec fn frame_bytes(f: FrameView, e: PixelEndian) -> Seq<u8> {
    match f.pixels {
        PixelData::Rgb8(p) => p,
        PixelData::Luma8(p) => p,
        PixelData::Rgb16(p) => u16s_bytes(p, is_big(e)),
        PixelData::Luma16(p) => u16s_bytes(p, is_big(e)),
    }
}

/// The eight bytes of a timestamp.
pub open spec fn timestamp_bytes(t: Timestamp) -> Seq<u8> {
    u64_le(t.raw())
}

/// The 178 bytes of the header. The frame count is the number of frames,
/// truncated to 32 bits.
pub open spec fn header_bytes(v: SerView) -> Seq<u8> {
    magic() + i32_le(v.lu_id) + i32_le(color_code(v.color)) + i32_le(endian_code(v.endian))
        + i32_le(v.width) + i32_le(v.height) + i32_le(depth_bits(v.depth)) + i32_le(
        v.frames.len() as i32,
    ) + v.observer + v.instrument + v.telescope + u64_le(v.datetime.raw()) + u64_le(
        v.datetime_utc.raw(),
    )
}

/// The frames, one after another, in byte order `e`.
pub open spec fn frames_bytes(frames: Seq<FrameView>, e: PixelEndian) -> Seq<u8> {
    frames.map_values(|f: FrameView| frame_bytes(f, e)).flatten()
}

/// The trailer's timestamps, one after another.
pub open spec fn trailer_bytes(trailer: Seq<Timestamp>) -> Seq<u8> {
    trailer.map_values(|t: Timestamp| timestamp_bytes(t)).flatten()
}

/// The bytes of a SER file: header, frames in the byte order that the
/// header states, trailer.
pub open spec fn ser_bytes(v: SerView) -> Seq<u8> {
    header_bytes(v) + frames_bytes(v.frames, v.endian) + trailer_bytes(v.trailer)
}

// ----------------------------------------------------------------------
// Reading
// ----------------------------------------------------------------------

/// The frame that the bytes `c` of one frame hold, read with format `fmt`:
/// 16-bit samples in the byte order that `fmt` states.
pub open spec fn decode_frame(c: Seq<u8>, fmt: FormatView) -> FrameView {
    let n = fmt.samples();
    FrameView {
        width: fmt.width,
        height: fmt.height,
        pixels: match (channels_of(fmt.color), fmt.depth) {
            (PixelChannels::Luma, PixelDepth::U8(_)) => PixelData::Luma8(c),
            (PixelChannels::Luma, PixelDepth::U16(_)) => PixelData::Luma16(u16s_from(c, n, is_big(fmt.endian))),
            (PixelChannels::Rgb, PixelDepth::U8(_)) => PixelData::Rgb8(c),
            (PixelChannels::Rgb, PixelDepth::U16(_)) => PixelData::Rgb16(u16s_from(c, n, is_big(fmt.endian))),
        },
    }
}

/// The timestamp that eight bytes hold.
pub open spec fn decode_timestamp(c: Seq<u8>) -> Timestamp {
    timestamp_of(u64_at(c, 0))
}

/// The bytes hold a whole header with the magic string and known codes.
pub open spec fn header_ok(b: Seq<u8>) -> bool {
    &&& b.len() >= header_len()
    &&& b.subrange(0, 14) == magic()
    &&& color_of_code(i32_at(b, 18)) is Some
    &&& endian_of_code(i32_at(b, 22)) is Some
}

/// The frame format the header describes.
pub open spec fn header_format(b: Seq<u8>) -> FormatView {
    FormatView {
        color: color_of_code(i32_at(b, 18))->0,
        depth: depth_of_bits(i32_at(b, 34)),
        endian: endian_of_code(i32_at(b, 22))->0,
        width: i32_at(b, 26) as u32,
        height: i32_at(b, 30) as u32,
    }
}

/// The frame count field.
pub open spec fn header_count(b: Seq<u8>) -> i32 {
    i32_at(b, 38)
}

/// The `datetime` field.
pub open spec fn header_datetime(b: Seq<u8>) -> Timestamp {
    datetime_of(u64_at(b, 162))
}

/// The number of trailer timestamps the header announces: one per frame
/// when `datetime` is valid, none otherwise.
pub open spec fn header_trailer_count(b: Seq<u8>) -> int {
    if header_datetime(b) is Valid {
        header_count(b) as int
    } else {
        0
    }
}

/// Where the trailer starts.
pub open spec fn trailer_offset(b: Seq<u8>) -> int {
    header_len() + header_count(b) * header_format(b).frame_bytes_len()
}

/// Where the file ends.
pub open spec fn end_offset(b: Seq<u8>) -> int {
    trailer_offset(b) + 8 * header_trailer_count(b)
}

/// The document that well-formed bytes hold.
pub open spec fn decode_ser(b: Seq<u8>) -> SerView {
    let fmt = header_format(b);
    let size = fmt.frame_bytes_len() as int;
    let body = b.subrange(header_len(), trailer_offset(b));
    let tail = b.subrange(trailer_offset(b), end_offset(b));
    SerView {
        lu_id: i32_at(b, 14),
        color: fmt.color,
        endian: fmt.endian,
        width: i32_at(b, 26),
        height: i32_at(b, 30),
        depth: fmt.depth,
        observer: b.subrange(42, 82),
        instrument: b.subrange(82, 122),
        telescope: b.subrange(122, 162),
        datetime: header_datetime(b),
        datetime_utc: timestamp_of(u64_at(b, 170)),
        frames: Seq::new(header_count(b) as nat, |i: int| decode_frame(piece(body, i, size), fmt)),
        trailer: Seq::new(
            header_trailer_count(b) as nat,
            |i: int| decode_timestamp(piece(tail, i, 8)),
        ),
    }
}

/// Reading a SER file from the start of `b`: the document and the number
/// of bytes it takes, or why the bytes hold none. Fields are read in file
/// order, so the first field that is cut off or holds an unknown code
/// decides the error.
pub open spec fn parse_ser(b: Seq<u8>) -> Result<(SerView, nat), ParseError> {
    if b.len() < 14 {
        Err(ParseError::UnexpectedEnd)
    } else if b.subrange(0, 14) != magic() {
        Err(ParseError::BadMagic)
    } else if b.len() < 22 {
        Err(ParseError::UnexpectedEnd)
    } else if color_of_code(i32_at(b, 18)) is None {
        Err(ParseError::UnknownColorId(i32_at(b, 18)))
    } else if b.len() < 26 {
        Err(ParseError::UnexpectedEnd)
    } else if endian_of_code(i32_at(b, 22)) is None {
        Err(ParseError::UnknownPixelEndian(i32_at(b, 22)))
    } else if b.len() < header_len() {
        Err(ParseError::UnexpectedEnd)
    } else if header_count(b) < 0 || b.len() < end_offset(b) {
        Err(ParseError::UnexpectedEnd)
    } else {
        Ok((decode_ser(b), end_offset(b) as nat))
    }
}

/// Reading `b` runs to an end. Reading frames multiplies channels × width
/// × height in `usize`, reserves that many bytes at once for 8-bit
/// samples, and reads frames until the count is reached: excluded are an
/// overflowing product, a reservation beyond `isize::MAX`, and a negative
/// count of empty frames, which is read without end. None of these arises
/// when the header announces no frames.
pub open spec fn read_is_defined(b: Seq<u8>) -> bool {
    header_ok(b) && header_count(b) != 0 ==> {
        let fmt = header_format(b);
        &&& fmt.samples_fit()
        &&& (fmt.depth is U8 ==> fmt.samples() <= isize::MAX)
        &&& (header_count(b) < 0 ==> fmt.samples() > 0)
    }
}

// ----------------------------------------------------------------------
// Executable writing
// ----------------------------------------------------------------------

fn push_magic(out: &mut Vec<u8>)
    ensures
        final(out)@ == old(out)@ + magic(),
{
    out.push(76u8);
    out.push(85u8);
    out.push(67u8);
    out.push(65u8);
    out.push(77u8);
    out.push(45u8);
    out.push(82u8);
    out.push(69u8);
    out.push(67u8);
    out.push(79u8);
    out.push(82u8);
    out.push(68u8);
    out.push(69u8);
    out.push(82u8);
    assert(final(out)@ =~= old(out)@ + magic());
}

fn push_u16(out: &mut Vec<u8>, x: u16, big: bool)
    ensures
        final(out)@ == old(out)@ + enc_u16(x, big),
{
    if big {
        out.push(((x >> 8) & 0xff) as u8);
        out.push((x & 0xff) as u8);
        assert(final(out)@ =~= old(out)@ + u16_be(x));
    } else {
        out.push((x & 0xff) as u8);
        out.push(((x >> 8) & 0xff) as u8);
        assert(final(out)@ =~= old(out)@ + u16_le(x));
    }
}

fn push_i32(out: &mut Vec<u8>, x: i32)
    ensures
        final(out)@ == old(out)@ + i32_le(x),
{
    let u = x as u32;
    out.push((u & 0xff) as u8);
    out.push(((u >> 8) & 0xff) as u8);
    out.push(((u >> 16) & 0xff) as u8);
    out.push(((u >> 24) & 0xff) as u8);
    assert(final(out)@ =~= old(out)@ + i32_le(x));
}

fn push_u64(out: &mut Vec<u8>, x: u64)
    ensures
        final(out)@ == old(out)@ + u64_le(x),
{
    out.push((x & 0xff) as u8);
    out.push(((x >> 8) & 0xff) as u8);
    out.push(((x >> 16) & 0xff) as u8);
    out.push(((x >> 24) & 0xff) as u8);
    out.push(((x >> 32) & 0xff) as u8);
    out.push(((x >> 40) & 0xff) as u8);
    out.push(((x >> 48) & 0xff) as u8);
    out.push(((x >> 56) & 0xff) as u8);
    assert(final(out)@ =~= old(out)@ + u64_le(x));
}

fn push_bytes(out: &mut Vec<u8>, bytes: &[u8])
    ensures
        final(out)@ == old(out)@ + bytes@,
{
    let n = bytes.len();
    let mut i: usize = 0;
    while i < n
        invariant
            0 <= i <= n,
            n == bytes@.len(),
            out@ == old(out)@ + bytes@.subrange(0, i as int),
        decreases n - i,
    {
        out.push(bytes[i]);
        i = i + 1;
        assert(out@ =~= old(out)@ + bytes@.subrange(0, i as int));
    }
    assert(bytes@.subrange(0, n as int) =~= bytes@);
}

fn push_u16s(out: &mut Vec<u8>, samples: &[u16], big: bool)
    ensures
        final(out)@ == old(out)@ + u16s_bytes(samples@, big),
{
    let n = samples.len();
    let mut i: usize = 0;
    let ghost enc = |x: u16| enc_u16(x, big);
    assert(samples@.subrange(0, 0).map_values(enc) =~= Seq::<Seq<u8>>::empty());
    assert(out@ =~= old(out)@ + u16s_bytes(samples@.subrange(0, 0), big));
    while i < n
        invariant
            0 <= i <= n,
            n == samples@.len(),
            enc == (|x: u16| enc_u16(x, big)),
            out@ == old(out)@ + u16s_bytes(samples@.subrange(0, i as int), big),
        decreases n - i,
    {
        let ghost before = samples@.subrange(0, i as int);
        push_u16(out, samples[i], big);
        proof {
            let after = samples@.subrange(0, i + 1);
            assert(after.map_values(enc) =~= before.map_values(enc).push(
                enc_u16(samples@[i as int], big),
            ));
            before.map_values(enc).lemma_flatten_push(enc_u16(samples@[i as int], big));
        }
        i = i + 1;
    }
    assert(samples@.subrange(0, n as int) =~= samples@);
}

fn push_frame(out: &mut Vec<u8>, frame: &Frame, endian: PixelEndian)
    ensures
        final(out)@ == old(out)@ + frame_bytes(frame@, endian),
{
    proof {
        lemma_frame_view(*frame);
    }
    let big = match endian {
        PixelEndian::Big => true,
        PixelEndian::Little => false,
    };
    match &frame.1 {
        Pixels::Rgb8(p) => push_bytes(out, p.as_slice()),
        Pixels::Luma8(p) => push_bytes(out, p.as_slice()),
        Pixels::Rgb16(p) => push_u16s(out, p.as_slice(), big),
        Pixels::Luma16(p) => push_u16s(out, p.as_slice(), big),
    }
}

impl Frame {
    /// The bytes of this frame: its samples in order, 16-bit ones in byte
    /// order `endian`; no size and no length go with them.
    pub fn to_bytes(&self, endian: PixelEndian) -> (r: Vec<u8>)
        ensures
            r@ == frame_bytes(self@, endian),
    {
        let mut out: Vec<u8> = Vec::new();
        push_frame(&mut out, self, endian);
        assert(out@ =~= frame_bytes(self@, endian));
        out
    }
}

impl Ser {
    /// The bytes of this document as a SER file.
    pub fn to_bytes(&self) -> (r: Vec<u8>)
        ensures
            r@ == ser_bytes(self@),
            writes_faithfully(self@) ==> read_is_defined(r@) && parse_ser(r@) == Ok::<
                (SerView, nat),
                ParseError,
            >((self@, r@.len())),
    {
        proof {
            lemma_ser_view(*self);
            lemma_fixed_string_view(self.observer);
            lemma_fixed_string_view(self.instrument);
            lemma_fixed_string_view(self.telescope);
        }
        let ghost v = self@;
        let mut out: Vec<u8> = Vec::new();
        push_magic(&mut out);
        assert(out@ =~= magic());
        push_i32(&mut out, self.lu_id);
        push_i32(&mut out, self.color_id.code());
        push_i32(&mut out, self.little_endian.code());
        push_i32(&mut out, self.image_width);
        push_i32(&mut out, self.image_height);
        push_i32(&mut out, i32::from(&self.pixel_depth_per_plane));
        push_i32(&mut out, self.image_data.len() as i32);
        push_bytes(&mut out, self.observer.0.as_slice());
        push_bytes(&mut out, self.instrument.0.as_slice());
        push_bytes(&mut out, self.telescope.0.as_slice());
        push_u64(&mut out, u64::from(&self.datetime));
        push_u64(&mut out, u64::from(&self.datetime_utc));
        assert(out@ =~= header_bytes(v));
        let ghost header = out@;
        let n = self.image_data.len();
        let mut i: usize = 0;
        let ghost fenc = |f: FrameView| frame_bytes(f, v.endian);
        assert(v.frames.subrange(0, 0).map_values(fenc) =~= Seq::<Seq<u8>>::empty());
        assert(out@ =~= header + frames_bytes(v.frames.subrange(0, 0), v.endian));
        while i < n
            invariant
                0 <= i <= n,
                n == self.image_data@.len(),
                v == self@,
                v.frames == frame_views(self.image_data@),
                v.endian == self.little_endian,
                fenc == (|f: FrameView| frame_bytes(f, v.endian)),
                out@ == header + frames_bytes(v.frames.subrange(0, i as int), v.endian),
            decreases n - i,
        {
            let ghost before = v.frames.subrange(0, i as int);
            push_frame(&mut out, &self.image_data[i], self.little_endian);
            proof {
                let after = v.frames.subrange(0, i + 1);
                assert(v.frames[i as int] == self.image_data@[i as int]@);
                assert(after.map_values(fenc) =~= before.map_values(fenc).push(
                    frame_bytes(v.frames[i as int], v.endian),
                ));
                before.map_values(fenc).lemma_flatten_push(frame_bytes(v.frames[i as int], v.endian));
            }
            i = i + 1;
        }
        assert(v.frames.subrange(0, n as int) =~= v.frames);
        let ghost framed = out@;
        let m = self.trailer.len();
        let mut j: usize = 0;
        let ghost tenc = |t: Timestamp| timestamp_bytes(t);
        assert(v.trailer.subrange(0, 0).map_values(tenc) =~= Seq::<Seq<u8>>::empty());
        assert(out@ =~= framed + trailer_bytes(v.trailer.subrange(0, 0)));
        while j < m
            invariant
                0 <= j <= m,
                m == self.trailer@.len(),
                v.trailer == self.trailer@,
                tenc == (|t: Timestamp| timestamp_bytes(t)),
                out@ == framed + trailer_bytes(v.trailer.subrange(0, j as int)),
            decreases m - j,
        {
            let ghost before = v.trailer.subrange(0, j as int);
            push_u64(&mut out, u64::from(&self.trailer[j]));
            proof {
                let after = v.trailer.subrange(0, j + 1);
                assert(after.map_values(tenc) =~= before.map_values(tenc).push(
                    timestamp_bytes(v.trailer[j as int]),
                ));
                before.map_values(tenc).lemma_flatten_push(timestamp_bytes(v.trailer[j as int]));
            }
            j = j + 1;
        }
        assert(v.trailer.subrange(0, m as int) =~= v.trailer);
        assert(out@ =~= ser_bytes(v));
        proof {
            if writes_faithfully(v) {
                lemma_read_after_write(v);
            }
        }
        out
    }
}

// ----------------------------------------------------------------------
// Executable reading
// ----------------------------------------------------------------------

fn read_u16(b: &[u8], i: usize) -> (r: u16)
    requires
        i + 2 <= b@.len(),
    ensures
        r == u16_at(b@, i as int),
{
    (b[i] as u16) | ((b[i + 1] as u16) << 8)
}

fn read_i32(b: &[u8], i: usize) -> (r: i32)
    requires
        i + 4 <= b@.len(),
    ensures
        r == i32_at(b@, i as int),
{
    let u: u32 = (b[i] as u32) | ((b[i + 1] as u32) << 8) | ((b[i + 2] as u32) << 16) | ((b[i
        + 3] as u32) << 24);
    u as i32
}

fn read_u64(b: &[u8], i: usize) -> (r: u64)
    requires
        i + 8 <= b@.len(),
    ensures
        r == u64_at(b@, i as int),
{
    (b[i] as u64) | ((b[i + 1] as u64) << 8) | ((b[i + 2] as u64) << 16) | ((b[i + 3] as u64)
        << 24) | ((b[i + 4] as u64) << 32) | ((b[i + 5] as u64) << 40) | ((b[i + 6] as u64) << 48)
        | ((b[i + 7] as u64) << 56)
}

fn has_magic(b: &[u8]) -> (r: bool)
    requires
        b@.len() >= 14,
    ensures
        r == (b@.subrange(0, 14) == magic()),
{
    let r = b[0] == 76 && b[1] == 85 && b[2] == 67 && b[3] == 65 && b[4] == 77 && b[5] == 45
        && b[6] == 82 && b[7] == 69 && b[8] == 67 && b[9] == 79 && b[10] == 82 && b[11] == 68
        && b[12] == 69 && b[13] == 82;
    proof {
        if r {
            assert(b@.subrange(0, 14) =~= magic());
        } else {
            if b@.subrange(0, 14) == magic() {
                assert(b@.subrange(0, 14)[0] == magic()[0]);
                assert(b@.subrange(0, 14)[1] == magic()[1]);
                assert(b@.subrange(0, 14)[2] == magic()[2]);
                assert(b@.subrange(0, 14)[3] == magic()[3]);
                assert(b@.subrange(0, 14)[4] == magic()[4]);
                assert(b@.subrange(0, 14)[5] == magic()[5]);
                assert(b@.subrange(0, 14)[6] == magic()[6]);
                assert(b@.subrange(0, 14)[7] == magic()[7]);
                assert(b@.subrange(0, 14)[8] == magic()[8]);
                assert(b@.subrange(0, 14)[9] == magic()[9]);
                assert(b@.subrange(0, 14)[10] == magic()[10]);
                assert(b@.subrange(0, 14)[11] == magic()[11]);
                assert(b@.subrange(0, 14)[12] == magic()[12]);
                assert(b@.subrange(0, 14)[13] == magic()[13]);
            }
        }
    }
    r
}

fn read_text(b: &[u8], off: usize) -> (r: FixedString<40>)
    requires
        off + 40 <= b@.len(),
    ensures
        r@ == b@.subrange(off as int, off + 40),
{
    let mut out = [0u8; 40];
    let mut i: usize = 0;
    let len = b.len();
    while i < 40
        invariant
            0 <= i <= 40,
            off + 40 <= b@.len(),
            len == b@.len(),
            out@.len() == 40,
            forall|j: int| 0 <= j < i ==> out@[j] == b@[off + j],
        decreases 40 - i,
    {
        out[i] = b[off + i];
        i = i + 1;
    }
    let r = FixedString(out);
    proof {
        lemma_fixed_string_view(r);
    }
    assert(r@ =~= b@.subrange(off as int, off + 40));
    r
}

fn read_u16_be(b: &[u8], i: usize) -> (r: u16)
    requires
        i + 2 <= b@.len(),
    ensures
        r == u16_be_at(b@, i as int),
{
    ((b[i] as u16) << 8) | (b[i + 1] as u16)
}

fn read_u16s(c: &[u8], n: usize, big: bool) -> (r: Vec<u16>)
    requires
        c@.len() == 2 * n,
    ensures
        r@ == u16s_from(c@, n as nat, big),
{
    let mut out: Vec<u16> = Vec::new();
    let mut i: usize = 0;
    let len = c.len();
    while i < n
        invariant
            0 <= i <= n,
            c@.len() == 2 * n,
            len == c@.len(),
            out@.len() == i,
            forall|j: int| 0 <= j < i ==> out@[j] == u16s_from(c@, n as nat, big)[j],
        decreases n - i,
    {
        let x = if big {
            read_u16_be(c, 2 * i)
        } else {
            read_u16(c, 2 * i)
        };
        proof {
            let p = piece(c@, i as int, 2);
            assert(p[0] == c@[2 * i] && p[1] == c@[2 * i + 1]);
        }
        out.push(x);
        i = i + 1;
    }
    assert(out@ =~= u16s_from(c@, n as nat, big));
    out
}

fn read_frame(b: &[u8], off: usize, fmt: &FrameFormat, samples: usize, size: usize) -> (r: Frame)
    requires
        off + size <= b@.len(),
        samples == fmt@.samples(),
        size == fmt@.frame_bytes_len(),
    ensures
        r@ == decode_frame(b@.subrange(off as int, off + size), fmt@),
{
    let len = b.len();
    let chunk = vstd::slice::slice_subrange(b, off, off + size);
    assert(chunk@.len() == size);
    let channels = PixelChannels::from(fmt.color());
    let big = match fmt.endian() {
        PixelEndian::Big => true,
        PixelEndian::Little => false,
    };
    assert(fmt@.depth is U16 ==> size == 2 * samples);
    let pixels = match (channels, *fmt.depth()) {
        (PixelChannels::Luma, PixelDepth::U8(_)) => Pixels::Luma8(vstd::slice::slice_to_vec(chunk)),
        (PixelChannels::Luma, PixelDepth::U16(_)) => Pixels::Luma16(read_u16s(chunk, samples, big)),
        (PixelChannels::Rgb, PixelDepth::U8(_)) => Pixels::Rgb8(vstd::slice::slice_to_vec(chunk)),
        (PixelChannels::Rgb, PixelDepth::U16(_)) => Pixels::Rgb16(read_u16s(chunk, samples, big)),
    };
    let r = Frame((*fmt.width(), *fmt.height()), pixels);
    proof {
        lemma_frame_view(r);
    }
    r
}

/// Reading one frame of format `fmt` from the start of `b`: the frame and
/// the number of bytes it takes, or `UnexpectedEnd` when `b` is shorter
/// than one frame.
pub open spec fn parse_frame(b: Seq<u8>, fmt: FormatView) -> Result<(FrameView, nat), ParseError> {
    if b.len() < fmt.frame_bytes_len() {
        Err(ParseError::UnexpectedEnd)
    } else {
        Ok((decode_frame(b.subrange(0, fmt.frame_bytes_len() as int), fmt), fmt.frame_bytes_len()))
    }
}

impl Frame {
    /// Reads one frame of `format` from the start of `bytes`: its
    /// channels × width × height samples, 16-bit ones in the byte order
    /// that `format` states. Gives the frame and the number of bytes read.
    pub fn from_bytes(bytes: &[u8], format: &FrameFormat) -> (r: Result<(Frame, usize), ParseError>)
        requires
            format@.samples_fit(),
        ensures
            match r {
                Ok((f, n)) => parse_frame(bytes@, format@) == Ok::<(FrameView, nat), ParseError>(
                    (f@, n as nat),
                ),
                Err(e) => parse_frame(bytes@, format@) == Err::<(FrameView, nat), ParseError>(e),
            },
            r matches Ok((f, n)) ==> format@.accepts(f@),
    {
        let len = bytes.len();
        let samples = format.raw_len();
        let bps: usize = match format.depth() {
            PixelDepth::U8(_) => 1,
            PixelDepth::U16(_) => 2,
        };
        let size = match samples.checked_mul(bps) {
            Some(x) => x,
            None => {
                assert(bps == format@.depth.sample_bytes());
                assert(format@.frame_bytes_len() > len);
                return Err(ParseError::UnexpectedEnd);
            },
        };
        assert(size == format@.frame_bytes_len());
        if len < size {
            return Err(ParseError::UnexpectedEnd);
        }
        let fr = read_frame(bytes, 0, format, samples, size);
        proof {
            lemma_decoded_frame_accepts(bytes@.subrange(0, size as int), format@);
        }
        Ok((fr, size))
    }
}

impl Ser {
    /// True when reading `bytes` runs to an end (see [read_is_defined]);
    /// only then may [Ser::from_bytes] be called.
    pub fn is_readable(bytes: &[u8]) -> (r: bool)
        ensures
            r == read_is_defined(bytes@),
    {
        if bytes.len() < 178 || !has_magic(bytes) {
            return true;
        }
        let color = match ColorId::from_code(read_i32(bytes, 18)) {
            Some(c) => c,
            None => return true,
        };
        if PixelEndian::from_code(read_i32(bytes, 22)).is_none() {
            return true;
        }
        let count = read_i32(bytes, 38);
        if count == 0 {
            return true;
        }
        let width = read_i32(bytes, 26) as u32;
        let height = read_i32(bytes, 30) as u32;
        let depth = PixelDepth::from(read_i32(bytes, 34));
        let channels = PixelChannels::from(&color).len();
        let cw = match channels.checked_mul(width as usize) {
            Some(x) => x,
            None => return false,
        };
        let samples = match cw.checked_mul(height as usize) {
            Some(x) => x,
            None => return false,
        };
        if matches!(depth, PixelDepth::U8(_)) && samples > isize::MAX as usize {
            return false;
        }
        if count < 0 && samples == 0 {
            return false;
        }
        true
    }

    /// Reads a SER file from the start of `bytes`: the document and the
    /// number of bytes it takes, or why the bytes hold none.
    pub fn from_bytes(bytes: &[u8]) -> (r: Result<(Ser, usize), ParseError>)
        requires
            read_is_defined(bytes@),
        ensures
            match r {
                Ok((s, n)) => parse_ser(bytes@) == Ok::<(SerView, nat), ParseError>((s@, n as nat)),
                Err(e) => parse_ser(bytes@) == Err::<(SerView, nat), ParseError>(e),
            },
            r matches Ok((s, n)) ==> writes_faithfully(s@) && ser_bytes(s@) == bytes@.subrange(
                0,
                n as int,
            ),
    {
        let ghost b = bytes@;
        let len = bytes.len();
        if len < 14 {
            return Err(ParseError::UnexpectedEnd);
        }
        if !has_magic(bytes) {
            return Err(ParseError::BadMagic);
        }
        if len < 22 {
            return Err(ParseError::UnexpectedEnd);
        }
        let color_code = read_i32(bytes, 18);
        let color = match ColorId::from_code(color_code) {
            Some(c) => c,
            None => return Err(ParseError::UnknownColorId(color_code)),
        };
        if len < 26 {
            return Err(ParseError::UnexpectedEnd);
        }
        let endian_code = read_i32(bytes, 22);
        let endian = match PixelEndian::from_code(endian_code) {
            Some(e) => e,
            None => return Err(ParseError::UnknownPixelEndian(endian_code)),
        };
        if len < 178 {
            return Err(ParseError::UnexpectedEnd);
        }
        let lu_id = read_i32(bytes, 14);
        let width = read_i32(bytes, 26);
        let height = read_i32(bytes, 30);
        let depth = PixelDepth::from(read_i32(bytes, 34));
        let count = read_i32(bytes, 38);
        let observer = read_text(bytes, 42);
        let instrument = read_text(bytes, 82);
        let telescope = read_text(bytes, 122);
        let datetime = Timestamp::from_datetime_field(read_u64(bytes, 162));
        let datetime_utc = Timestamp::from(read_u64(bytes, 170));
        let fmt = FrameFormat::new(color, depth, endian, width as u32, height as u32);
        let ghost f = fmt@;
        assert(f == header_format(b));
        if count < 0 {
            return Err(ParseError::UnexpectedEnd);
        }
        let tcount: usize = if datetime.is_valid() {
            count as usize
        } else {
            0
        };
        assert(tcount == header_trailer_count(b));
        let mut frames: Vec<Frame> = Vec::new();
        let mut off: usize = 178;
        if count > 0 {
            let samples = fmt.raw_len();
            let bps: usize = match depth {
                PixelDepth::U8(_) => 1,
                PixelDepth::U16(_) => 2,
            };
            let size_wide: u128 = samples as u128 * bps as u128;
            assert(size_wide == f.frame_bytes_len());
            assert(size_wide <= 0x2_0000_0000_0000_0000u128) by (nonlinear_arith)
                requires
                    size_wide == samples * bps,
                    samples <= 0xffff_ffff_ffff_ffffu128,
                    bps <= 2,
            ;
            assert((count as u128) * size_wide <= 0x8000_0000u128 * 0x2_0000_0000_0000_0000u128)
                by (nonlinear_arith)
                requires
                    size_wide <= 0x2_0000_0000_0000_0000u128,
                    0 < count <= 0x7fff_ffff,
            ;
            let total: u128 = 178 + (count as u128) * size_wide + 8 * (tcount as u128);
            assert(total == end_offset(b));
            if total > len as u128 {
                return Err(ParseError::UnexpectedEnd);
            }
            assert(size_wide <= (count as u128) * size_wide) by (nonlinear_arith)
                requires
                    count >= 1,
            ;
            let size = size_wide as usize;
            let n = count as usize;
            let ghost body = b.subrange(178, trailer_offset(b));
            let mut i: usize = 0;
            while i < n
                invariant
                    0 <= i <= n,
                    n == count,
                    n > 0,
                    bytes@ == b,
                    b.len() == len,
                    f == header_format(b),
                    fmt@ == f,
                    samples == f.samples(),
                    size == f.frame_bytes_len(),
                    178 + n * size <= len,
                    trailer_offset(b) == 178 + n * size,
                    body == b.subrange(178, trailer_offset(b)),
                    off == 178 + i * size,
                    frames@.len() == i,
                    forall|j: int|
                        0 <= j < i ==> (#[trigger] frames@[j])@ == decode_frame(
                            piece(body, j, size as int),
                            f,
                        ),
                decreases n - i,
            {
                proof {
                    crate::encoding::lemma_piece_bounds(i as int, n as int, size as int);
                    assert(piece(body, i as int, size as int) =~= b.subrange(
                        off as int,
                        off + size,
                    ));
                }
                let fr = read_frame(bytes, off, &fmt, samples, size);
                frames.push(fr);
                proof {
                    assert((i + 1) * size == i * size + size) by (nonlinear_arith);
                }
                off = off + size;
                i = i + 1;
            }
            assert(frame_views(frames@) =~= decode_ser(b).frames);
        } else {
            assert(frame_views(frames@) =~= decode_ser(b).frames);
            assert(end_offset(b) == 178);
            if len < 178 + 8 * tcount {
                return Err(ParseError::UnexpectedEnd);
            }
        }
        assert(off == trailer_offset(b)) by (nonlinear_arith)
            requires
                off == 178 + count * f.frame_bytes_len(),
                trailer_offset(b) == 178 + header_count(b) * header_format(b).frame_bytes_len(),
                count == header_count(b),
                f == header_format(b),
        ;
        let ghost tail = b.subrange(trailer_offset(b), end_offset(b));
        let mut trailer: Vec<Timestamp> = Vec::new();
        let mut k: usize = 0;
        let start = off;
        while k < tcount
            invariant
                0 <= k <= tcount,
                bytes@ == b,
                start == trailer_offset(b),
                end_offset(b) == start + 8 * tcount,
                end_offset(b) <= b.len(),
                b.len() == len,
                tail == b.subrange(trailer_offset(b), end_offset(b)),
                off == start + 8 * k,
                trailer@.len() == k,
                forall|j: int|
                    0 <= j < k ==> #[trigger] trailer@[j] == decode_timestamp(piece(tail, j, 8)),
            decreases tcount - k,
        {
            let t = Timestamp::from(read_u64(bytes, off));
            proof {
                let p = piece(tail, k as int, 8);
                assert(p =~= b.subrange(off as int, off + 8));
                assert(u64_at(p, 0) == u64_at(b, off as int));
            }
            trailer.push(t);
            off = off + 8;
            k = k + 1;
        }
        assert(trailer@ =~= decode_ser(b).trailer);
        let s = Ser {
            lu_id,
            color_id: color,
            little_endian: endian,
            image_width: width,
            image_height: height,
            pixel_depth_per_plane: depth,
            observer,
            instrument,
            telescope,
            datetime,
            datetime_utc,
            image_data: frames,
            trailer,
        };
        proof {
            lemma_ser_view(s);
        }
        assert(s@ =~= decode_ser(b));
        proof {
            lemma_read_is_faithful(b);
            lemma_write_after_read(b);
        }
        Ok((s, off))
    }
}

// ----------------------------------------------------------------------
// Reading undoes writing, and writing undoes reading
// ----------------------------------------------------------------------

proof fn lemma_i32_field(b: Seq<u8>, i: int, x: i32)
    requires
        0 <= i,
        i + 4 <= b.len(),
        b.subrange(i, i + 4) == i32_le(x),
    ensures
        i32_at(b, i) == x,
{
    crate::encoding::lemma_i32_le(x);
    let c = b.subrange(i, i + 4);
    assert(c[0] == b[i] && c[1] == b[i + 1] && c[2] == b[i + 2] && c[3] == b[i + 3]);
}

proof fn lemma_u64_field(b: Seq<u8>, i: int, x: u64)
    requires
        0 <= i,
        i + 8 <= b.len(),
        b.subrange(i, i + 8) == u64_le(x),
    ensures
        u64_at(b, i) == x,
{
    crate::encoding::lemma_u64_le(x);
    let c = b.subrange(i, i + 8);
    assert(c[0] == b[i] && c[1] == b[i + 1] && c[2] == b[i + 2] && c[3] == b[i + 3]);
    assert(c[4] == b[i + 4] && c[5] == b[i + 5] && c[6] == b[i + 6] && c[7] == b[i + 7]);
}

/// A frame that a format accepts, written in the format's byte order,
/// takes the format's frame size and reads back as itself.
pub proof fn lemma_frame_roundtrip(f: FrameView, fmt: FormatView)
    requires
        fmt.accepts(f),
    ensures
        frame_bytes(f, fmt.endian).len() == fmt.frame_bytes_len(),
        decode_frame(frame_bytes(f, fmt.endian), fmt) == f,
{
    match f.pixels {
        PixelData::Rgb16(p) => {
            crate::encoding::lemma_u16s_bytes(p, is_big(fmt.endian));
            assert(fmt.depth.sample_bytes() == 2);
            assert(fmt.frame_bytes_len() == 2 * fmt.samples());
        },
        PixelData::Luma16(p) => {
            crate::encoding::lemma_u16s_bytes(p, is_big(fmt.endian));
            assert(fmt.depth.sample_bytes() == 2);
            assert(fmt.frame_bytes_len() == 2 * fmt.samples());
        },
        _ => {},
    }
}

/// Reading back the bytes written for a frame that a format accepts gives
/// the frame and consumes all the bytes, when they were written in the
/// format's byte order; 8-bit frames are the same bytes in either order.
pub proof fn lemma_frame_read_after_write(f: FrameView, fmt: FormatView, e: PixelEndian)
    requires
        fmt.accepts(f),
        fmt.depth is U8 || e == fmt.endian,
    ensures
        fmt.depth is U8 ==> frame_bytes(f, e) == frame_bytes(f, fmt.endian),
        parse_frame(frame_bytes(f, e), fmt) == Ok::<(FrameView, nat), ParseError>(
            (f, frame_bytes(f, e).len()),
        ),
{
    lemma_frame_roundtrip(f, fmt);
    let b = frame_bytes(f, e);
    assert(b == frame_bytes(f, fmt.endian));
    assert(b.subrange(0, fmt.frame_bytes_len() as int) =~= b);
}

/// Reading a frame takes it from the start of the bytes: when they hold at
/// least one frame, the frame read is the one that the first frame-size
/// bytes hold, and whatever follows is neither read nor changes the
/// result. The frame written for `f` and followed by any bytes reads back
/// as `f`.
pub proof fn lemma_parse_frame_prefix(b: Seq<u8>, rest: Seq<u8>, fmt: FormatView)
    requires
        b.len() >= fmt.frame_bytes_len(),
    ensures
        parse_frame(b + rest, fmt) == parse_frame(b, fmt),
        parse_frame(b, fmt) == parse_frame(b.subrange(0, fmt.frame_bytes_len() as int), fmt),
        parse_frame(b, fmt) is Ok,
        parse_frame(b, fmt)->Ok_0.1 == fmt.frame_bytes_len(),
        forall|f: FrameView|
            fmt.accepts(f) && b.subrange(0, fmt.frame_bytes_len() as int) == #[trigger] frame_bytes(
                f,
                fmt.endian,
            ) ==> parse_frame(b + rest, fmt) == Ok::<(FrameView, nat), ParseError>(
                (f, fmt.frame_bytes_len()),
            ),
{
    let n = fmt.frame_bytes_len() as int;
    assert((b + rest).subrange(0, n) =~= b.subrange(0, n));
    assert(b.subrange(0, n).subrange(0, n) =~= b.subrange(0, n));
    assert forall|f: FrameView|
        fmt.accepts(f) && b.subrange(0, n) == #[trigger] frame_bytes(f, fmt.endian) implies parse_frame(
        b + rest,
        fmt,
    ) == Ok::<(FrameView, nat), ParseError>((f, fmt.frame_bytes_len())) by {
        lemma_frame_roundtrip(f, fmt);
    }
}

/// Bytes shorter than one frame hold no frame.
pub proof fn lemma_parse_frame_short(b: Seq<u8>, fmt: FormatView)
    requires
        b.len() < fmt.frame_bytes_len(),
    ensures
        parse_frame(b, fmt) == Err::<(FrameView, nat), ParseError>(ParseError::UnexpectedEnd),
{
}

/// The size of each frame follows from the header's raw fields: channels
/// (three for RGB and BGR, one otherwise) × width × height samples, two
/// bytes each when the bit depth field is above 8, one byte otherwise.
pub proof fn lemma_frame_size_from_header(b: Seq<u8>)
    requires
        header_ok(b),
    ensures
        header_format(b).frame_bytes_len() == channel_count(header_format(b).color) * ((i32_at(
            b,
            26,
        ) as u32) as nat) * ((i32_at(b, 30) as u32) as nat) * if i32_at(b, 34) > 8 {
            2nat
        } else {
            1nat
        },
{
    crate::format::lemma_depth_of_bits_storage(i32_at(b, 34));
}

/// The bytes of one frame, read and written again in the format's byte
/// order, are the same bytes.
pub proof fn lemma_frame_bytes_roundtrip(c: Seq<u8>, fmt: FormatView)
    requires
        c.len() == fmt.frame_bytes_len(),
    ensures
        frame_bytes(decode_frame(c, fmt), fmt.endian) == c,
{
    if fmt.depth is U16 {
        crate::encoding::lemma_u16s_from(c, fmt.samples(), is_big(fmt.endian));
    }
}

/// The bytes of one frame read as a frame that the format accepts.
pub proof fn lemma_decoded_frame_accepts(c: Seq<u8>, fmt: FormatView)
    requires
        c.len() == fmt.frame_bytes_len(),
    ensures
        fmt.accepts(decode_frame(c, fmt)),
{
    if fmt.depth is U16 {
        assert(fmt.depth.sample_bytes() == 2);
        assert(c.len() == 2 * fmt.samples());
    } else {
        assert(fmt.depth.sample_bytes() == 1);
        assert(c.len() == fmt.samples());
    }
}

/// The fields of the header stand at their offsets, and image data starts
/// at offset 178.
pub proof fn lemma_header_layout(v: SerView)
    requires
        v.texts_sized(),
    ensures
        header_bytes(v).len() == 178,
        header_bytes(v).subrange(0, 14) == magic(),
        header_bytes(v).subrange(14, 18) == i32_le(v.lu_id),
        header_bytes(v).subrange(18, 22) == i32_le(color_code(v.color)),
        header_bytes(v).subrange(22, 26) == i32_le(endian_code(v.endian)),
        header_bytes(v).subrange(26, 30) == i32_le(v.width),
        header_bytes(v).subrange(30, 34) == i32_le(v.height),
        header_bytes(v).subrange(34, 38) == i32_le(depth_bits(v.depth)),
        header_bytes(v).subrange(38, 42) == i32_le(v.frames.len() as i32),
        header_bytes(v).subrange(42, 82) == v.observer,
        header_bytes(v).subrange(82, 122) == v.instrument,
        header_bytes(v).subrange(122, 162) == v.telescope,
        header_bytes(v).subrange(162, 170) == u64_le(v.datetime.raw()),
        header_bytes(v).subrange(170, 178) == u64_le(v.datetime_utc.raw()),
{
    let h = header_bytes(v);
    let p1 = magic() + i32_le(v.lu_id);
    let p2 = p1 + i32_le(color_code(v.color));
    let p3 = p2 + i32_le(endian_code(v.endian));
    let p4 = p3 + i32_le(v.width);
    let p5 = p4 + i32_le(v.height);
    let p6 = p5 + i32_le(depth_bits(v.depth));
    let p7 = p6 + i32_le(v.frames.len() as i32);
    let p8 = p7 + v.observer;
    let p9 = p8 + v.instrument;
    let p10 = p9 + v.telescope;
    let p11 = p10 + u64_le(v.datetime.raw());
    assert(h == p11 + u64_le(v.datetime_utc.raw()));
    assert(h.subrange(170, 178) =~= u64_le(v.datetime_utc.raw()));
    assert(h.subrange(0, 170) =~= p11);
    assert(p11.subrange(162, 170) =~= u64_le(v.datetime.raw()));
    assert(p11.subrange(0, 162) =~= p10);
    assert(p10.subrange(122, 162) =~= v.telescope);
    assert(p10.subrange(0, 122) =~= p9);
    assert(p9.subrange(82, 122) =~= v.instrument);
    assert(p9.subrange(0, 82) =~= p8);
    assert(p8.subrange(42, 82) =~= v.observer);
    assert(p8.subrange(0, 42) =~= p7);
    assert(p7.subrange(38, 42) =~= i32_le(v.frames.len() as i32));
    assert(p7.subrange(0, 38) =~= p6);
    assert(p6.subrange(34, 38) =~= i32_le(depth_bits(v.depth)));
    assert(p6.subrange(0, 34) =~= p5);
    assert(p5.subrange(30, 34) =~= i32_le(v.height));
    assert(p5.subrange(0, 30) =~= p4);
    assert(p4.subrange(26, 30) =~= i32_le(v.width));
    assert(p4.subrange(0, 26) =~= p3);
    assert(p3.subrange(22, 26) =~= i32_le(endian_code(v.endian)));
    assert(p3.subrange(0, 22) =~= p2);
    assert(p2.subrange(18, 22) =~= i32_le(color_code(v.color)));
    assert(p2.subrange(0, 18) =~= p1);
    assert(p1.subrange(14, 18) =~= i32_le(v.lu_id));
    assert(p1.subrange(0, 14) =~= magic());
    assert(h.subrange(162, 170) =~= p11.subrange(162, 170));
    assert(h.subrange(122, 162) =~= p10.subrange(122, 162));
    assert(h.subrange(82, 122) =~= p9.subrange(82, 122));
    assert(h.subrange(42, 82) =~= p8.subrange(42, 82));
    assert(h.subrange(38, 42) =~= p7.subrange(38, 42));
    assert(h.subrange(34, 38) =~= p6.subrange(34, 38));
    assert(h.subrange(30, 34) =~= p5.subrange(30, 34));
    assert(h.subrange(26, 30) =~= p4.subrange(26, 30));
    assert(h.subrange(22, 26) =~= p3.subrange(22, 26));
    assert(h.subrange(18, 22) =~= p2.subrange(18, 22));
    assert(h.subrange(14, 18) =~= p1.subrange(14, 18));
    assert(h.subrange(0, 14) =~= p1.subrange(0, 14));
}

/// Frames that the format accepts take the format's frame size each,
/// so the trailer starts at 178 + frame count × frame size.
pub proof fn lemma_trailer_offset(v: SerView)
    requires
        v.texts_sized(),
        forall|i: int| 0 <= i < v.frames.len() ==> v.format().accepts(#[trigger] v.frames[i]),
    ensures
        header_bytes(v).len() + frames_bytes(v.frames, v.endian).len() == 178 + v.frames.len()
            * v.format().frame_bytes_len(),
        ser_bytes(v).subrange(
            (178 + v.frames.len() * v.format().frame_bytes_len()) as int,
            ser_bytes(v).len() as int,
        ) == trailer_bytes(v.trailer),
{
    let fmt = v.format();
    let size = fmt.frame_bytes_len() as int;
    lemma_header_layout(v);
    let es = v.frames.map_values(|f: FrameView| frame_bytes(f, v.endian));
    assert forall|i: int| 0 <= i < es.len() implies (#[trigger] es[i]).len() == size by {
        lemma_frame_roundtrip(v.frames[i], fmt);
    }
    crate::encoding::lemma_flatten_uniform(es, size);
    let b = ser_bytes(v);
    assert(b.subrange(178 + v.frames.len() * size, b.len() as int) =~= trailer_bytes(v.trailer));
}

/// What a document must satisfy to be read back exactly as it was
/// written: 40-byte text fields, a frame count that fits the 32-bit field,
/// one trailer timestamp per frame exactly when `datetime` is valid,
/// timestamps and depth whose variants agree with their raw values (the
/// datetime read as the header reads it), every
/// frame accepted by the format, and a frame size that reading can
/// compute.
pub open spec fn writes_faithfully(v: SerView) -> bool {
    &&& v.texts_sized()
    &&& v.frames.len() <= i32::MAX
    &&& v.trailer_in_step()
    &&& v.datetime.is_canonical_datetime()
    &&& v.datetime_utc.is_canonical()
    &&& forall|i: int| 0 <= i < v.trailer.len() ==> (#[trigger] v.trailer[i]).is_canonical()
    &&& v.depth.is_canonical()
    &&& forall|i: int| 0 <= i < v.frames.len() ==> v.format().accepts(#[trigger] v.frames[i])
    &&& v.frames.len() > 0 ==> {
        &&& v.format().samples_fit()
        &&& (v.depth is U8 ==> v.format().samples() <= isize::MAX)
    }
}

/// Reading the bytes written for a document gives the document back, and
/// consumes all of them.
pub proof fn lemma_read_after_write(v: SerView)
    requires
        writes_faithfully(v),
    ensures
        read_is_defined(ser_bytes(v)),
        parse_ser(ser_bytes(v)) == Ok::<(SerView, nat), ParseError>((v, ser_bytes(v).len())),
{
    let b = ser_bytes(v);
    let h = header_bytes(v);
    let fmt = v.format();
    let size = fmt.frame_bytes_len() as int;
    let n = v.frames.len() as int;
    lemma_header_layout(v);
    // Frames.
    let fenc = |f: FrameView| frame_bytes(f, v.endian);
    let fdec = |c: Seq<u8>| decode_frame(c, fmt);
    assert forall|i: int| 0 <= i < v.frames.len() implies (#[trigger] fenc(v.frames[i])).len()
        == size && fdec(fenc(v.frames[i])) == v.frames[i] by {
        lemma_frame_roundtrip(v.frames[i], fmt);
    }
    crate::encoding::lemma_encode_then_decode(v.frames, fenc, fdec, size);
    let fb = frames_bytes(v.frames, v.endian);
    assert(v.frames.map_values(fenc) =~= v.frames.map_values(|f: FrameView| frame_bytes(f, v.endian)));
    assert(fb.len() == n * size);
    // Trailer.
    let tenc = |t: Timestamp| timestamp_bytes(t);
    let tdec = |c: Seq<u8>| decode_timestamp(c);
    assert forall|i: int| 0 <= i < v.trailer.len() implies (#[trigger] tenc(v.trailer[i])).len()
        == 8 && tdec(tenc(v.trailer[i])) == v.trailer[i] by {
        crate::encoding::lemma_u64_le(v.trailer[i].raw());
    }
    crate::encoding::lemma_encode_then_decode(v.trailer, tenc, tdec, 8);
    let tb = trailer_bytes(v.trailer);
    assert(v.trailer.map_values(tenc) =~= v.trailer.map_values(|t: Timestamp| timestamp_bytes(t)));
    let tn = v.trailer.len() as int;
    assert(0 <= n * size) by (nonlinear_arith)
        requires
            0 <= n,
            0 <= size,
    ;
    // Header fields.
    assert(b.subrange(0, 178) =~= h);
    assert(b.subrange(0, 14) =~= h.subrange(0, 14));
    assert(b.subrange(14, 18) =~= h.subrange(14, 18));
    assert(b.subrange(18, 22) =~= h.subrange(18, 22));
    assert(b.subrange(22, 26) =~= h.subrange(22, 26));
    assert(b.subrange(26, 30) =~= h.subrange(26, 30));
    assert(b.subrange(30, 34) =~= h.subrange(30, 34));
    assert(b.subrange(34, 38) =~= h.subrange(34, 38));
    assert(b.subrange(38, 42) =~= h.subrange(38, 42));
    assert(b.subrange(42, 82) =~= h.subrange(42, 82));
    assert(b.subrange(82, 122) =~= h.subrange(82, 122));
    assert(b.subrange(122, 162) =~= h.subrange(122, 162));
    assert(b.subrange(162, 170) =~= h.subrange(162, 170));
    assert(b.subrange(170, 178) =~= h.subrange(170, 178));
    lemma_i32_field(b, 14, v.lu_id);
    lemma_i32_field(b, 18, color_code(v.color));
    lemma_i32_field(b, 22, endian_code(v.endian));
    lemma_i32_field(b, 26, v.width);
    lemma_i32_field(b, 30, v.height);
    lemma_i32_field(b, 34, depth_bits(v.depth));
    lemma_i32_field(b, 38, v.frames.len() as i32);
    lemma_u64_field(b, 162, v.datetime.raw());
    lemma_u64_field(b, 170, v.datetime_utc.raw());
    crate::format::lemma_color_code_roundtrip(v.color);
    crate::format::lemma_endian_code_roundtrip(v.endian, 0);
    assert(header_format(b) == fmt);
    assert(header_count(b) == n);
    assert(header_datetime(b) == v.datetime);
    assert(header_trailer_count(b) == tn);
    assert(trailer_offset(b) == 178 + n * size);
    assert(end_offset(b) == b.len());
    // Body and tail.
    let body = b.subrange(178, trailer_offset(b));
    let tail = b.subrange(trailer_offset(b), end_offset(b));
    assert(body =~= fb);
    assert(tail =~= tb);
    let d = decode_ser(b);
    assert(d.frames =~= Seq::new(v.frames.len(), |i: int| fdec(piece(fb, i, size))));
    assert(d.trailer =~= Seq::new(v.trailer.len(), |i: int| tdec(piece(tb, i, 8))));
    assert(d.observer =~= v.observer);
    assert(d.instrument =~= v.instrument);
    assert(d.telescope =~= v.telescope);
    assert(d == v);
}

/// The bytes hold a whole SER file at their start.
pub open spec fn holds_file(b: Seq<u8>) -> bool {
    &&& header_ok(b)
    &&& header_count(b) >= 0
    &&& end_offset(b) <= b.len()
}

proof fn lemma_holds_file_offsets(b: Seq<u8>)
    requires
        holds_file(b),
    ensures
        0 <= header_count(b) * header_format(b).frame_bytes_len(),
        178 <= trailer_offset(b) <= end_offset(b) <= b.len(),
{
    let n = header_count(b) as int;
    let size = header_format(b).frame_bytes_len() as int;
    assert(0 <= n * size) by (nonlinear_arith)
        requires
            0 <= n,
            0 <= size,
    ;
}

#[verifier::spinoff_prover]
#[verifier::rlimit(40)]
proof fn lemma_header_of_decoded(b: Seq<u8>)
    requires
        holds_file(b),
    ensures
        header_bytes(decode_ser(b)) == b.subrange(0, 178),
{
    let v = decode_ser(b);
    lemma_holds_file_offsets(b);
    assert(v.texts_sized());
    lemma_header_layout(v);
    crate::encoding::lemma_i32_at(b, 14);
    crate::encoding::lemma_i32_at(b, 18);
    crate::encoding::lemma_i32_at(b, 22);
    crate::encoding::lemma_i32_at(b, 26);
    crate::encoding::lemma_i32_at(b, 30);
    crate::encoding::lemma_i32_at(b, 34);
    crate::encoding::lemma_i32_at(b, 38);
    crate::encoding::lemma_u64_at(b, 162);
    crate::encoding::lemma_u64_at(b, 170);
    crate::format::lemma_color_of_code_roundtrip(i32_at(b, 18));
    crate::format::lemma_endian_code_roundtrip(v.endian, i32_at(b, 22));
    crate::format::lemma_depth_bits_roundtrip(i32_at(b, 34));
    assert(v.frames.len() as i32 == i32_at(b, 38));
    let h = header_bytes(v);
    assert(b.subrange(0, 178) =~= b.subrange(0, 14) + b.subrange(14, 18) + b.subrange(18, 22)
        + b.subrange(22, 26) + b.subrange(26, 30) + b.subrange(30, 34) + b.subrange(34, 38)
        + b.subrange(38, 42) + b.subrange(42, 82) + b.subrange(82, 122) + b.subrange(122, 162)
        + b.subrange(162, 170) + b.subrange(170, 178));
    assert(h =~= h.subrange(0, 14) + h.subrange(14, 18) + h.subrange(18, 22) + h.subrange(22, 26)
        + h.subrange(26, 30) + h.subrange(30, 34) + h.subrange(34, 38) + h.subrange(38, 42)
        + h.subrange(42, 82) + h.subrange(82, 122) + h.subrange(122, 162) + h.subrange(162, 170)
        + h.subrange(170, 178));
}

proof fn lemma_frames_of_decoded(b: Seq<u8>)
    requires
        holds_file(b),
    ensures
        frames_bytes(decode_ser(b).frames, decode_ser(b).endian) == b.subrange(178, trailer_offset(b)),
{
    let v = decode_ser(b);
    let fmt = header_format(b);
    let size = fmt.frame_bytes_len() as int;
    let n = header_count(b) as int;
    lemma_holds_file_offsets(b);
    let body = b.subrange(178, trailer_offset(b));
    let fenc = |f: FrameView| frame_bytes(f, v.endian);
    let fdec = |c: Seq<u8>| decode_frame(c, fmt);
    assert(body.len() == n * size);
    assert forall|i: int| 0 <= i < n implies fenc(fdec(#[trigger] piece(body, i, size))) == piece(
        body,
        i,
        size,
    ) by {
        crate::encoding::lemma_piece_bounds(i, n, size);
        lemma_frame_bytes_roundtrip(piece(body, i, size), fmt);
    }
    crate::encoding::lemma_decode_then_encode(body, n, fenc, fdec, size);
    assert(v.frames =~= Seq::new(n as nat, |i: int| fdec(piece(body, i, size))));
    assert(v.frames.map_values(fenc) =~= v.frames.map_values(|f: FrameView| frame_bytes(f, v.endian)));
}

proof fn lemma_trailer_of_decoded(b: Seq<u8>)
    requires
        holds_file(b),
    ensures
        trailer_bytes(decode_ser(b).trailer) == b.subrange(trailer_offset(b), end_offset(b)),
{
    let v = decode_ser(b);
    let tn = header_trailer_count(b);
    lemma_holds_file_offsets(b);
    let tail = b.subrange(trailer_offset(b), end_offset(b));
    let tenc = |t: Timestamp| timestamp_bytes(t);
    let tdec = |c: Seq<u8>| decode_timestamp(c);
    assert(tail.len() == tn * 8);
    assert forall|i: int| 0 <= i < tn implies tenc(tdec(#[trigger] piece(tail, i, 8))) == piece(
        tail,
        i,
        8,
    ) by {
        crate::encoding::lemma_piece_bounds(i, tn, 8);
        let c = piece(tail, i, 8);
        crate::encoding::lemma_u64_at(c, 0);
        assert(c.subrange(0, 8) =~= c);
    }
    crate::encoding::lemma_decode_then_encode(tail, tn, tenc, tdec, 8);
    assert(v.trailer =~= Seq::new(tn as nat, |i: int| tdec(piece(tail, i, 8))));
    assert(v.trailer.map_values(tenc) =~= v.trailer.map_values(|t: Timestamp| timestamp_bytes(t)));
}

/// Writing a document read from bytes gives back exactly the bytes it
/// was read from.
pub proof fn lemma_write_after_read(b: Seq<u8>)
    ensures
        match parse_ser(b) {
            Ok((v, n)) => ser_bytes(v) == b.subrange(0, n as int),
            Err(_) => true,
        },
{
    if let Ok((v, end)) = parse_ser(b) {
        assert(holds_file(b));
        lemma_holds_file_offsets(b);
        lemma_header_of_decoded(b);
        lemma_frames_of_decoded(b);
        lemma_trailer_of_decoded(b);
        assert(ser_bytes(v) =~= b.subrange(0, end as int));
    }
}

/// Every document read from bytes (where reading is defined) is written
/// back faithfully: its trailer is in step with its frames, its frames are
/// accepted by its format, and so on.
pub proof fn lemma_read_is_faithful(b: Seq<u8>)
    requires
        read_is_defined(b),
    ensures
        match parse_ser(b) {
            Ok((v, n)) => writes_faithfully(v),
            Err(_) => true,
        },
{
    if let Ok((v, end)) = parse_ser(b) {
        assert(holds_file(b));
        lemma_holds_file_offsets(b);
        let fmt = header_format(b);
        let size = fmt.frame_bytes_len() as int;
        let n = header_count(b) as int;
        let body = b.subrange(178, trailer_offset(b));
        assert(v.format() == fmt);
        assert forall|i: int| 0 <= i < v.frames.len() implies fmt.accepts(
            #[trigger] v.frames[i],
        ) by {
            crate::encoding::lemma_piece_bounds(i, n, size);
            let c = piece(body, i, size);
            assert(c.len() == size);
            assert(v.frames[i] == decode_frame(c, fmt));
            lemma_decoded_frame_accepts(c, fmt);
        }
        assert forall|i: int| 0 <= i < v.trailer.len() implies (
        #[trigger] v.trailer[i]).is_canonical() by {}
        assert(writes_faithfully(v));
    }
}

/// Pushing a frame that the format accepts, with a timestamp exactly
/// when the document has frame timestamps (as [crate::FramesMut::try_push]
/// accepts it), keeps a document faithfully writable, while the frame
/// count fits the header field, the frame size can be computed, and the
/// timestamp's variant agrees with its raw value.
pub proof fn lemma_push_keeps_faithful(v: SerView, f: FrameView, ts: Option<Timestamp>)
    requires
        writes_faithfully(v),
        v.format().accepts(f),
        v.frames.len() < i32::MAX,
        v.format().samples_fit(),
        f.pixels.len() <= isize::MAX,
        ts is Some == v.has_frame_timestamps(),
        ts matches Some(t) ==> t.is_canonical(),
    ensures
        writes_faithfully(
            SerView {
                frames: v.frames.push(f),
                trailer: match ts {
                    Some(t) => v.trailer.push(t),
                    None => v.trailer,
                },
                ..v
            },
        ),
{
    let w = SerView {
        frames: v.frames.push(f),
        trailer: match ts {
            Some(t) => v.trailer.push(t),
            None => v.trailer,
        },
        ..v
    };
    assert(w.format() == v.format());
    assert forall|i: int| 0 <= i < w.frames.len() implies w.format().accepts(
        #[trigger] w.frames[i],
    ) by {
        if i < v.frames.len() {
            assert(w.frames[i] == v.frames[i]);
        }
    }
    assert forall|i: int| 0 <= i < w.trailer.len() implies (#[trigger] w.trailer[i]).is_canonical() by {
        if i < v.trailer.len() {
            assert(w.trailer[i] == v.trailer[i]);
        }
    }
}

/// Setting valid dates with one timestamp per frame (as
/// [crate::DatesMut::try_set_dates] accepts them) keeps a document
/// faithfully writable, when the new timestamps' variants agree with their
/// raw values.
pub proof fn lemma_set_dates_keeps_faithful(
    v: SerView,
    datetime: Timestamp,
    datetime_utc: Timestamp,
    times: Seq<Timestamp>,
)
    requires
        writes_faithfully(v),
        datetime.spec_is_valid(),
        datetime_utc.spec_is_valid(),
        times.len() == v.frames.len(),
        datetime.is_canonical_datetime(),
        datetime_utc.is_canonical(),
        forall|i: int| 0 <= i < times.len() ==> (#[trigger] times[i]).is_canonical(),
    ensures
        writes_faithfully(SerView { datetime, datetime_utc, trailer: times, ..v }),
{
    let w = SerView { datetime, datetime_utc, trailer: times, ..v };
    assert(w.format() == v.format());
}

/// Clearing the dates (as [crate::DatesMut::clear] does) keeps a document
/// faithfully writable.
pub proof fn lemma_clear_dates_keeps_faithful(v: SerView)
    requires
        writes_faithfully(v),
    ensures
        writes_faithfully(
            SerView {
                datetime: Timestamp::Invalid(0),
                datetime_utc: Timestamp::Invalid(0),
                trailer: Seq::empty(),
                ..v
            },
        ),
{
    let w = SerView {
        datetime: Timestamp::Invalid(0),
        datetime_utc: Timestamp::Invalid(0),
        trailer: Seq::empty(),
        ..v
    };
    assert(w.format() == v.format());
    assert(0u64 & 0x3fff_ffff_ffff_ffffu64 == 0) by (bit_vector);
}

} // verus!
