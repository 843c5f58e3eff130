//! Text fields of a fixed number of bytes, as the SER header stores the
//! observer, instrument and telescope names.

use vstd::prelude::*;
use vstd::utf8::{decode_utf8, encode_utf8, valid_utf8};

verus! {

/// `N` bytes of text, unused bytes filled with 0.
pub struct FixedString<const N: usize>(pub(crate) [u8; N]);

impl<const N: usize> View for FixedString<N> {
    type V = Seq<u8>;

    closed spec fn view(&self) -> Seq<u8> {
        self.0@
    }
}

/// What a fixed string's view is made of.
pub(crate) proof fn lemma_fixed_string_view<const N: usize>(s: FixedString<N>)
    ensures
        s@ == s.0@,
{
}

/// The characters that `bytes` read as, each sequence that is not valid
/// UTF-8 replaced by U+FFFD.
pub uninterp spec fn utf8_lossy(bytes: Seq<u8>) -> Seq<char>;

/// `String::from_utf8_lossy`, made owned. Its result is named
/// [utf8_lossy]; on valid UTF-8 it is the text the bytes encode, as the
/// function's documentation says. What replacement characters it puts
/// where the input is invalid is left to that name.
#[verifier::external_body]
fn lossy_string(bytes: &[u8]) -> (r: String)
    ensures
        r@ == utf8_lossy(bytes@),
        valid_utf8(bytes@) ==> r@ == decode_utf8(bytes@),
{
    String::from_utf8_lossy(bytes).into_owned()
}

/// The `n` bytes that hold `value`: its UTF-8 encoding, cut to `n` bytes
/// or filled up with 0.
pub open spec fn fixed_bytes(value: Seq<char>, n: nat) -> Seq<u8> {
    Seq::new(
        n,
        |i: int| if i < encode_utf8(value).len() {
            encode_utf8(value)[i]
        } else {
            0u8
        },
    )
}

/// A text field keeps the start of the text: its `n` bytes are the first
/// `n` bytes of the text's UTF-8 encoding, followed by zeros where the
/// encoding is shorter. A text longer than the field loses its end, never
/// its start.
pub proof fn lemma_fixed_bytes_prefix(value: Seq<char>, n: nat)
    ensures
        fixed_bytes(value, n).len() == n,
        forall|i: int|
            0 <= i < n && i < encode_utf8(value).len() ==> #[trigger] fixed_bytes(value, n)[i]
                == encode_utf8(value)[i],
        forall|i: int|
            encode_utf8(value).len() <= i < n ==> #[trigger] fixed_bytes(value, n)[i] == 0u8,
        encode_utf8(value).len() >= n ==> fixed_bytes(value, n) == encode_utf8(value).subrange(
            0,
            n as int,
        ),
        encode_utf8(value).len() <= n ==> fixed_bytes(value, n).subrange(
            0,
            encode_utf8(value).len() as int,
        ) == encode_utf8(value),
{
    let e = encode_utf8(value);
    if e.len() >= n {
        assert(fixed_bytes(value, n) =~= e.subrange(0, n as int));
    } else {
        assert(fixed_bytes(value, n).subrange(0, e.len() as int) =~= e);
    }
}

/// `k` NUL characters.
pub open spec fn nuls(k: nat) -> Seq<char> {
    Seq::new(k, |i: int| '\0')
}

/// Encoding two texts one after another gives their encodings one after
/// another.
proof fn lemma_encode_concat(a: Seq<char>, b: Seq<char>)
    ensures
        encode_utf8(a + b) == encode_utf8(a) + encode_utf8(b),
    decreases a.len(),
{
    if a.len() == 0 {
        assert(a + b =~= b);
        assert(encode_utf8(a) + encode_utf8(b) =~= encode_utf8(b));
    } else {
        lemma_encode_concat(a.drop_first(), b);
        assert((a + b).drop_first() =~= a.drop_first() + b);
        assert((a + b)[0] == a[0]);
        assert(encode_utf8(a + b) =~= encode_utf8(a) + encode_utf8(b));
    }
}

/// NUL characters are encoded as zero bytes.
proof fn lemma_encode_nuls(k: nat)
    ensures
        encode_utf8(nuls(k)) == Seq::new(k, |i: int| 0u8),
{
    let c = nuls(k);
    assert(vstd::utf8::is_ascii_chars(c));
    vstd::utf8::is_ascii_chars_encode_utf8(c);
    assert(encode_utf8(c) =~= Seq::new(k, |i: int| 0u8));
}

/// A text whose encoding fits in `n` bytes is stored as its encoding
/// followed by zeros, and reads back as the text followed by as many NUL
/// characters; a text whose encoding fills the `n` bytes reads back as
/// itself.
pub proof fn lemma_fixed_string_roundtrip(value: Seq<char>, n: nat)
    requires
        encode_utf8(value).len() <= n,
    ensures
        valid_utf8(fixed_bytes(value, n)),
        decode_utf8(fixed_bytes(value, n)) == value + nuls((n - encode_utf8(value).len()) as nat),
        encode_utf8(value).len() == n ==> decode_utf8(fixed_bytes(value, n)) == value,
{
    let e = encode_utf8(value);
    let k = (n - e.len()) as nat;
    lemma_encode_nuls(k);
    lemma_encode_concat(value, nuls(k));
    assert(fixed_bytes(value, n) =~= encode_utf8(value + nuls(k)));
    vstd::utf8::encode_utf8_valid_utf8(value + nuls(k));
    vstd::utf8::encode_utf8_decode_utf8(value + nuls(k));
    if k == 0 {
        assert(value + nuls(k) =~= value);
    }
}

impl<const N: usize> Default for FixedString<N> {
    fn default() -> (r: Self)
        ensures
            r@ == Seq::new(N as nat, |i: int| 0u8),
    {
        let r = FixedString([0u8; N]);
        assert(r@ =~= Seq::new(N as nat, |i: int| 0u8));
        r
    }
}

impl<const N: usize> FixedString<N> {
    /// The text that the bytes read as.
    pub fn to_display_string(&self) -> (r: String)
        ensures
            r@ == utf8_lossy(self@),
            valid_utf8(self@) ==> r@ == decode_utf8(self@),
    {
        lossy_string(self.0.as_slice())
    }

    /// Converts into the text that the bytes read as.
    pub fn into_string(self) -> (r: String)
        ensures
            r@ == utf8_lossy(self@),
            valid_utf8(self@) ==> r@ == decode_utf8(self@),
    {
        lossy_string(self.0.as_slice())
    }

    /// The UTF-8 encoding of `value`, cut to `N` bytes or filled up to `N`
    /// bytes with 0, as unused characters of the header's text fields are.
    pub fn from_string(value: String) -> (r: Self)
        ensures
            r@ == fixed_bytes(value@, N as nat),
            encode_utf8(value@).len() <= N ==> valid_utf8(r@) && decode_utf8(r@) == value@ + nuls(
                (N - encode_utf8(value@).len()) as nat,
            ),
            encode_utf8(value@).len() == N ==> valid_utf8(r@) && decode_utf8(r@) == value@,
    {
        let bytes = value.as_str().as_bytes();
        let n = bytes.len();
        let mut out = [0u8; N];
        let mut i: usize = 0;
        while i < N
            invariant
                0 <= i <= N,
                bytes@ == encode_utf8(value@),
                n == bytes@.len(),
                out@.len() == N,
                forall|j: int|
                    0 <= j < i ==> out@[j] == if j < n {
                        bytes@[j]
                    } else {
                        0u8
                    },
            decreases N - i,
        {
            if i < n {
                out[i] = bytes[i];
            } else {
                out[i] = 0;
            }
            i = i + 1;
        }
        let r = FixedString(out);
        assert(r@ =~= fixed_bytes(value@, N as nat));
        proof {
            if encode_utf8(value@).len() <= N {
                lemma_fixed_string_roundtrip(value@, N as nat);
            }
        }
        r
    }
}

} // verus!
