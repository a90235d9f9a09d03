//! Calls into the crates and the parts of the standard library that this library
//! rests on: random bytes, SHA-256, base64, and the formatting of quoted text.
use vstd::prelude::*;
use vstd::string::*;
use vstd::utf8::*;
use base64::Engine;
use rand::RngCore;
use sha2::Digest;
use crate::text::trimmed;

verus! {

/// Calls `rand::rngs::OsRng.fill_bytes`, which overwrites every byte of the
/// buffer with randomness of the operating system and panics where the system has
/// none. Of the bytes nothing is claimed, only that their number stays the same.
#[verifier::external_body]
fn fill_random(buf: &mut Vec<u8>)
    ensures
        final(buf)@.len() == old(buf)@.len(),
{
    rand::rngs::OsRng.fill_bytes(buf)
}

/// `n` random bytes.
pub fn random_bytes(n: usize) -> (r: Vec<u8>)
    ensures
        r@.len() == n,
{
    let mut buf: Vec<u8> = vec![0u8; n];
    fill_random(&mut buf);
    buf
}

/// A random salt of twelve bytes.
pub fn random_salt() -> (r: [u8; 12])
    ensures
        r@.len() == 12,
{
    let buf = random_bytes(12);
    [
        buf[0],
        buf[1],
        buf[2],
        buf[3],
        buf[4],
        buf[5],
        buf[6],
        buf[7],
        buf[8],
        buf[9],
        buf[10],
        buf[11],
    ]
}

/// The SHA-256 digest of a message.
pub uninterp spec fn sha256(message: Seq<u8>) -> Seq<u8>;

/// Calls `sha2::Sha256::digest`. The 32 bytes depend on the message alone.
#[verifier::external_body]
pub(crate) fn sha256_digest(message: &[u8]) -> (r: [u8; 32])
    ensures
        r@ == sha256(message@),
{
    sha2::Sha256::digest(message).into()
}

/// A byte string in base64 with the standard alphabet and padding.
pub uninterp spec fn base64_chars(bytes: Seq<u8>) -> Seq<char>;

/// Whether a base64 text stands for a byte string.
pub open spec fn reads_as(text: Seq<char>, bytes: Seq<u8>) -> bool {
    base64_decoded(text) == Ok::<Seq<u8>, Seq<char>>(bytes)
}

/// The characters of base64: letters, digits, plus, slash, and the equals sign that
/// fills the text up.
pub open spec fn is_base64_char(c: char) -> bool {
    ||| 'A' <= c <= 'Z'
    ||| 'a' <= c <= 'z'
    ||| '0' <= c <= '9'
    ||| c == '+' || c == '/' || c == '='
}

/// Calls `encode` of `base64::engine::general_purpose::STANDARD`. The text depends
/// on the bytes alone, it is made of the characters of base64, and decoding it gives
/// the bytes back. The call panics where the length of the text would not fit in a
/// `usize`, which the bound on the number of bytes rules out.
#[verifier::external_body]
pub(crate) fn base64_encode(bytes: &[u8]) -> (r: String)
    requires
        bytes@.len() <= 0x2000_0000,
    ensures
        r@ == base64_chars(bytes@),
        forall|i: int| 0 <= i < r@.len() ==> is_base64_char(#[trigger] r@[i]),
        reads_as(r@, bytes@),
{
    base64::engine::general_purpose::STANDARD.encode(bytes)
}

/// The byte string that a base64 text stands for, or what is wrong with the text.
pub uninterp spec fn base64_decoded(text: Seq<char>) -> Result<Seq<u8>, Seq<char>>;

/// Calls `decode` of `base64::engine::general_purpose::STANDARD`. The bytes, or the
/// error that the crate displays, depend on the text alone.
#[verifier::external_body]
pub(crate) fn base64_decode(text: &str) -> (r: Result<Vec<u8>, String>)
    ensures
        match r {
            Ok(b) => base64_decoded(text@) == Ok::<Seq<u8>, Seq<char>>(b@),
            Err(e) => base64_decoded(text@) == Err::<Seq<u8>, Seq<char>>(e@),
        },
{
    base64::engine::general_purpose::STANDARD.decode(text).map_err(|e| e.to_string())
}

/// A base64 text has no white space at its ends.
pub proof fn lemma_base64_is_trimmed(text: Seq<char>)
    requires
        forall|i: int| 0 <= i < text.len() ==> is_base64_char(#[trigger] text[i]),
    ensures
        trimmed(text) == text,
{
    if text.len() > 0 {
        assert(is_base64_char(text[0]));
        assert(is_base64_char(text[text.len() - 1]));
    }
}

/// A text in quotation marks, with special characters escaped.
pub uninterp spec fn quoted(text: Seq<char>) -> Seq<char>;

/// Formats a text with `{:?}`. The result depends on the text alone.
#[verifier::external_body]
pub(crate) fn quote(text: &str) -> (r: String)
    ensures
        r@ == quoted(text@),
{
    format!("{:?}", text)
}

/// What a byte string that is not UTF-8 reads as, wrong parts replaced.
pub uninterp spec fn repaired_utf8(bytes: Seq<u8>) -> Seq<char>;

/// A byte string read as UTF-8, wrong parts replaced.
pub open spec fn lossy_text(bytes: Seq<u8>) -> Seq<char> {
    if valid_utf8(bytes) {
        decode_utf8(bytes)
    } else {
        repaired_utf8(bytes)
    }
}

/// Calls `String::from_utf8_lossy`. UTF-8 is decoded; what anything else reads as
/// depends on the bytes alone.
#[verifier::external_body]
pub(crate) fn from_utf8_lossy(bytes: &[u8]) -> (r: String)
    ensures
        r@ == (if valid_utf8(bytes@) {
            decode_utf8(bytes@)
        } else {
            repaired_utf8(bytes@)
        }),
{
    String::from_utf8_lossy(bytes).into_owned()
}

/// The hexadecimal digit that stands for a number below sixteen.
pub open spec fn hex_digit(d: nat) -> char {
    if d < 10 {
        ((48 + d) as u8) as char
    } else {
        ((87 + d) as u8) as char
    }
}

/// A byte string in lower case hexadecimal, two digits for each byte.
pub open spec fn hex_chars(bytes: Seq<u8>) -> Seq<char> {
    Seq::new(
        2 * bytes.len(),
        |i: int|
            if i % 2 == 0 {
                hex_digit((bytes[i / 2] / 16) as nat)
            } else {
                hex_digit((bytes[i / 2] % 16) as nat)
            },
    )
}

fn hex_char(d: u8) -> (r: char)
    requires
        d < 16,
    ensures
        r == hex_digit(d as nat),
{
    if d < 10 {
        (48 + d) as char
    } else {
        (87 + d) as char
    }
}

/// A byte string in lower case hexadecimal.
pub fn hex_encode(bytes: &[u8]) -> (r: String)
    ensures
        r@ == hex_chars(bytes@),
{
    let mut out = String::new();
    let mut i: usize = 0;
    while i < bytes.len()
        invariant
            i <= bytes@.len(),
            out@ == hex_chars(bytes@.take(i as int)),
        decreases bytes@.len() - i,
    {
        let b: u8 = bytes[i];
        out.push(hex_char(b / 16));
        out.push(hex_char(b % 16));
        assert(out@ =~= hex_chars(bytes@.take(i + 1)));
        i = i + 1;
    }
    assert(bytes@.take(bytes@.len() as int) =~= bytes@);
    out
}

/// `n` random bytes in hexadecimal.
pub fn random_hex(n: usize) -> (r: String)
    ensures
        exists|bytes: Seq<u8>| bytes.len() == n && r@ == hex_chars(bytes),
{
    let buf = random_bytes(n);
    hex_encode(buf.as_slice())
}

/// A random token for the control channel: 32 bytes in base64.
pub fn random_token() -> (r: String)
    ensures
        exists|bytes: Seq<u8>| bytes.len() == 32 && r@ == base64_chars(bytes),
{
    let buf = random_bytes(32);
    base64_encode(buf.as_slice())
}

/// The number that a digit in lower case hexadecimal stands for.
pub open spec fn hex_value(c: char) -> Option<nat> {
    if '0' <= c && c <= '9' {
        Some((c as u32 - '0' as u32) as nat)
    } else if 'a' <= c && c <= 'f' {
        Some((c as u32 - 'a' as u32 + 10) as nat)
    } else {
        None
    }
}

/// Every byte can be read back from its two digits, the higher one first; and different
/// byte strings are written differently.
pub proof fn hexadecimal_is_read_back(bytes: Seq<u8>, i: int)
    requires
        0 <= i < bytes.len(),
    ensures
        hex_chars(bytes).len() == 2 * bytes.len(),
        hex_value(hex_chars(bytes)[2 * i]) is Some,
        hex_value(hex_chars(bytes)[2 * i + 1]) is Some,
        hex_value(hex_chars(bytes)[2 * i])->0 * 16 + hex_value(hex_chars(bytes)[2 * i + 1])->0
            == bytes[i],
{
    let h = hex_chars(bytes);
    let b = bytes[i];
    assert(h[2 * i] == hex_digit((b / 16) as nat));
    assert(h[2 * i + 1] == hex_digit((b % 16) as nat)) by {
        assert((2 * i + 1) / 2 == i && (2 * i + 1) % 2 == 1);
    }
    assert(b / 16 < 16 && b % 16 < 16);
}

} // verus!
