//! Bytes and their encodings.

use vstd::prelude::*;
use vstd::string::*;
use vstd::utf8::*;

verus! {

/// What `base64`'s standard engine makes of bytes.
pub uninterp spec fn base64_text(bytes: Seq<u8>) -> Seq<char>;

/// What `base64`'s standard engine reads from a text: the bytes, or nothing where
/// the text is not padded standard base64.
pub uninterp spec fn base64_bytes(text: Seq<char>) -> Option<Seq<u8>>;

/// The gzip stream that `flate2` makes of bytes at its fast level.
pub uninterp spec fn gzip_bytes(bytes: Seq<u8>) -> Seq<u8>;

/// The deflate stream that `flate2` makes of bytes at its fast level.
pub uninterp spec fn deflate_bytes(bytes: Seq<u8>) -> Seq<u8>;

/// The bytes that a gzip stream was made of.
pub open spec fn gunzipped(stream: Seq<u8>) -> Seq<u8> {
    choose|bytes: Seq<u8>| #[trigger] gzip_bytes(bytes) == stream
}

/// The bytes that a deflate stream was made of.
pub open spec fn inflated(stream: Seq<u8>) -> Seq<u8> {
    choose|bytes: Seq<u8>| #[trigger] deflate_bytes(bytes) == stream
}

/// The text that `String::from_utf8_lossy` makes of bytes that are not UTF-8.
pub uninterp spec fn lossy_text(bytes: Seq<u8>) -> Seq<char>;

/// The text of bytes. What is not UTF-8 in them is replaced.
pub open spec fn text_of(bytes: Seq<u8>) -> Seq<char> {
    if valid_utf8(bytes) {
        decode_utf8(bytes)
    } else {
        lossy_text(bytes)
    }
}

/// An optional list of bytes by its view.
pub open spec fn opt_bytes(bytes: Option<Vec<u8>>) -> Option<Seq<u8>> {
    match bytes {
        Some(b) => Some(b@),
        None => None,
    }
}

/// `std::str::from_utf8` gives the text that the bytes encode, and fails where
/// they are not UTF-8.
#[verifier::external_body]
pub(crate) fn utf8_text(bytes: &[u8]) -> (r: Option<&str>)
    ensures
        match r {
            Some(s) => valid_utf8(bytes@) && s@ == decode_utf8(bytes@),
            None => !valid_utf8(bytes@),
        },
{
    std::str::from_utf8(bytes).ok()
}

/// `String::from_utf8_lossy` keeps the text of bytes that are UTF-8. What it
/// makes of other bytes is a function of the bytes, which [`lossy_text`] names.
#[verifier::external_body]
pub(crate) fn from_lossy(bytes: &[u8]) -> (r: String)
    ensures
        valid_utf8(bytes@) ==> r@ == decode_utf8(bytes@),
        !valid_utf8(bytes@) ==> r@ == lossy_text(bytes@),
{
    String::from_utf8_lossy(bytes).into_owned()
}

/// The standard engine of `base64` encodes the bytes. The claim is that the text
/// is a function of the bytes, which [`base64_text`] names, and that the same
/// engine decodes the text to the bytes.
#[verifier::external_body]
pub(crate) fn to_base64(bytes: &[u8]) -> (r: String)
    ensures
        r@ == base64_text(bytes@),
        base64_bytes(r@) == Some(bytes@),
{
    base64::Engine::encode(&base64::engine::general_purpose::STANDARD, bytes)
}

/// The standard engine of `base64` decodes the text. The claim is that the
/// outcome is a function of the text, which [`base64_bytes`] names.
#[verifier::external_body]
pub(crate) fn from_base64(text: &str) -> (r: Option<Vec<u8>>)
    ensures
        opt_bytes(r) == base64_bytes(text@),
{
    base64::Engine::decode(&base64::engine::general_purpose::STANDARD, text).ok()
}

/// `flate2::write::GzEncoder` compresses the bytes at the fast level, with no
/// file name, no time and no system in its header. The claim is that it succeeds,
/// as writing to a `Vec` does, that the stream is a function of the bytes, which
/// [`gzip_bytes`] names, and that nothing is lost: other bytes give another
/// stream.
#[verifier::external_body]
pub(crate) fn gzip(bytes: &[u8]) -> (r: Option<Vec<u8>>)
    ensures
        opt_bytes(r) == Some(gzip_bytes(bytes@)),
        forall|other: Seq<u8>| Some(#[trigger] gzip_bytes(other)) == opt_bytes(r) ==> other == bytes@,
{
    let mut encoder = flate2::write::GzEncoder::new(Vec::new(), flate2::Compression::fast());
    std::io::Write::write_all(&mut encoder, bytes).ok()?;
    encoder.finish().ok()
}

/// `flate2::write::DeflateEncoder` compresses the bytes at the fast level. The
/// claim is that it succeeds, as writing to a `Vec` does, that the stream is a
/// function of the bytes, which [`deflate_bytes`] names, and that nothing is lost:
/// other bytes give another stream.
#[verifier::external_body]
pub(crate) fn deflate(bytes: &[u8]) -> (r: Option<Vec<u8>>)
    ensures
        opt_bytes(r) == Some(deflate_bytes(bytes@)),
        forall|other: Seq<u8>|
            Some(#[trigger] deflate_bytes(other)) == opt_bytes(r) ==> other == bytes@,
{
    let mut encoder = flate2::write::DeflateEncoder::new(Vec::new(), flate2::Compression::fast());
    std::io::Write::write_all(&mut encoder, bytes).ok()?;
    encoder.finish().ok()
}

// ── laws ──

/// Reading the bytes of a text gives the text.
pub proof fn law_text_of_its_bytes(s: Seq<char>)
    ensures
        text_of(encode_utf8(s)) == s,
{
    encode_utf8_decode_utf8(s);
    encode_utf8_valid_utf8(s);
}

} // verus!
