//! Media inlined into the UI as `data:` URLs (posters, preview clips).

use vstd::prelude::*;

use base64::Engine;

use crate::path::extension_spec;
use crate::text::{chars_of, extend_chars, lower, string_of};

verus! {

/// The character of a 6-bit value in the standard base64 alphabet
/// (RFC 4648, section 4): `A`-`Z`, `a`-`z`, `0`-`9`, `+`, `/`.
pub open spec fn b64_char(v: int) -> char {
    if v < 26 {
        (65 + v) as char
    } else if v < 52 {
        (97 + v - 26) as char
    } else if v < 62 {
        (48 + v - 52) as char
    } else if v == 62 {
        '+'
    } else {
        '/'
    }
}

/// Standard padded base64 (RFC 4648, section 4): each group of three
/// bytes becomes four characters; a last group of one or two bytes is
/// padded with `=`.
pub open spec fn base64_standard(bytes: Seq<u8>) -> Seq<char>
    decreases bytes.len(),
{
    if bytes.len() == 0 {
        seq![]
    } else if bytes.len() == 1 {
        let a = bytes[0] as int;
        seq![b64_char(a / 4), b64_char((a % 4) * 16), '=', '=']
    } else if bytes.len() == 2 {
        let a = bytes[0] as int;
        let b = bytes[1] as int;
        seq![b64_char(a / 4), b64_char((a % 4) * 16 + b / 16), b64_char((b % 16) * 4), '=']
    } else {
        let a = bytes[0] as int;
        let b = bytes[1] as int;
        let c = bytes[2] as int;
        seq![b64_char(a / 4), b64_char((a % 4) * 16 + b / 16), b64_char((b % 16) * 4 + c / 64), b64_char(c % 64)]
            + base64_standard(bytes.subrange(3, bytes.len() as int))
    }
}

/// `STANDARD.encode(bytes)` of the `base64` crate: standard alphabet,
/// padded.
#[verifier::external_body]
fn base64_encode(bytes: &[u8]) -> (r: String)
    ensures
        r@ == base64_standard(bytes@),
{
    base64::engine::general_purpose::STANDARD.encode(bytes)
}

/// `data:<mime>;base64,<encoded bytes>`.
pub open spec fn data_url_spec(mime: Seq<char>, bytes: Seq<u8>) -> Seq<char> {
    "data:"@ + mime + ";base64,"@ + base64_standard(bytes)
}

/// Inline `bytes` of type `mime` as a `data:` URL.
pub fn data_url(mime: &str, bytes: &[u8]) -> (r: String)
    ensures
        r@ == data_url_spec(mime@, bytes@),
{
    let mut v = chars_of("data:");
    extend_chars(&mut v, &chars_of(mime));
    extend_chars(&mut v, &chars_of(";base64,"));
    let enc = base64_encode(bytes);
    extend_chars(&mut v, &chars_of(enc.as_str()));
    let r = string_of(&v);
    assert(r@ =~= data_url_spec(mime@, bytes@));
    r
}

/// The image type of a poster file, by its extension (any case):
/// PNG, WebP, else JPEG.
pub open spec fn poster_mime_spec(path: Seq<char>) -> Seq<char> {
    match extension_spec(path) {
        Some(e) => if lower(e) == "png"@ {
            "image/png"@
        } else if lower(e) == "webp"@ {
            "image/webp"@
        } else {
            "image/jpeg"@
        },
        None => "image/jpeg"@,
    }
}

/// MIME type of a cached poster.
pub fn poster_mime(path: &str) -> (r: &'static str)
    ensures
        r@ == poster_mime_spec(path@),
{
    match crate::path::extension(&chars_of(path)) {
        Some(e) => {
            let l = crate::classify::lower_vec(&e);
            if crate::text::chars_eq(&l, &chars_of("png")) {
                "image/png"
            } else if crate::text::chars_eq(&l, &chars_of("webp")) {
                "image/webp"
            } else {
                "image/jpeg"
            }
        },
        None => "image/jpeg",
    }
}

/// MIME type of a preview clip (Matroska).
pub fn clip_mime() -> (r: &'static str)
    ensures
        r@ == "video/x-matroska"@,
{
    "video/x-matroska"
}

} // verus!
