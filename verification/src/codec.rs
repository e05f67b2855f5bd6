use base64::Engine as _;
use vstd::prelude::*;

verus! {

/// The character of the standard base64 alphabet for the six-bit value `v`:
/// `A`-`Z`, `a`-`z`, `0`-`9`, then `+` and `/`.
pub open spec fn base64_char(v: int) -> char {
    if v < 26 {
        ('A' as int + v) as char
    } else if v < 52 {
        ('a' as int + (v - 26)) as char
    } else if v < 62 {
        ('0' as int + (v - 52)) as char
    } else if v == 62 {
        '+'
    } else {
        '/'
    }
}

/// The standard (padded) base64 text of a byte string: every group of three
/// bytes becomes four characters, one for each six bits, most significant
/// first; a last group of one or two bytes is filled with zero bits and its
/// missing characters are written as `=`.
pub open spec fn base64_encoding(bytes: Seq<u8>) -> Seq<char>
    decreases bytes.len(),
{
    if bytes.len() == 0 {
        Seq::empty()
    } else if bytes.len() == 1 {
        let b0 = bytes[0] as int;
        seq![base64_char(b0 / 4), base64_char((b0 % 4) * 16), '=', '=']
    } else if bytes.len() == 2 {
        let b0 = bytes[0] as int;
        let b1 = bytes[1] as int;
        seq![
            base64_char(b0 / 4),
            base64_char((b0 % 4) * 16 + b1 / 16),
            base64_char((b1 % 16) * 4),
            '=',
        ]
    } else {
        let b0 = bytes[0] as int;
        let b1 = bytes[1] as int;
        let b2 = bytes[2] as int;
        seq![
            base64_char(b0 / 4),
            base64_char((b0 % 4) * 16 + b1 / 16),
            base64_char((b1 % 16) * 4 + b2 / 64),
            base64_char(b2 % 64),
        ] + base64_encoding(bytes.subrange(3, bytes.len() as int))
    }
}

/// What decoding a text as standard base64 gives: the bytes, or the
/// decoder's error message.
pub uninterp spec fn base64_decode_result(text: Seq<char>) -> Result<Seq<u8>, Seq<char>>;

/// The bytes that a standard base64 text decodes to, or `None` when the
/// text is not valid standard base64.
pub open spec fn base64_decoding(text: Seq<char>) -> Option<Seq<u8>> {
    match base64_decode_result(text) {
        Ok(b) => Some(b),
        Err(_) => None,
    }
}

/// `base64::engine::general_purpose::STANDARD.encode`.  Claims that the
/// result is the standard padded encoding of the input (`base64_encoding`),
/// and that decoding it with the same engine gives the input back.  `encode`
/// panics when the encoded length overflows `usize`, which the bound on the
/// input length excludes.
#[verifier::external_body]
pub(crate) fn base64_encode(bytes: &[u8]) -> (r: String)
    requires
        bytes@.len() <= usize::MAX / 2,
    ensures
        r@ == base64_encoding(bytes@),
        base64_decoding(r@) == Some(bytes@),
{
    base64::engine::general_purpose::STANDARD.encode(bytes)
}

/// `base64::engine::general_purpose::STANDARD.decode`, with the decode
/// error turned into its message.  Claims only that the result is what
/// decoding the text gives.
#[verifier::external_body]
pub(crate) fn base64_decode(text: &str) -> (r: Result<Vec<u8>, String>)
    ensures
        match r {
            Ok(b) => base64_decode_result(text@) == Ok::<Seq<u8>, Seq<char>>(b@),
            Err(m) => base64_decode_result(text@) == Err::<Seq<u8>, Seq<char>>(m@),
        },
{
    match base64::engine::general_purpose::STANDARD.decode(text) {
        Ok(b) => Ok(b),
        Err(e) => Err(format!("{e}")),
    }
}

} // verus!
