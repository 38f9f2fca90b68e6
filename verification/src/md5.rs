//! MD5 digests as lower-case hexadecimal, used to sign translation API requests.
use vstd::prelude::*;
use crate::text::string_push;
use ::md5::Digest;

verus! {

/// The MD5 digest of a byte sequence.
pub uninterp spec fn md5_of(data: Seq<u8>) -> Seq<u8>;

/// `Md5::digest` of the `md-5` crate. Claims only that the result is the
/// digest of the input and that a digest has 16 bytes; the algorithm itself
/// is the crate's.
#[verifier::external_body]
fn md5_digest(data: &[u8]) -> (r: Vec<u8>)
    ensures
        r@ == md5_of(data@),
        r@.len() == 16,
{
    ::md5::Md5::digest(data).to_vec()
}

/// The lower-case hexadecimal digit for `d < 16`.
pub open spec fn hex_digit(d: u8) -> char {
    if d < 10 {
        ((d as u32) + 48) as char
    } else {
        ((d as u32) + 87) as char
    }
}

/// Two lower-case hexadecimal digits per byte, most significant first.
pub open spec fn hex_lower(bytes: Seq<u8>) -> Seq<char>
    decreases bytes.len(),
{
    if bytes.len() == 0 {
        Seq::empty()
    } else {
        hex_lower(bytes.drop_last()) + seq![hex_digit(bytes.last() / 16), hex_digit(bytes.last() % 16)]
    }
}

pub(crate) proof fn lemma_hex_lower_len(bytes: Seq<u8>)
    ensures
        hex_lower(bytes).len() == 2 * bytes.len(),
    decreases bytes.len(),
{
    if bytes.len() > 0 {
        lemma_hex_lower_len(bytes.drop_last());
    }
}

/// The hexadecimal digit character for `d < 16`.
pub fn hex_digit_char(d: u8) -> (r: char)
    requires
        d < 16,
    ensures
        r == hex_digit(d),
{
    if d < 10 {
        ((d as u32) + 48) as u8 as char
    } else {
        ((d as u32) + 87) as u8 as char
    }
}

/// MD5 of the UTF-8 bytes of `input`, as 32 lower-case hexadecimal digits.
pub fn md5_hex(input: &str) -> (r: String)
    ensures
        r@ == hex_lower(md5_of(vstd::utf8::encode_utf8(input@))),
        r@.len() == 32,
{
    let digest = md5_digest(input.as_bytes());
    let mut out = String::new();
    let mut i: usize = 0;
    while i < digest.len()
        invariant
            i <= digest@.len(),
            out@ == hex_lower(digest@.take(i as int)),
        decreases digest@.len() - i,
    {
        let b = digest[i];
        assert(digest@.take(i + 1).drop_last() =~= digest@.take(i as int));
        string_push(&mut out, hex_digit_char(b / 16));
        string_push(&mut out, hex_digit_char(b % 16));
        i = i + 1;
        assert(out@ =~= hex_lower(digest@.take(i as int)));
    }
    assert(digest@.take(digest@.len() as int) =~= digest@);
    proof {
        lemma_hex_lower_len(digest@);
    }
    out
}

} // verus!
