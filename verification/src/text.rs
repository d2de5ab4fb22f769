//! Text and byte strings as they are stored: text as its UTF-8 bytes.
use crate::row::put_raw;
use vstd::prelude::*;
use vstd::slice::slice_to_vec;
use vstd::string::StringSliceAdditionalSpecFns;
use vstd::utf8::decode_utf8;
use vstd::utf8::decode_utf8_encode_utf8;
use vstd::utf8::encode_utf8;
use vstd::utf8::encode_utf8_decode_utf8;
use vstd::utf8::encode_utf8_valid_utf8;
use vstd::utf8::valid_utf8;

verus! {

/// `String::from_utf8`. The claim: the result is `Some` exactly when the
/// bytes are valid UTF-8, and then it is the text that they encode.
#[verifier::external_body]
pub(crate) fn string_from_utf8(bytes: Vec<u8>) -> (r: Option<String>)
    ensures
        r is Some <==> valid_utf8(bytes@),
        r is Some ==> r.unwrap()@ == decode_utf8(bytes@),
{
    match String::from_utf8(bytes) {
        Ok(s) => Some(s),
        Err(_) => None,
    }
}

/// A copy of `bytes`.
pub fn copy_bytes(bytes: &Vec<u8>) -> (out: Vec<u8>)
    ensures
        out@ == bytes@,
{
    let mut out: Vec<u8> = Vec::new();
    put_raw(&mut out, bytes);
    assert(out@ =~= bytes@);
    out
}

/// Whether two byte strings are equal.
pub fn same_bytes(a: &Vec<u8>, b: &Vec<u8>) -> (r: bool)
    ensures
        r == (a@ == b@),
{
    if a.len() != b.len() {
        return false;
    }
    let n = a.len();
    let mut i: usize = 0;
    while i < n
        invariant
            n == a@.len(),
            n == b@.len(),
            0 <= i <= n,
            a@.take(i as int) == b@.take(i as int),
        decreases n - i,
    {
        if a[i] != b[i] {
            return false;
        }
        i += 1;
        assert(a@.take(i as int) =~= a@.take(i - 1).push(a@[i - 1]));
        assert(b@.take(i as int) =~= b@.take(i - 1).push(b@[i - 1]));
    }
    assert(a@.take(n as int) =~= a@);
    assert(b@.take(n as int) =~= b@);
    true
}

/// The UTF-8 bytes of a text.
pub fn text_bytes(s: &String) -> (out: Vec<u8>)
    ensures
        out@ == encode_utf8(s@),
        valid_utf8(out@),
        decode_utf8(out@) == s@,
{
    proof {
        encode_utf8_valid_utf8(s@);
        encode_utf8_decode_utf8(s@);
    }
    slice_to_vec(s.as_str().as_bytes())
}

/// The text that `bytes` encode: `Some` exactly when they are valid UTF-8.
pub fn bytes_text(bytes: &Vec<u8>) -> (r: Option<String>)
    ensures
        r is Some <==> valid_utf8(bytes@),
        r is Some ==> r.unwrap()@ == decode_utf8(bytes@),
        r is Some ==> encode_utf8(r.unwrap()@) == bytes@,
{
    proof {
        if valid_utf8(bytes@) {
            decode_utf8_encode_utf8(bytes@);
        }
    }
    string_from_utf8(copy_bytes(bytes))
}

/// Whether `s` is the text `word`.
pub fn text_is(s: &String, word: &str) -> (r: bool)
    ensures
        r == (s@ == word@),
{
    let other = word.to_owned();
    *s == other
}

} // verus!
