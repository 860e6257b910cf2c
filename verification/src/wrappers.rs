use vstd::prelude::*;

use base64::Engine;
use base64::prelude::BASE64_STANDARD;
use vstd::string::StrSliceExecFns;

verus! {

/// The standard-alphabet, padded base64 text of a byte sequence. Stated
/// rather than defined: the encoding is a pure function of the bytes alone,
/// and the clauses of `b64_encode` and `b64_decode` below are the only
/// facts assumed of it.
pub uninterp spec fn b64_of(b: Seq<u8>) -> Seq<char>;

/// The most bytes one payload may carry: keeps base64's encoded-length
/// computation within `usize` on every call.
pub const MAX_PAYLOAD_BYTES: u64 = 0x1000_0000_0000_0000;

/// Relies on base64's `Engine::encode` (engine `BASE64_STANDARD`): the
/// result is a pure function of the input bytes. The length bound keeps the
/// engine's encoded-length computation from overflowing.
#[verifier::external_body]
pub(crate) fn b64_encode(data: &[u8]) -> (r: String)
    requires
        data@.len() <= MAX_PAYLOAD_BYTES,
    ensures
        r@ == b64_of(data@),
{
    BASE64_STANDARD.encode(data)
}

/// Relies on base64's `Engine::decode` (engine `BASE64_STANDARD`): decoding
/// the standard padded encoding of bytes `b` yields exactly `b`. Of any
/// other input nothing is assumed beyond the shape of the result.
#[verifier::external_body]
pub(crate) fn b64_decode(data: &str) -> (r: Option<Vec<u8>>)
    ensures
        forall|b: Seq<u8>| data@ == #[trigger] b64_of(b) ==> r is Some && r->Some_0@ == b,
{
    match BASE64_STANDARD.decode(data) {
        Ok(v) => Some(v),
        Err(_) => None,
    }
}

/// Relies on uuid's `Uuid::new_v4` and its hyphenated text form, which is
/// always 36 characters. The value itself is random, so nothing more is
/// assumed of it.
#[verifier::external_body]
pub(crate) fn fresh_uuid() -> (r: String)
    ensures
        r@.len() == 36,
{
    uuid::Uuid::new_v4().to_string()
}

/// Relies on chrono's `Utc::now` and `DateTime::to_rfc3339`. The result
/// depends on the clock, so nothing is assumed of it.
#[verifier::external_body]
pub(crate) fn now_rfc3339() -> (r: String) {
    chrono::Utc::now().to_rfc3339()
}

/// Relies on `String`'s `FromIterator<char>`: collecting an iterator over
/// characters yields a string holding exactly those characters in order.
#[verifier::external_body]
pub(crate) fn string_from_chars(v: &Vec<char>) -> (r: String)
    ensures
        r@ == v@,
{
    v.iter().collect()
}

/// The characters of a string slice, as a vector. Verified: built one
/// character at a time from vstd's character accessors.
pub(crate) fn str_to_chars(s: &str) -> (r: Vec<char>)
    ensures
        r@ == s@,
{
    let n = s.unicode_len();
    let mut v: Vec<char> = Vec::new();
    let mut i: usize = 0;
    while i < n
        invariant
            n == s@.len(),
            0 <= i <= n,
            v@ == s@.take(i as int),
        decreases n - i,
    {
        v.push(s.get_char(i));
        i = i + 1;
        proof {
            assert(v@ =~= s@.take(i as int));
        }
    }
    proof {
        assert(v@ =~= s@);
    }
    v
}

} // verus!
