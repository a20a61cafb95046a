//! Text as bytes: UTF-8 decoding, as `std::str::from_utf8` does it, and
//! strings as C strings.
use vstd::prelude::*;
use vstd::string::*;
use vstd::utf8::{decode_utf8, encode_utf8, valid_utf8};

verus! {

/// The characters that the bytes `b` encode in UTF-8, or `None` where they
/// are not UTF-8.
pub open spec fn utf8_decode(b: Seq<u8>) -> Option<Seq<char>> {
    if valid_utf8(b) {
        Some(decode_utf8(b))
    } else {
        None
    }
}

/// Calls `std::str::from_utf8` and copies the text it finds. Its
/// documentation: the bytes are accepted exactly when they are valid UTF-8,
/// and then the text is the characters they encode.
#[verifier::external_body]
pub(crate) fn string_from_utf8(b: &[u8]) -> (r: Option<String>)
    ensures
        match r {
            Some(s) => utf8_decode(b@) == Some(s@),
            None => utf8_decode(b@) is None,
        },
{
    match std::str::from_utf8(b) {
        Ok(s) => Some(s.to_string()),
        Err(_) => None,
    }
}

/// The UTF-8 bytes of a string are at least as many as its characters.
pub proof fn lemma_utf8_len(s: Seq<char>)
    ensures
        encode_utf8(s).len() >= s.len(),
    decreases s.len(),
{
    if s.len() > 0 {
        lemma_utf8_len(s.drop_first());
    }
}

/// The bytes a string takes as a C string: one per byte of its UTF-8
/// encoding and a closing zero.
pub open spec fn c_size(s: Seq<char>) -> nat {
    encode_utf8(s).len() + 1
}

/// A string as a C string, as the kernel hands it to a program: each
/// character cut to its lowest byte, zeros up to the length of its UTF-8
/// encoding, and a closing zero.
pub open spec fn c_string_bytes(s: Seq<char>) -> Seq<u8> {
    Seq::new(c_size(s), |i: int| if i < s.len() { s[i] as u8 } else { 0u8 })
}

/// The string `s` as a C string.
pub fn c_string(s: &str) -> (r: Vec<u8>)
    requires
        encode_utf8(s@).len() < usize::MAX,
    ensures
        r@ == c_string_bytes(s@),
{
    let blen = s.len();
    let n = s.unicode_len();
    proof {
        lemma_utf8_len(s@);
    }
    let mut out: Vec<u8> = Vec::new();
    let mut i: usize = 0;
    while i < n
        invariant
            n == s@.len(),
            n <= blen,
            blen == encode_utf8(s@).len(),
            i <= n,
            out@.len() == i,
            forall|j: int| 0 <= j < i ==> out@[j] == s@[j] as u8,
        decreases n - i,
    {
        let c = s.get_char(i);
        out.push(c as u8);
        i = i + 1;
    }
    while i <= blen
        invariant
            n == s@.len(),
            n <= i <= blen + 1,
            blen == encode_utf8(s@).len(),
            blen < usize::MAX,
            out@.len() == i,
            forall|j: int| 0 <= j < n ==> out@[j] == s@[j] as u8,
            forall|j: int| n <= j < i ==> out@[j] == 0u8,
        decreases blen + 1 - i,
    {
        out.push(0);
        i = i + 1;
    }
    assert(out@ =~= c_string_bytes(s@));
    out
}

} // verus!
