//! The C string functions, on byte slices. A string is a place in a slice
//! from which the bytes run up to a terminating 0 inside the slice.
use vstd::prelude::*;
use crate::rlibc::mem::{compare_bytes, memcmp, memcpy, memset};

verus! {

/// The string that starts at `start` in `s` is `n` bytes long: a 0 stands
/// at `start + n`, inside `s`, and none before it.
pub open spec fn string_len_is(s: Seq<u8>, start: int, n: int) -> bool {
    &&& 0 <= start
    &&& 0 <= n
    &&& start + n < s.len()
    &&& s[start + n] == 0
    &&& forall|j: int| start <= j < start + n ==> s[j] != 0
}

/// A 0 stands at `start` or after it, inside `s`.
pub open spec fn terminated_from(s: Seq<u8>, start: int) -> bool {
    0 <= start && exists|k: int| start <= k < s.len() && s[k] == 0
}

/// The bytes of the string that starts at 0 in `s`, without the 0.
pub open spec fn string_bytes(s: Seq<u8>, n: int) -> Seq<u8> {
    s.subrange(0, n)
}

/// The length of the string that starts at `start` in `s`.
fn string_len_from(s: &[u8], start: usize) -> (n: usize)
    requires
        terminated_from(s@, start as int),
    ensures
        string_len_is(s@, start as int, n as int),
{
    let len = s.len();
    let mut i: usize = start;
    while s[i] != 0
        invariant
            start <= i < len,
            len == s@.len(),
            terminated_from(s@, start as int),
            forall|j: int| start <= j < i ==> s@[j] != 0,
            exists|k: int| i <= k < s@.len() && s@[k] == 0,
        decreases len - i,
    {
        proof {
            let k = choose|k: int| i <= k < s@.len() && s@[k] == 0;
            assert(k != i);
        }
        i = i + 1;
    }
    i - start
}

/// The number of bytes before the first 0 in `str`.
pub fn strlen(str: &[u8]) -> (n: usize)
    requires
        terminated_from(str@, 0),
    ensures
        string_len_is(str@, 0, n as int),
{
    string_len_from(str, 0)
}

/// The first place of the byte `ch` (taken as `ch as u8`) in the string
/// `str`, its terminating 0 included; `None` where it does not occur.
pub fn strchr(str: &[u8], ch: i32) -> (r: Option<usize>)
    requires
        terminated_from(str@, 0),
    ensures
        exists|n: int|
            #![trigger string_len_is(str@, 0, n)]
            string_len_is(str@, 0, n) && match r {
                Some(i) => i <= n && str@[i as int] == ch as u8 && forall|j: int|
                    0 <= j < i ==> str@[j] != ch as u8,
                None => forall|j: int| 0 <= j <= n ==> str@[j] != ch as u8,
            },
{
    let c = ch as u8;
    let n = strlen(str);
    let mut i: usize = 0;
    while i <= n
        invariant
            i <= n + 1,
            string_len_is(str@, 0, n as int),
            c == ch as u8,
            forall|j: int| 0 <= j < i ==> str@[j] != c,
        decreases n + 1 - i,
    {
        if str[i] == c {
            return Some(i);
        }
        i = i + 1;
    }
    None
}

/// Whether `c` is one of the bytes of `delim`.
pub open spec fn is_delimiter(delim: Seq<u8>, c: u8) -> bool {
    delim.contains(c)
}

fn contains_byte(delim: &[u8], dn: usize, c: u8) -> (r: bool)
    requires
        dn <= delim@.len(),
    ensures
        r == is_delimiter(delim@.subrange(0, dn as int), c),
{
    let mut j: usize = 0;
    while j < dn
        invariant
            j <= dn,
            dn <= delim@.len(),
            forall|k: int| 0 <= k < j ==> delim@[k] != c,
        decreases dn - j,
    {
        if delim[j] == c {
            assert(delim@.subrange(0, dn as int)[j as int] == c);
            return true;
        }
        j = j + 1;
    }
    assert forall|k: int| 0 <= k < dn implies delim@.subrange(0, dn as int)[k] != c by {}
    false
}

/// Where `strtok` goes on when it is called without a string: the place
/// after the end of the token it last gave out.
pub struct StrtokState {
    pub saved: Option<usize>,
}

impl StrtokState {
    /// A state from which a call without a string gives no token.
    pub fn new() -> (r: Self)
        ensures
            r.saved is None,
    {
        StrtokState { saved: None }
    }
}

/// What a call of `strtok` on the string at `p`, `n` bytes long, with the
/// delimiters `d`, does: where its token starts (`None` where the string
/// holds delimiters only), and where the delimiter that ends it stands
/// (`None` where it runs to the end of the string).
pub open spec fn token_found(s: Seq<u8>, p: int, n: int, d: Seq<u8>, t: int) -> bool {
    &&& p <= t < p + n
    &&& !is_delimiter(d, s[t])
    &&& forall|i: int| p <= i < t ==> is_delimiter(d, s[i])
}

/// The delimiter that ends the token at `t` stands at `e`.
pub open spec fn token_ends_at(s: Seq<u8>, p: int, n: int, d: Seq<u8>, t: int, e: int) -> bool {
    &&& t <= e < p + n
    &&& is_delimiter(d, s[e])
    &&& forall|i: int| t <= i < e ==> !is_delimiter(d, s[i])
}

/// Where the string that a call of `strtok` reads starts: `start`, or where
/// the last call stopped.
pub open spec fn strtok_from(state: StrtokState, start: Option<usize>) -> Option<usize> {
    match start {
        Some(p) => Some(p),
        None => state.saved,
    }
}

/// Splits the string in `buf` into tokens separated by bytes of the string
/// `delim`. `start` is where the string starts, or `None` to go on from
/// where the last call (through `state`) stopped. Gives out where the next
/// token starts and writes a 0 over the delimiter that ends it, or `None`
/// where no token is left.
pub fn strtok(state: &mut StrtokState, buf: &mut [u8], start: Option<usize>, delim: &[u8]) -> (r: Option<usize>)
    requires
        strtok_from(*old(state), start) matches Some(p) ==> terminated_from(old(buf)@, p as int),
        terminated_from(delim@, 0),
    ensures
        final(buf)@.len() == old(buf)@.len(),
        match strtok_from(*old(state), start) {
            None => r is None && final(buf)@ == old(buf)@ && *final(state) == *old(state),
            Some(p) => exists|n: int, dn: int|
                #![trigger string_len_is(old(buf)@, p as int, n), string_len_is(delim@, 0, dn)]
                string_len_is(old(buf)@, p as int, n) && string_len_is(delim@, 0, dn) && match r {
                    None => final(buf)@ == old(buf)@ && *final(state) == *old(state) && forall|i: int|
                        p <= i < p + n ==> is_delimiter(delim@.subrange(0, dn), old(buf)@[i]),
                    Some(t) => token_found(old(buf)@, p as int, n, delim@.subrange(0, dn), t as int)
                        && match final(state).saved {
                        None => final(buf)@ == old(buf)@ && forall|i: int|
                            t <= i < p + n ==> !is_delimiter(delim@.subrange(0, dn), old(buf)@[i]),
                        Some(next) => next >= 1 && token_ends_at(
                            old(buf)@,
                            p as int,
                            n,
                            delim@.subrange(0, dn),
                            t as int,
                            next - 1,
                        ) && final(buf)@ == old(buf)@.update(next - 1, 0),
                    },
                },
        },
{
    let p = match start {
        Some(p) => p,
        None => match state.saved {
            Some(p) => p,
            None => {
                return None;
            },
        },
    };
    let n = string_len_from(buf, p);
    let dn = strlen(delim);
    let ghost d = delim@.subrange(0, dn as int);
    let mut i: usize = p;
    let mut found: Option<usize> = None;
    while i < p + n
        invariant_except_break
            found is None,
        invariant
            p <= i <= p + n,
            string_len_is(buf@, p as int, n as int),
            dn <= delim@.len(),
            d == delim@.subrange(0, dn as int),
            forall|k: int| p <= k < i ==> is_delimiter(d, buf@[k]),
        ensures
            match found {
                None => forall|k: int| p <= k < p + n ==> is_delimiter(d, buf@[k]),
                Some(t) => token_found(buf@, p as int, n as int, d, t as int),
            },
        decreases p + n - i,
    {
        if !contains_byte(delim, dn, buf[i]) {
            found = Some(i);
            break;
        }
        i = i + 1;
    }
    let t = match found {
        Some(t) => t,
        None => {
            return None;
        },
    };
    let mut e: usize = t;
    let mut end: Option<usize> = None;
    while e < p + n
        invariant_except_break
            end is None,
        invariant
            t <= e <= p + n,
            token_found(buf@, p as int, n as int, d, t as int),
            string_len_is(buf@, p as int, n as int),
            dn <= delim@.len(),
            d == delim@.subrange(0, dn as int),
            forall|k: int| t <= k < e ==> !is_delimiter(d, buf@[k]),
        ensures
            match end {
                None => forall|k: int| t <= k < p + n ==> !is_delimiter(d, buf@[k]),
                Some(x) => token_ends_at(buf@, p as int, n as int, d, t as int, x as int),
            },
        decreases p + n - e,
    {
        if contains_byte(delim, dn, buf[e]) {
            end = Some(e);
            break;
        }
        e = e + 1;
    }
    match end {
        None => {
            state.saved = None;
        },
        Some(x) => {
            buf[x] = 0;
            state.saved = Some(x + 1);
        },
    }
    Some(t)
}

/// The smaller of two lengths.
fn min_len(a: usize, b: usize) -> (r: usize)
    ensures
        r == if a < b { a } else { b },
{
    if a < b { a } else { b }
}

/// What `strcmp` gives for strings of lengths `n1` and `n2`: -1 where just
/// one of them is empty, else what `memcmp` gives over the shorter length.
pub open spec fn string_compare(s1: Seq<u8>, s2: Seq<u8>, n1: int, n2: int) -> int {
    if (n1 == 0 && n2 != 0) || (n1 != 0 && n2 == 0) {
        -1
    } else {
        compare_bytes(s1, s2, (if n1 < n2 { n1 } else { n2 }) as usize)
    }
}

/// Compares two strings: -1 where just one of them is empty, else the
/// difference of the first bytes that differ within the shorter one, or 0.
pub fn strcmp(str1: &[u8], str2: &[u8]) -> (r: i32)
    requires
        terminated_from(str1@, 0),
        terminated_from(str2@, 0),
    ensures
        exists|n1: int, n2: int|
            #![trigger string_len_is(str1@, 0, n1), string_len_is(str2@, 0, n2)]
            string_len_is(str1@, 0, n1) && string_len_is(str2@, 0, n2) && r == string_compare(
                str1@,
                str2@,
                n1,
                n2,
            ),
{
    let len_1 = strlen(str1);
    let len_2 = strlen(str2);
    if len_1 == 0 && len_2 != 0 {
        return -1;
    }
    if len_1 != 0 && len_2 == 0 {
        return -1;
    }
    memcmp(str1, str2, min_len(len_1, len_2))
}

/// The bytes of `s` from `i` on begin with the `m` bytes of `sub`.
pub open spec fn occurs_at(s: Seq<u8>, sub: Seq<u8>, m: int, i: int) -> bool {
    0 <= i && i + m <= s.len() && s.subrange(i, i + m) == sub.subrange(0, m)
}

fn matches_at(s: &[u8], sub: &[u8], m: usize, i: usize) -> (r: bool)
    requires
        i + m <= s@.len(),
        m <= sub@.len(),
    ensures
        r == occurs_at(s@, sub@, m as int, i as int),
{
    let slen = s.len();
    let mut k: usize = 0;
    while k < m
        invariant
            k <= m,
            slen == s@.len(),
            i + m <= s@.len(),
            m <= sub@.len(),
            forall|j: int| 0 <= j < k ==> s@[i + j] == sub@[j],
        decreases m - k,
    {
        if s[i + k] != sub[k] {
            assert(s@.subrange(i as int, i + m)[k as int] != sub@.subrange(0, m as int)[k as int]);
            return false;
        }
        k = k + 1;
    }
    assert(s@.subrange(i as int, i + m) =~= sub@.subrange(0, m as int));
    true
}

/// The first place in the string `str` where the string `substr` occurs,
/// within the bytes before its 0; `Some(0)` where `substr` is empty.
pub fn strstr(str: &[u8], substr: &[u8]) -> (r: Option<usize>)
    requires
        terminated_from(str@, 0),
        terminated_from(substr@, 0),
    ensures
        exists|n: int, m: int|
            #![trigger string_len_is(str@, 0, n), string_len_is(substr@, 0, m)]
            string_len_is(str@, 0, n) && string_len_is(substr@, 0, m) && match r {
                Some(i) => i + m <= n && occurs_at(str@, substr@, m, i as int) && forall|j: int|
                    0 <= j < i ==> !occurs_at(str@, substr@, m, j),
                None => forall|j: int| 0 <= j && j + m <= n ==> !occurs_at(str@, substr@, m, j),
            },
{
    let n = strlen(str);
    let m = strlen(substr);
    if m == 0 {
        assert(occurs_at(str@, substr@, 0, 0)) by {
            assert(str@.subrange(0, 0) =~= substr@.subrange(0, 0));
        }
        return Some(0);
    }
    let mut i: usize = 0;
    while i <= n && n - i >= m
        invariant
            i <= n,
            m >= 1,
            string_len_is(str@, 0, n as int),
            string_len_is(substr@, 0, m as int),
            forall|j: int| 0 <= j < i ==> !occurs_at(str@, substr@, m as int, j),
        decreases n + 1 - i,
    {
        if matches_at(str, substr, m, i) {
            return Some(i);
        }
        i = i + 1;
    }
    None
}

/// Copies `n` bytes of `src` into `dest` from `at` on.
fn copy_at(dest: &mut [u8], at: usize, src: &[u8], n: usize)
    requires
        at + n <= old(dest)@.len(),
        n <= src@.len(),
    ensures
        final(dest)@ == old(dest)@.subrange(0, at as int) + src@.subrange(0, n as int) + old(
            dest,
        )@.subrange(at + n, old(dest)@.len() as int),
{
    let dlen = dest.len();
    let mut i: usize = 0;
    while i < n
        invariant
            i <= n,
            dlen == dest@.len(),
            at + n <= dest@.len(),
            n <= src@.len(),
            dest@.len() == old(dest)@.len(),
            dest@ == old(dest)@.subrange(0, at as int) + src@.subrange(0, i as int) + old(
                dest,
            )@.subrange(at + i, old(dest)@.len() as int),
        decreases n - i,
    {
        dest[at + i] = src[i];
        i = i + 1;
        assert(dest@ =~= old(dest)@.subrange(0, at as int) + src@.subrange(0, i as int) + old(
            dest,
        )@.subrange(at + i, old(dest)@.len() as int));
    }
}

/// What `strncpy` writes over the first `count` bytes: the string of `src`
/// with its 0, cut at `count`, or filled up with 0s to `count`.
pub open spec fn strncpy_bytes(src: Seq<u8>, n: int, count: int) -> Seq<u8> {
    if n + 1 >= count {
        src.subrange(0, count)
    } else {
        src.subrange(0, n + 1) + Seq::new((count - (n + 1)) as nat, |_i: int| 0u8)
    }
}

/// Copies the string `src` into `dest`, at most `count` bytes with its 0,
/// and fills the rest of the `count` bytes with 0s.
pub fn strncpy(dest: &mut [u8], src: &[u8], count: usize)
    requires
        terminated_from(src@, 0),
        count <= old(dest)@.len(),
    ensures
        exists|n: int|
            #![trigger string_len_is(src@, 0, n)]
            string_len_is(src@, 0, n) && final(dest)@ == strncpy_bytes(src@, n, count as int) + old(
                dest,
            )@.subrange(count as int, old(dest)@.len() as int),
{
    let n = strlen(src);
    let _ = src.len();
    let src_len = n + 1;
    if src_len >= count {
        memcpy(dest, src, count);
    } else {
        memcpy(dest, src, src_len);
        let ghost mid = dest@;
        let len = dest.len();
        let mut i: usize = src_len;
        while i < count
            invariant
                src_len <= i <= count,
                count <= len,
                len == dest@.len(),
                len == mid.len(),
                dest@ == mid.subrange(0, src_len as int) + Seq::new((i - src_len) as nat, |_i: int| 0u8)
                    + mid.subrange(i as int, len as int),
            decreases count - i,
        {
            dest[i] = 0;
            i = i + 1;
            assert(dest@ =~= mid.subrange(0, src_len as int) + Seq::new(
                (i - src_len) as nat,
                |_i: int| 0u8,
            ) + mid.subrange(i as int, len as int));
        }
        assert(dest@ =~= strncpy_bytes(src@, n as int, count as int) + old(dest)@.subrange(
            count as int,
            old(dest)@.len() as int,
        ));
    }
}

/// Copies the string `src`, with its 0, to the start of `dest`.
pub fn strcpy(dest: &mut [u8], src: &[u8])
    requires
        exists|n: int| #[trigger] string_len_is(src@, 0, n) && n < old(dest)@.len(),
    ensures
        exists|n: int|
            #![trigger string_len_is(src@, 0, n)]
            string_len_is(src@, 0, n) && final(dest)@ == src@.subrange(0, n + 1) + old(
                dest,
            )@.subrange(n + 1, old(dest)@.len() as int),
{
    let n = strlen(src);
    let _ = src.len();
    memcpy(dest, src, n + 1);
}

/// Appends the string `src`, with its 0, to the string in `dest`.
pub fn strcat(dest: &mut [u8], src: &[u8])
    requires
        exists|n: int, m: int|
            #![trigger string_len_is(old(dest)@, 0, n), string_len_is(src@, 0, m)]
            string_len_is(old(dest)@, 0, n) && string_len_is(src@, 0, m) && n + m < old(dest)@.len(),
    ensures
        exists|n: int, m: int|
            #![trigger string_len_is(old(dest)@, 0, n), string_len_is(src@, 0, m)]
            string_len_is(old(dest)@, 0, n) && string_len_is(src@, 0, m) && final(dest)@ == old(
                dest,
            )@.subrange(0, n) + src@.subrange(0, m + 1) + old(dest)@.subrange(
                n + m + 1,
                old(dest)@.len() as int,
            ),
{
    let n = strlen(dest);
    let m = strlen(src);
    let _ = src.len();
    copy_at(dest, n, src, m + 1);
}

/// Whether `ch` is a space, form feed, line feed, carriage return or tab:
/// 1 where it is, 0 where not.
pub fn isspace(ch: i32) -> (r: i32)
    ensures
        r == (if ch == 0x20 || ch == 0x0c || ch == 0x0a || ch == 0x0d || ch == 0x09 || ch == 0x0b {
            1int
        } else {
            0int
        }),
{
    match ch {
        0x20 | 0x0c | 0x0a | 0x0d | 0x09 | 0x0b => 1,
        _ => 0,
    }
}

/// Whether the byte `ch as u8` is one of the digits 0 to 9: 1 where it is,
/// 0 where not.
pub fn isdigit(ch: i32) -> (r: i32)
    ensures
        r == (if 0x30 <= (ch as u8) <= 0x39 { 1int } else { 0int }),
{
    let b = ch as u8;
    if 0x30 <= b && b <= 0x39 {
        1
    } else {
        0
    }
}

} // verus!
