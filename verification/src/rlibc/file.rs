//! Streams: the `FILE` of the C library, and how `fopen` reads its mode.
use crate::rlibc::sys::{O_APPEND, O_CREAT, O_RDONLY, O_RDWR, O_TRUNC, O_WRONLY};
use vstd::string::*;
use vstd::prelude::*;

verus! {

/// An open stream: the descriptor of the file it reads and writes.
#[derive(Debug, Clone, Copy, PartialEq, Eq, Structural)]
pub struct FILE {
    pub fileno: i32,
}

/// The `open` flags that an `fopen` mode asks for: its first character is
/// `r`, `w` or `a`, and a `+` after it asks for reading and writing.
pub open spec fn mode_flags(mode: Seq<char>) -> Option<usize> {
    let plus = mode.len() > 1 && mode[1] == '+';
    if mode.len() == 0 {
        None
    } else if mode[0] == 'r' {
        Some(if plus { O_RDWR } else { O_RDONLY })
    } else if mode[0] == 'w' {
        Some((if plus { O_RDWR } else { O_WRONLY }) | O_CREAT | O_TRUNC)
    } else if mode[0] == 'a' {
        Some((if plus { O_RDWR } else { O_WRONLY }) | O_APPEND | O_CREAT)
    } else {
        None
    }
}

/// The `open` flags of an `fopen` mode; `None` for a mode that is none of
/// `r`, `w`, `a`, `r+`, `w+`, `a+` (characters after these are ignored).
pub fn fopen_flags(mode: &str) -> (r: Option<usize>)
    ensures
        r == mode_flags(mode@),
{
    let n = mode.unicode_len();
    if n == 0 {
        return None;
    }
    let plus = n > 1 && mode.get_char(1) == '+';
    let access = if plus { O_RDWR } else { O_WRONLY };
    let c = mode.get_char(0);
    if c == 'r' {
        Some(if plus { O_RDWR } else { O_RDONLY })
    } else if c == 'w' {
        Some(access | O_CREAT | O_TRUNC)
    } else if c == 'a' {
        Some(access | O_APPEND | O_CREAT)
    } else {
        None
    }
}

} // verus!
