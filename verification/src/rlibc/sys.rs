//! The system call numbers shared by the C library and the kernel.
use vstd::prelude::*;

verus! {

pub const O_RDONLY: usize = 1;

pub const O_WRONLY: usize = 2;

pub const O_RDWR: usize = 3;

pub const O_APPEND: usize = 4;

pub const O_CREAT: usize = 8;

pub const O_TRUNC: usize = 16;

/// `lseek` from the cursor.
pub const SEEK_CUR: usize = 0;

/// `lseek` from the start of the file.
pub const SEEK_SET: usize = 1;

/// `lseek` from the end of the file.
pub const SEEK_END: usize = 2;

#[derive(Debug, Clone, Copy, PartialEq, Eq, Structural)]
pub enum SyscallNumber {
    Exit,
    Read,
    Write,
    Open,
    Close,
    LSeek,
    Malloc,
    Free,
    Realloc,
    Getcwd,
    Getenv,
    Fchdir,
    Dup,
    Dup2,
    Fork,
    Waitpid,
    Fexecve,
    Execve,
    Execvpe,
    /// One past the last number.
    MaxValue,
}

/// The call that a number stands for, in the order above.
pub open spec fn syscall_of(value: usize) -> Option<SyscallNumber> {
    if value == 0 { Some(SyscallNumber::Exit) }
    else if value == 1 { Some(SyscallNumber::Read) }
    else if value == 2 { Some(SyscallNumber::Write) }
    else if value == 3 { Some(SyscallNumber::Open) }
    else if value == 4 { Some(SyscallNumber::Close) }
    else if value == 5 { Some(SyscallNumber::LSeek) }
    else if value == 6 { Some(SyscallNumber::Malloc) }
    else if value == 7 { Some(SyscallNumber::Free) }
    else if value == 8 { Some(SyscallNumber::Realloc) }
    else if value == 9 { Some(SyscallNumber::Getcwd) }
    else if value == 10 { Some(SyscallNumber::Getenv) }
    else if value == 11 { Some(SyscallNumber::Fchdir) }
    else if value == 12 { Some(SyscallNumber::Dup) }
    else if value == 13 { Some(SyscallNumber::Dup2) }
    else if value == 14 { Some(SyscallNumber::Fork) }
    else if value == 15 { Some(SyscallNumber::Waitpid) }
    else if value == 16 { Some(SyscallNumber::Fexecve) }
    else if value == 17 { Some(SyscallNumber::Execve) }
    else if value == 18 { Some(SyscallNumber::Execvpe) }
    else { None }
}

impl SyscallNumber {
    /// The number of the call.
    pub fn number(&self) -> (r: usize)
        ensures
            r <= 19,
            r < 19 ==> syscall_of(r) == Some(*self),
            r == 19 <==> *self == SyscallNumber::MaxValue,
    {
        match self {
            SyscallNumber::Exit => 0,
            SyscallNumber::Read => 1,
            SyscallNumber::Write => 2,
            SyscallNumber::Open => 3,
            SyscallNumber::Close => 4,
            SyscallNumber::LSeek => 5,
            SyscallNumber::Malloc => 6,
            SyscallNumber::Free => 7,
            SyscallNumber::Realloc => 8,
            SyscallNumber::Getcwd => 9,
            SyscallNumber::Getenv => 10,
            SyscallNumber::Fchdir => 11,
            SyscallNumber::Dup => 12,
            SyscallNumber::Dup2 => 13,
            SyscallNumber::Fork => 14,
            SyscallNumber::Waitpid => 15,
            SyscallNumber::Fexecve => 16,
            SyscallNumber::Execve => 17,
            SyscallNumber::Execvpe => 18,
            SyscallNumber::MaxValue => 19,
        }
    }

    /// The call numbered `value`; numbers from `MaxValue`'s on stand for none.
    pub fn try_from_number(value: usize) -> (r: Result<Self, ()>)
        ensures
            match syscall_of(value) {
                Some(s) => r == Ok::<Self, ()>(s),
                None => r is Err,
            },
    {
        match value {
            0 => Ok(SyscallNumber::Exit),
            1 => Ok(SyscallNumber::Read),
            2 => Ok(SyscallNumber::Write),
            3 => Ok(SyscallNumber::Open),
            4 => Ok(SyscallNumber::Close),
            5 => Ok(SyscallNumber::LSeek),
            6 => Ok(SyscallNumber::Malloc),
            7 => Ok(SyscallNumber::Free),
            8 => Ok(SyscallNumber::Realloc),
            9 => Ok(SyscallNumber::Getcwd),
            10 => Ok(SyscallNumber::Getenv),
            11 => Ok(SyscallNumber::Fchdir),
            12 => Ok(SyscallNumber::Dup),
            13 => Ok(SyscallNumber::Dup2),
            14 => Ok(SyscallNumber::Fork),
            15 => Ok(SyscallNumber::Waitpid),
            16 => Ok(SyscallNumber::Fexecve),
            17 => Ok(SyscallNumber::Execve),
            18 => Ok(SyscallNumber::Execvpe),
            _ => Err(()),
        }
    }
}

/// A number names a call exactly when it is below `MaxValue`'s, and the
/// call it names has that number.
pub proof fn lemma_syscall_number_roundtrip(value: usize)
    ensures
        syscall_of(value) is Some <==> value < 19,
{
}

} // verus!
