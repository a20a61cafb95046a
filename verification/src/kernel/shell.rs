//! The kernel shell's line editing and its reading of a command line: key
//! packets go into a line of at most 2048 bytes, Enter hands the line over
//! without the white space around it, and the first word of a line names a
//! built-in command or else a program to run.
use crate::kernel::hio::{KeyboardKey, KeyboardPacket, KeyboardPacketType};
use crate::kernel::hio::standard_usa_qwerty::{key_char, parse_key};
use vstd::prelude::*;

verus! {

/// The room of the line being typed, in bytes.
pub const LINE_ROOM: usize = 2048;

/// The line being typed: `len` bytes of `buf` are in use.
pub struct ShellLine {
    pub buf: Vec<u8>,
    pub len: usize,
}

/// What a key packet asks of the shell.
#[derive(Debug, PartialEq, Eq)]
pub enum ShellInput {
    /// Nothing but the line's own change.
    Nothing,
    /// Escape was released: the shell ends.
    Exit,
    /// Enter was pressed: the line typed, without the white space around it.
    Line(Vec<u8>),
}

/// A [`ShellInput`] as a value of specifications.
pub enum ShellInputView {
    Nothing,
    Exit,
    Line(Seq<u8>),
}

impl ShellInput {
    pub open spec fn view(&self) -> ShellInputView {
        match self {
            ShellInput::Nothing => ShellInputView::Nothing,
            ShellInput::Exit => ShellInputView::Exit,
            ShellInput::Line(v) => ShellInputView::Line(v@),
        }
    }
}

/// Whether `b` is an ASCII white-space byte (tab, line feed, vertical tab,
/// form feed, carriage return or space).
pub open spec fn white_byte(b: u8) -> bool {
    (0x09 <= b && b <= 0x0d) || b == 0x20
}

/// `s` without its leading white space.
pub open spec fn trim_start(s: Seq<u8>) -> Seq<u8>
    decreases s.len(),
{
    if s.len() > 0 && white_byte(s[0]) {
        trim_start(s.drop_first())
    } else {
        s
    }
}

/// `s` without its trailing white space.
pub open spec fn trim_end(s: Seq<u8>) -> Seq<u8>
    decreases s.len(),
{
    if s.len() > 0 && white_byte(s.last()) {
        trim_end(s.drop_last())
    } else {
        s
    }
}

/// `s` without the white space at its start and its end.
pub open spec fn trim_bytes(s: Seq<u8>) -> Seq<u8> {
    trim_end(trim_start(s))
}

/// What the key packet `p` makes of the line `line` (as bytes in use) and
/// what it asks of the shell. Released keys do nothing but Escape, which
/// ends the shell. Backspace takes the last byte off. A key with a character
/// in the layout adds it, unless the line is full; Enter hands the line over,
/// trimmed, and empties it.
pub open spec fn shell_transition(line: Seq<u8>, p: KeyboardPacket) -> (Seq<u8>, ShellInputView) {
    if p.packet_type == KeyboardPacketType::KeyReleased {
        (line, if p.key == KeyboardKey::Escape { ShellInputView::Exit } else { ShellInputView::Nothing })
    } else {
        let line1 = if p.key == KeyboardKey::Backspace && line.len() > 0 { line.drop_last() } else { line };
        match key_char(p.key, p.modifiers) {
            Err(_) => (line1, ShellInputView::Nothing),
            Ok(c) => if c == '\n' {
                (Seq::empty(), ShellInputView::Line(trim_bytes(line1)))
            } else if p.key != KeyboardKey::Backspace && line1.len() < LINE_ROOM {
                (line1.push(c as u8), ShellInputView::Nothing)
            } else {
                (line1, ShellInputView::Nothing)
            },
        }
    }
}

impl ShellLine {
    pub open spec fn wf(&self) -> bool {
        &&& self.buf@.len() == LINE_ROOM
        &&& self.len <= LINE_ROOM
    }

    /// The bytes of the line in use.
    pub open spec fn line(&self) -> Seq<u8> {
        self.buf@.subrange(0, self.len as int)
    }

    /// An empty line.
    pub fn new() -> (r: Self)
        ensures
            r.wf(),
            r.line() == Seq::<u8>::empty(),
    {
        ShellLine { buf: vec![0x20u8; LINE_ROOM], len: 0 }
    }

    /// Takes key packet `p`: the line changes as [`shell_transition`] says,
    /// and Enter hands over the line, trimmed.
    pub fn step(&mut self, p: KeyboardPacket) -> (r: ShellInput)
        requires
            old(self).wf(),
        ensures
            final(self).wf(),
            final(self).line() == shell_transition(old(self).line(), p).0,
            r.view() == shell_transition(old(self).line(), p).1,
    {
        if p.packet_type == KeyboardPacketType::KeyReleased {
            if p.key == KeyboardKey::Escape {
                return ShellInput::Exit;
            }
            return ShellInput::Nothing;
        }
        let backspace = p.key == KeyboardKey::Backspace;
        if backspace && self.len > 0 {
            self.len = self.len - 1;
            assert(self.line() =~= old(self).line().drop_last());
        }
        let c = match parse_key(p.key, p.modifiers) {
            Ok(c) => c,
            Err(_) => return ShellInput::Nothing,
        };
        if c == '\n' {
            let t = trim_line(self.buf.as_slice(), self.len);
            self.len = 0;
            assert(self.line() =~= Seq::<u8>::empty());
            return ShellInput::Line(t);
        }
        if self.len < LINE_ROOM {
            let ghost before = self.line();
            self.buf.set(self.len, c as u8);
            if !backspace {
                self.len = self.len + 1;
                assert(self.line() =~= before.push(c as u8));
            } else {
                assert(self.line() =~= before);
            }
        }
        ShellInput::Nothing
    }
}

proof fn lemma_trim_start_skip(s: Seq<u8>, i: int)
    requires
        0 <= i <= s.len(),
        forall|k: int| 0 <= k < i ==> white_byte(#[trigger] s[k]),
    ensures
        trim_start(s) == trim_start(s.subrange(i, s.len() as int)),
    decreases i,
{
    if i > 0 {
        assert(white_byte(s[0]));
        let t = s.drop_first();
        assert forall|k: int| 0 <= k < i - 1 implies white_byte(#[trigger] t[k]) by {
            assert(t[k] == s[k + 1]);
        }
        lemma_trim_start_skip(t, i - 1);
        assert(t.subrange(i - 1, t.len() as int) =~= s.subrange(i, s.len() as int));
    } else {
        assert(s.subrange(0, s.len() as int) =~= s);
    }
}

proof fn lemma_trim_end_skip(s: Seq<u8>, j: int)
    requires
        0 <= j <= s.len(),
        forall|k: int| j <= k < s.len() ==> white_byte(#[trigger] s[k]),
    ensures
        trim_end(s) == trim_end(s.subrange(0, j)),
    decreases s.len() - j,
{
    if j < s.len() {
        assert(white_byte(s.last()));
        let t = s.drop_last();
        assert forall|k: int| j <= k < t.len() implies white_byte(#[trigger] t[k]) by {
            assert(t[k] == s[k]);
        }
        lemma_trim_end_skip(t, j);
        assert(t.subrange(0, j) =~= s.subrange(0, j));
    } else {
        assert(s.subrange(0, j) =~= s);
    }
}

fn is_white_byte(b: u8) -> (r: bool)
    ensures
        r == white_byte(b),
{
    (0x09 <= b && b <= 0x0d) || b == 0x20
}

/// The first `len` bytes of `buf`, without the white space around them.
fn trim_line(buf: &[u8], len: usize) -> (r: Vec<u8>)
    requires
        len <= buf@.len(),
    ensures
        r@ == trim_bytes(buf@.subrange(0, len as int)),
{
    let ghost s = buf@.subrange(0, len as int);
    let mut i: usize = 0;
    while i < len && is_white_byte(buf[i])
        invariant
            i <= len,
            len <= buf@.len(),
            s == buf@.subrange(0, len as int),
            forall|k: int| 0 <= k < i ==> white_byte(#[trigger] s[k]),
        decreases len - i,
    {
        i = i + 1;
    }
    proof {
        lemma_trim_start_skip(s, i as int);
        let u = s.subrange(i as int, len as int);
        if i < len {
            assert(u[0] == s[i as int]);
            assert(!white_byte(u[0]));
        }
        assert(trim_start(u) == u);
    }
    let ghost u = s.subrange(i as int, len as int);
    let mut j: usize = len;
    while j > i && is_white_byte(buf[j - 1])
        invariant
            i <= j <= len,
            len <= buf@.len(),
            s == buf@.subrange(0, len as int),
            u == s.subrange(i as int, len as int),
            forall|k: int| j - i <= k < u.len() ==> white_byte(#[trigger] u[k]),
        decreases j,
    {
        assert(u[j - 1 - i] == buf@[j - 1]);
        j = j - 1;
    }
    proof {
        lemma_trim_end_skip(u, j - i);
        let v = u.subrange(0, j - i);
        if j > i {
            assert(v.last() == buf@[j - 1]);
        }
        assert(trim_end(v) == v);
    }
    let mut out: Vec<u8> = Vec::new();
    let mut k: usize = i;
    while k < j
        invariant
            i <= k <= j,
            j <= len,
            len <= buf@.len(),
            out@ == buf@.subrange(i as int, k as int),
        decreases j - k,
    {
        out.push(buf[k]);
        k = k + 1;
        assert(out@ =~= buf@.subrange(i as int, k as int));
    }
    assert(out@ =~= u.subrange(0, j - i));
    out
}

/// A command line's meaning, by its first word.
#[derive(Debug, PartialEq, Eq, Clone, Copy)]
pub enum ShellCommand {
    Empty,
    Puts,
    WhoAreYou,
    Help,
    Clear,
    Free,
    MountExt2,
    Umount,
    Ls,
    Hexdump,
    Touch,
    Cd,
    MkRootfsDir,
    RmRootfsDir,
    Rm,
    Elp,
    Exit,
    /// Anything else: a program to load, by its path.
    Program,
}

/// Whether `s` begins with the bytes `w`.
pub open spec fn begins_with(s: Seq<u8>, w: Seq<u8>) -> bool {
    w.len() <= s.len() && s.subrange(0, w.len() as int) == w
}

fn begins_with_exec(s: &[u8], w: &[u8]) -> (r: bool)
    ensures
        r == begins_with(s@, w@),
{
    if w.len() > s.len() {
        return false;
    }
    let mut k: usize = 0;
    while k < w.len()
        invariant
            k <= w@.len() <= s@.len(),
            forall|m: int| 0 <= m < k ==> s@[m] == w@[m],
        decreases w@.len() - k,
    {
        if s[k] != w[k] {
            assert(s@.subrange(0, w@.len() as int)[k as int] != w@[k as int]);
            return false;
        }
        k = k + 1;
    }
    assert(s@.subrange(0, w@.len() as int) =~= w@);
    true
}

/// The words of the built-in commands, in the order they are tried; a line
/// beginning with a word is that command (so `rmrootfsdir` is tried before
/// `rm`). The bytes spell `puts`, `whoareyou`, `help`, `clear`, `free`,
/// `mount.ext2`, `umount`, `ls`, `hexdump`, `touch`, `cd`, `mkrootfsdir`,
/// `rmrootfsdir`, `rm`, `elp` and `exit`.
pub open spec fn command_words() -> Seq<(Seq<u8>, ShellCommand)> {
    seq![
        (seq![0x70u8, 0x75, 0x74, 0x73], ShellCommand::Puts),
        (seq![0x77u8, 0x68, 0x6f, 0x61, 0x72, 0x65, 0x79, 0x6f, 0x75], ShellCommand::WhoAreYou),
        (seq![0x68u8, 0x65, 0x6c, 0x70], ShellCommand::Help),
        (seq![0x63u8, 0x6c, 0x65, 0x61, 0x72], ShellCommand::Clear),
        (seq![0x66u8, 0x72, 0x65, 0x65], ShellCommand::Free),
        (seq![0x6du8, 0x6f, 0x75, 0x6e, 0x74, 0x2e, 0x65, 0x78, 0x74, 0x32], ShellCommand::MountExt2),
        (seq![0x75u8, 0x6d, 0x6f, 0x75, 0x6e, 0x74], ShellCommand::Umount),
        (seq![0x6cu8, 0x73], ShellCommand::Ls),
        (seq![0x68u8, 0x65, 0x78, 0x64, 0x75, 0x6d, 0x70], ShellCommand::Hexdump),
        (seq![0x74u8, 0x6f, 0x75, 0x63, 0x68], ShellCommand::Touch),
        (seq![0x63u8, 0x64], ShellCommand::Cd),
        (seq![0x6du8, 0x6b, 0x72, 0x6f, 0x6f, 0x74, 0x66, 0x73, 0x64, 0x69, 0x72], ShellCommand::MkRootfsDir),
        (seq![0x72u8, 0x6d, 0x72, 0x6f, 0x6f, 0x74, 0x66, 0x73, 0x64, 0x69, 0x72], ShellCommand::RmRootfsDir),
        (seq![0x72u8, 0x6d], ShellCommand::Rm),
        (seq![0x65u8, 0x6c, 0x70], ShellCommand::Elp),
        (seq![0x65u8, 0x78, 0x69, 0x74], ShellCommand::Exit),
    ]
}

/// The command of the first word in `words` from `k` on that `line` begins
/// with; a program where none does.
pub open spec fn first_command(line: Seq<u8>, words: Seq<(Seq<u8>, ShellCommand)>, k: int) -> ShellCommand
    decreases words.len() - k,
{
    if k < 0 || k >= words.len() {
        ShellCommand::Program
    } else if begins_with(line, words[k].0) {
        words[k].1
    } else {
        first_command(line, words, k + 1)
    }
}

/// What the trimmed command line `line` asks for.
pub open spec fn command_of(line: Seq<u8>) -> ShellCommand {
    if line.len() == 0 {
        ShellCommand::Empty
    } else {
        first_command(line, command_words(), 0)
    }
}

fn command_words_exec() -> (r: Vec<(Vec<u8>, ShellCommand)>)
    ensures
        r@.len() == command_words().len(),
        forall|k: int| 0 <= k < r@.len() ==> (#[trigger] r@[k]).0@ == command_words()[k].0 && r@[k].1 == command_words()[k].1,
{
    let r = vec![
        (vec![0x70u8, 0x75, 0x74, 0x73], ShellCommand::Puts),
        (vec![0x77u8, 0x68, 0x6f, 0x61, 0x72, 0x65, 0x79, 0x6f, 0x75], ShellCommand::WhoAreYou),
        (vec![0x68u8, 0x65, 0x6c, 0x70], ShellCommand::Help),
        (vec![0x63u8, 0x6c, 0x65, 0x61, 0x72], ShellCommand::Clear),
        (vec![0x66u8, 0x72, 0x65, 0x65], ShellCommand::Free),
        (vec![0x6du8, 0x6f, 0x75, 0x6e, 0x74, 0x2e, 0x65, 0x78, 0x74, 0x32], ShellCommand::MountExt2),
        (vec![0x75u8, 0x6d, 0x6f, 0x75, 0x6e, 0x74], ShellCommand::Umount),
        (vec![0x6cu8, 0x73], ShellCommand::Ls),
        (vec![0x68u8, 0x65, 0x78, 0x64, 0x75, 0x6d, 0x70], ShellCommand::Hexdump),
        (vec![0x74u8, 0x6f, 0x75, 0x63, 0x68], ShellCommand::Touch),
        (vec![0x63u8, 0x64], ShellCommand::Cd),
        (vec![0x6du8, 0x6b, 0x72, 0x6f, 0x6f, 0x74, 0x66, 0x73, 0x64, 0x69, 0x72], ShellCommand::MkRootfsDir),
        (vec![0x72u8, 0x6d, 0x72, 0x6f, 0x6f, 0x74, 0x66, 0x73, 0x64, 0x69, 0x72], ShellCommand::RmRootfsDir),
        (vec![0x72u8, 0x6d], ShellCommand::Rm),
        (vec![0x65u8, 0x6c, 0x70], ShellCommand::Elp),
        (vec![0x65u8, 0x78, 0x69, 0x74], ShellCommand::Exit),
    ];
    assert(r@.len() == command_words().len());
    assert forall|k: int| 0 <= k < r@.len() implies (#[trigger] r@[k]).0@ == command_words()[k].0 && r@[k].1
        == command_words()[k].1 by {
        assert(r@[k].0@ =~= command_words()[k].0);
    }
    r
}

/// What the trimmed command line `line` asks for: nothing for an empty
/// line, else the first built-in command whose word the line begins with,
/// else a program to load.
pub fn shell_command(line: &[u8]) -> (r: ShellCommand)
    ensures
        r == command_of(line@),
{
    if line.len() == 0 {
        return ShellCommand::Empty;
    }
    let words = command_words_exec();
    let mut k: usize = 0;
    while k < words.len()
        invariant
            k <= words@.len(),
            words@.len() == command_words().len(),
            forall|m: int| 0 <= m < words@.len() ==> (#[trigger] words@[m]).0@ == command_words()[m].0 && words@[m].1
                == command_words()[m].1,
            first_command(line@, command_words(), 0) == first_command(line@, command_words(), k as int),
        decreases words@.len() - k,
    {
        if begins_with_exec(line, words[k].0.as_slice()) {
            return words[k].1;
        }
        k = k + 1;
    }
    ShellCommand::Program
}

/// The word that names a built-in command, as the shell's users type it
/// (`puts`, `whoareyou`, `help`, `clear`, `free`, `mount.ext2`, `umount`,
/// `ls`, `hexdump`, `touch`, `cd`, `mkrootfsdir`, `rmrootfsdir`, `rm`, `elp`,
/// `exit`); empty for the others.
pub open spec fn command_word(c: ShellCommand) -> Seq<u8> {
    match c {
        ShellCommand::Puts => seq![0x70u8, 0x75, 0x74, 0x73],
        ShellCommand::WhoAreYou => seq![0x77u8, 0x68, 0x6f, 0x61, 0x72, 0x65, 0x79, 0x6f, 0x75],
        ShellCommand::Help => seq![0x68u8, 0x65, 0x6c, 0x70],
        ShellCommand::Clear => seq![0x63u8, 0x6c, 0x65, 0x61, 0x72],
        ShellCommand::Free => seq![0x66u8, 0x72, 0x65, 0x65],
        ShellCommand::MountExt2 => seq![0x6du8, 0x6f, 0x75, 0x6e, 0x74, 0x2e, 0x65, 0x78, 0x74, 0x32],
        ShellCommand::Umount => seq![0x75u8, 0x6d, 0x6f, 0x75, 0x6e, 0x74],
        ShellCommand::Ls => seq![0x6cu8, 0x73],
        ShellCommand::Hexdump => seq![0x68u8, 0x65, 0x78, 0x64, 0x75, 0x6d, 0x70],
        ShellCommand::Touch => seq![0x74u8, 0x6f, 0x75, 0x63, 0x68],
        ShellCommand::Cd => seq![0x63u8, 0x64],
        ShellCommand::MkRootfsDir => seq![0x6du8, 0x6b, 0x72, 0x6f, 0x6f, 0x74, 0x66, 0x73, 0x64, 0x69, 0x72],
        ShellCommand::RmRootfsDir => seq![0x72u8, 0x6d, 0x72, 0x6f, 0x6f, 0x74, 0x66, 0x73, 0x64, 0x69, 0x72],
        ShellCommand::Rm => seq![0x72u8, 0x6d],
        ShellCommand::Elp => seq![0x65u8, 0x6c, 0x70],
        ShellCommand::Exit => seq![0x65u8, 0x78, 0x69, 0x74],
        _ => Seq::empty(),
    }
}

/// A line that is a built-in command's word, alone or followed by a space
/// and arguments, is that command (`cd /mnt` changes directory, `ls /`
/// lists); so each built-in word names its own command.
pub proof fn lemma_command_word_selects(c: ShellCommand, rest: Seq<u8>)
    requires
        c != ShellCommand::Empty,
        c != ShellCommand::Program,
    ensures
        command_of(command_word(c)) == c,
        command_of(command_word(c) + seq![0x20u8] + rest) == c,
{
    reveal_with_fuel(first_command, 17);
    let ws = command_words();
    let w = command_word(c);
    let l1 = w;
    let l2 = w + seq![0x20u8] + rest;
    assert(l1.subrange(0, w.len() as int) =~= w);
    assert(l2.subrange(0, w.len() as int) =~= w);
    assert(l2[w.len() as int] == 0x20u8);
    assert forall|i: int| 0 <= i < w.len() implies #[trigger] l2[i] == w[i] by {
        assert(l2.subrange(0, w.len() as int)[i] == l2[i]);
    }
    match c {
        ShellCommand::Puts => {

        },
        ShellCommand::WhoAreYou => {
            lemma_differs_at(l1, ws[0].0, 0);
            lemma_differs_at(l2, ws[0].0, 0);
        },
        ShellCommand::Help => {
            lemma_differs_at(l1, ws[0].0, 0);
            lemma_differs_at(l2, ws[0].0, 0);
            lemma_differs_at(l1, ws[1].0, 0);
            lemma_differs_at(l2, ws[1].0, 0);
        },
        ShellCommand::Clear => {
            lemma_differs_at(l1, ws[0].0, 0);
            lemma_differs_at(l2, ws[0].0, 0);
            lemma_differs_at(l1, ws[1].0, 0);
            lemma_differs_at(l2, ws[1].0, 0);
            lemma_differs_at(l1, ws[2].0, 0);
            lemma_differs_at(l2, ws[2].0, 0);
        },
        ShellCommand::Free => {
            lemma_differs_at(l1, ws[0].0, 0);
            lemma_differs_at(l2, ws[0].0, 0);
            lemma_differs_at(l1, ws[1].0, 0);
            lemma_differs_at(l2, ws[1].0, 0);
            lemma_differs_at(l1, ws[2].0, 0);
            lemma_differs_at(l2, ws[2].0, 0);
            lemma_differs_at(l1, ws[3].0, 0);
            lemma_differs_at(l2, ws[3].0, 0);
        },
        ShellCommand::MountExt2 => {
            lemma_differs_at(l1, ws[0].0, 0);
            lemma_differs_at(l2, ws[0].0, 0);
            lemma_differs_at(l1, ws[1].0, 0);
            lemma_differs_at(l2, ws[1].0, 0);
            lemma_differs_at(l1, ws[2].0, 0);
            lemma_differs_at(l2, ws[2].0, 0);
            lemma_differs_at(l1, ws[3].0, 0);
            lemma_differs_at(l2, ws[3].0, 0);
            lemma_differs_at(l1, ws[4].0, 0);
            lemma_differs_at(l2, ws[4].0, 0);
        },
        ShellCommand::Umount => {
            lemma_differs_at(l1, ws[0].0, 0);
            lemma_differs_at(l2, ws[0].0, 0);
            lemma_differs_at(l1, ws[1].0, 0);
            lemma_differs_at(l2, ws[1].0, 0);
            lemma_differs_at(l1, ws[2].0, 0);
            lemma_differs_at(l2, ws[2].0, 0);
            lemma_differs_at(l1, ws[3].0, 0);
            lemma_differs_at(l2, ws[3].0, 0);
            lemma_differs_at(l1, ws[4].0, 0);
            lemma_differs_at(l2, ws[4].0, 0);
            lemma_differs_at(l1, ws[5].0, 0);
            lemma_differs_at(l2, ws[5].0, 0);
        },
        ShellCommand::Ls => {
            lemma_differs_at(l1, ws[0].0, 0);
            lemma_differs_at(l2, ws[0].0, 0);
            lemma_differs_at(l1, ws[1].0, 0);
            lemma_differs_at(l2, ws[1].0, 0);
            lemma_differs_at(l1, ws[2].0, 0);
            lemma_differs_at(l2, ws[2].0, 0);
            lemma_differs_at(l1, ws[3].0, 0);
            lemma_differs_at(l2, ws[3].0, 0);
            lemma_differs_at(l1, ws[4].0, 0);
            lemma_differs_at(l2, ws[4].0, 0);
            lemma_differs_at(l1, ws[5].0, 0);
            lemma_differs_at(l2, ws[5].0, 0);
            lemma_differs_at(l1, ws[6].0, 0);
            lemma_differs_at(l2, ws[6].0, 0);
        },
        ShellCommand::Hexdump => {
            lemma_differs_at(l1, ws[0].0, 0);
            lemma_differs_at(l2, ws[0].0, 0);
            lemma_differs_at(l1, ws[1].0, 0);
            lemma_differs_at(l2, ws[1].0, 0);
            lemma_differs_at(l1, ws[2].0, 2);
            lemma_differs_at(l2, ws[2].0, 2);
            lemma_differs_at(l1, ws[3].0, 0);
            lemma_differs_at(l2, ws[3].0, 0);
            lemma_differs_at(l1, ws[4].0, 0);
            lemma_differs_at(l2, ws[4].0, 0);
            lemma_differs_at(l1, ws[5].0, 0);
            lemma_differs_at(l2, ws[5].0, 0);
            lemma_differs_at(l1, ws[6].0, 0);
            lemma_differs_at(l2, ws[6].0, 0);
            lemma_differs_at(l1, ws[7].0, 0);
            lemma_differs_at(l2, ws[7].0, 0);
        },
        ShellCommand::Touch => {
            lemma_differs_at(l1, ws[0].0, 0);
            lemma_differs_at(l2, ws[0].0, 0);
            lemma_differs_at(l1, ws[1].0, 0);
            lemma_differs_at(l2, ws[1].0, 0);
            lemma_differs_at(l1, ws[2].0, 0);
            lemma_differs_at(l2, ws[2].0, 0);
            lemma_differs_at(l1, ws[3].0, 0);
            lemma_differs_at(l2, ws[3].0, 0);
            lemma_differs_at(l1, ws[4].0, 0);
            lemma_differs_at(l2, ws[4].0, 0);
            lemma_differs_at(l1, ws[5].0, 0);
            lemma_differs_at(l2, ws[5].0, 0);
            lemma_differs_at(l1, ws[6].0, 0);
            lemma_differs_at(l2, ws[6].0, 0);
            lemma_differs_at(l1, ws[7].0, 0);
            lemma_differs_at(l2, ws[7].0, 0);
            lemma_differs_at(l1, ws[8].0, 0);
            lemma_differs_at(l2, ws[8].0, 0);
        },
        ShellCommand::Cd => {
            lemma_differs_at(l1, ws[0].0, 0);
            lemma_differs_at(l2, ws[0].0, 0);
            lemma_differs_at(l1, ws[1].0, 0);
            lemma_differs_at(l2, ws[1].0, 0);
            lemma_differs_at(l1, ws[2].0, 0);
            lemma_differs_at(l2, ws[2].0, 0);
            lemma_differs_at(l1, ws[3].0, 1);
            lemma_differs_at(l2, ws[3].0, 1);
            lemma_differs_at(l1, ws[4].0, 0);
            lemma_differs_at(l2, ws[4].0, 0);
            lemma_differs_at(l1, ws[5].0, 0);
            lemma_differs_at(l2, ws[5].0, 0);
            lemma_differs_at(l1, ws[6].0, 0);
            lemma_differs_at(l2, ws[6].0, 0);
            lemma_differs_at(l1, ws[7].0, 0);
            lemma_differs_at(l2, ws[7].0, 0);
            lemma_differs_at(l1, ws[8].0, 0);
            lemma_differs_at(l2, ws[8].0, 0);
            lemma_differs_at(l1, ws[9].0, 0);
            lemma_differs_at(l2, ws[9].0, 0);
        },
        ShellCommand::MkRootfsDir => {
            lemma_differs_at(l1, ws[0].0, 0);
            lemma_differs_at(l2, ws[0].0, 0);
            lemma_differs_at(l1, ws[1].0, 0);
            lemma_differs_at(l2, ws[1].0, 0);
            lemma_differs_at(l1, ws[2].0, 0);
            lemma_differs_at(l2, ws[2].0, 0);
            lemma_differs_at(l1, ws[3].0, 0);
            lemma_differs_at(l2, ws[3].0, 0);
            lemma_differs_at(l1, ws[4].0, 0);
            lemma_differs_at(l2, ws[4].0, 0);
            lemma_differs_at(l1, ws[5].0, 1);
            lemma_differs_at(l2, ws[5].0, 1);
            lemma_differs_at(l1, ws[6].0, 0);
            lemma_differs_at(l2, ws[6].0, 0);
            lemma_differs_at(l1, ws[7].0, 0);
            lemma_differs_at(l2, ws[7].0, 0);
            lemma_differs_at(l1, ws[8].0, 0);
            lemma_differs_at(l2, ws[8].0, 0);
            lemma_differs_at(l1, ws[9].0, 0);
            lemma_differs_at(l2, ws[9].0, 0);
            lemma_differs_at(l1, ws[10].0, 0);
            lemma_differs_at(l2, ws[10].0, 0);
        },
        ShellCommand::RmRootfsDir => {
            lemma_differs_at(l1, ws[0].0, 0);
            lemma_differs_at(l2, ws[0].0, 0);
            lemma_differs_at(l1, ws[1].0, 0);
            lemma_differs_at(l2, ws[1].0, 0);
            lemma_differs_at(l1, ws[2].0, 0);
            lemma_differs_at(l2, ws[2].0, 0);
            lemma_differs_at(l1, ws[3].0, 0);
            lemma_differs_at(l2, ws[3].0, 0);
            lemma_differs_at(l1, ws[4].0, 0);
            lemma_differs_at(l2, ws[4].0, 0);
            lemma_differs_at(l1, ws[5].0, 0);
            lemma_differs_at(l2, ws[5].0, 0);
            lemma_differs_at(l1, ws[6].0, 0);
            lemma_differs_at(l2, ws[6].0, 0);
            lemma_differs_at(l1, ws[7].0, 0);
            lemma_differs_at(l2, ws[7].0, 0);
            lemma_differs_at(l1, ws[8].0, 0);
            lemma_differs_at(l2, ws[8].0, 0);
            lemma_differs_at(l1, ws[9].0, 0);
            lemma_differs_at(l2, ws[9].0, 0);
            lemma_differs_at(l1, ws[10].0, 0);
            lemma_differs_at(l2, ws[10].0, 0);
            lemma_differs_at(l1, ws[11].0, 0);
            lemma_differs_at(l2, ws[11].0, 0);
        },
        ShellCommand::Rm => {
            lemma_differs_at(l1, ws[0].0, 0);
            lemma_differs_at(l2, ws[0].0, 0);
            lemma_differs_at(l1, ws[1].0, 0);
            lemma_differs_at(l2, ws[1].0, 0);
            lemma_differs_at(l1, ws[2].0, 0);
            lemma_differs_at(l2, ws[2].0, 0);
            lemma_differs_at(l1, ws[3].0, 0);
            lemma_differs_at(l2, ws[3].0, 0);
            lemma_differs_at(l1, ws[4].0, 0);
            lemma_differs_at(l2, ws[4].0, 0);
            lemma_differs_at(l1, ws[5].0, 0);
            lemma_differs_at(l2, ws[5].0, 0);
            lemma_differs_at(l1, ws[6].0, 0);
            lemma_differs_at(l2, ws[6].0, 0);
            lemma_differs_at(l1, ws[7].0, 0);
            lemma_differs_at(l2, ws[7].0, 0);
            lemma_differs_at(l1, ws[8].0, 0);
            lemma_differs_at(l2, ws[8].0, 0);
            lemma_differs_at(l1, ws[9].0, 0);
            lemma_differs_at(l2, ws[9].0, 0);
            lemma_differs_at(l1, ws[10].0, 0);
            lemma_differs_at(l2, ws[10].0, 0);
            lemma_differs_at(l1, ws[11].0, 0);
            lemma_differs_at(l2, ws[11].0, 0);
            lemma_differs_at(l1, ws[12].0, 2);
            lemma_differs_at(l2, ws[12].0, 2);
        },
        ShellCommand::Elp => {
            lemma_differs_at(l1, ws[0].0, 0);
            lemma_differs_at(l2, ws[0].0, 0);
            lemma_differs_at(l1, ws[1].0, 0);
            lemma_differs_at(l2, ws[1].0, 0);
            lemma_differs_at(l1, ws[2].0, 0);
            lemma_differs_at(l2, ws[2].0, 0);
            lemma_differs_at(l1, ws[3].0, 0);
            lemma_differs_at(l2, ws[3].0, 0);
            lemma_differs_at(l1, ws[4].0, 0);
            lemma_differs_at(l2, ws[4].0, 0);
            lemma_differs_at(l1, ws[5].0, 0);
            lemma_differs_at(l2, ws[5].0, 0);
            lemma_differs_at(l1, ws[6].0, 0);
            lemma_differs_at(l2, ws[6].0, 0);
            lemma_differs_at(l1, ws[7].0, 0);
            lemma_differs_at(l2, ws[7].0, 0);
            lemma_differs_at(l1, ws[8].0, 0);
            lemma_differs_at(l2, ws[8].0, 0);
            lemma_differs_at(l1, ws[9].0, 0);
            lemma_differs_at(l2, ws[9].0, 0);
            lemma_differs_at(l1, ws[10].0, 0);
            lemma_differs_at(l2, ws[10].0, 0);
            lemma_differs_at(l1, ws[11].0, 0);
            lemma_differs_at(l2, ws[11].0, 0);
            lemma_differs_at(l1, ws[12].0, 0);
            lemma_differs_at(l2, ws[12].0, 0);
            lemma_differs_at(l1, ws[13].0, 0);
            lemma_differs_at(l2, ws[13].0, 0);
        },
        ShellCommand::Exit => {
            lemma_differs_at(l1, ws[0].0, 0);
            lemma_differs_at(l2, ws[0].0, 0);
            lemma_differs_at(l1, ws[1].0, 0);
            lemma_differs_at(l2, ws[1].0, 0);
            lemma_differs_at(l1, ws[2].0, 0);
            lemma_differs_at(l2, ws[2].0, 0);
            lemma_differs_at(l1, ws[3].0, 0);
            lemma_differs_at(l2, ws[3].0, 0);
            lemma_differs_at(l1, ws[4].0, 0);
            lemma_differs_at(l2, ws[4].0, 0);
            lemma_differs_at(l1, ws[5].0, 0);
            lemma_differs_at(l2, ws[5].0, 0);
            lemma_differs_at(l1, ws[6].0, 0);
            lemma_differs_at(l2, ws[6].0, 0);
            lemma_differs_at(l1, ws[7].0, 0);
            lemma_differs_at(l2, ws[7].0, 0);
            lemma_differs_at(l1, ws[8].0, 0);
            lemma_differs_at(l2, ws[8].0, 0);
            lemma_differs_at(l1, ws[9].0, 0);
            lemma_differs_at(l2, ws[9].0, 0);
            lemma_differs_at(l1, ws[10].0, 0);
            lemma_differs_at(l2, ws[10].0, 0);
            lemma_differs_at(l1, ws[11].0, 0);
            lemma_differs_at(l2, ws[11].0, 0);
            lemma_differs_at(l1, ws[12].0, 0);
            lemma_differs_at(l2, ws[12].0, 0);
            lemma_differs_at(l1, ws[13].0, 0);
            lemma_differs_at(l2, ws[13].0, 0);
            lemma_differs_at(l1, ws[14].0, 1);
            lemma_differs_at(l2, ws[14].0, 1);
        },
        _ => {},
    }
}

/// A line that does not begin with `u` where it differs from `u` at `i`.
proof fn lemma_differs_at(l: Seq<u8>, u: Seq<u8>, i: int)
    requires
        0 <= i < u.len(),
        i < l.len() ==> l[i] != u[i],
    ensures
        !begins_with(l, u),
{
    if begins_with(l, u) {
        assert(l.subrange(0, u.len() as int)[i] == l[i]);
    }
}

/// Trimming the start takes off exactly the white space before the first
/// byte that is not white space.
pub proof fn lemma_trim_start_shape(s: Seq<u8>)
    ensures
        trim_start(s).len() <= s.len(),
        trim_start(s) == s.subrange(s.len() - trim_start(s).len(), s.len() as int),
        forall|i: int| 0 <= i < s.len() - trim_start(s).len() ==> white_byte(#[trigger] s[i]),
        trim_start(s).len() > 0 ==> !white_byte(trim_start(s)[0]),
    decreases s.len(),
{
    if s.len() > 0 && white_byte(s[0]) {
        lemma_trim_start_shape(s.drop_first());
        let t = trim_start(s.drop_first());
        assert(s.drop_first().subrange(s.len() - 1 - t.len(), s.len() - 1) =~= s.subrange(
            s.len() - t.len(),
            s.len() as int,
        ));
        assert forall|i: int| 0 <= i < s.len() - t.len() implies white_byte(#[trigger] s[i]) by {
            if i > 0 {
                assert(s[i] == s.drop_first()[i - 1]);
            }
        }
    } else {
        assert(s.subrange(0, s.len() as int) =~= s);
    }
}

/// Trimming the end takes off exactly the white space after the last byte
/// that is not white space.
pub proof fn lemma_trim_end_shape(s: Seq<u8>)
    ensures
        trim_end(s).len() <= s.len(),
        trim_end(s) == s.subrange(0, trim_end(s).len() as int),
        forall|i: int| trim_end(s).len() <= i < s.len() ==> white_byte(#[trigger] s[i]),
        trim_end(s).len() > 0 ==> !white_byte(trim_end(s).last()),
    decreases s.len(),
{
    if s.len() > 0 && white_byte(s.last()) {
        lemma_trim_end_shape(s.drop_last());
        let t = trim_end(s.drop_last());
        assert(s.drop_last().subrange(0, t.len() as int) =~= s.subrange(0, t.len() as int));
        assert forall|i: int| t.len() <= i < s.len() implies white_byte(#[trigger] s[i]) by {
            if i < s.len() - 1 {
                assert(s[i] == s.drop_last()[i]);
            }
        }
    } else {
        assert(s.subrange(0, s.len() as int) =~= s);
    }
}

/// The line handed over is the typed line without the white space around
/// it: a piece of the line, with only white space before and after it, that
/// neither begins nor ends with white space.
pub proof fn lemma_trim_bytes_shape(s: Seq<u8>)
    ensures
        exists|k: int|
            0 <= k && k + trim_bytes(s).len() <= s.len() && #[trigger] s.subrange(k, k + trim_bytes(s).len())
                == trim_bytes(s) && (forall|i: int| 0 <= i < k ==> white_byte(#[trigger] s[i])) && (forall|i: int|
                k + trim_bytes(s).len() <= i < s.len() ==> white_byte(#[trigger] s[i])),
        trim_bytes(s).len() > 0 ==> !white_byte(trim_bytes(s)[0]) && !white_byte(trim_bytes(s).last()),
{
    lemma_trim_start_shape(s);
    let a = trim_start(s);
    lemma_trim_end_shape(a);
    let t = trim_end(a);
    let k = s.len() - a.len();
    assert(s.subrange(k, k + t.len()) =~= t);
    assert forall|i: int| k + t.len() <= i < s.len() implies white_byte(#[trigger] s[i]) by {
        assert(s[i] == a[i - k]);
    }
    if t.len() > 0 {
        assert(t[0] == a[0]);
    }
    assert(trim_bytes(s) == t);
    assert(forall|i: int| 0 <= i < k ==> white_byte(#[trigger] s[i]));
    assert(s.subrange(k, k + trim_bytes(s).len()) == trim_bytes(s));
}

/// Typing a character and then backspace leaves the line as it was (where
/// the line had room for the character).
pub proof fn lemma_type_then_backspace(line: Seq<u8>, p: KeyboardPacket, bs: KeyboardPacket)
    requires
        line.len() < LINE_ROOM,
        p.packet_type == KeyboardPacketType::KeyPressed,
        p.key != KeyboardKey::Backspace,
        key_char(p.key, p.modifiers) matches Ok(c) && c != '\n',
        bs.packet_type == KeyboardPacketType::KeyPressed,
        bs.key == KeyboardKey::Backspace,
    ensures
        shell_transition(line, p).0.len() == line.len() + 1,
        shell_transition(shell_transition(line, p).0, bs).0 == line,
        shell_transition(shell_transition(line, p).0, bs).1 == ShellInputView::Nothing,
{
    let l1 = shell_transition(line, p).0;
    assert(l1.drop_last() =~= line);
}

/// Enter hands over the trimmed line and leaves an empty one.
pub proof fn lemma_enter_hands_over(line: Seq<u8>, p: KeyboardPacket)
    requires
        p.packet_type == KeyboardPacketType::KeyPressed,
        p.key == KeyboardKey::Enter,
    ensures
        shell_transition(line, p).0.len() == 0,
        shell_transition(line, p).1 == ShellInputView::Line(trim_bytes(line)),
{
}

} // verus!
