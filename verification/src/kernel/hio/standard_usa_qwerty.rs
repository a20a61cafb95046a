//! The standard US QWERTY layout.
use crate::kernel::hio::KeyboardKey;
use crate::kernel::ps2_8042::KeyboardModifiers;
use vstd::prelude::*;

verus! {

/// The characters of a row of the layout, left to right, without and with
/// shift.
pub open spec fn row_chars(row: usize, shifted: bool) -> Seq<char> {
    if row == 0 {
        if shifted {
            seq!['~', '!', '@', '#', '$', '%', '^', '&', '*', '(', ')', '_', '+']
        } else {
            seq!['`', '1', '2', '3', '4', '5', '6', '7', '8', '9', '0', '-', '=']
        }
    } else if row == 1 {
        if shifted {
            seq!['Q', 'W', 'E', 'R', 'T', 'Y', 'U', 'I', 'O', 'P', '{', '}', '|']
        } else {
            seq!['q', 'w', 'e', 'r', 't', 'y', 'u', 'i', 'o', 'p', '[', ']', '\\']
        }
    } else if row == 2 {
        if shifted {
            seq!['A', 'S', 'D', 'F', 'G', 'H', 'J', 'K', 'L', ':', '"']
        } else {
            seq!['a', 's', 'd', 'f', 'g', 'h', 'j', 'k', 'l', ';', '\'']
        }
    } else if row == 3 {
        if shifted {
            seq!['Z', 'X', 'C', 'V', 'B', 'N', 'M', '<', '>', '?']
        } else {
            seq!['z', 'x', 'c', 'v', 'b', 'n', 'm', ',', '.', '/']
        }
    } else {
        Seq::empty()
    }
}

/// The number of letters at the start of a row: caps lock inverts shift for
/// them.
pub open spec fn letters_in_row(row: usize) -> usize {
    if row == 1 {
        10
    } else if row == 2 {
        9
    } else if row == 3 {
        7
    } else {
        0
    }
}

/// The character a key makes under the given modifiers, or the key itself
/// where the layout maps it to none.
pub open spec fn key_char(key: KeyboardKey, m: KeyboardModifiers) -> Result<char, KeyboardKey> {
    let shift = m.left_shift || m.right_shift;
    match key {
        KeyboardKey::Unmapped { row, column } => if column < row_chars(row, false).len() {
            let upper = if column < letters_in_row(row) {
                shift != m.caps_lock
            } else {
                shift
            };
            Ok(row_chars(row, upper)[column as int])
        } else {
            Err(key)
        },
        KeyboardKey::Space => Ok(' '),
        KeyboardKey::Tab => Ok('\t'),
        KeyboardKey::Enter => Ok('\n'),
        _ => Err(key),
    }
}

/// The characters of a key of the layout without and with shift, or `None`
/// for a place where no key is.
fn key_pair(row: usize, column: usize) -> (r: Option<(char, char)>)
    ensures
        match r {
            Some((lower, upper)) => column < row_chars(row, false).len() && lower == row_chars(
                row,
                false,
            )[column as int] && upper == row_chars(row, true)[column as int],
            None => column >= row_chars(row, false).len(),
        },
{
    match (row, column) {
        (0, 0) => Some(('`', '~')),
        (0, 1) => Some(('1', '!')),
        (0, 2) => Some(('2', '@')),
        (0, 3) => Some(('3', '#')),
        (0, 4) => Some(('4', '$')),
        (0, 5) => Some(('5', '%')),
        (0, 6) => Some(('6', '^')),
        (0, 7) => Some(('7', '&')),
        (0, 8) => Some(('8', '*')),
        (0, 9) => Some(('9', '(')),
        (0, 10) => Some(('0', ')')),
        (0, 11) => Some(('-', '_')),
        (0, 12) => Some(('=', '+')),
        (1, 0) => Some(('q', 'Q')),
        (1, 1) => Some(('w', 'W')),
        (1, 2) => Some(('e', 'E')),
        (1, 3) => Some(('r', 'R')),
        (1, 4) => Some(('t', 'T')),
        (1, 5) => Some(('y', 'Y')),
        (1, 6) => Some(('u', 'U')),
        (1, 7) => Some(('i', 'I')),
        (1, 8) => Some(('o', 'O')),
        (1, 9) => Some(('p', 'P')),
        (1, 10) => Some(('[', '{')),
        (1, 11) => Some((']', '}')),
        (1, 12) => Some(('\\', '|')),
        (2, 0) => Some(('a', 'A')),
        (2, 1) => Some(('s', 'S')),
        (2, 2) => Some(('d', 'D')),
        (2, 3) => Some(('f', 'F')),
        (2, 4) => Some(('g', 'G')),
        (2, 5) => Some(('h', 'H')),
        (2, 6) => Some(('j', 'J')),
        (2, 7) => Some(('k', 'K')),
        (2, 8) => Some(('l', 'L')),
        (2, 9) => Some((';', ':')),
        (2, 10) => Some(('\'', '"')),
        (3, 0) => Some(('z', 'Z')),
        (3, 1) => Some(('x', 'X')),
        (3, 2) => Some(('c', 'C')),
        (3, 3) => Some(('v', 'V')),
        (3, 4) => Some(('b', 'B')),
        (3, 5) => Some(('n', 'N')),
        (3, 6) => Some(('m', 'M')),
        (3, 7) => Some((',', '<')),
        (3, 8) => Some(('.', '>')),
        (3, 9) => Some(('/', '?')),
        _ => None,
    }
}

/// The character that `key` makes under `modifiers` in this layout; the key
/// itself where it makes none. Caps lock inverts shift for letters only.
pub fn parse_key(key: KeyboardKey, modifiers: KeyboardModifiers) -> (r: Result<char, KeyboardKey>)
    ensures
        r == key_char(key, modifiers),
{
    match key {
        KeyboardKey::Unmapped { row, column } => {
            match key_pair(row, column) {
                Some((lower, upper)) => {
                    let shift = modifiers.any_shift();
                    let is_letter = (row == 1 && column < 10) || (row == 2 && column < 9) || (
                    row == 3 && column < 7);
                    let upper_case = if is_letter {
                        shift ^ modifiers.caps_lock
                    } else {
                        shift
                    };
                    if upper_case {
                        Ok(upper)
                    } else {
                        Ok(lower)
                    }
                },
                None => Err(key),
            }
        },
        KeyboardKey::Space => Ok(' '),
        KeyboardKey::Tab => Ok('\t'),
        KeyboardKey::Enter => Ok('\n'),
        _ => Err(key),
    }
}

/// Whether the key at `row`, `column` is a letter: the lowercase character is
/// `a`..`z` and the shifted one is the same letter in uppercase.
pub open spec fn letter_key(row: usize, column: int) -> bool {
    let lower = row_chars(row, false)[column] as u32;
    let upper = row_chars(row, true)[column] as u32;
    0x61 <= lower <= 0x7a && upper + 32 == lower
}

/// Whether the key at `row`, `column` makes different characters with and
/// without shift.
pub open spec fn two_level_key(row: usize, column: int) -> bool {
    row_chars(row, false)[column] != row_chars(row, true)[column]
}

/// Every key of the layout makes two different characters, one with shift
/// and one without; the keys that caps lock acts on are exactly the letters,
/// whose shifted character is the uppercase of the other; the digit keys of
/// the top row make `1`..`9` then `0`.
pub proof fn lemma_layout_shape(row: usize, column: int)
    requires
        0 <= column < row_chars(row, false).len(),
    ensures
        row_chars(row, true).len() == row_chars(row, false).len(),
        two_level_key(row, column),
        column < letters_in_row(row) ==> letter_key(row, column),
        row == 0 && 1 <= column <= 9 ==> row_chars(0, false)[column] as u32 == 0x30 + column,
        row == 0 && column == 10 ==> row_chars(0, false)[column] == '0',
{
    let lo = row_chars(row, false);
    let hi = row_chars(row, true);
    if row == 0 {
        assert(lo =~= seq!['`', '1', '2', '3', '4', '5', '6', '7', '8', '9', '0', '-', '=']);
        assert(hi =~= seq!['~', '!', '@', '#', '$', '%', '^', '&', '*', '(', ')', '_', '+']);
        assert(column == 0 || column == 1 || column == 2 || column == 3 || column == 4 || column == 5 || column == 6
            || column == 7 || column == 8 || column == 9 || column == 10 || column == 11 || column == 12);
    } else if row == 1 {
        assert(column == 0 || column == 1 || column == 2 || column == 3 || column == 4 || column == 5 || column == 6
            || column == 7 || column == 8 || column == 9 || column == 10 || column == 11 || column == 12);
    } else if row == 2 {
        assert(column == 0 || column == 1 || column == 2 || column == 3 || column == 4 || column == 5 || column == 6
            || column == 7 || column == 8 || column == 9 || column == 10);
    } else {
        assert(column == 0 || column == 1 || column == 2 || column == 3 || column == 4 || column == 5 || column == 6
            || column == 7 || column == 8 || column == 9);
    }
}

/// Shift picks a key's shifted character: for a key that is not a letter,
/// either shift key gives the shifted character (Shift+1 gives `!`) and no
/// shift the plain one, whatever caps lock says; for a letter, the
/// uppercase comes exactly where one of shift and caps lock is on.
pub proof fn lemma_shift_picks_level(row: usize, column: usize, m: KeyboardModifiers)
    requires
        column < row_chars(row, false).len(),
    ensures
        column >= letters_in_row(row) ==> key_char(KeyboardKey::Unmapped { row, column }, m) == Ok::<char, KeyboardKey>(
            row_chars(row, m.left_shift || m.right_shift)[column as int],
        ),
        column < letters_in_row(row) ==> key_char(KeyboardKey::Unmapped { row, column }, m) == Ok::<char, KeyboardKey>(
            row_chars(row, (m.left_shift || m.right_shift) != m.caps_lock)[column as int],
        ),
{
}

/// Space, tab and enter make their characters under any modifiers; every
/// other key that is not on the character rows makes none.
pub proof fn lemma_special_keys(key: KeyboardKey, m: KeyboardModifiers)
    ensures
        key == KeyboardKey::Space ==> key_char(key, m) == Ok::<char, KeyboardKey>(' '),
        key == KeyboardKey::Tab ==> key_char(key, m) == Ok::<char, KeyboardKey>('\t'),
        key == KeyboardKey::Enter ==> key_char(key, m) == Ok::<char, KeyboardKey>('\n'),
        !(key is Unmapped) && key != KeyboardKey::Space && key != KeyboardKey::Tab && key != KeyboardKey::Enter
            ==> key_char(key, m) == Err::<char, KeyboardKey>(key),
{
}

} // verus!
