//! What `printf` and `scanf` decide: how numbers are written and read in a
//! radix, and, character by character, what a format string asks for.
//! Fetching the arguments and moving the bytes is the caller's part.
use crate::rlibc::specifier_parsing::{
    add_char_to_printf_specification, printf_start, printf_step, printf_step_fits, ConversionFlags,
    ConversionLength, ConversionPrecision, ConversionSpecifier, PrintfConversionSpecification,
    PrintfConversionWidth, UnfinishedPrintfConversionSpecification,
};
use vstd::prelude::*;

verus! {

/// The character of digit `d` (below 16), letters in upper case where `upper`.
pub open spec fn digit_char(d: nat, upper: bool) -> u8 {
    if d < 10 {
        (48 + d) as u8
    } else if upper {
        (65 + d - 10) as u8
    } else {
        (97 + d - 10) as u8
    }
}

/// The digits of `n` in radix `base`, most significant first; none for 0.
pub open spec fn digits(n: nat, base: nat, upper: bool) -> Seq<u8>
    decreases n,
{
    if n == 0 || base < 2 {
        Seq::empty()
    } else {
        proof {
            vstd::arithmetic::div_mod::lemma_div_decreases(n as int, base as int);
        }
        digits(n / base, base, upper).push(digit_char(n % base, upper))
    }
}

/// The digits of `n` in radix `base` (2 to 16), most significant first, and
/// none for 0.
pub fn number_to_string_in_radix(n: u64, base: u64, upper: bool) -> (r: Vec<u8>)
    requires
        2 <= base <= 16,
    ensures
        r@ == digits(n as nat, base as nat, upper),
    decreases n,
{
    if n == 0 {
        return Vec::new();
    }
    proof {
        vstd::arithmetic::div_mod::lemma_div_decreases(n as int, base as int);
    }
    let mut r = number_to_string_in_radix(n / base, base, upper);
    let d = n % base;
    let c: u8 = if d < 10 {
        48 + d as u8
    } else if upper {
        65 + (d - 10) as u8
    } else {
        97 + (d - 10) as u8
    };
    r.push(c);
    r
}

/// `-` and the decimal digits of `n`; no digits for 0.
pub open spec fn signed_decimal(n: int) -> Seq<u8> {
    if n < 0 {
        seq![45u8] + digits((-n) as nat, 10, false)
    } else {
        digits(n as nat, 10, false)
    }
}

/// What `%d` and `%i` write for `n`.
pub fn format_signed_decimal(n: i32) -> (r: Vec<u8>)
    requires
        n != i32::MIN,
    ensures
        r@ == signed_decimal(n as int),
{
    let is_negative = n < 0;
    let m: i32 = if is_negative { -n } else { n };
    let digits_of = number_to_string_in_radix(m as u64, 10, false);
    if is_negative {
        let mut r: Vec<u8> = Vec::new();
        r.push(45 /* '-' */);
        let mut k: usize = 0;
        while k < digits_of.len()
            invariant
                k <= digits_of@.len(),
                r@ == seq![45u8] + digits_of@.take(k as int),
            decreases digits_of@.len() - k,
        {
            r.push(digits_of[k]);
            assert(digits_of@.take(k + 1) =~= digits_of@.take(k as int).push(digits_of@[k as int]));
            k = k + 1;
        }
        assert(digits_of@.take(k as int) =~= digits_of@);
        r
    } else {
        digits_of
    }
}

/// What `%p` writes for the address `p`: `0x` and its hexadecimal digits.
pub fn format_pointer(p: usize) -> (r: Vec<u8>)
    ensures
        r@ == seq![48u8, 120u8] + digits(p as nat, 16, false),
{
    let hex = number_to_string_in_radix(p as u64, 16, false);
    let mut r: Vec<u8> = Vec::new();
    r.push(48 /* '0' */);
    r.push(120 /* 'x' */);
    let mut k: usize = 0;
    while k < hex.len()
        invariant
            k <= hex@.len(),
            r@ == seq![48u8, 120u8] + hex@.take(k as int),
        decreases hex@.len() - k,
    {
        r.push(hex[k]);
        assert(hex@.take(k + 1) =~= hex@.take(k as int).push(hex@[k as int]));
        k = k + 1;
    }
    assert(hex@.take(k as int) =~= hex@);
    r
}

/// Where `printf` is in its format string: between conversions, or within
/// one, of which it has read a part.
#[derive(Clone, Copy)]
pub struct PrintfState {
    pub parsing_conversion_specification: bool,
    pub specification_under_construction: UnfinishedPrintfConversionSpecification,
}

/// What `printf` is to do after a character of its format string.
pub enum PrintfAction {
    /// Write the character as it is.
    Emit(u8),
    /// Nothing yet: the character is part of a conversion specification.
    Absorb,
    /// Carry out the conversion specification that the character ends.
    Convert(PrintfConversionSpecification),
}

/// Where `printf` starts.
pub open spec fn printf_initial() -> PrintfState {
    PrintfState { parsing_conversion_specification: false, specification_under_construction: printf_start() }
}

impl PrintfState {
    /// Where `printf` starts: between conversions.
    pub fn new() -> (r: Self)
        ensures
            r == printf_initial(),
    {
        PrintfState { parsing_conversion_specification: false, specification_under_construction: fresh_specification() }
    }

    /// Reads the format character `c`: a `%` starts a conversion
    /// specification, any other character between conversions is written as
    /// it is, and a character within a conversion is added to it, which ends
    /// it once `c` is its conversion specifier.
    pub fn step(&mut self, c: u8) -> (r: PrintfAction)
        requires
            old(self).parsing_conversion_specification ==> printf_step_fits(
                old(self).specification_under_construction,
                c,
            ),
        ensures
            !old(self).parsing_conversion_specification && c == 37 ==> r is Absorb && *final(self) == (PrintfState {
                parsing_conversion_specification: true,
                specification_under_construction: printf_start(),
            }),
            !old(self).parsing_conversion_specification && c != 37 ==> r == PrintfAction::Emit(c) && *final(self)
                == *old(self),
            old(self).parsing_conversion_specification ==> match printf_step(
                old(self).specification_under_construction,
                c,
            ) {
                Ok(spec) => r == PrintfAction::Convert(spec) && *final(self) == printf_initial(),
                Err(next) => r is Absorb && *final(self) == (PrintfState {
                    parsing_conversion_specification: true,
                    specification_under_construction: next,
                }),
            },
    {
        if !self.parsing_conversion_specification {
            if c == 37 /* '%' */ {
                self.parsing_conversion_specification = true;
                self.specification_under_construction = fresh_specification();
                PrintfAction::Absorb
            } else {
                PrintfAction::Emit(c)
            }
        } else {
            match add_char_to_printf_specification(self.specification_under_construction, c) {
                Err(next) => {
                    self.specification_under_construction = next;
                    PrintfAction::Absorb
                },
                Ok(finished) => {
                    self.parsing_conversion_specification = false;
                    self.specification_under_construction = fresh_specification();
                    PrintfAction::Convert(finished)
                },
            }
        }
    }
}

/// A conversion specification of which nothing is read yet.
fn fresh_specification() -> (r: UnfinishedPrintfConversionSpecification)
    ensures
        r == printf_start(),
{
    UnfinishedPrintfConversionSpecification {
        conversion_under_construction: PrintfConversionSpecification {
            flags: ConversionFlags(0),
            width: PrintfConversionWidth::Unspecified,
            precision: ConversionPrecision::Unspecified,
            length: ConversionLength::Unspecified,
            specifier: ConversionSpecifier::Unparsed,
        },
        parsing_width: false,
        parsing_precision: false,
        parsing_length: false,
    }
}

/// The value of the digit `c` (0 to 9, then `a` to `f` in either case).
pub open spec fn digit_value(c: u8) -> Option<u8> {
    if 48 <= c <= 57 {
        Some((c - 48) as u8)
    } else if 97 <= c <= 102 {
        Some((c - 97 + 10) as u8)
    } else if 65 <= c <= 70 {
        Some((c - 65 + 10) as u8)
    } else {
        None
    }
}

/// The value of the digit `c` that `scanf` reads; `None` for another character.
pub fn char_to_digit(c: u8) -> (r: Option<u8>)
    ensures
        r == digit_value(c),
{
    if 48 <= c && c <= 57 {
        Some(c - 48)
    } else if 97 <= c && c <= 102 {
        Some(c - 97 + 10)
    } else if 65 <= c && c <= 70 {
        Some(c - 65 + 10)
    } else {
        None
    }
}

/// `val` with the digit `digit` appended in radix `base`, as `scanf` reads a
/// number: the first digit where nothing is read yet.
pub fn push_scanned_digit(val: Option<i32>, digit: u8, base: i32) -> (r: i32)
    requires
        val matches Some(v) ==> i32::MIN <= v * base && v * base + digit <= i32::MAX,
        digit <= 15,
    ensures
        r == match val {
            Some(v) => v * base + digit,
            None => digit as int,
        },
{
    match val {
        Some(v) => v * base + digit as i32,
        None => digit as i32,
    }
}

/// The number that the digits `s` (most significant first) stand for in
/// radix `base`, read as `scanf` reads digits.
pub open spec fn digits_value(s: Seq<u8>, base: nat) -> int
    decreases s.len(),
{
    if s.len() == 0 {
        0
    } else {
        digits_value(s.drop_last(), base) * base + match digit_value(s.last()) {
            Some(d) => d as int,
            None => 0,
        }
    }
}

/// Each digit reads back as its value: `0`..`9` for 0 to 9, then letters,
/// uppercase exactly where asked (`ff` and `FF` for 255 in radix 16).
pub proof fn lemma_digit_char_reads_back(d: nat, upper: bool)
    requires
        d < 16,
    ensures
        digit_value(digit_char(d, upper)) == Some(d as u8),
        d >= 10 ==> (upper <==> 65 <= digit_char(d, upper) <= 70),
        d < 10 ==> 48 <= digit_char(d, upper) <= 57,
{
}

/// The digits that a number is written with read back as the number: in
/// every radix from 2 to 16, in either case.
pub proof fn lemma_digits_read_back(n: nat, base: nat, upper: bool)
    requires
        2 <= base <= 16,
    ensures
        digits_value(digits(n, base, upper), base) == n,
    decreases n,
{
    if n > 0 {
        vstd::arithmetic::div_mod::lemma_div_decreases(n as int, base as int);
        lemma_digits_read_back(n / base, base, upper);
        lemma_digit_char_reads_back(n % base, upper);
        let s = digits(n, base, upper);
        assert(s.drop_last() =~= digits(n / base, base, upper));
        assert((n / base) * base + n % base == n) by (nonlinear_arith)
            requires
                base > 0,
        ;
    }
}

/// The digits of a positive number do not begin with 0.
pub proof fn lemma_digits_no_leading_zero(n: nat, base: nat, upper: bool)
    requires
        2 <= base <= 16,
        n > 0,
    ensures
        digits(n, base, upper).len() > 0,
        digits(n, base, upper)[0] != 48u8,
    decreases n,
{
    vstd::arithmetic::div_mod::lemma_div_decreases(n as int, base as int);
    if n / base > 0 {
        lemma_digits_no_leading_zero(n / base, base, upper);
        assert(digits(n, base, upper)[0] == digits(n / base, base, upper)[0]);
    } else {
        assert(n % base == n) by (nonlinear_arith)
            requires
                n / base == 0,
                base > 0,
        ;
        assert(digits(n / base, base, upper).len() == 0);
    }
}

} // verus!
