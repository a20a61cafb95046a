//! Incremental parsing of `printf` and `scanf` conversion specifications
//! (C99 7.19.6.1 and 7.19.6.2), one character after the `%` at a time.
//!
//! The parts of a specification may come in any order: an invalid
//! specification is undefined behaviour in C, so any reading is allowed.
pub mod conversion_flag;

use vstd::prelude::*;

verus! {

/// A set of `printf` flags, one bit each (see [`conversion_flag`]).
#[derive(PartialEq, Eq, Structural, Clone, Copy, Debug)]
pub struct ConversionFlags(pub u8);

impl ConversionFlags {
    /// The union of two flag sets.
    pub fn bitor(self, rhs: Self) -> (r: Self)
        ensures
            r.0 == self.0 | rhs.0,
    {
        ConversionFlags(self.0 | rhs.0)
    }

    /// The flag a character stands for, if any.
    pub fn try_from_byte(val: u8) -> (r: Result<Self, ()>)
        ensures
            match flag_bit(val) {
                Some(b) => r == Ok::<Self, ()>(ConversionFlags(b)),
                None => r is Err,
            },
    {
        match val {
            45 /* '-' */ => Ok(ConversionFlags(1)),
            43 /* '+' */ => Ok(ConversionFlags(2)),
            32 /* ' ' */ => Ok(ConversionFlags(4)),
            35 /* '#' */ => Ok(ConversionFlags(8)),
            48 /* '0' */ => Ok(ConversionFlags(16)),
            _ => Err(()),
        }
    }
}

/// The bit of the `printf` flag that a character stands for.
pub open spec fn flag_bit(c: u8) -> Option<u8> {
    if c == 45 {
        Some(1u8)
    } else if c == 43 {
        Some(2u8)
    } else if c == 32 {
        Some(4u8)
    } else if c == 35 {
        Some(8u8)
    } else if c == 48 {
        Some(16u8)
    } else {
        None
    }
}

/// Every flag set.
pub open spec fn all_flags() -> u8 {
    31u8
}

#[derive(PartialEq, Eq, Structural, Clone, Copy, Debug)]
pub enum ConversionSpecifier {
    SignedInteger,
    SignedDecimalInteger,
    UnsignedDecimalInteger,
    UnsignedOctalInteger,
    UnsignedHexIntegerLowerCase,
    UnsignedHexIntegerUpperCase,
    DecimalFloatLowerCase,
    DeicmalFloatUpperCase,
    ScientificNotationLowerCase,
    ScientificNotationUpperCase,
    ShortestFloatLowerCase,
    ShortestFloatUpperCase,
    HexFloatLowerCase,
    HexFloatUpperCase,
    Character,
    String,
    Pointer,
    /// `%%`: writes a `%`.
    Escape,
    /// `%n`: stores the number of characters written so far.
    Meta,
    /// No specifier has been read yet.
    Unparsed,
}

/// The conversion specifier a character stands for.
pub open spec fn specifier_of(c: u8) -> Option<ConversionSpecifier> {
    if c == 105 {
        Some(ConversionSpecifier::SignedInteger)
    } else if c == 100 {
        Some(ConversionSpecifier::SignedDecimalInteger)
    } else if c == 117 {
        Some(ConversionSpecifier::UnsignedDecimalInteger)
    } else if c == 111 {
        Some(ConversionSpecifier::UnsignedOctalInteger)
    } else if c == 120 {
        Some(ConversionSpecifier::UnsignedHexIntegerLowerCase)
    } else if c == 88 {
        Some(ConversionSpecifier::UnsignedHexIntegerUpperCase)
    } else if c == 102 {
        Some(ConversionSpecifier::DecimalFloatLowerCase)
    } else if c == 70 {
        Some(ConversionSpecifier::DeicmalFloatUpperCase)
    } else if c == 101 {
        Some(ConversionSpecifier::ScientificNotationLowerCase)
    } else if c == 69 {
        Some(ConversionSpecifier::ScientificNotationUpperCase)
    } else if c == 103 {
        Some(ConversionSpecifier::ShortestFloatLowerCase)
    } else if c == 71 {
        Some(ConversionSpecifier::ShortestFloatUpperCase)
    } else if c == 97 {
        Some(ConversionSpecifier::HexFloatLowerCase)
    } else if c == 65 {
        Some(ConversionSpecifier::HexFloatUpperCase)
    } else if c == 99 {
        Some(ConversionSpecifier::Character)
    } else if c == 115 {
        Some(ConversionSpecifier::String)
    } else if c == 112 {
        Some(ConversionSpecifier::Pointer)
    } else if c == 37 {
        Some(ConversionSpecifier::Escape)
    } else if c == 110 {
        Some(ConversionSpecifier::Meta)
    } else {
        None
    }
}

impl ConversionSpecifier {
    /// The conversion specifier a character stands for, if any.
    pub fn try_from_byte(val: u8) -> (r: Result<Self, ()>)
        ensures
            match specifier_of(val) {
                Some(s) => r == Ok::<Self, ()>(s),
                None => r is Err,
            },
    {
        match val {
            105 /* 'i' */ => Ok(Self::SignedInteger),
            100 /* 'd' */ => Ok(Self::SignedDecimalInteger),
            117 /* 'u' */ => Ok(Self::UnsignedDecimalInteger),
            111 /* 'o' */ => Ok(Self::UnsignedOctalInteger),
            120 /* 'x' */ => Ok(Self::UnsignedHexIntegerLowerCase),
            88 /* 'X' */ => Ok(Self::UnsignedHexIntegerUpperCase),
            102 /* 'f' */ => Ok(Self::DecimalFloatLowerCase),
            70 /* 'F' */ => Ok(Self::DeicmalFloatUpperCase),
            101 /* 'e' */ => Ok(Self::ScientificNotationLowerCase),
            69 /* 'E' */ => Ok(Self::ScientificNotationUpperCase),
            103 /* 'g' */ => Ok(Self::ShortestFloatLowerCase),
            71 /* 'G' */ => Ok(Self::ShortestFloatUpperCase),
            97 /* 'a' */ => Ok(Self::HexFloatLowerCase),
            65 /* 'A' */ => Ok(Self::HexFloatUpperCase),
            99 /* 'c' */ => Ok(Self::Character),
            115 /* 's' */ => Ok(Self::String),
            112 /* 'p' */ => Ok(Self::Pointer),
            37 /* '%' */ => Ok(Self::Escape),
            110 /* 'n' */ => Ok(Self::Meta),
            _ => Err(()),
        }
    }
}

#[derive(PartialEq, Eq, Structural, Clone, Copy, Debug)]
pub enum PrintfConversionWidth {
    Number(usize),
    /// `*`: the width is the argument before the one formatted.
    Meta,
    Unspecified,
}

#[derive(PartialEq, Eq, Structural, Clone, Copy, Debug)]
pub enum ScanfConversionWidth {
    Number(usize),
    Unspecified,
}

#[derive(PartialEq, Eq, Structural, Clone, Copy, Debug)]
pub enum ConversionPrecision {
    Number(usize),
    /// `*`: the precision is the argument before the one formatted.
    Meta,
    Unspecified,
}

#[derive(PartialEq, Eq, Structural, Clone, Copy, Debug)]
pub enum ConversionLength {
    Double,
    MaxLengthForPointer,
    MaxLengthForSize,
    MaxLengthForInt,
    LongLong,
    Long,
    Half,
    Byte,
    Unspecified,
}

/// The length modifier a character starts, and whether a second, equal
/// character may double it (`hh`, `ll`).
pub open spec fn length_of(c: u8) -> Option<(ConversionLength, bool)> {
    if c == 104 {
        Some((ConversionLength::Half, true))
    } else if c == 108 {
        Some((ConversionLength::Long, true))
    } else if c == 106 {
        Some((ConversionLength::MaxLengthForInt, false))
    } else if c == 122 {
        Some((ConversionLength::MaxLengthForSize, false))
    } else if c == 116 {
        Some((ConversionLength::MaxLengthForPointer, false))
    } else if c == 76 {
        Some((ConversionLength::Double, false))
    } else {
        None
    }
}

pub open spec fn is_digit(c: u8) -> bool {
    48 <= c <= 57
}

/// `n` with the decimal digit `c` appended.
pub open spec fn push_digit(n: usize, c: u8) -> int {
    n * 10 + (c - 48)
}

#[derive(PartialEq, Eq, Structural, Clone, Copy, Debug)]
pub struct PrintfConversionSpecification {
    pub flags: ConversionFlags,
    pub width: PrintfConversionWidth,
    pub precision: ConversionPrecision,
    pub length: ConversionLength,
    pub specifier: ConversionSpecifier,
}

#[derive(PartialEq, Eq, Structural, Clone, Copy, Debug)]
pub struct ScanfConversionSpecification {
    pub assignment_suppression: bool,
    pub width: ScanfConversionWidth,
    pub length: ConversionLength,
    pub specifier: ConversionSpecifier,
}

/// A `printf` conversion specification of which a part has been read.
#[derive(PartialEq, Eq, Structural, Clone, Copy, Debug)]
pub struct UnfinishedPrintfConversionSpecification {
    pub conversion_under_construction: PrintfConversionSpecification,
    /// The last character was a digit of the width.
    pub parsing_width: bool,
    /// The last character was the `.` or a digit of the precision.
    pub parsing_precision: bool,
    /// The last character was an `h` or `l` that may be doubled.
    pub parsing_length: bool,
}

/// A `scanf` conversion specification of which a part has been read.
#[derive(PartialEq, Eq, Structural, Clone, Copy, Debug)]
pub struct UnfinishedScanfConversionSpecification {
    pub conversion_under_construction: ScanfConversionSpecification,
    pub parsing_width: bool,
    pub parsing_length: bool,
}

/// Nothing read yet.
pub open spec fn printf_start() -> UnfinishedPrintfConversionSpecification {
    UnfinishedPrintfConversionSpecification {
        conversion_under_construction: PrintfConversionSpecification {
            flags: ConversionFlags(0),
            width: PrintfConversionWidth::Unspecified,
            precision: ConversionPrecision::Unspecified,
            length: ConversionLength::Unspecified,
            specifier: ConversionSpecifier::Unparsed,
        },
        parsing_width: false,
        parsing_precision: false,
        parsing_length: false,
    }
}

/// Nothing read yet.
pub open spec fn scanf_start() -> UnfinishedScanfConversionSpecification {
    UnfinishedScanfConversionSpecification {
        conversion_under_construction: ScanfConversionSpecification {
            assignment_suppression: false,
            width: ScanfConversionWidth::Unspecified,
            length: ConversionLength::Unspecified,
            specifier: ConversionSpecifier::Unparsed,
        },
        parsing_width: false,
        parsing_length: false,
    }
}

impl Default for UnfinishedPrintfConversionSpecification {
    fn default() -> (r: Self)
        ensures
            r == printf_start(),
    {
        UnfinishedPrintfConversionSpecification {
            conversion_under_construction: PrintfConversionSpecification {
                flags: ConversionFlags(0),
                width: PrintfConversionWidth::Unspecified,
                precision: ConversionPrecision::Unspecified,
                length: ConversionLength::Unspecified,
                specifier: ConversionSpecifier::Unparsed,
            },
            parsing_width: false,
            parsing_precision: false,
            parsing_length: false,
        }
    }
}

impl Default for UnfinishedScanfConversionSpecification {
    fn default() -> (r: Self)
        ensures
            r == scanf_start(),
    {
        UnfinishedScanfConversionSpecification {
            conversion_under_construction: ScanfConversionSpecification {
                assignment_suppression: false,
                width: ScanfConversionWidth::Unspecified,
                length: ConversionLength::Unspecified,
                specifier: ConversionSpecifier::Unparsed,
            },
            parsing_width: false,
            parsing_length: false,
        }
    }
}

/// What reading `c` does to a `printf` specification in progress: `Ok` with
/// the finished specification once `c` is its conversion specifier, else `Err`
/// with the specification read so far.
///
/// A digit continues the width or the precision that the previous character
/// was part of; a `*` after the `.` is the precision; an `h` or `l` after the
/// same letter doubles it. Otherwise `c` fills the first part that it can
/// stand for and that is still empty, in the order flags, width, precision,
/// length, specifier; a character that fits nowhere is ignored.
pub open spec fn printf_step(s: UnfinishedPrintfConversionSpecification, c: u8) -> Result<
    PrintfConversionSpecification,
    UnfinishedPrintfConversionSpecification,
> {
    let cv = s.conversion_under_construction;
    if s.parsing_width && is_digit(c) {
        Err(
            match cv.width {
                PrintfConversionWidth::Number(w) => UnfinishedPrintfConversionSpecification {
                    conversion_under_construction: PrintfConversionSpecification {
                        width: PrintfConversionWidth::Number(push_digit(w, c) as usize),
                        ..cv
                    },
                    ..s
                },
                _ => UnfinishedPrintfConversionSpecification {
                    conversion_under_construction: PrintfConversionSpecification {
                        width: PrintfConversionWidth::Unspecified,
                        ..cv
                    },
                    parsing_width: false,
                    ..s
                },
            },
        )
    } else {
        let s1 = UnfinishedPrintfConversionSpecification { parsing_width: false, ..s };
        printf_step_after_width(s1, c)
    }
}

/// [`printf_step`] once a width in progress has been dealt with.
pub open spec fn printf_step_after_width(s: UnfinishedPrintfConversionSpecification, c: u8) -> Result<
    PrintfConversionSpecification,
    UnfinishedPrintfConversionSpecification,
> {
    let cv = s.conversion_under_construction;
    if s.parsing_precision && is_digit(c) {
        Err(
            UnfinishedPrintfConversionSpecification {
                conversion_under_construction: PrintfConversionSpecification {
                    precision: match cv.precision {
                        ConversionPrecision::Number(p) => ConversionPrecision::Number(
                            push_digit(p, c) as usize,
                        ),
                        _ => ConversionPrecision::Number((c - 48) as usize),
                    },
                    ..cv
                },
                ..s
            },
        )
    } else if s.parsing_precision && c == 42 {
        Err(
            UnfinishedPrintfConversionSpecification {
                conversion_under_construction: PrintfConversionSpecification {
                    precision: ConversionPrecision::Meta,
                    ..cv
                },
                parsing_precision: false,
                ..s
            },
        )
    } else {
        let s1 = UnfinishedPrintfConversionSpecification { parsing_precision: false, ..s };
        printf_step_after_precision(s1, c)
    }
}

/// [`printf_step`] once a precision in progress has been dealt with.
pub open spec fn printf_step_after_precision(s: UnfinishedPrintfConversionSpecification, c: u8) -> Result<
    PrintfConversionSpecification,
    UnfinishedPrintfConversionSpecification,
> {
    let cv = s.conversion_under_construction;
    let s1 = UnfinishedPrintfConversionSpecification { parsing_length: false, ..s };
    if s.parsing_length && c == 108 && cv.length == ConversionLength::Long {
        Err(
            UnfinishedPrintfConversionSpecification {
                conversion_under_construction: PrintfConversionSpecification {
                    length: ConversionLength::LongLong,
                    ..cv
                },
                ..s1
            },
        )
    } else if s.parsing_length && c == 104 && cv.length == ConversionLength::Half {
        Err(
            UnfinishedPrintfConversionSpecification {
                conversion_under_construction: PrintfConversionSpecification {
                    length: ConversionLength::Byte,
                    ..cv
                },
                ..s1
            },
        )
    } else {
        printf_fill_part(s1, c)
    }
}

/// [`printf_step`]: `c` fills the first empty part it can stand for.
pub open spec fn printf_fill_part(s: UnfinishedPrintfConversionSpecification, c: u8) -> Result<
    PrintfConversionSpecification,
    UnfinishedPrintfConversionSpecification,
> {
    let cv = s.conversion_under_construction;
    if cv.flags.0 != all_flags() && flag_bit(c) is Some {
        Err(
            UnfinishedPrintfConversionSpecification {
                conversion_under_construction: PrintfConversionSpecification {
                    flags: ConversionFlags(cv.flags.0 | flag_bit(c)->0),
                    ..cv
                },
                ..s
            },
        )
    } else if cv.width == PrintfConversionWidth::Unspecified && is_digit(c) {
        Err(
            UnfinishedPrintfConversionSpecification {
                conversion_under_construction: PrintfConversionSpecification {
                    width: PrintfConversionWidth::Number((c - 48) as usize),
                    ..cv
                },
                parsing_width: true,
                ..s
            },
        )
    } else {
        // A `*` in place of the width sets it and is then offered to the
        // remaining parts, none of which it can stand for.
        let s1 = if cv.width == PrintfConversionWidth::Unspecified && c == 42 {
            UnfinishedPrintfConversionSpecification {
                conversion_under_construction: PrintfConversionSpecification {
                    width: PrintfConversionWidth::Meta,
                    ..cv
                },
                ..s
            }
        } else {
            s
        };
        let cv1 = s1.conversion_under_construction;
        if cv1.precision == ConversionPrecision::Unspecified && c == 46 {
            Err(UnfinishedPrintfConversionSpecification { parsing_precision: true, ..s1 })
        } else if cv1.length == ConversionLength::Unspecified && length_of(c) is Some {
            Err(
                UnfinishedPrintfConversionSpecification {
                    conversion_under_construction: PrintfConversionSpecification {
                        length: length_of(c).unwrap().0,
                        ..cv1
                    },
                    parsing_length: length_of(c).unwrap().1,
                    ..s1
                },
            )
        } else if cv1.specifier == ConversionSpecifier::Unparsed && specifier_of(c) is Some {
            Ok(PrintfConversionSpecification { specifier: specifier_of(c)->0, ..cv1 })
        } else {
            Err(s1)
        }
    }
}

/// Reading `c` in state `s` appends a digit to a number that fits in `usize`.
pub open spec fn printf_step_fits(s: UnfinishedPrintfConversionSpecification, c: u8) -> bool {
    &&& (s.parsing_width && is_digit(c)) ==> match s.conversion_under_construction.width {
        PrintfConversionWidth::Number(w) => push_digit(w, c) <= usize::MAX,
        _ => true,
    }
    &&& (!s.parsing_width || !is_digit(c)) && s.parsing_precision && is_digit(c) ==> match s.conversion_under_construction.precision {
        ConversionPrecision::Number(p) => push_digit(p, c) <= usize::MAX,
        _ => true,
    }
}

/// Appends the digit `c` to `n`.
fn append_digit(n: usize, c: u8) -> (r: usize)
    requires
        is_digit(c),
        push_digit(n, c) <= usize::MAX,
    ensures
        r == push_digit(n, c),
{
    n * 10 + (c - 48 /* '0' */) as usize
}

/// Reads one more character of a `printf` conversion specification (the
/// characters after the `%`): `Ok` with the whole specification once `c` is
/// its conversion specifier, else `Err` with what has been read so far.
pub fn add_char_to_printf_specification(
    initial: UnfinishedPrintfConversionSpecification,
    c: u8,
) -> (r: Result<PrintfConversionSpecification, UnfinishedPrintfConversionSpecification>)
    requires
        printf_step_fits(initial, c),
    ensures
        r == printf_step(initial, c),
{
    let mut initial = initial;
    let is_digit_c = 48 /* '0' */ <= c && c <= 57 /* '9' */;
    if initial.parsing_width {
        if is_digit_c {
            if let PrintfConversionWidth::Number(cur_width) = initial.conversion_under_construction.width {
                initial.conversion_under_construction.width = PrintfConversionWidth::Number(
                    append_digit(cur_width, c),
                );
            } else {
                initial.conversion_under_construction.width = PrintfConversionWidth::Unspecified;
                initial.parsing_width = false;
            }
            return Err(initial);
        }
        initial.parsing_width = false;
    }
    assert(printf_step(initial, c) == printf_step_after_width(initial, c));
    let ghost s1 = initial;
    if initial.parsing_precision {
        if is_digit_c {
            if let ConversionPrecision::Number(cur_precision) = initial.conversion_under_construction.precision {
                initial.conversion_under_construction.precision = ConversionPrecision::Number(
                    append_digit(cur_precision, c),
                );
            } else {
                initial.conversion_under_construction.precision = ConversionPrecision::Number(
                    (c - 48 /* '0' */) as usize,
                );
            }
            return Err(initial);
        }
        if c == 42 /* '*' */ {
            initial.conversion_under_construction.precision = ConversionPrecision::Meta;
            initial.parsing_precision = false;
            return Err(initial);
        }
        initial.parsing_precision = false;
    }
    assert(printf_step_after_width(s1, c) == printf_step_after_precision(initial, c));
    let ghost s2 = initial;
    if initial.parsing_length {
        initial.parsing_length = false;
        if c == 108 /* 'l' */ {
            if initial.conversion_under_construction.length == ConversionLength::Long {
                initial.conversion_under_construction.length = ConversionLength::LongLong;
                return Err(initial);
            }
        } else if c == 104 /* 'h' */ {
            if initial.conversion_under_construction.length == ConversionLength::Half {
                initial.conversion_under_construction.length = ConversionLength::Byte;
                return Err(initial);
            }
        }
    }
    assert(printf_step_after_precision(s2, c) == printf_fill_part(initial, c));
    printf_fill(initial, c)
}

/// The last stage of [`add_char_to_printf_specification`].
fn printf_fill(
    initial: UnfinishedPrintfConversionSpecification,
    c: u8,
) -> (r: Result<PrintfConversionSpecification, UnfinishedPrintfConversionSpecification>)
    ensures
        r == printf_fill_part(initial, c),
{
    let mut initial = initial;
    if initial.conversion_under_construction.flags.0 != 31u8 {
        if let Ok(val) = ConversionFlags::try_from_byte(c) {
            initial.conversion_under_construction.flags = initial.conversion_under_construction.flags.bitor(
                val,
            );
            return Err(initial);
        }
    }
    if initial.conversion_under_construction.width == PrintfConversionWidth::Unspecified {
        if c == 42 /* '*' */ {
            initial.conversion_under_construction.width = PrintfConversionWidth::Meta;
        } else if 48 /* '0' */ <= c && c <= 57 /* '9' */ {
            initial.conversion_under_construction.width = PrintfConversionWidth::Number(
                (c - 48 /* '0' */) as usize,
            );
            initial.parsing_width = true;
            return Err(initial);
        }
    }
    if initial.conversion_under_construction.precision == ConversionPrecision::Unspecified {
        if c == 46 /* '.' */ {
            initial.parsing_precision = true;
            return Err(initial);
        }
    }
    if initial.conversion_under_construction.length == ConversionLength::Unspecified {
        if let Some((len, doubles)) = length_from_byte(c) {
            initial.conversion_under_construction.length = len;
            initial.parsing_length = doubles;
            return Err(initial);
        }
    }
    if initial.conversion_under_construction.specifier == ConversionSpecifier::Unparsed {
        if let Ok(val) = ConversionSpecifier::try_from_byte(c) {
            initial.conversion_under_construction.specifier = val;
            return Ok(initial.conversion_under_construction);
        }
    }
    Err(initial)
}

/// The length modifier a character starts (see [`length_of`]).
fn length_from_byte(c: u8) -> (r: Option<(ConversionLength, bool)>)
    ensures
        r == length_of(c),
{
    match c {
        104 /* 'h' */ => Some((ConversionLength::Half, true)),
        108 /* 'l' */ => Some((ConversionLength::Long, true)),
        106 /* 'j' */ => Some((ConversionLength::MaxLengthForInt, false)),
        122 /* 'z' */ => Some((ConversionLength::MaxLengthForSize, false)),
        116 /* 't' */ => Some((ConversionLength::MaxLengthForPointer, false)),
        76 /* 'L' */ => Some((ConversionLength::Double, false)),
        _ => None,
    }
}

/// What reading `c` does to a `scanf` specification in progress: as
/// [`printf_step`], with the parts assignment suppression (`*`), width,
/// length and specifier.
pub open spec fn scanf_step(s: UnfinishedScanfConversionSpecification, c: u8) -> Result<
    ScanfConversionSpecification,
    UnfinishedScanfConversionSpecification,
> {
    let cv = s.conversion_under_construction;
    if s.parsing_width && is_digit(c) {
        Err(
            match cv.width {
                ScanfConversionWidth::Number(w) => UnfinishedScanfConversionSpecification {
                    conversion_under_construction: ScanfConversionSpecification {
                        width: ScanfConversionWidth::Number(push_digit(w, c) as usize),
                        ..cv
                    },
                    ..s
                },
                _ => UnfinishedScanfConversionSpecification {
                    conversion_under_construction: ScanfConversionSpecification {
                        width: ScanfConversionWidth::Unspecified,
                        ..cv
                    },
                    parsing_width: false,
                    ..s
                },
            },
        )
    } else {
        let s1 = UnfinishedScanfConversionSpecification { parsing_width: false, parsing_length: false, ..s };
        if s.parsing_length && c == 108 && cv.length == ConversionLength::Long {
            Err(
                UnfinishedScanfConversionSpecification {
                    conversion_under_construction: ScanfConversionSpecification {
                        length: ConversionLength::LongLong,
                        ..cv
                    },
                    ..s1
                },
            )
        } else if s.parsing_length && c == 104 && cv.length == ConversionLength::Half {
            Err(
                UnfinishedScanfConversionSpecification {
                    conversion_under_construction: ScanfConversionSpecification {
                        length: ConversionLength::Byte,
                        ..cv
                    },
                    ..s1
                },
            )
        } else {
            scanf_fill_part(s1, c)
        }
    }
}

/// [`scanf_step`]: `c` fills the first empty part it can stand for.
pub open spec fn scanf_fill_part(s: UnfinishedScanfConversionSpecification, c: u8) -> Result<
    ScanfConversionSpecification,
    UnfinishedScanfConversionSpecification,
> {
    let cv = s.conversion_under_construction;
    if !cv.assignment_suppression && c == 42 {
        Err(
            UnfinishedScanfConversionSpecification {
                conversion_under_construction: ScanfConversionSpecification {
                    assignment_suppression: true,
                    ..cv
                },
                ..s
            },
        )
    } else if cv.width == ScanfConversionWidth::Unspecified && is_digit(c) {
        Err(
            UnfinishedScanfConversionSpecification {
                conversion_under_construction: ScanfConversionSpecification {
                    width: ScanfConversionWidth::Number((c - 48) as usize),
                    ..cv
                },
                parsing_width: true,
                ..s
            },
        )
    } else if cv.length == ConversionLength::Unspecified && length_of(c) is Some {
        Err(
            UnfinishedScanfConversionSpecification {
                conversion_under_construction: ScanfConversionSpecification {
                    length: length_of(c).unwrap().0,
                    ..cv
                },
                parsing_length: length_of(c).unwrap().1,
                ..s
            },
        )
    } else if cv.specifier == ConversionSpecifier::Unparsed && specifier_of(c) is Some {
        Ok(ScanfConversionSpecification { specifier: specifier_of(c)->0, ..cv })
    } else {
        Err(s)
    }
}

/// Reading `c` in state `s` appends a digit to a width that fits in `usize`.
pub open spec fn scanf_step_fits(s: UnfinishedScanfConversionSpecification, c: u8) -> bool {
    (s.parsing_width && is_digit(c)) ==> match s.conversion_under_construction.width {
        ScanfConversionWidth::Number(w) => push_digit(w, c) <= usize::MAX,
        _ => true,
    }
}

/// Reads one more character of a `scanf` conversion specification: `Ok`
/// with the whole specification once `c` is its conversion specifier, else
/// `Err` with what has been read so far.
pub fn add_char_to_scanf_specification(
    initial: UnfinishedScanfConversionSpecification,
    c: u8,
) -> (r: Result<ScanfConversionSpecification, UnfinishedScanfConversionSpecification>)
    requires
        scanf_step_fits(initial, c),
    ensures
        r == scanf_step(initial, c),
{
    let mut initial = initial;
    let ghost s0 = initial;
    if initial.parsing_width {
        if 48 /* '0' */ <= c && c <= 57 /* '9' */ {
            if let ScanfConversionWidth::Number(cur_width) = initial.conversion_under_construction.width {
                initial.conversion_under_construction.width = ScanfConversionWidth::Number(
                    append_digit(cur_width, c),
                );
            } else {
                initial.conversion_under_construction.width = ScanfConversionWidth::Unspecified;
                initial.parsing_width = false;
            }
            return Err(initial);
        }
        initial.parsing_width = false;
    }
    if initial.parsing_length {
        initial.parsing_length = false;
        if c == 108 /* 'l' */ {
            if initial.conversion_under_construction.length == ConversionLength::Long {
                initial.conversion_under_construction.length = ConversionLength::LongLong;
                return Err(initial);
            }
        } else if c == 104 /* 'h' */ {
            if initial.conversion_under_construction.length == ConversionLength::Half {
                initial.conversion_under_construction.length = ConversionLength::Byte;
                return Err(initial);
            }
        }
    }
    assert(scanf_step(s0, c) == scanf_fill_part(initial, c));
    if !initial.conversion_under_construction.assignment_suppression {
        if c == 42 /* '*' */ {
            initial.conversion_under_construction.assignment_suppression = true;
            return Err(initial);
        }
    }
    if initial.conversion_under_construction.width == ScanfConversionWidth::Unspecified {
        if 48 /* '0' */ <= c && c <= 57 /* '9' */ {
            initial.conversion_under_construction.width = ScanfConversionWidth::Number(
                (c - 48 /* '0' */) as usize,
            );
            initial.parsing_width = true;
            return Err(initial);
        }
    }
    if initial.conversion_under_construction.length == ConversionLength::Unspecified {
        if let Some((len, doubles)) = length_from_byte(c) {
            initial.conversion_under_construction.length = len;
            initial.parsing_length = doubles;
            return Err(initial);
        }
    }
    if initial.conversion_under_construction.specifier == ConversionSpecifier::Unparsed {
        if let Ok(val) = ConversionSpecifier::try_from_byte(c) {
            initial.conversion_under_construction.specifier = val;
            return Ok(initial.conversion_under_construction);
        }
    }
    Err(initial)
}

/// The letter C gives each conversion specifier (`%` for the escape); 0 for
/// the state in which none has been read.
pub open spec fn c_letter(s: ConversionSpecifier) -> u8 {
    match s {
        ConversionSpecifier::SignedInteger => 0x69,
        ConversionSpecifier::SignedDecimalInteger => 0x64,
        ConversionSpecifier::UnsignedDecimalInteger => 0x75,
        ConversionSpecifier::UnsignedOctalInteger => 0x6f,
        ConversionSpecifier::UnsignedHexIntegerLowerCase => 0x78,
        ConversionSpecifier::UnsignedHexIntegerUpperCase => 0x58,
        ConversionSpecifier::DecimalFloatLowerCase => 0x66,
        ConversionSpecifier::DeicmalFloatUpperCase => 0x46,
        ConversionSpecifier::ScientificNotationLowerCase => 0x65,
        ConversionSpecifier::ScientificNotationUpperCase => 0x45,
        ConversionSpecifier::ShortestFloatLowerCase => 0x67,
        ConversionSpecifier::ShortestFloatUpperCase => 0x47,
        ConversionSpecifier::HexFloatLowerCase => 0x61,
        ConversionSpecifier::HexFloatUpperCase => 0x41,
        ConversionSpecifier::Character => 0x63,
        ConversionSpecifier::String => 0x73,
        ConversionSpecifier::Pointer => 0x70,
        ConversionSpecifier::Escape => 0x25,
        ConversionSpecifier::Meta => 0x6e,
        ConversionSpecifier::Unparsed => 0,
    }
}

/// Whether the specifier prints letters (digits of hexadecimal, the
/// exponent mark, infinity and NaN) in uppercase.
pub open spec fn uppercase_output(s: ConversionSpecifier) -> bool {
    s == ConversionSpecifier::UnsignedHexIntegerUpperCase || s == ConversionSpecifier::DeicmalFloatUpperCase
        || s == ConversionSpecifier::ScientificNotationUpperCase || s == ConversionSpecifier::ShortestFloatUpperCase
        || s == ConversionSpecifier::HexFloatUpperCase
}

/// A byte names a specifier exactly where it is that specifier's C letter:
/// different bytes name different specifiers, so `x` and `X` stay apart.
pub proof fn lemma_specifier_letters(c: u8, s: ConversionSpecifier)
    ensures
        specifier_of(c) == Some(s) <==> s != ConversionSpecifier::Unparsed && c == c_letter(s),
{
}

/// Different bytes never name the same specifier.
pub proof fn lemma_specifier_injective(c1: u8, c2: u8)
    ensures
        specifier_of(c1) is Some && specifier_of(c1) == specifier_of(c2) ==> c1 == c2,
{
    if specifier_of(c1) is Some && specifier_of(c1) == specifier_of(c2) {
        lemma_specifier_letters(c1, specifier_of(c1)->0);
        lemma_specifier_letters(c2, specifier_of(c1)->0);
    }
}

/// The uppercase specifiers are named by uppercase letters and the others by
/// lowercase letters or `%`; a letter and its uppercase (32 below it) name
/// the lowercase and uppercase forms of one conversion.
pub proof fn lemma_specifier_case(c: u8)
    ensures
        specifier_of(c) matches Some(s) ==> (uppercase_output(s) <==> 0x41 <= c <= 0x5a),
        c == 0x78 ==> specifier_of(c) == Some(ConversionSpecifier::UnsignedHexIntegerLowerCase) && specifier_of(
            (c - 32) as u8,
        ) == Some(ConversionSpecifier::UnsignedHexIntegerUpperCase),
        specifier_of(c) matches Some(s) ==> (uppercase_output(s) ==> (specifier_of((c + 32) as u8) matches Some(t)
            && !uppercase_output(t))),
{
}

/// The flag characters stand for the flag constants (`-` left-justifies, `+`
/// always signs, ` ` puts a blank before positive numbers, `#` marks the
/// base, `0` pads with zeroes), each one bit of its own, and together for
/// every flag; different characters stand for different flags.
pub proof fn lemma_flag_bits(c1: u8, c2: u8)
    ensures
        flag_bit(45) == Some(conversion_flag::LEFT_JUSTIFY),
        flag_bit(43) == Some(conversion_flag::ALWAYS_PRECEED_WITH_SIGN),
        flag_bit(32) == Some(conversion_flag::PRECEED_WITH_BLANK_SPACE_IF_NO_SIGN),
        flag_bit(35) == Some(conversion_flag::PRECEED_WITH_BASE_MARKING),
        flag_bit(48) == Some(conversion_flag::LEFT_PAD_WITH_ZEROES),
        flag_bit(c1) matches Some(b) ==> b == 1 || b == 2 || b == 4 || b == 8 || b == 16,
        flag_bit(c1) is Some && flag_bit(c1) == flag_bit(c2) ==> c1 == c2,
        conversion_flag::LEFT_JUSTIFY + conversion_flag::ALWAYS_PRECEED_WITH_SIGN
            + conversion_flag::PRECEED_WITH_BLANK_SPACE_IF_NO_SIGN + conversion_flag::PRECEED_WITH_BASE_MARKING
            + conversion_flag::LEFT_PAD_WITH_ZEROES == all_flags(),
{
}

/// The length modifiers are C's: `h` and `l` (which may be doubled), `j`,
/// `z`, `t` and `L`; different characters start different modifiers.
pub proof fn lemma_length_letters(c1: u8, c2: u8)
    ensures
        length_of(104) == Some((ConversionLength::Half, true)),
        length_of(108) == Some((ConversionLength::Long, true)),
        length_of(c1) is Some && length_of(c1) == length_of(c2) ==> c1 == c2,
        length_of(c1) matches Some((_, doubles)) ==> (doubles <==> (c1 == 104 || c1 == 108)),
        length_of(c1) is Some ==> specifier_of(c1) is None && flag_bit(c1) is None,
{
}

} // verus!
