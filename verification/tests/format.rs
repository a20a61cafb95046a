use ron::rlibc::format::{
    char_to_digit, format_pointer, format_signed_decimal, number_to_string_in_radix, push_scanned_digit, PrintfAction,
    PrintfState,
};
use ron::rlibc::specifier_parsing::ConversionSpecifier;

#[test]
fn numbers_in_radix() {
    assert_eq!(number_to_string_in_radix(255, 16, false), b"ff".to_vec());
    assert_eq!(number_to_string_in_radix(255, 16, true), b"FF".to_vec());
    assert_eq!(number_to_string_in_radix(8, 8, false), b"10".to_vec());
    assert_eq!(number_to_string_in_radix(1234567890, 10, false), b"1234567890".to_vec());
    // zero has no digits
    assert_eq!(number_to_string_in_radix(0, 10, false), Vec::<u8>::new());
}

#[test]
fn signed_decimals_and_pointers() {
    assert_eq!(format_signed_decimal(-42), b"-42".to_vec());
    assert_eq!(format_signed_decimal(7), b"7".to_vec());
    assert_eq!(format_signed_decimal(i32::MAX), b"2147483647".to_vec());
    assert_eq!(format_pointer(0xdead), b"0xdead".to_vec());
}

#[test]
fn digits_read_back() {
    for d in 0..16u64 {
        let s = number_to_string_in_radix(d + 16, 16, d % 2 == 0);
        assert_eq!(char_to_digit(s[1]), Some(d as u8));
    }
    assert_eq!(char_to_digit(b'g'), None);
    assert_eq!(char_to_digit(b'F'), Some(15));
    assert_eq!(push_scanned_digit(None, 4, 10), 4);
    assert_eq!(push_scanned_digit(Some(12), 3, 10), 123);
    assert_eq!(push_scanned_digit(Some(-1), 15, 16), -1);
}

#[test]
fn printf_walks_its_format_string() {
    let mut st = PrintfState::new();
    let mut out = Vec::new();
    let mut specs = Vec::new();
    for c in b"a%5dz%%".iter() {
        match st.step(*c) {
            PrintfAction::Emit(b) => out.push(b),
            PrintfAction::Absorb => {},
            PrintfAction::Convert(spec) => specs.push(spec),
        }
    }
    assert_eq!(out, b"az".to_vec());
    assert_eq!(specs.len(), 2);
    assert_eq!(specs[0].specifier, ConversionSpecifier::SignedDecimalInteger);
    assert_eq!(specs[1].specifier, ConversionSpecifier::Escape);
}
