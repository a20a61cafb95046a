use ron::rlibc::cstr::{
    isdigit, isspace, strcat, strchr, strcmp, strcpy, strlen, strncpy, strstr, strtok, StrtokState,
};
use ron::rlibc::mem::{bcmp, memcmp, memcpy, memmove, memset};

#[test]
fn memory_functions() {
    let mut dest = [0u8; 6];
    memcpy(&mut dest, b"abcdef", 4);
    assert_eq!(&dest, b"abcd\0\0");
    assert_eq!(memcmp(b"abcx", b"abcd", 4), (b'x' as i32) - (b'd' as i32));
    assert_eq!(memcmp(b"abcx", b"abcd", 3), 0);
    assert_eq!(bcmp(b"a", b"b", 1), -1);
    memset(&mut dest, 0x141, 3);
    assert_eq!(&dest, b"AAAd\0\0");
    let mut buf = *b"123456";
    memmove(&mut buf, 2, 0, 4);
    assert_eq!(&buf, b"121234");
    let mut buf = *b"123456";
    memmove(&mut buf, 0, 2, 4);
    assert_eq!(&buf, b"345656");
}

#[test]
fn lengths_and_searches() {
    assert_eq!(strlen(b"hello\0world\0"), 5);
    assert_eq!(strchr(b"hello\0", b'l' as i32), Some(2));
    assert_eq!(strchr(b"hello\0", 0), Some(5));
    assert_eq!(strchr(b"hello\0x\0", b'x' as i32), None);
    assert_eq!(strstr(b"haystack\0", b"st\0"), Some(3));
    assert_eq!(strstr(b"haystack\0", b"sts\0"), None);
    // an empty string is found at once
    assert_eq!(strstr(b"\0", b"\0"), Some(0));
    assert_eq!(strstr(b"abc\0", b"\0"), Some(0));
}

#[test]
fn comparisons() {
    assert_eq!(strcmp(b"abc\0", b"abd\0"), (b'c' as i32) - (b'd' as i32));
    assert_eq!(strcmp(b"abc\0", b"abc\0"), 0);
    // only the shorter length is compared
    assert_eq!(strcmp(b"ab\0", b"abc\0"), 0);
    // one empty string gives -1 either way
    assert_eq!(strcmp(b"\0", b"a\0"), -1);
    assert_eq!(strcmp(b"a\0", b"\0"), -1);
    assert_eq!(strcmp(b"\0", b"\0"), 0);
}

#[test]
fn copies() {
    let mut dest = [b'#'; 8];
    strncpy(&mut dest, b"ab\0", 6);
    assert_eq!(&dest, b"ab\0\0\0\0##");
    let mut dest = [b'#'; 8];
    strncpy(&mut dest, b"abcdef\0", 3);
    assert_eq!(&dest, b"abc#####");
    let mut dest = [b'#'; 8];
    strcpy(&mut dest, b"hey\0");
    assert_eq!(&dest, b"hey\0####");
    strcat(&mut dest, b"you\0");
    assert_eq!(&dest, b"heyyou\0#");
}

#[test]
fn tokens() {
    let mut state = StrtokState::new();
    let mut buf = *b"  a,b;;cd \0";
    let delim = b" ,;\0";
    assert_eq!(strtok(&mut state, &mut buf, Some(0), delim), Some(2));
    assert_eq!(buf[3], 0);
    assert_eq!(strtok(&mut state, &mut buf, None, delim), Some(4));
    assert_eq!(strtok(&mut state, &mut buf, None, delim), Some(7));
    assert_eq!(&buf[7..10], b"cd\0");
    assert_eq!(strtok(&mut state, &mut buf, None, delim), None);
    // a string of delimiters only has no token
    let mut state = StrtokState::new();
    let mut only = *b",,\0";
    assert_eq!(strtok(&mut state, &mut only, Some(0), delim), None);
    assert_eq!(strtok(&mut state, &mut only, None, delim), None);
    // the last token runs to the end
    let mut state = StrtokState::new();
    let mut last = *b"x\0";
    assert_eq!(strtok(&mut state, &mut last, Some(0), delim), Some(0));
    assert_eq!(state.saved, None);
}

#[test]
fn character_classes() {
    for c in [0x20, 0x0c, 0x0a, 0x0d, 0x09, 0x0b] {
        assert_eq!(isspace(c), 1);
    }
    assert_eq!(isspace(b'a' as i32), 0);
    assert_eq!(isdigit(b'7' as i32), 1);
    assert_eq!(isdigit(b'/' as i32), 0);
    assert_eq!(isdigit(b'0' as i32 + 256), 1);
}
