use braincooker::is_ascii_printable;
use braincooker::parse_cell_value;

#[test]
fn ascii_printable_numbers() {
    let numbers = ('0'..='9').map(u32::from).all(is_ascii_printable);

    assert!(numbers);
}

#[test]
fn ascii_printable_letters() {
    let uppercase = ('A'..='Z').map(u32::from).all(is_ascii_printable);
    let lowercase = ('a'..='z').map(u32::from).all(is_ascii_printable);

    assert!(uppercase);
    assert!(lowercase);
}

#[test]
fn ascii_printable_signs() {
    let signs = ('!'..='/')
        .chain(':'..='@')
        .chain('['..='`')
        .chain('{'..='~')
        .map(u32::from)
        .all(is_ascii_printable);

    assert!(signs);
}

#[test]
fn ascii_printable_whitespaces() {
    let whitespaces = ['\t', '\n', ' ']
        .into_iter()
        .map(u32::from)
        .all(is_ascii_printable);

    assert!(whitespaces);
}

#[test]
fn ascii_printable_unprintable() {
    let unprintable = !('\0'..).take(9).map(u32::from).any(is_ascii_printable);

    assert!(unprintable);
}

#[test]
fn parse_letters() {
    assert_eq!(parse_cell_value("'A'"), Some(b'A'));
    assert_eq!(parse_cell_value("'Z'"), Some(b'Z'));
    assert_eq!(parse_cell_value("'a'"), Some(b'a'));
    assert_eq!(parse_cell_value("'z'"), Some(b'z'));
}

#[test]
fn parse_numbers() {
    assert_eq!(parse_cell_value("'0'"), Some(b'0'));
    assert_eq!(parse_cell_value("'1'"), Some(b'1'));
    assert_eq!(parse_cell_value("'9'"), Some(b'9'));
}

#[test]
fn parse_signs() {
    assert_eq!(parse_cell_value("'!'"), Some(b'!'));
    assert_eq!(parse_cell_value("'/'"), Some(b'/'));
    assert_eq!(parse_cell_value("':'"), Some(b':'));
    assert_eq!(parse_cell_value("'@'"), Some(b'@'));
    assert_eq!(parse_cell_value("'['"), Some(b'['));
    assert_eq!(parse_cell_value("'`'"), Some(b'`'));
    assert_eq!(parse_cell_value("'{'"), Some(b'{'));
    assert_eq!(parse_cell_value("'~'"), Some(b'~'));
}

#[test]
fn parse_other() {
    assert_eq!(parse_cell_value("'\t'"), Some(b'\t'));
    assert_eq!(parse_cell_value("'\n'"), Some(b'\n'));
    assert_eq!(parse_cell_value("' '"), Some(b' '));
    assert_eq!(parse_cell_value("'\0'"), Some(b'\0'));
}

#[test]
fn parse_raw_u8() {
    assert_eq!(parse_cell_value("0"), Some(0u8));
    assert_eq!(parse_cell_value("9"), Some(9u8));
    assert_eq!(parse_cell_value("10"), Some(10u8));
    assert_eq!(parse_cell_value("99"), Some(99u8));
    assert_eq!(parse_cell_value("100"), Some(100u8));
    assert_eq!(parse_cell_value("199"), Some(199u8));
    assert_eq!(parse_cell_value("200"), Some(200u8));
    assert_eq!(parse_cell_value("249"), Some(249u8));
    assert_eq!(parse_cell_value("250"), Some(250u8));
    assert_eq!(parse_cell_value("255"), Some(255u8));
    assert!(parse_cell_value::<u8>("256").is_none());
    assert!(parse_cell_value::<u8>("300").is_none());
}

#[test]
fn parse_raw_u16() {
    assert_eq!(parse_cell_value("0"), Some(0u16));
    assert_eq!(parse_cell_value("9"), Some(9u16));
    assert_eq!(parse_cell_value("10"), Some(10u16));
    assert_eq!(parse_cell_value("200"), Some(200u16));
    assert_eq!(parse_cell_value("3000"), Some(3000u16));
    assert_eq!(parse_cell_value("40000"), Some(40000u16));
    assert_eq!(parse_cell_value("50000"), Some(50000u16));
    assert_eq!(parse_cell_value("60000"), Some(60000u16));
    assert_eq!(parse_cell_value("65535"), Some(65535u16));
    assert!(parse_cell_value::<u16>("65536").is_none());
    assert!(parse_cell_value::<u16>("70000").is_none());
}

#[test]
fn parse_raw_u32() {
    assert_eq!(parse_cell_value("0"), Some(0u32));
    assert_eq!(parse_cell_value("9"), Some(9u32));
    assert_eq!(parse_cell_value("10"), Some(10u32));
    assert_eq!(parse_cell_value("200"), Some(200u32));
    assert_eq!(parse_cell_value("3000"), Some(3000u32));
    assert_eq!(parse_cell_value("40000"), Some(40000u32));
    assert_eq!(parse_cell_value("500000"), Some(500000u32));
    assert_eq!(parse_cell_value("6000000"), Some(6000000u32));
    assert_eq!(parse_cell_value("70000000"), Some(70000000u32));
    assert_eq!(parse_cell_value("800000000"), Some(800000000u32));
    assert_eq!(parse_cell_value("900000000"), Some(900000000u32));
    assert_eq!(parse_cell_value("4000000000"), Some(4000000000u32));
    assert_eq!(parse_cell_value("4294967295"), Some(4294967295u32));
    assert!(parse_cell_value::<u32>("4294967296").is_none());
    assert!(parse_cell_value::<u32>("5000000000").is_none());
}

#[test]
fn parse_padded() {
    assert_eq!(parse_cell_value("01"), Some(1u8));
    assert_eq!(parse_cell_value("001"), Some(1u8));
    assert_eq!(parse_cell_value("0000000"), Some(0u8));
    assert_eq!(parse_cell_value("000000255"), Some(255u8));
}

#[test]
fn parse_incorrect() {
    assert!(parse_cell_value::<u8>("-0").is_none());
    assert!(parse_cell_value::<u8>("-1").is_none());
    assert_ne!(parse_cell_value("      'A'      "), Some(b'A'));
    assert_ne!(parse_cell_value("'A'            "), Some(b'A'));
    assert_ne!(parse_cell_value("            'A'"), Some(b'A'));
    assert_ne!(parse_cell_value("      1      "), Some(1u8));
    assert_ne!(parse_cell_value("1            "), Some(1u8));
    assert_ne!(parse_cell_value("            1"), Some(1u8));
    assert_ne!(parse_cell_value::<u8>("'      a      '"), Some(b'a'));
    assert_ne!(parse_cell_value::<u8>("'a            '"), Some(b'a'));
    assert_ne!(parse_cell_value::<u8>("'            a'"), Some(b'a'));
}

#[test]
fn parse_empty_and_sign_only() {
    assert!(parse_cell_value::<u8>("").is_none());
    assert!(parse_cell_value::<u8>("+").is_none());
    assert_eq!(parse_cell_value("+5"), Some(5u8));
    assert!(parse_cell_value::<u8>("++5").is_none());
}
