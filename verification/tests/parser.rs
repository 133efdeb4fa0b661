use voxel_mesh::voxel_data::VoxelError;
use voxel_mesh::voxel_data::txt::Coord;
use voxel_mesh::voxel_data::txt::Rgb;
use voxel_mesh::voxel_data::txt::from_dec;
use voxel_mesh::voxel_data::txt::from_hex;
use voxel_mesh::voxel_data::txt::import_txt;
use voxel_mesh::voxel_data::txt::is_hex_digit;

#[test]
fn it_parses() {
    let s = import_txt(
        "#This is a comment\n    10 20 30 abcdef #end of line comment\n    11 -21 31 012345\n\n    12 22 32 6789AB",
    )
    .unwrap();

    assert_eq!(s[0], (Rgb::new(0xab, 0xcd, 0xef), Coord::new(10, -30, 20)));
    assert_eq!(s[1], (Rgb::new(0x01, 0x23, 0x45), Coord::new(11, -31, -21)));
    assert_eq!(s[2], (Rgb::new(0x67, 0x89, 0xab), Coord::new(12, -32, 22)));
    assert_eq!(s.len(), 3);
}

#[test]
fn parser_axis_remap() {
    let s = import_txt("10 20 30 abcdef").unwrap();
    assert_eq!(s, vec![(Rgb::new(0xab, 0xcd, 0xef), Coord::new(10, -30, 20))]);

    let s2 = import_txt("11 -21 31 012345").unwrap();
    assert_eq!(s2, vec![(Rgb::new(0x01, 0x23, 0x45), Coord::new(11, -31, -21))]);
}

#[test]
fn parses_blank_lines_comments_and_tabs() {
    let s = import_txt("\n\n# header\n0\t0\t0\tff0000\n   \n2 2 2 00ff00\n").unwrap();
    assert_eq!(s.len(), 2);
    assert_eq!(s[0], (Rgb::new(0xff, 0, 0), Coord::new(0, 0, 0)));
    assert_eq!(s[1], (Rgb::new(0, 0xff, 0), Coord::new(2, -2, 2)));
}

#[test]
fn parses_crlf_line_endings() {
    let s = import_txt("0 0 0 112233\r\n1 1 1 445566").unwrap();
    assert_eq!(s.len(), 2);
    assert_eq!(s[1], (Rgb::new(0x44, 0x55, 0x66), Coord::new(1, -1, 1)));
}

#[test]
fn empty_input_parses_to_no_records() {
    assert_eq!(import_txt(""), Ok(vec![]));
    assert_eq!(import_txt("# nothing but a comment"), Ok(vec![]));
}

#[test]
fn parse_failure_missing_color() {
    assert!(import_txt("10 20 30").is_err());
    // one bad line fails the whole parse, valid lines notwithstanding
    assert_eq!(
        import_txt("1 2 3 ab01ef\n10 20 30\n"),
        Err(VoxelError::Parse)
    );
}

#[test]
fn parse_failure_bad_hex() {
    assert!(import_txt("10 20 30 zzzzzz").is_err());
    assert!(import_txt("10 20 30 abcde").is_err());
    assert!(import_txt("10 20 30 abcdefff").is_err());
}

#[test]
fn parse_failure_trailing_garbage() {
    assert!(import_txt("10 20 30 abcdef xyz").is_err());
}

#[test]
fn hex_parses() {
    assert_eq!(from_hex("ff"), Ok(255));
    assert_eq!(from_hex("0A"), Ok(10));
    assert_eq!(from_hex("7"), Ok(7));
    assert_eq!(from_hex("0000ff"), Ok(255));
    assert!(from_hex("").is_err());
    assert!(from_hex("fff").is_err());
    assert!(from_hex("g").is_err());
}

#[test]
fn dec_parses() {
    assert_eq!(from_dec("123"), Ok(123));
    assert_eq!(from_dec("-42"), Ok(-42));
    assert_eq!(from_dec("0"), Ok(0));
    assert_eq!(from_dec("9223372036854775807"), Ok(i64::MAX));
    assert_eq!(from_dec("-9223372036854775808"), Ok(i64::MIN));
    assert!(from_dec("").is_err());
    assert!(from_dec("-").is_err());
    assert!(from_dec("12a").is_err());
    assert!(from_dec("99999999999999999999").is_err());
}

#[test]
fn hex_digit_classes() {
    assert!(is_hex_digit('0'));
    assert!(is_hex_digit('9'));
    assert!(is_hex_digit('a'));
    assert!(is_hex_digit('f'));
    assert!(is_hex_digit('A'));
    assert!(is_hex_digit('F'));
    assert!(!is_hex_digit('g'));
    assert!(!is_hex_digit('G'));
    assert!(!is_hex_digit(' '));
    assert!(!is_hex_digit('-'));
}
