use maze_hash::text::{parse_u64, push_decimal, trim_newline};

#[test]
fn trim_newline_removes_one_line_ending() {
    let mut s = "abc\n".to_string();
    trim_newline(&mut s);
    assert_eq!(s, "abc");
    let mut s = "abc\r\n".to_string();
    trim_newline(&mut s);
    assert_eq!(s, "abc");
    let mut s = "abc\r".to_string();
    trim_newline(&mut s);
    assert_eq!(s, "abc\r");
    let mut s = "a\n\n".to_string();
    trim_newline(&mut s);
    assert_eq!(s, "a\n");
    let mut s = String::new();
    trim_newline(&mut s);
    assert_eq!(s, "");
    let mut s = "\r\n".to_string();
    trim_newline(&mut s);
    assert_eq!(s, "");
}

#[test]
fn decimal_text() {
    for v in [0i32, 7, -2, 10, 1234567, -1, i32::MAX, i32::MIN] {
        let mut s = "x".to_string();
        push_decimal(&mut s, v);
        assert_eq!(s, format!("x{}", v));
    }
}

#[test]
fn parse_u64_like_std() {
    let cases = [
        "", "0", "12", "+7", "+", "-1", "-", "1a", " 1", "007",
        "18446744073709551615", "18446744073709551616", "99999999999999999999999", "+18446744073709551615",
        "111111111111111111", "٣",
    ];
    for c in cases {
        assert_eq!(parse_u64(c), c.parse::<u64>().ok(), "parsing {:?}", c);
    }
    assert_eq!(parse_u64("12"), Some(12));
    assert_eq!(parse_u64("+7"), Some(7));
    assert_eq!(parse_u64(""), None);
}
