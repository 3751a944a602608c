use blueis::commands::Command;
use blueis::text::{parse_i64, quote_string};

#[test]
fn integer_arguments_parse_exactly_as_signed_decimals() {
    assert_eq!(parse_i64(b"0"), Some(0));
    assert_eq!(parse_i64(b"42"), Some(42));
    assert_eq!(parse_i64(b"-1"), Some(-1));
    assert_eq!(parse_i64(b"+7"), Some(7));
    assert_eq!(parse_i64(b"0009"), Some(9));
    assert_eq!(parse_i64(b"9223372036854775807"), Some(i64::MAX));
    assert_eq!(parse_i64(b"-9223372036854775808"), Some(i64::MIN));
    assert_eq!(parse_i64(b"9223372036854775808"), None);
    assert_eq!(parse_i64(b"-9223372036854775809"), None);
    assert_eq!(parse_i64(b"99999999999999999999999"), None);
    assert_eq!(parse_i64(b""), None);
    assert_eq!(parse_i64(b"-"), None);
    assert_eq!(parse_i64(b"+"), None);
    assert_eq!(parse_i64(b"1.5"), None);
    assert_eq!(parse_i64(b" 1"), None);
    assert_eq!(parse_i64(b"--1"), None);
    assert_eq!(parse_i64(b"abc"), None);
}

#[test]
fn quoting_escapes_like_the_monitor_log() {
    assert_eq!(quote_string(b"plain"), "\"plain\"");
    assert_eq!(quote_string(b""), "\"\"");
    assert_eq!(quote_string(b"a\\b"), "\"a\\\\b\"");
    assert_eq!(quote_string(b"say \"hi\""), "\"say \\\"hi\\\"\"");
    assert_eq!(quote_string(&[0, 10, 31, 127, 255]), "\"\\x00\\x0a\\x1f\\x7f\\xff\"");
}

#[test]
fn log_lines_carry_the_timestamp_and_every_quoted_token() {
    let command = Command {
        name: String::from("LpUsh"),
        arguments: vec![b"key".to_vec(), vec![0x00, 0x41]],
    };
    assert_eq!(command.log_line(5, 42), "5.000000042 \"LpUsh\" \"key\" \"\\x00A\"");

    let bare = Command { name: String::from("QUIT"), arguments: vec![] };
    assert_eq!(bare.log_line(-3, 999_999_999), "-3.999999999 \"QUIT\" ");
}
