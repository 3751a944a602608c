use blueis::parser::parse_command;
use blueis::value::Value;

#[test]
fn converts_a_valid_value() {
    let value = Value::Array(vec![
        Value::Simple(String::from("COMMAND")),
        Value::Simple(String::from("argument")),
    ]);
    let (name, arguments) = parse_command(&value).unwrap();

    assert_eq!(name, "COMMAND");
    assert_eq!(arguments, vec![b"argument".to_vec()]);
}

#[test]
fn rejects_a_value_that_is_not_an_array() {
    let value = Value::Simple(String::from("COMMAND"));
    assert!(parse_command(&value).is_err());
}

#[test]
fn rejects_a_value_has_non_string_values_in_the_array() {
    let value = Value::Array(vec![Value::Simple(String::from("COMMAND")), Value::Integer(2)]);
    assert!(parse_command(&value).is_err());
}

#[test]
fn accepts_bulk_elements_and_keeps_their_bytes() {
    let value = Value::Array(vec![
        Value::Bulk(b"lpush".to_vec()),
        Value::Bulk(vec![0, 159, 146, 150]),
    ]);
    let (name, arguments) = parse_command(&value).unwrap();
    assert_eq!(name, "lpush");
    assert_eq!(arguments, vec![vec![0, 159, 146, 150]]);
}

#[test]
fn rejects_a_name_that_is_not_utf8() {
    let value = Value::Array(vec![Value::Bulk(vec![0xff, 0xfe])]);
    assert_eq!(parse_command(&value), Err(String::from("invalid command name")));
}

#[test]
fn rejects_an_empty_array() {
    let value = Value::Array(vec![]);
    assert_eq!(parse_command(&value), Err(String::from("expected array")));
}
