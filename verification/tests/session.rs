use blueis::commands::Action;
use blueis::monitor::Monitor;
use blueis::session::handle_input;
use blueis::store::ListStore;
use blueis::value::Value;

#[test]
fn a_frame_runs_end_to_end_through_the_session_step() {
    let mut store = ListStore::open_in_memory().unwrap();
    let mut monitor = Monitor::new(100);

    let frame = Value::Array(vec![
        Value::Bulk(b"RPUSH".to_vec()),
        Value::Bulk(b"mylist".to_vec()),
        Value::Bulk(b"a".to_vec()),
        Value::Bulk(b"b".to_vec()),
        Value::Bulk(b"c".to_vec()),
    ]);
    let (value, action, notified) = handle_input(&frame, &mut store, &mut monitor);
    assert_eq!(value, Value::Integer(3));
    assert_eq!(action, Action::Continue);
    assert!(notified);

    let frame = Value::Array(vec![
        Value::Bulk(b"LRANGE".to_vec()),
        Value::Bulk(b"mylist".to_vec()),
        Value::Bulk(b"0".to_vec()),
        Value::Bulk(b"-1".to_vec()),
    ]);
    let (value, action, notified) = handle_input(&frame, &mut store, &mut monitor);
    assert_eq!(
        value,
        Value::Array(vec![
            Value::Bulk(b"a".to_vec()),
            Value::Bulk(b"b".to_vec()),
            Value::Bulk(b"c".to_vec()),
        ])
    );
    assert_eq!(action, Action::Continue);
    assert!(!notified);
}

#[test]
fn a_frame_that_is_no_command_is_answered_with_an_error() {
    let mut store = ListStore::open_in_memory().unwrap();
    let mut monitor = Monitor::new(100);

    let (value, action, notified) = handle_input(&Value::Integer(7), &mut store, &mut monitor);
    assert_eq!(value, Value::Error(String::from("ERR expected array")));
    assert_eq!(action, Action::Continue);
    assert!(!notified);

    let frame = Value::Array(vec![Value::Bulk(b"LLEN".to_vec()), Value::Integer(1)]);
    let (value, _, _) = handle_input(&frame, &mut store, &mut monitor);
    assert_eq!(value, Value::Error(String::from("ERR all arguments should be strings")));

    let frame = Value::Array(vec![Value::Bulk(b"QUIT".to_vec())]);
    let (value, action, _) = handle_input(&frame, &mut store, &mut monitor);
    assert_eq!(value, Value::Simple(String::from("OK")));
    assert_eq!(action, Action::HangUp);
}
