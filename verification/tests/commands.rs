use std::time::Instant;

use blueis::commands::{blocking_continue, Action, Command};
use blueis::monitor::Monitor;
use blueis::store::ListStore;
use blueis::value::Value;

fn make_connection() -> ListStore {
    let mut store = ListStore::open_in_memory().unwrap();
    assert!(store.seed(b"test", b"abc", -4));
    assert!(store.seed(b"test", b"def", -5));
    store
}

fn add_more_items(store: &mut ListStore) {
    assert!(store.seed(b"test", b"ghi", -6));
    assert!(store.seed(b"test", b"jkl", -7));
    assert!(store.seed(b"test", b"mno", -8));
    assert!(store.seed(b"test", b"pqr", -9));
    assert!(store.seed(b"testu", b"abc", 1));
}

fn make_command(name: &str, arguments: &[&str]) -> Command {
    Command {
        name: String::from(name),
        arguments: arguments.iter().map(|arg| arg.as_bytes().to_vec()).collect(),
    }
}

fn run_command(
    store: &mut ListStore,
    name: &str,
    arguments: &[&str],
    expect_action: Action,
) -> Value {
    let mut monitor = Monitor::new(100);
    let command = make_command(name, arguments);
    let (value, action, _) = command.execute(store, &mut monitor);
    assert_eq!(action, expect_action);
    value
}

fn unpack(v: Value) -> Vec<String> {
    match v {
        Value::Array(items) => items
            .into_iter()
            .map(|item| match item {
                Value::Bulk(data) => String::from_utf8(data).unwrap(),
                _ => panic!("invalid"),
            })
            .collect(),
        _ => panic!("invalid"),
    }
}

fn list_key(store: &mut ListStore, key: &str) -> Vec<String> {
    unpack(run_command(store, "LRANGE", &[key, "0", "-1"], Action::Continue))
}

fn bulk(data: &str) -> Value {
    Value::Bulk(data.as_bytes().to_vec())
}

fn simple(data: &str) -> Value {
    Value::Simple(String::from(data))
}

/// Drives a blocking pop the way the session loop does: one pass over the
/// keys, then a busy re-check until the timeout elapses.
fn run_blocking(store: &mut ListStore, name: &str, arguments: &[&str]) -> Value {
    let mut monitor = Monitor::new(100);
    let command = make_command(name, arguments);
    let request = command.blocking_request().expect("not a blocking pop");
    let (timeout, from_right) = match request {
        Ok(q) => q,
        Err(v) => return v,
    };
    command.write_to_log(&mut monitor);
    let nkeys = command.arguments.len() - 1;
    let start = Instant::now();
    loop {
        if let Some(v) = Command::blocking_pop_step(store, &command.arguments, nkeys, !from_right)
        {
            return v;
        }
        let elapsed = start.elapsed().as_nanos() as u64;
        if !blocking_continue(true, timeout, elapsed) {
            return Value::NullArray;
        }
    }
}

#[test]
fn quit() {
    let mut c = make_connection();
    assert_eq!(run_command(&mut c, "QUIT", &[], Action::HangUp), simple("OK"));
}

#[test]
fn llen() {
    let mut c = make_connection();
    assert_eq!(run_command(&mut c, "LLEN", &["test"], Action::Continue), Value::Integer(2));
    assert_eq!(run_command(&mut c, "LLEN", &["other"], Action::Continue), Value::Integer(0));
}

#[test]
fn lpop() {
    let mut c = make_connection();
    assert_eq!(run_command(&mut c, "LPOP", &["test"], Action::Continue), bulk("def"));
    assert_eq!(run_command(&mut c, "LPOP", &["test"], Action::Continue), bulk("abc"));
    assert_eq!(run_command(&mut c, "LPOP", &["test"], Action::Continue), Value::Null);

    assert_eq!(run_command(&mut c, "LPOP", &["other"], Action::Continue), Value::Null);
}

#[test]
fn rpop() {
    let mut c = make_connection();
    assert_eq!(run_command(&mut c, "RPOP", &["test"], Action::Continue), bulk("abc"));
    assert_eq!(run_command(&mut c, "RPOP", &["test"], Action::Continue), bulk("def"));
    assert_eq!(run_command(&mut c, "RPOP", &["test"], Action::Continue), Value::Null);

    assert_eq!(run_command(&mut c, "RPOP", &["other"], Action::Continue), Value::Null);
}

#[test]
fn lpush() {
    let mut c = make_connection();
    assert_eq!(run_command(&mut c, "LPUSH", &["test", "ghi"], Action::Continue), Value::Integer(3));
    assert_eq!(run_command(&mut c, "LPUSH", &["test", "jkl"], Action::Continue), Value::Integer(4));
    assert_eq!(list_key(&mut c, "test"), vec!["jkl", "ghi", "def", "abc"]);

    assert_eq!(run_command(&mut c, "LPUSH", &["other", "pqr"], Action::Continue), Value::Integer(1));
    assert_eq!(list_key(&mut c, "other"), vec!["pqr"]);
}

#[test]
fn lpushx() {
    let mut c = make_connection();
    assert_eq!(run_command(&mut c, "LPUSHX", &["test", "ghi"], Action::Continue), Value::Integer(3));
    assert_eq!(run_command(&mut c, "LPUSHX", &["test", "jkl"], Action::Continue), Value::Integer(4));
    assert_eq!(list_key(&mut c, "test"), vec!["jkl", "ghi", "def", "abc"]);

    assert_eq!(
        run_command(&mut c, "LPUSHX", &["other", "pqr"], Action::Continue),
        Value::Integer(0)
    );
    assert_eq!(list_key(&mut c, "other"), Vec::<String>::new());
}

#[test]
fn rpush() {
    let mut c = make_connection();
    assert_eq!(run_command(&mut c, "RPUSH", &["test", "ghi"], Action::Continue), Value::Integer(3));
    assert_eq!(run_command(&mut c, "RPUSH", &["test", "jkl"], Action::Continue), Value::Integer(4));
    assert_eq!(list_key(&mut c, "test"), vec!["def", "abc", "ghi", "jkl"]);

    assert_eq!(run_command(&mut c, "RPUSH", &["other", "pqr"], Action::Continue), Value::Integer(1));
    assert_eq!(list_key(&mut c, "other"), vec!["pqr"]);
}

#[test]
fn rpushx() {
    let mut c = make_connection();
    assert_eq!(run_command(&mut c, "RPUSHX", &["test", "ghi"], Action::Continue), Value::Integer(3));
    assert_eq!(run_command(&mut c, "RPUSHX", &["test", "jkl"], Action::Continue), Value::Integer(4));
    assert_eq!(list_key(&mut c, "test"), vec!["def", "abc", "ghi", "jkl"]);

    assert_eq!(
        run_command(&mut c, "RPUSHX", &["other", "pqr"], Action::Continue),
        Value::Integer(0)
    );
    assert_eq!(list_key(&mut c, "other"), Vec::<String>::new());
}

#[test]
fn lrange() {
    let mut c = make_connection();
    add_more_items(&mut c);

    let cases: &[(&[&str], &[&str])] = &[
        (&["test", "0", "-1"], &["pqr", "mno", "jkl", "ghi", "def", "abc"]),
        (&["test", "0", "2"], &["pqr", "mno", "jkl"]),
        (&["test", "3", "-1"], &["ghi", "def", "abc"]),
        (&["test", "9", "-1"], &[]),
        (&["test", "3", "2"], &[]),
        (&["test", "-100", "-80"], &[]),
        (&["other", "0", "-1"], &[]),
        (&["test", "3", "3"], &["ghi"]),
        (&["test", "3", "4"], &["ghi", "def"]),
        (&["test", "3", "5"], &["ghi", "def", "abc"]),
        (&["test", "3", "6"], &["ghi", "def", "abc"]),
        (&["test", "3", "-3"], &["ghi"]),
        (&["test", "3", "-2"], &["ghi", "def"]),
        (&["test", "-3", "3"], &["ghi"]),
        (&["test", "-3", "4"], &["ghi", "def"]),
        (&["test", "-3", "-3"], &["ghi"]),
        (&["test", "-3", "-2"], &["ghi", "def"]),
    ];

    for (arguments, expected) in cases {
        let got = unpack(run_command(&mut c, "LRANGE", arguments, Action::Continue));
        assert_eq!(&got, expected);
    }
}

#[test]
fn ltrim() {
    let mut c = make_connection();
    add_more_items(&mut c);

    assert_eq!(run_command(&mut c, "LTRIM", &["test", "0", "-1"], Action::Continue), simple("OK"));
    assert_eq!(list_key(&mut c, "test"), vec!["pqr", "mno", "jkl", "ghi", "def", "abc"]);

    assert_eq!(run_command(&mut c, "LTRIM", &["test", "1", "-2"], Action::Continue), simple("OK"));
    assert_eq!(list_key(&mut c, "test"), vec!["mno", "jkl", "ghi", "def"]);

    assert_eq!(run_command(&mut c, "LTRIM", &["test", "-3", "2"], Action::Continue), simple("OK"));
    assert_eq!(list_key(&mut c, "test"), vec!["jkl", "ghi"]);

    assert_eq!(
        run_command(&mut c, "LTRIM", &["test", "300", "200"], Action::Continue),
        simple("OK")
    );
    assert_eq!(list_key(&mut c, "test"), Vec::<String>::new());
}

#[test]
fn rpoplpush() {
    let mut c = make_connection();

    assert_eq!(run_command(&mut c, "RPOPLPUSH", &["test", "other"], Action::Continue), bulk("abc"));
    assert_eq!(list_key(&mut c, "test"), vec!["def"]);
    assert_eq!(list_key(&mut c, "other"), vec!["abc"]);

    assert_eq!(run_command(&mut c, "RPOPLPUSH", &["test", "other"], Action::Continue), bulk("def"));
    assert_eq!(list_key(&mut c, "test"), Vec::<String>::new());
    assert_eq!(list_key(&mut c, "other"), vec!["def", "abc"]);

    assert_eq!(
        run_command(&mut c, "RPOPLPUSH", &["test", "other"], Action::Continue),
        Value::Null
    );
    assert_eq!(list_key(&mut c, "test"), Vec::<String>::new());
    assert_eq!(list_key(&mut c, "other"), vec!["def", "abc"]);
}

#[test]
fn lindex() {
    let mut c = make_connection();

    assert_eq!(run_command(&mut c, "LINDEX", &["test", "0"], Action::Continue), bulk("def"));
    assert_eq!(run_command(&mut c, "LINDEX", &["test", "1"], Action::Continue), bulk("abc"));
    assert_eq!(run_command(&mut c, "LINDEX", &["test", "2"], Action::Continue), Value::Null);
    assert_eq!(run_command(&mut c, "LINDEX", &["test", "-1"], Action::Continue), bulk("abc"));
    assert_eq!(run_command(&mut c, "LINDEX", &["test", "-2"], Action::Continue), bulk("def"));
    assert_eq!(run_command(&mut c, "LINDEX", &["test", "-3"], Action::Continue), Value::Null);
}

#[test]
fn lset() {
    let mut c = make_connection();

    assert_eq!(run_command(&mut c, "LSET", &["test", "0", "first"], Action::Continue), simple("OK"));
    assert_eq!(list_key(&mut c, "test"), vec!["first", "abc"]);

    assert_eq!(
        run_command(&mut c, "LSET", &["test", "1", "second"], Action::Continue),
        simple("OK")
    );
    assert_eq!(list_key(&mut c, "test"), vec!["first", "second"]);

    assert_eq!(
        run_command(&mut c, "LSET", &["test", "-1", "apple"], Action::Continue),
        simple("OK")
    );
    assert_eq!(list_key(&mut c, "test"), vec!["first", "apple"]);

    assert_eq!(
        run_command(&mut c, "LSET", &["test", "-2", "banana"], Action::Continue),
        simple("OK")
    );
    assert_eq!(list_key(&mut c, "test"), vec!["banana", "apple"]);

    assert_eq!(
        run_command(&mut c, "LSET", &["test", "-3", "nope"], Action::Continue),
        Value::Error(String::from("ERR index out of range"))
    );
    assert_eq!(
        run_command(&mut c, "LSET", &["test", "2", "nope"], Action::Continue),
        Value::Error(String::from("ERR index out of range"))
    );
}

#[test]
fn blpop() {
    let mut c = make_connection();

    run_command(&mut c, "RPUSH", &["other", "value"], Action::Continue);

    assert_eq!(
        run_blocking(&mut c, "BLPOP", &["test", "other", "1"]),
        Value::Array(vec![bulk("test"), bulk("def")])
    );
    assert_eq!(
        run_blocking(&mut c, "BLPOP", &["test", "other", "1"]),
        Value::Array(vec![bulk("test"), bulk("abc")])
    );
    assert_eq!(
        run_blocking(&mut c, "BLPOP", &["test", "other", "1"]),
        Value::Array(vec![bulk("other"), bulk("value")])
    );

    let start = Instant::now();
    assert_eq!(run_blocking(&mut c, "BLPOP", &["test", "other", "1"]), Value::NullArray);
    assert_eq!(start.elapsed().as_secs(), 1);
}

#[test]
fn brpop() {
    let mut c = make_connection();

    run_command(&mut c, "RPUSH", &["other", "value"], Action::Continue);

    assert_eq!(
        run_blocking(&mut c, "BRPOP", &["test", "other", "1"]),
        Value::Array(vec![bulk("test"), bulk("abc")])
    );
    assert_eq!(
        run_blocking(&mut c, "BRPOP", &["test", "other", "1"]),
        Value::Array(vec![bulk("test"), bulk("def")])
    );
    assert_eq!(
        run_blocking(&mut c, "BRPOP", &["test", "other", "1"]),
        Value::Array(vec![bulk("other"), bulk("value")])
    );

    let start = Instant::now();
    assert_eq!(run_blocking(&mut c, "BRPOP", &["test", "other", "1"]), Value::NullArray);
    assert_eq!(start.elapsed().as_secs(), 1);
}

#[test]
fn blocking_pop_answers_immediately_when_a_key_holds_data() {
    let mut c = make_connection();
    let start = Instant::now();
    assert_eq!(
        run_blocking(&mut c, "BLPOP", &["test", "0"]),
        Value::Array(vec![bulk("test"), bulk("def")])
    );
    assert!(start.elapsed().as_secs() < 1);
}

#[test]
fn blocking_pop_rejects_a_negative_timeout() {
    let mut c = make_connection();
    assert_eq!(
        run_blocking(&mut c, "BLPOP", &["test", "-1"]),
        Value::Error(String::from("ERR timeout is negative"))
    );
    assert_eq!(
        run_blocking(&mut c, "BLPOP", &["test", "soon"]),
        Value::Error(String::from("ERR argument must be an integer"))
    );
}

#[test]
fn unknown_and_malformed_commands_are_answered_with_errors() {
    let mut c = make_connection();
    assert_eq!(
        run_command(&mut c, "GET", &["test"], Action::Continue),
        Value::Error(String::from("ERR unsupported"))
    );
    assert_eq!(
        run_command(&mut c, "LLEN", &[], Action::Continue),
        Value::Error(String::from("ERR wrong number of arguments"))
    );
    assert_eq!(
        run_command(&mut c, "LRANGE", &["test", "zero", "-1"], Action::Continue),
        Value::Error(String::from("ERR argument must be an integer"))
    );
}

#[test]
fn command_names_match_case_insensitively() {
    let mut c = make_connection();
    assert_eq!(run_command(&mut c, "llen", &["test"], Action::Continue), Value::Integer(2));
    assert_eq!(run_command(&mut c, "LpOp", &["test"], Action::Continue), bulk("def"));
    assert_eq!(run_command(&mut c, "monitor", &[], Action::StartMonitor), simple("OK"));
}

#[test]
fn pushed_bytes_round_trip_unchanged() {
    let mut store = ListStore::open_in_memory().unwrap();
    let mut monitor = Monitor::new(100);
    let payload: Vec<u8> = vec![0, 255, 13, 10, 36, 128, 7];
    let command = Command {
        name: String::from("RPUSH"),
        arguments: vec![b"bin".to_vec(), payload.clone()],
    };
    let (value, _, notified) = command.execute(&mut store, &mut monitor);
    assert_eq!(value, Value::Integer(1));
    assert!(notified);
    let pop = Command { name: String::from("LPOP"), arguments: vec![b"bin".to_vec()] };
    let (value, _, _) = pop.execute(&mut store, &mut monitor);
    assert_eq!(value, Value::Bulk(payload));
}

#[test]
fn element_counts_balance_across_operations() {
    let mut c = ListStore::open_in_memory().unwrap();
    run_command(&mut c, "RPUSH", &["k", "a", "b", "c", "d"], Action::Continue);
    assert_eq!(run_command(&mut c, "LLEN", &["k"], Action::Continue), Value::Integer(4));
    run_command(&mut c, "LPOP", &["k"], Action::Continue);
    assert_eq!(run_command(&mut c, "LLEN", &["k"], Action::Continue), Value::Integer(3));
    run_command(&mut c, "LTRIM", &["k", "0", "1"], Action::Continue);
    assert_eq!(run_command(&mut c, "LLEN", &["k"], Action::Continue), Value::Integer(2));
    run_command(&mut c, "LSET", &["k", "0", "x"], Action::Continue);
    assert_eq!(run_command(&mut c, "LLEN", &["k"], Action::Continue), Value::Integer(2));
    run_command(&mut c, "RPOPLPUSH", &["k", "j"], Action::Continue);
    assert_eq!(run_command(&mut c, "LLEN", &["k"], Action::Continue), Value::Integer(1));
    assert_eq!(run_command(&mut c, "LLEN", &["j"], Action::Continue), Value::Integer(1));
}

#[test]
fn lindex_agrees_with_lrange_on_every_valid_index() {
    let mut c = make_connection();
    add_more_items(&mut c);
    let all = list_key(&mut c, "test");
    for i in 0..all.len() {
        let pos = format!("{}", i);
        let neg = format!("-{}", all.len() - i);
        assert_eq!(
            run_command(&mut c, "LINDEX", &["test", &pos], Action::Continue),
            bulk(&all[i])
        );
        assert_eq!(
            run_command(&mut c, "LINDEX", &["test", &neg], Action::Continue),
            bulk(&all[i])
        );
    }
}

#[test]
fn lset_then_lindex_returns_the_new_value() {
    let mut c = make_connection();
    assert_eq!(run_command(&mut c, "LSET", &["test", "1", "fresh"], Action::Continue), simple("OK"));
    assert_eq!(run_command(&mut c, "LINDEX", &["test", "1"], Action::Continue), bulk("fresh"));
}

#[test]
fn push_then_pop_returns_the_pushed_value() {
    let mut c = ListStore::open_in_memory().unwrap();
    run_command(&mut c, "LPUSH", &["k", "v"], Action::Continue);
    assert_eq!(run_command(&mut c, "LPOP", &["k"], Action::Continue), bulk("v"));
    run_command(&mut c, "RPUSH", &["k", "w"], Action::Continue);
    assert_eq!(run_command(&mut c, "RPOP", &["k"], Action::Continue), bulk("w"));
}

#[test]
fn accepted_commands_are_logged_in_dispatch_order() {
    let mut store = make_connection();
    let mut monitor = Monitor::new(100);
    let mut listener = monitor.listen();

    let first = make_command("LLEN", &["test"]);
    first.execute(&mut store, &mut monitor);
    let second = make_command("GET", &["test"]);
    second.execute(&mut store, &mut monitor);
    let third = make_command("lpop", &["test"]);
    third.execute(&mut store, &mut monitor);

    let line = listener.recv(&monitor).unwrap();
    assert!(line.ends_with(" \"LLEN\" \"test\""));
    let line = listener.recv(&monitor).unwrap();
    assert!(line.ends_with(" \"lpop\" \"test\""));
    assert_eq!(listener.recv(&monitor), None);
}

#[test]
fn seed_refuses_an_occupied_position() {
    let mut store = ListStore::open_in_memory().unwrap();
    assert!(store.seed(b"k", b"a", 3));
    assert!(!store.seed(b"k", b"b", 3));
    assert!(store.seed(b"k", b"b", 4));
    assert_eq!(list_key(&mut store, "k"), vec!["a", "b"]);
}

#[test]
fn set_up_tables_writes_and_accepts_the_version_marker() {
    let mut store = ListStore::open_in_memory().unwrap();
    assert!(store.seed(b"k", b"a", 1));
    assert_eq!(store.set_up_tables(), Ok(()));
    assert_eq!(store.set_up_tables(), Ok(()));
    assert_eq!(list_key(&mut store, "k"), vec!["a"]);
}

#[test]
fn blocking_wait_is_capped_at_one_second_and_the_deadline() {
    assert_eq!(blueis::commands::blocking_wait_nanos(0, 123), 1_000_000_000);
    assert_eq!(blueis::commands::blocking_wait_nanos(5, 0), 1_000_000_000);
    assert_eq!(blueis::commands::blocking_wait_nanos(1, 800_000_000), 200_000_000);
    assert_eq!(blueis::commands::blocking_wait_nanos(1, 2_000_000_000), 0);
    assert!(blocking_continue(true, 0, u64::MAX));
    assert!(!blocking_continue(false, 0, 0));
    assert!(blocking_continue(true, 2, 1_999_999_999));
    assert!(!blocking_continue(true, 2, 2_000_000_000));
}
