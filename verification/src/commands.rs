//! The command layer: classifying a named command, checking its argument
//! count, logging it, and carrying it out against the list store.

use vstd::prelude::*;
use vstd::utf8::encode_utf8;

use crate::model::{
    left_margin_ok, lemma_lookup_at_pos_props, lemma_push_left_all_props,
    lemma_push_right_all_props, lemma_trim_keep_none, lemma_trim_keep_props,
    lemma_trim_keep_same, lemma_update_at_pos_props, lindex_result, lrange_result, lset_in_range,
    lset_result, ltrim_result, push_left_all, push_left_one, push_right_all, right_margin_ok,
    translate, trim_keep,
};
use crate::monitor::Monitor;
use crate::store::{Direction, ListStore};
use crate::text::{
    ascii_upper_bytes, bytes_eq, dec_pad, i64_dec, int_token_value, is_i64_token, name_upper_bytes,
    parse_i64, push_char, push_dec_i64, push_dec_pad, quote_spec, quote_string,
};
use crate::value::{is_bulk, is_bulk_array, is_error, is_simple, Value};

verus! {

/// What the session does after answering a command.
#[derive(PartialEq, Eq, Structural, Debug)]
pub enum Action {
    Continue,
    HangUp,
    StartMonitor,
}

/// A parsed command: its name as received, and its arguments as opaque
/// byte strings.
pub struct Command {
    pub name: String,
    pub arguments: Vec<Vec<u8>>,
}

/// The list commands, named by their wire names.
#[derive(PartialEq, Eq, Structural, Debug, Clone, Copy)]
pub enum Kind {
    Llen,
    Lpop,
    Rpop,
    Lpush,
    Lpushx,
    Rpush,
    Rpushx,
    Lrange,
    Ltrim,
    Rpoplpush,
    Lindex,
    Lset,
    Blpop,
    Brpop,
}

pub open spec fn cmd_quit() -> Seq<u8> {
    seq!['Q' as u8, 'U' as u8, 'I' as u8, 'T' as u8]
}

pub open spec fn cmd_monitor() -> Seq<u8> {
    seq!['M' as u8, 'O' as u8, 'N' as u8, 'I' as u8, 'T' as u8, 'O' as u8, 'R' as u8]
}

pub open spec fn cmd_llen() -> Seq<u8> {
    seq!['L' as u8, 'L' as u8, 'E' as u8, 'N' as u8]
}

pub open spec fn cmd_lpop() -> Seq<u8> {
    seq!['L' as u8, 'P' as u8, 'O' as u8, 'P' as u8]
}

pub open spec fn cmd_rpop() -> Seq<u8> {
    seq!['R' as u8, 'P' as u8, 'O' as u8, 'P' as u8]
}

pub open spec fn cmd_lpush() -> Seq<u8> {
    seq!['L' as u8, 'P' as u8, 'U' as u8, 'S' as u8, 'H' as u8]
}

pub open spec fn cmd_lpushx() -> Seq<u8> {
    seq!['L' as u8, 'P' as u8, 'U' as u8, 'S' as u8, 'H' as u8, 'X' as u8]
}

pub open spec fn cmd_rpush() -> Seq<u8> {
    seq!['R' as u8, 'P' as u8, 'U' as u8, 'S' as u8, 'H' as u8]
}

pub open spec fn cmd_rpushx() -> Seq<u8> {
    seq!['R' as u8, 'P' as u8, 'U' as u8, 'S' as u8, 'H' as u8, 'X' as u8]
}

pub open spec fn cmd_lrange() -> Seq<u8> {
    seq!['L' as u8, 'R' as u8, 'A' as u8, 'N' as u8, 'G' as u8, 'E' as u8]
}

pub open spec fn cmd_ltrim() -> Seq<u8> {
    seq!['L' as u8, 'T' as u8, 'R' as u8, 'I' as u8, 'M' as u8]
}

pub open spec fn cmd_rpoplpush() -> Seq<u8> {
    seq![
        'R' as u8,
        'P' as u8,
        'O' as u8,
        'P' as u8,
        'L' as u8,
        'P' as u8,
        'U' as u8,
        'S' as u8,
        'H' as u8,
    ]
}

pub open spec fn cmd_lindex() -> Seq<u8> {
    seq!['L' as u8, 'I' as u8, 'N' as u8, 'D' as u8, 'E' as u8, 'X' as u8]
}

pub open spec fn cmd_lset() -> Seq<u8> {
    seq!['L' as u8, 'S' as u8, 'E' as u8, 'T' as u8]
}

pub open spec fn cmd_blpop() -> Seq<u8> {
    seq!['B' as u8, 'L' as u8, 'P' as u8, 'O' as u8, 'P' as u8]
}

pub open spec fn cmd_brpop() -> Seq<u8> {
    seq!['B' as u8, 'R' as u8, 'P' as u8, 'O' as u8, 'P' as u8]
}

/// A command's name, case folded to the upper-case form it is looked up
/// under.
pub open spec fn upper_name(c: &Command) -> Seq<u8> {
    ascii_upper_bytes(encode_utf8(c.name@))
}

/// Which list command an upper-cased name denotes, if any.
pub open spec fn kind_of(upper: Seq<u8>) -> Option<Kind> {
    if upper == cmd_llen() {
        Some(Kind::Llen)
    } else if upper == cmd_lpop() {
        Some(Kind::Lpop)
    } else if upper == cmd_rpop() {
        Some(Kind::Rpop)
    } else if upper == cmd_lpush() {
        Some(Kind::Lpush)
    } else if upper == cmd_lpushx() {
        Some(Kind::Lpushx)
    } else if upper == cmd_rpush() {
        Some(Kind::Rpush)
    } else if upper == cmd_rpushx() {
        Some(Kind::Rpushx)
    } else if upper == cmd_lrange() {
        Some(Kind::Lrange)
    } else if upper == cmd_ltrim() {
        Some(Kind::Ltrim)
    } else if upper == cmd_rpoplpush() {
        Some(Kind::Rpoplpush)
    } else if upper == cmd_lindex() {
        Some(Kind::Lindex)
    } else if upper == cmd_lset() {
        Some(Kind::Lset)
    } else if upper == cmd_blpop() {
        Some(Kind::Blpop)
    } else if upper == cmd_brpop() {
        Some(Kind::Brpop)
    } else {
        None
    }
}

/// Each command's declared argument count: a negative value -N means at
/// least N arguments, a non-negative value means exactly that many.
pub open spec fn kind_arity(kind: Kind) -> int {
    match kind {
        Kind::Llen => 1,
        Kind::Lpop => 1,
        Kind::Rpop => 1,
        Kind::Lpush => -2,
        Kind::Lpushx => -2,
        Kind::Rpush => -2,
        Kind::Rpushx => -2,
        Kind::Lrange => 3,
        Kind::Ltrim => 3,
        Kind::Rpoplpush => 2,
        Kind::Lindex => 2,
        Kind::Lset => 3,
        Kind::Blpop => -2,
        Kind::Brpop => -2,
    }
}

pub open spec fn arity_ok(arity: int, count: int) -> bool {
    if arity < 0 {
        count >= -arity
    } else {
        count == arity
    }
}

fn classify(upper: &Vec<u8>) -> (r: Option<Kind>)
    ensures
        r == kind_of(upper@),
{
    let t: Vec<u8> = vec!['L' as u8, 'L' as u8, 'E' as u8, 'N' as u8];
    proof {
        assert(t@ =~= cmd_llen());
    }
    if bytes_eq(upper, &t) {
        return Some(Kind::Llen);
    }
    let t: Vec<u8> = vec!['L' as u8, 'P' as u8, 'O' as u8, 'P' as u8];
    proof {
        assert(t@ =~= cmd_lpop());
    }
    if bytes_eq(upper, &t) {
        return Some(Kind::Lpop);
    }
    let t: Vec<u8> = vec!['R' as u8, 'P' as u8, 'O' as u8, 'P' as u8];
    proof {
        assert(t@ =~= cmd_rpop());
    }
    if bytes_eq(upper, &t) {
        return Some(Kind::Rpop);
    }
    let t: Vec<u8> = vec!['L' as u8, 'P' as u8, 'U' as u8, 'S' as u8, 'H' as u8];
    proof {
        assert(t@ =~= cmd_lpush());
    }
    if bytes_eq(upper, &t) {
        return Some(Kind::Lpush);
    }
    let t: Vec<u8> = vec!['L' as u8, 'P' as u8, 'U' as u8, 'S' as u8, 'H' as u8, 'X' as u8];
    proof {
        assert(t@ =~= cmd_lpushx());
    }
    if bytes_eq(upper, &t) {
        return Some(Kind::Lpushx);
    }
    let t: Vec<u8> = vec!['R' as u8, 'P' as u8, 'U' as u8, 'S' as u8, 'H' as u8];
    proof {
        assert(t@ =~= cmd_rpush());
    }
    if bytes_eq(upper, &t) {
        return Some(Kind::Rpush);
    }
    let t: Vec<u8> = vec!['R' as u8, 'P' as u8, 'U' as u8, 'S' as u8, 'H' as u8, 'X' as u8];
    proof {
        assert(t@ =~= cmd_rpushx());
    }
    if bytes_eq(upper, &t) {
        return Some(Kind::Rpushx);
    }
    let t: Vec<u8> = vec!['L' as u8, 'R' as u8, 'A' as u8, 'N' as u8, 'G' as u8, 'E' as u8];
    proof {
        assert(t@ =~= cmd_lrange());
    }
    if bytes_eq(upper, &t) {
        return Some(Kind::Lrange);
    }
    let t: Vec<u8> = vec!['L' as u8, 'T' as u8, 'R' as u8, 'I' as u8, 'M' as u8];
    proof {
        assert(t@ =~= cmd_ltrim());
    }
    if bytes_eq(upper, &t) {
        return Some(Kind::Ltrim);
    }
    let t: Vec<u8> = vec![
        'R' as u8,
        'P' as u8,
        'O' as u8,
        'P' as u8,
        'L' as u8,
        'P' as u8,
        'U' as u8,
        'S' as u8,
        'H' as u8,
    ];
    proof {
        assert(t@ =~= cmd_rpoplpush());
    }
    if bytes_eq(upper, &t) {
        return Some(Kind::Rpoplpush);
    }
    let t: Vec<u8> = vec!['L' as u8, 'I' as u8, 'N' as u8, 'D' as u8, 'E' as u8, 'X' as u8];
    proof {
        assert(t@ =~= cmd_lindex());
    }
    if bytes_eq(upper, &t) {
        return Some(Kind::Lindex);
    }
    let t: Vec<u8> = vec!['L' as u8, 'S' as u8, 'E' as u8, 'T' as u8];
    proof {
        assert(t@ =~= cmd_lset());
    }
    if bytes_eq(upper, &t) {
        return Some(Kind::Lset);
    }
    let t: Vec<u8> = vec!['B' as u8, 'L' as u8, 'P' as u8, 'O' as u8, 'P' as u8];
    proof {
        assert(t@ =~= cmd_blpop());
    }
    if bytes_eq(upper, &t) {
        return Some(Kind::Blpop);
    }
    let t: Vec<u8> = vec!['B' as u8, 'R' as u8, 'P' as u8, 'O' as u8, 'P' as u8];
    proof {
        assert(t@ =~= cmd_brpop());
    }
    if bytes_eq(upper, &t) {
        return Some(Kind::Brpop);
    }
    None
}

/// Relies on time::now_utc and Tm::to_timespec: wall-clock UTC seconds and
/// a nanosecond part below one billion.
#[verifier::external_body]
fn now_timespec() -> (r: (i64, i32))
    ensures
        0 <= r.1 < 1_000_000_000,
{
    let now = time::now_utc().to_timespec();
    (now.sec, now.nsec)
}

/// The quoted argument tokens, joined by single spaces.
pub open spec fn quoted_args(args: Seq<Seq<u8>>) -> Seq<char>
    decreases args.len(),
{
    if args.len() == 0 {
        Seq::empty()
    } else if args.len() == 1 {
        quote_spec(args[0])
    } else {
        quote_spec(args[0]) + seq![' '] + quoted_args(args.drop_first())
    }
}

/// One monitor log line: seconds, a dot, nine nanosecond digits, then the
/// quoted command name and each quoted argument, space separated.
pub open spec fn log_line_spec(sec: int, nsec: nat, name: Seq<u8>, args: Seq<Seq<u8>>) -> Seq<char> {
    i64_dec(sec) + seq!['.'] + dec_pad(nsec, 9) + seq![' '] + quote_spec(name) + seq![' ']
        + quoted_args(args)
}

/// A log line for this command, stamped at some wall-clock instant.
pub open spec fn is_log_line(line: Seq<char>, name: Seq<u8>, args: Seq<Seq<u8>>) -> bool {
    exists|sec: int, nsec: nat|
        nsec < 1_000_000_000 && line == log_line_spec(sec, nsec, name, args)
}

/// The monitor bus received exactly one message: a log line for this
/// command.
pub open spec fn logged(pre: Monitor, post: Monitor, name: Seq<u8>, args: Seq<Seq<u8>>) -> bool {
    exists|line: Seq<char>|
        #[trigger] crate::monitor::sent(pre, post, line) && is_log_line(line, name, args)
}

proof fn lemma_quoted_args_snoc(args: Seq<Seq<u8>>, a: Seq<u8>)
    ensures
        args.len() == 0 ==> quoted_args(args.push(a)) == quote_spec(a),
        args.len() > 0 ==> quoted_args(args.push(a)) == quoted_args(args) + seq![' ']
            + quote_spec(a),
    decreases args.len(),
{
    if args.len() == 0 {
        assert(args.push(a)[0] == a);
    } else {
        assert(args.push(a)[0] == args[0]);
        assert(args.push(a).drop_first() =~= args.drop_first().push(a));
        lemma_quoted_args_snoc(args.drop_first(), a);
        if args.len() == 1 {
            assert(quoted_args(args.push(a)) == quote_spec(args[0]) + seq![' '] + quote_spec(a));
        } else {
            assert(quoted_args(args) + seq![' '] + quote_spec(a) =~= quote_spec(args[0])
                + seq![' '] + (quoted_args(args.drop_first()) + seq![' '] + quote_spec(a)));
        }
    }
}

fn simple_ok() -> (v: Value)
    ensures
        is_simple(v, "OK"@),
{
    Value::Simple(String::from_str("OK"))
}

fn err_value(msg: &str) -> (v: Value)
    ensures
        is_error(v, "ERR "@ + msg@),
{
    Value::Error(String::from_str("ERR ").concat(msg))
}

fn bulk_array(values: Vec<Vec<u8>>) -> (v: Value)
    ensures
        is_bulk_array(v, values.deep_view()),
{
    let mut elems: Vec<Value> = Vec::new();
    let mut i: usize = 0;
    while i < values.len()
        invariant
            i <= values.len(),
            elems@.len() == i,
            forall|j: int| 0 <= j < i ==> is_bulk(#[trigger] elems@[j], values.deep_view()[j]),
        decreases values.len() - i,
    {
        elems.push(Value::Bulk(vstd::slice::slice_to_vec(values[i].as_slice())));
        proof {
            assert(values.deep_view()[i as int] =~= values@[i as int]@);
        }
        i = i + 1;
    }
    Value::Array(elems)
}

/// The index of the first key in `keys` that holds at least one element.
pub open spec fn first_nonempty(keys: Seq<Seq<u8>>, s: ListStore) -> Option<int>
    decreases keys.len(),
{
    if keys.len() == 0 {
        None
    } else if s.rows(keys[0]).len() > 0 {
        Some(0)
    } else {
        match first_nonempty(keys.drop_first(), s) {
            None => None,
            Some(i) => Some(i + 1),
        }
    }
}

proof fn lemma_first_nonempty_at(keys: Seq<Seq<u8>>, s: ListStore, i: int)
    requires
        0 <= i < keys.len(),
        forall|j: int| 0 <= j < i ==> s.rows(#[trigger] keys[j]).len() == 0,
        s.rows(keys[i]).len() > 0,
    ensures
        first_nonempty(keys, s) == Some(i),
    decreases keys.len(),
{
    if i == 0 {
    } else {
        let rest = keys.drop_first();
        assert forall|j: int| 0 <= j < i - 1 implies s.rows(#[trigger] rest[j]).len() == 0 by {
            assert(rest[j] == keys[j + 1]);
        }
        assert(rest[i - 1] == keys[i]);
        lemma_first_nonempty_at(rest, s, i - 1);
        assert(s.rows(keys[0]).len() == 0);
    }
}

proof fn lemma_first_nonempty_none(keys: Seq<Seq<u8>>, s: ListStore)
    requires
        forall|j: int| 0 <= j < keys.len() ==> s.rows(#[trigger] keys[j]).len() == 0,
    ensures
        first_nonempty(keys, s) is None,
    decreases keys.len(),
{
    if keys.len() > 0 {
        let rest = keys.drop_first();
        assert forall|j: int| 0 <= j < rest.len() implies s.rows(#[trigger] rest[j]).len()
            == 0 by {
            assert(rest[j] == keys[j + 1]);
        }
        lemma_first_nonempty_none(rest, s);
    }
}

/// What a pop answers and does to the store.
pub open spec fn pop_reply(key: Seq<u8>, pre: ListStore, post: ListStore, v: Value, left: bool) -> bool {
    if pre.rows(key).len() == 0 {
        post.same_rows(pre) && v is Null
    } else {
        &&& post.same_except(pre, key)
        &&& post.rows(key) == (if left {
            pre.rows(key).drop_first()
        } else {
            pre.rows(key).drop_last()
        })
        &&& is_bulk(
            v,
            if left {
                pre.rows(key)[0].1
            } else {
                pre.rows(key).last().1
            },
        )
    }
}

/// What a push answers and does to the store: the values join the list on
/// the given end and the new element count comes back.
pub open spec fn push_reply(
    key: Seq<u8>,
    values: Seq<Seq<u8>>,
    pre: ListStore,
    post: ListStore,
    v: Value,
    left: bool,
) -> bool {
    &&& post.same_except(pre, key)
    &&& post.rows(key) == (if left {
        push_left_all(pre.rows(key), values)
    } else {
        push_right_all(pre.rows(key), values)
    })
    &&& v matches Value::Integer(n) && n as int == pre.rows(key).len() + values.len()
}

/// The conditional pushes answer 0 and do nothing on a missing key.
pub open spec fn pushx_reply(
    key: Seq<u8>,
    values: Seq<Seq<u8>>,
    pre: ListStore,
    post: ListStore,
    v: Value,
    notified: bool,
    left: bool,
) -> bool {
    if pre.rows(key).len() == 0 {
        &&& post.same_rows(pre)
        &&& v matches Value::Integer(n) && n == 0
        &&& !notified
    } else {
        push_reply(key, values, pre, post, v, left) && notified
    }
}

pub open spec fn lrange_reply(args: Seq<Seq<u8>>, s: ListStore, v: Value) -> bool {
    if !is_i64_token(args[1]) || !is_i64_token(args[2]) {
        is_error(v, "ERR "@ + "argument must be an integer"@)
    } else {
        is_bulk_array(
            v,
            lrange_result(s.rows(args[0]), int_token_value(args[1]), int_token_value(args[2])),
        )
    }
}

pub open spec fn ltrim_reply(args: Seq<Seq<u8>>, pre: ListStore, post: ListStore, v: Value) -> bool {
    if !is_i64_token(args[1]) || !is_i64_token(args[2]) {
        is_error(v, "ERR "@ + "argument must be an integer"@) && post.same_rows(pre)
    } else {
        &&& is_simple(v, "OK"@)
        &&& post.rows(args[0]) == ltrim_result(
            pre.rows(args[0]),
            int_token_value(args[1]),
            int_token_value(args[2]),
        )
        &&& post.same_except(pre, args[0])
    }
}

pub open spec fn rpoplpush_reply(
    source: Seq<u8>,
    dest: Seq<u8>,
    pre: ListStore,
    post: ListStore,
    v: Value,
    notified: bool,
) -> bool {
    if pre.rows(source).len() == 0 {
        post.same_rows(pre) && v is Null && !notified
    } else {
        let data = pre.rows(source).last().1;
        let mid = pre.rows(source).drop_last();
        &&& is_bulk(v, data)
        &&& notified
        &&& if source == dest {
            post.rows(source) == push_left_one(mid, data) && post.same_except(pre, source)
        } else {
            &&& post.rows(source) == mid
            &&& post.rows(dest) == push_left_one(pre.rows(dest), data)
            &&& post.same_except2(pre, source, dest)
        }
    }
}

pub open spec fn lindex_reply(args: Seq<Seq<u8>>, s: ListStore, v: Value) -> bool {
    if !is_i64_token(args[1]) {
        is_error(v, "ERR "@ + "argument must be an integer"@)
    } else {
        match lindex_result(s.rows(args[0]), int_token_value(args[1])) {
            None => v is Null,
            Some(b) => is_bulk(v, b),
        }
    }
}

pub open spec fn lset_reply(args: Seq<Seq<u8>>, pre: ListStore, post: ListStore, v: Value) -> bool {
    if !is_i64_token(args[1]) {
        is_error(v, "ERR "@ + "argument must be an integer"@) && post.same_rows(pre)
    } else if !lset_in_range(pre.rows(args[0]), int_token_value(args[1])) {
        is_error(v, "ERR "@ + "index out of range"@) && post.same_rows(pre)
    } else {
        &&& is_simple(v, "OK"@)
        &&& post.rows(args[0]) == lset_result(
            pre.rows(args[0]),
            int_token_value(args[1]),
            args[2],
        )
        &&& post.same_except(pre, args[0])
    }
}

/// What one non-waiting blocking-pop pass answers: the last argument is the
/// timeout, the others are keys tried in order; the first key with an
/// element is popped and answered as [key, value].
pub open spec fn blocking_reply(
    args: Seq<Seq<u8>>,
    pre: ListStore,
    post: ListStore,
    v: Value,
    left: bool,
) -> bool {
    let nkeys = args.len() - 1;
    if !is_i64_token(args[nkeys]) {
        is_error(v, "ERR "@ + "argument must be an integer"@) && post.same_rows(pre)
    } else if int_token_value(args[nkeys]) < 0 {
        is_error(v, "ERR "@ + "timeout is negative"@) && post.same_rows(pre)
    } else {
        match first_nonempty(args.take(nkeys), pre) {
            None => v is NullArray && post.same_rows(pre),
            Some(ix) => {
                let k = args[ix];
                let data = if left {
                    pre.rows(k)[0].1
                } else {
                    pre.rows(k).last().1
                };
                &&& is_bulk_array(v, seq![k, data])
                &&& post.rows(k) == (if left {
                    pre.rows(k).drop_first()
                } else {
                    pre.rows(k).drop_last()
                })
                &&& post.same_except(pre, k)
            },
        }
    }
}

/// What the store must leave room for before a command runs: no key the
/// command may push to sits against an end of the 64-bit position range.
pub open spec fn margins_args_ok(args: Seq<Seq<u8>>, s: ListStore) -> bool {
    &&& (args.len() > 0 ==> left_margin_ok(s.rows(args[0]), args.len() as int)
        && right_margin_ok(s.rows(args[0]), args.len() as int))
    &&& (args.len() > 1 ==> left_margin_ok(s.rows(args[1]), 1))
}

pub open spec fn margins_ok(c: &Command, s: ListStore) -> bool {
    margins_args_ok(c.args(), s)
}

/// Everything `execute` promises, phrased over the command's name and
/// argument views: the terminal commands answer OK and change nothing, an
/// unknown name or a wrong argument count answers an error and changes
/// nothing, and every accepted command is logged once and then answers and
/// acts as its reply predicate says. The third component of the result
/// reports whether the command put an element into some list, so waiting
/// poppers must be woken.
pub open spec fn dispatch_post(
    name: Seq<char>,
    args: Seq<Seq<u8>>,
    pre: ListStore,
    post: ListStore,
    pre_m: Monitor,
    post_m: Monitor,
    r: (Value, Action, bool),
) -> bool {
    let up = ascii_upper_bytes(encode_utf8(name));
    let n = args.len() as int;
    &&& (up == cmd_quit() ==> is_simple(r.0, "OK"@) && r.1 == Action::HangUp && !r.2
        && post.same_rows(pre) && post_m == pre_m)
    &&& (up != cmd_quit() && up == cmd_monitor() ==> is_simple(r.0, "OK"@) && r.1
        == Action::StartMonitor && !r.2 && post.same_rows(pre) && post_m == pre_m)
    &&& (up != cmd_quit() && up != cmd_monitor() ==> {
        &&& r.1 == Action::Continue
        &&& (kind_of(up) is None ==> is_error(r.0, "ERR "@ + "unsupported"@) && !r.2
            && post.same_rows(pre) && post_m == pre_m)
        &&& (kind_of(up) matches Some(k) ==> !arity_ok(kind_arity(k), n) ==> is_error(
            r.0,
            "ERR "@ + "wrong number of arguments"@,
        ) && !r.2 && post.same_rows(pre) && post_m == pre_m)
        &&& (kind_of(up) matches Some(k) ==> arity_ok(kind_arity(k), n) ==> {
            &&& logged(pre_m, post_m, encode_utf8(name), args)
            &&& (k == Kind::Llen ==> (r.0 matches Value::Integer(c) && c as int == pre.rows(
                args[0],
            ).len()) && post.same_rows(pre) && !r.2)
            &&& (k == Kind::Lpop ==> pop_reply(args[0], pre, post, r.0, true) && !r.2)
            &&& (k == Kind::Rpop ==> pop_reply(args[0], pre, post, r.0, false) && !r.2)
            &&& (k == Kind::Lpush ==> push_reply(args[0], args.skip(1), pre, post, r.0, true)
                && r.2)
            &&& (k == Kind::Rpush ==> push_reply(args[0], args.skip(1), pre, post, r.0, false)
                && r.2)
            &&& (k == Kind::Lpushx ==> pushx_reply(args[0], args.skip(1), pre, post, r.0, r.2, true))
            &&& (k == Kind::Rpushx ==> pushx_reply(
                args[0],
                args.skip(1),
                pre,
                post,
                r.0,
                r.2,
                false,
            ))
            &&& (k == Kind::Lrange ==> lrange_reply(args, pre, r.0) && post.same_rows(pre) && !r.2)
            &&& (k == Kind::Ltrim ==> ltrim_reply(args, pre, post, r.0) && !r.2)
            &&& (k == Kind::Rpoplpush ==> rpoplpush_reply(args[0], args[1], pre, post, r.0, r.2))
            &&& (k == Kind::Lindex ==> lindex_reply(args, pre, r.0) && post.same_rows(pre) && !r.2)
            &&& (k == Kind::Lset ==> lset_reply(args, pre, post, r.0) && !r.2)
            &&& (k == Kind::Blpop ==> blocking_reply(args, pre, post, r.0, true) && !r.2)
            &&& (k == Kind::Brpop ==> blocking_reply(args, pre, post, r.0, false) && !r.2)
        })
    })
}

impl Command {
    /// The command's arguments as byte strings.
    pub open spec fn args(&self) -> Seq<Seq<u8>> {
        self.arguments.deep_view()
    }

    /// Formats the monitor log line for this command at the given wall
    /// clock reading.
    pub fn log_line(&self, sec: i64, nsec: i32) -> (r: String)
        requires
            0 <= nsec < 1_000_000_000,
        ensures
            r@ == log_line_spec(sec as int, nsec as nat, encode_utf8(self.name@), self.args()),
    {
        let mut out = String::new();
        push_dec_i64(&mut out, sec);
        push_char(&mut out, '.');
        push_dec_pad(&mut out, nsec as u64, 9);
        push_char(&mut out, ' ');
        let quoted_name = quote_string(self.name.as_str().as_bytes());
        out.append(quoted_name.as_str());
        push_char(&mut out, ' ');
        let ghost head = out@;
        proof {
            assert(head =~= i64_dec(sec as int) + seq!['.'] + dec_pad(nsec as nat, 9) + seq![' ']
                + quote_spec(encode_utf8(self.name@)) + seq![' ']);
        }
        let mut i: usize = 0;
        while i < self.arguments.len()
            invariant
                i <= self.arguments.len(),
                self.args().len() == self.arguments.len(),
                out@ == head + quoted_args(self.args().take(i as int)),
                head == i64_dec(sec as int) + seq!['.'] + dec_pad(nsec as nat, 9) + seq![' ']
                    + quote_spec(encode_utf8(self.name@)) + seq![' '],
            decreases self.arguments.len() - i,
        {
            if i > 0 {
                push_char(&mut out, ' ');
            }
            let quoted = quote_string(self.arguments[i].as_slice());
            out.append(quoted.as_str());
            proof {
                assert(self.args()[i as int] =~= self.arguments@[i as int]@);
                lemma_quoted_args_snoc(self.args().take(i as int), self.args()[i as int]);
                assert(self.args().take(i + 1) =~= self.args().take(i as int).push(
                    self.args()[i as int],
                ));
                if i == 0 {
                    assert(out@ =~= head + quoted_args(self.args().take(1)));
                } else {
                    assert(out@ =~= head + quoted_args(self.args().take(i + 1)));
                }
            }
            i = i + 1;
        }
        proof {
            assert(self.args().take(i as int) =~= self.args());
        }
        out
    }

    /// Stamps this command with the wall clock and sends the log line to
    /// the monitor bus.
    pub fn write_to_log(&self, monitor: &mut Monitor)
        requires
            old(monitor).wf(),
            old(monitor).stop < usize::MAX,
        ensures
            final(monitor).wf(),
            logged(*old(monitor), *final(monitor), encode_utf8(self.name@), self.args()),
    {
        let (sec, nsec) = now_timespec();
        let line = self.log_line(sec, nsec);
        let ghost line_view = line@;
        monitor.send(line);
        proof {
            assert(crate::monitor::sent(*old(monitor), *monitor, line_view));
            assert(is_log_line(line_view, encode_utf8(self.name@), self.args())) by {
                assert(line_view == log_line_spec(
                    sec as int,
                    nsec as nat,
                    encode_utf8(self.name@),
                    self.args(),
                ));
            }
        }
    }

    pub fn llen(command: &Command, store: &ListStore) -> (r: Value)
        requires
            store.wf(),
            command.arguments.len() >= 1,
        ensures
            r matches Value::Integer(n) && n as int == store.rows(command.args()[0]).len(),
    {
        proof {
            assert(command.args()[0] =~= command.arguments@[0]@);
        }
        Value::Integer(store.count(command.arguments[0].as_slice()))
    }

    pub fn lpop(command: &Command, store: &mut ListStore) -> (r: Value)
        requires
            old(store).wf(),
            command.arguments.len() >= 1,
        ensures
            final(store).wf(),
            pop_reply(command.args()[0], *old(store), *final(store), r, true),
    {
        proof {
            assert(command.args()[0] =~= command.arguments@[0]@);
        }
        match store.pop(command.arguments[0].as_slice(), &Direction::Left) {
            Some(data) => Value::Bulk(data),
            None => Value::Null,
        }
    }

    pub fn rpop(command: &Command, store: &mut ListStore) -> (r: Value)
        requires
            old(store).wf(),
            command.arguments.len() >= 1,
        ensures
            final(store).wf(),
            pop_reply(command.args()[0], *old(store), *final(store), r, false),
    {
        proof {
            assert(command.args()[0] =~= command.arguments@[0]@);
        }
        match store.pop(command.arguments[0].as_slice(), &Direction::Right) {
            Some(data) => Value::Bulk(data),
            None => Value::Null,
        }
    }

    pub fn lpush(command: &Command, store: &mut ListStore) -> (r: Value)
        requires
            old(store).wf(),
            command.arguments.len() >= 2,
            left_margin_ok(old(store).rows(command.args()[0]), command.arguments.len() as int),
        ensures
            final(store).wf(),
            push_reply(
                command.args()[0],
                command.args().skip(1),
                *old(store),
                *final(store),
                r,
                true,
            ),
    {
        proof {
            assert(command.args()[0] =~= command.arguments@[0]@);
        }
        let key = command.arguments[0].as_slice();
        store.push(key, &Direction::Left, &command.arguments, 1);
        proof {
            lemma_push_left_all_props(old(store).rows(key@), command.args().skip(1));
        }
        Value::Integer(store.count(key))
    }

    pub fn rpush(command: &Command, store: &mut ListStore) -> (r: Value)
        requires
            old(store).wf(),
            command.arguments.len() >= 2,
            right_margin_ok(old(store).rows(command.args()[0]), command.arguments.len() as int),
        ensures
            final(store).wf(),
            push_reply(
                command.args()[0],
                command.args().skip(1),
                *old(store),
                *final(store),
                r,
                false,
            ),
    {
        proof {
            assert(command.args()[0] =~= command.arguments@[0]@);
        }
        let key = command.arguments[0].as_slice();
        store.push(key, &Direction::Right, &command.arguments, 1);
        proof {
            lemma_push_right_all_props(old(store).rows(key@), command.args().skip(1));
        }
        Value::Integer(store.count(key))
    }

    pub fn lpushx(command: &Command, store: &mut ListStore) -> (r: (Value, bool))
        requires
            old(store).wf(),
            command.arguments.len() >= 2,
            left_margin_ok(old(store).rows(command.args()[0]), command.arguments.len() as int),
        ensures
            final(store).wf(),
            pushx_reply(
                command.args()[0],
                command.args().skip(1),
                *old(store),
                *final(store),
                r.0,
                r.1,
                true,
            ),
    {
        proof {
            assert(command.args()[0] =~= command.arguments@[0]@);
        }
        if store.count(command.arguments[0].as_slice()) == 0 {
            (Value::Integer(0), false)
        } else {
            (Command::lpush(command, store), true)
        }
    }

    pub fn rpushx(command: &Command, store: &mut ListStore) -> (r: (Value, bool))
        requires
            old(store).wf(),
            command.arguments.len() >= 2,
            right_margin_ok(old(store).rows(command.args()[0]), command.arguments.len() as int),
        ensures
            final(store).wf(),
            pushx_reply(
                command.args()[0],
                command.args().skip(1),
                *old(store),
                *final(store),
                r.0,
                r.1,
                false,
            ),
    {
        proof {
            assert(command.args()[0] =~= command.arguments@[0]@);
        }
        if store.count(command.arguments[0].as_slice()) == 0 {
            (Value::Integer(0), false)
        } else {
            (Command::rpush(command, store), true)
        }
    }

    pub fn lrange(command: &Command, store: &ListStore) -> (r: Value)
        requires
            store.wf(),
            command.arguments.len() == 3,
        ensures
            lrange_reply(command.args(), *store, r),
    {
        proof {
            assert(command.args()[0] =~= command.arguments@[0]@);
            assert(command.args()[1] =~= command.arguments@[1]@);
            assert(command.args()[2] =~= command.arguments@[2]@);
        }
        let key = command.arguments[0].as_slice();
        let ghost rows = store.rows(key@);
        let start = match parse_i64(command.arguments[1].as_slice()) {
            Some(v) => v,
            None => {
                return err_value("argument must be an integer");
            },
        };
        let stop = match parse_i64(command.arguments[2].as_slice()) {
            Some(v) => v,
            None => {
                return err_value("argument must be an integer");
            },
        };
        if start == 0 && stop == -1 {
            bulk_array(store.range_all(key))
        } else if start == 0 && stop >= 0 {
            let n_rows = store.count(key);
            let limit = if stop >= n_rows {
                n_rows
            } else {
                stop + 1
            };
            bulk_array(store.range_head(key, limit))
        } else {
            match store.boundaries(key) {
                None => {
                    let v = Value::Array(Vec::new());
                    proof {
                        assert(is_bulk_array(v, Seq::empty()));
                    }
                    v
                },
                Some((first, last)) => {
                    let lo: i128 = translate_exec(first, last, start);
                    let hi: i128 = translate_exec(first, last, stop);
                    if lo > hi {
                        let v = Value::Array(Vec::new());
                        proof {
                            assert(is_bulk_array(v, Seq::empty()));
                        }
                        v
                    } else if hi < i64::MIN as i128 || lo > i64::MAX as i128 {
                        proof {
                            assert forall|i: int| 0 <= i < rows.len() implies ((#[trigger] rows[i]).0
                                < lo || rows[i].0 > hi) by {
                                if i > 0 {
                                    assert(rows[0].0 < rows[i].0);
                                }
                                if i < rows.len() - 1 {
                                    assert(rows[i].0 < rows[rows.len() - 1].0);
                                }
                            }
                            lemma_trim_keep_none(rows, lo as int, hi as int);
                            assert(crate::model::row_values(trim_keep(rows, lo as int, hi as int))
                                =~= Seq::<Seq<u8>>::empty());
                        }
                        let v = Value::Array(Vec::new());
                        proof {
                            assert(is_bulk_array(v, Seq::empty()));
                        }
                        v
                    } else {
                        let lo64: i64 = if lo < i64::MIN as i128 {
                            i64::MIN
                        } else {
                            lo as i64
                        };
                        let hi64: i64 = if hi > i64::MAX as i128 {
                            i64::MAX
                        } else {
                            hi as i64
                        };
                        proof {
                            lemma_trim_keep_same(rows, lo as int, hi as int, lo64 as int, hi64 as int);
                        }
                        bulk_array(store.range_between(key, lo64, hi64))
                    }
                },
            }
        }
    }

    pub fn ltrim(command: &Command, store: &mut ListStore) -> (r: Value)
        requires
            old(store).wf(),
            command.arguments.len() == 3,
        ensures
            final(store).wf(),
            ltrim_reply(command.args(), *old(store), *final(store), r),
    {
        proof {
            assert(command.args()[0] =~= command.arguments@[0]@);
            assert(command.args()[1] =~= command.arguments@[1]@);
            assert(command.args()[2] =~= command.arguments@[2]@);
        }
        let key = command.arguments[0].as_slice();
        let ghost rows = store.rows(key@);
        let start = match parse_i64(command.arguments[1].as_slice()) {
            Some(v) => v,
            None => {
                return err_value("argument must be an integer");
            },
        };
        let stop = match parse_i64(command.arguments[2].as_slice()) {
            Some(v) => v,
            None => {
                return err_value("argument must be an integer");
            },
        };
        if start == 0 && stop == -1 {
            return simple_ok();
        }
        match store.boundaries(key) {
            None => simple_ok(),
            Some((first, last)) => {
                let lo: i128 = translate_exec(first, last, start);
                let hi: i128 = translate_exec(first, last, stop);
                if hi < i64::MIN as i128 || lo > i64::MAX as i128 {
                    proof {
                        assert forall|i: int| 0 <= i < rows.len() implies ((#[trigger] rows[i]).0
                            < lo || rows[i].0 > hi) by {
                            if i > 0 {
                                assert(rows[0].0 < rows[i].0);
                            }
                            if i < rows.len() - 1 {
                                assert(rows[i].0 < rows[rows.len() - 1].0);
                            }
                        }
                        lemma_trim_keep_none(rows, lo as int, hi as int);
                        assert forall|i: int| 0 <= i < rows.len() implies ((#[trigger] rows[i]).0
                            < i64::MAX as int || rows[i].0 > i64::MIN as int) by {}
                        lemma_trim_keep_none(rows, i64::MAX as int, i64::MIN as int);
                    }
                    store.delete_outside(key, i64::MAX, i64::MIN);
                    simple_ok()
                } else {
                    let lo64: i64 = if lo < i64::MIN as i128 {
                        i64::MIN
                    } else {
                        lo as i64
                    };
                    let hi64: i64 = if hi > i64::MAX as i128 {
                        i64::MAX
                    } else {
                        hi as i64
                    };
                    proof {
                        lemma_trim_keep_same(rows, lo as int, hi as int, lo64 as int, hi64 as int);
                        lemma_trim_keep_props(rows, lo64 as int, hi64 as int);
                    }
                    store.delete_outside(key, lo64, hi64);
                    simple_ok()
                }
            },
        }
    }

    pub fn rpoplpush(command: &Command, store: &mut ListStore) -> (r: (Value, bool))
        requires
            old(store).wf(),
            command.arguments.len() >= 2,
            left_margin_ok(old(store).rows(command.args()[1]), 1),
        ensures
            final(store).wf(),
            rpoplpush_reply(
                command.args()[0],
                command.args()[1],
                *old(store),
                *final(store),
                r.0,
                r.1,
            ),
    {
        proof {
            assert(command.args()[0] =~= command.arguments@[0]@);
            assert(command.args()[1] =~= command.arguments@[1]@);
        }
        let source = command.arguments[0].as_slice();
        let destination = command.arguments[1].as_slice();
        match store.pop(source, &Direction::Right) {
            Some(data) => {
                let mut moved: Vec<Vec<u8>> = Vec::new();
                moved.push(vstd::slice::slice_to_vec(data.as_slice()));
                proof {
                    assert(moved.deep_view().skip(0) =~~= seq![data@]);
                    assert(push_left_all(
                        push_left_one(store.rows(destination@), data@),
                        Seq::<Seq<u8>>::empty(),
                    ) == push_left_one(store.rows(destination@), data@));
                    assert(seq![data@].drop_first() =~= Seq::<Seq<u8>>::empty());
                }
                store.push(destination, &Direction::Left, &moved, 0);
                (Value::Bulk(data), true)
            },
            None => (Value::Null, false),
        }
    }

    pub fn lindex(command: &Command, store: &ListStore) -> (r: Value)
        requires
            store.wf(),
            command.arguments.len() >= 2,
        ensures
            lindex_reply(command.args(), *store, r),
    {
        proof {
            assert(command.args()[0] =~= command.arguments@[0]@);
            assert(command.args()[1] =~= command.arguments@[1]@);
        }
        let key = command.arguments[0].as_slice();
        let ghost rows = store.rows(key@);
        let index = match parse_i64(command.arguments[1].as_slice()) {
            Some(v) => v,
            None => {
                return err_value("argument must be an integer");
            },
        };
        match store.boundaries(key) {
            None => Value::Null,
            Some((first, last)) => {
                let pos: i128 = translate_exec(first, last, index);
                if pos < first as i128 || pos > last as i128 {
                    proof {
                        assert forall|i: int| 0 <= i < rows.len() implies !((#[trigger] rows[i]).0
                            == pos as int) by {
                            if i > 0 {
                                assert(rows[0].0 < rows[i].0);
                            }
                            if i < rows.len() - 1 {
                                assert(rows[i].0 < rows[rows.len() - 1].0);
                            }
                        }
                        lemma_lookup_at_pos_props(rows, pos as int);
                        assert(!crate::model::has_position(rows, pos as int));
                    }
                    Value::Null
                } else {
                    match store.lookup_at(key, pos as i64) {
                        Some(data) => Value::Bulk(data),
                        None => Value::Null,
                    }
                }
            },
        }
    }

    pub fn lset(command: &Command, store: &mut ListStore) -> (r: Value)
        requires
            old(store).wf(),
            command.arguments.len() >= 3,
        ensures
            final(store).wf(),
            lset_reply(command.args(), *old(store), *final(store), r),
    {
        proof {
            assert(command.args()[0] =~= command.arguments@[0]@);
            assert(command.args()[1] =~= command.arguments@[1]@);
            assert(command.args()[2] =~= command.arguments@[2]@);
        }
        let key = command.arguments[0].as_slice();
        let ghost rows = store.rows(key@);
        let index = match parse_i64(command.arguments[1].as_slice()) {
            Some(v) => v,
            None => {
                return err_value("argument must be an integer");
            },
        };
        match store.boundaries(key) {
            None => err_value("index out of range"),
            Some((first, last)) => {
                let pos: i128 = translate_exec(first, last, index);
                if pos < first as i128 || pos > last as i128 {
                    err_value("index out of range")
                } else {
                    proof {
                        lemma_update_at_pos_props(rows, pos as int, command.args()[2]);
                    }
                    store.update_at(key, pos as i64, command.arguments[2].as_slice());
                    simple_ok()
                }
            },
        }
    }

    /// One non-waiting pass over the keys of a blocking pop: pops the first
    /// key holding an element, in the order given.
    pub fn blocking_pop_step(
        store: &mut ListStore,
        keys: &Vec<Vec<u8>>,
        upto: usize,
        left: bool,
    ) -> (r: Option<Value>)
        requires
            old(store).wf(),
            upto <= keys.len(),
        ensures
            final(store).wf(),
            match first_nonempty(keys.deep_view().take(upto as int), *old(store)) {
                None => r is None && final(store).same_rows(*old(store)),
                Some(ix) => {
                    let k = keys.deep_view()[ix];
                    let data = if left {
                        old(store).rows(k)[0].1
                    } else {
                        old(store).rows(k).last().1
                    };
                    &&& r matches Some(v) && is_bulk_array(v, seq![k, data])
                    &&& final(store).rows(k) == (if left {
                        old(store).rows(k).drop_first()
                    } else {
                        old(store).rows(k).drop_last()
                    })
                    &&& final(store).same_except(*old(store), k)
                },
            },
    {
        let ghost kviews = keys.deep_view().take(upto as int);
        let mut i: usize = 0;
        while i < upto
            invariant
                i <= upto <= keys.len(),
                store.wf(),
                store.same_rows(*old(store)),
                kviews == keys.deep_view().take(upto as int),
                forall|j: int| 0 <= j < i ==> old(store).rows(#[trigger] kviews[j]).len() == 0,
            decreases upto - i,
        {
            proof {
                assert(kviews[i as int] =~= keys@[i as int]@);
            }
            let direction = if left {
                Direction::Left
            } else {
                Direction::Right
            };
            match store.pop(keys[i].as_slice(), &direction) {
                Some(data) => {
                    proof {
                        lemma_first_nonempty_at(kviews, *old(store), i as int);
                    }
                    let mut items: Vec<Value> = Vec::new();
                    items.push(Value::Bulk(vstd::slice::slice_to_vec(keys[i].as_slice())));
                    items.push(Value::Bulk(data));
                    let v = Value::Array(items);
                    proof {
                        let k = kviews[i as int];
                        let d = if left {
                            old(store).rows(k)[0].1
                        } else {
                            old(store).rows(k).last().1
                        };
                        assert(is_bulk_array(v, seq![k, d]));
                    }
                    return Some(v);
                },
                None => {},
            }
            i = i + 1;
        }
        proof {
            lemma_first_nonempty_none(kviews, *old(store));
        }
        None
    }

    /// The non-waiting core of BLPOP and BRPOP: validates the timeout and
    /// makes one pass over the keys; the session layer repeats the pass and
    /// waits between passes while the timeout allows.
    pub fn blocking_pop(command: &Command, store: &mut ListStore, left: bool) -> (r: Value)
        requires
            old(store).wf(),
            command.arguments.len() >= 2,
        ensures
            final(store).wf(),
            blocking_reply(command.args(), *old(store), *final(store), r, left),
    {
        let nkeys = command.arguments.len() - 1;
        proof {
            assert(command.args()[nkeys as int] =~= command.arguments@[nkeys as int]@);
        }
        match parse_i64(command.arguments[nkeys].as_slice()) {
            None => err_value("argument must be an integer"),
            Some(timeout) => {
                if timeout < 0 {
                    err_value("timeout is negative")
                } else {
                    proof {
                        assert(command.args().take(nkeys as int) =~= command.arguments.deep_view()
                            .take(nkeys as int));
                    }
                    match Command::blocking_pop_step(store, &command.arguments, nkeys, left) {
                        Some(v) => v,
                        None => Value::NullArray,
                    }
                }
            },
        }
    }

    pub fn blpop(command: &Command, store: &mut ListStore) -> (r: Value)
        requires
            old(store).wf(),
            command.arguments.len() >= 2,
        ensures
            final(store).wf(),
            blocking_reply(command.args(), *old(store), *final(store), r, true),
    {
        Command::blocking_pop(command, store, true)
    }

    pub fn brpop(command: &Command, store: &mut ListStore) -> (r: Value)
        requires
            old(store).wf(),
            command.arguments.len() >= 2,
        ensures
            final(store).wf(),
            blocking_reply(command.args(), *old(store), *final(store), r, false),
    {
        Command::blocking_pop(command, store, false)
    }

    /// Whether the command's argument count meets the command's declared
    /// arity.
    pub fn valid_argument_count(&self, kind: Kind) -> (r: bool)
        ensures
            r == arity_ok(kind_arity(kind), self.arguments.len() as int),
    {
        let n = self.arguments.len();
        match kind {
            Kind::Llen | Kind::Lpop | Kind::Rpop => n == 1,
            Kind::Lpush | Kind::Lpushx | Kind::Rpush | Kind::Rpushx | Kind::Blpop
                | Kind::Brpop => n >= 2,
            Kind::Lrange | Kind::Ltrim | Kind::Lset => n == 3,
            Kind::Rpoplpush | Kind::Lindex => n == 2,
        }
    }

    /// Carries one command out: QUIT and MONITOR answer OK and hand the
    /// session over; every other name is looked up, checked for arity,
    /// logged to the monitor bus and run against the store. A blocking pop
    /// makes one non-waiting pass here; the session layer drives the
    /// waiting. The returned flag says whether any list gained an element.
    pub fn execute(&self, store: &mut ListStore, monitor: &mut Monitor) -> (r: (Value, Action, bool))
        requires
            old(store).wf(),
            old(monitor).wf(),
            old(monitor).stop < usize::MAX,
            margins_ok(self, *old(store)),
        ensures
            final(store).wf(),
            final(monitor).wf(),
            dispatch_post(
                self.name@,
                self.args(),
                *old(store),
                *final(store),
                *old(monitor),
                *final(monitor),
                r,
            ),
    {
        let upper = name_upper_bytes(self.name.as_str());
        let t: Vec<u8> = vec!['Q' as u8, 'U' as u8, 'I' as u8, 'T' as u8];
        proof {
            assert(t@ =~= cmd_quit());
        }
        if bytes_eq(&upper, &t) {
            return (simple_ok(), Action::HangUp, false);
        }
        let t: Vec<u8> = vec![
            'M' as u8,
            'O' as u8,
            'N' as u8,
            'I' as u8,
            'T' as u8,
            'O' as u8,
            'R' as u8,
        ];
        proof {
            assert(t@ =~= cmd_monitor());
        }
        if bytes_eq(&upper, &t) {
            return (simple_ok(), Action::StartMonitor, false);
        }
        match classify(&upper) {
            None => (err_value("unsupported"), Action::Continue, false),
            Some(kind) => {
                if !self.valid_argument_count(kind) {
                    return (err_value("wrong number of arguments"), Action::Continue, false);
                }
                self.write_to_log(monitor);
                let reply: (Value, bool) = match kind {
                    Kind::Llen => (Command::llen(self, store), false),
                    Kind::Lpop => (Command::lpop(self, store), false),
                    Kind::Rpop => (Command::rpop(self, store), false),
                    Kind::Lpush => (Command::lpush(self, store), true),
                    Kind::Rpush => (Command::rpush(self, store), true),
                    Kind::Lpushx => Command::lpushx(self, store),
                    Kind::Rpushx => Command::rpushx(self, store),
                    Kind::Lrange => (Command::lrange(self, store), false),
                    Kind::Ltrim => (Command::ltrim(self, store), false),
                    Kind::Rpoplpush => Command::rpoplpush(self, store),
                    Kind::Lindex => (Command::lindex(self, store), false),
                    Kind::Lset => (Command::lset(self, store), false),
                    Kind::Blpop => (Command::blpop(self, store), false),
                    Kind::Brpop => (Command::brpop(self, store), false),
                };
                (reply.0, Action::Continue, reply.1)
            },
        }
    }

    /// Whether the store leaves this command its push margins: no key it
    /// may push to sits against an end of the 64-bit position range. Lets
    /// the session layer test `execute`'s requirement at run time.
    pub fn margins_within(&self, store: &ListStore) -> (r: bool)
        requires
            store.wf(),
        ensures
            r == margins_ok(self, *store),
    {
        let n = self.arguments.len();
        if n == 0 {
            return true;
        }
        proof {
            assert(self.args()[0] =~= self.arguments@[0]@);
        }
        let ok_first = match store.boundaries(self.arguments[0].as_slice()) {
            None => (n as u128) <= (i64::MAX as u128),
            Some((first, last)) => (first as i128) - (n as i128) >= (i64::MIN as i128) && (
            last as i128) + (n as i128) <= (i64::MAX as i128),
        };
        proof {
            let rows0 = store.rows(self.args()[0]);
            assert(ok_first == (left_margin_ok(rows0, n as int) && right_margin_ok(
                rows0,
                n as int,
            )));
        }
        if !ok_first {
            return false;
        }
        if n > 1 {
            proof {
                assert(self.args()[1] =~= self.arguments@[1]@);
            }
            match store.boundaries(self.arguments[1].as_slice()) {
                None => true,
                Some((first, _)) => (first as i128) - 1 >= (i64::MIN as i128),
            }
        } else {
            true
        }
    }

    /// Whether this command is a well-formed blocking pop, and what it
    /// asks: its timeout in seconds and whether it pops from the right.
    /// The session layer uses this to decide when to drive the waiting
    /// loop instead of answering at once.
    pub fn blocking_request(&self) -> (r: Option<Result<(i64, bool), Value>>)
        ensures
            ({
                let up = upper_name(self);
                let n = self.arguments.len() as int;
                let blocking = (kind_of(up) == Some(Kind::Blpop) || kind_of(up) == Some(
                    Kind::Brpop,
                )) && n >= 2;
                &&& (r is Some <==> blocking)
                &&& (r matches Some(q) ==> {
                    let t = self.args()[n - 1];
                    &&& (!is_i64_token(t) ==> (q matches Err(v) && is_error(
                        v,
                        "ERR "@ + "argument must be an integer"@,
                    )))
                    &&& (is_i64_token(t) && int_token_value(t) < 0 ==> (q matches Err(v)
                        && is_error(v, "ERR "@ + "timeout is negative"@)))
                    &&& (is_i64_token(t) && int_token_value(t) >= 0 ==> (q matches Ok(p)
                        && p.0 as int == int_token_value(t) && (p.1 <==> kind_of(up) == Some(
                        Kind::Brpop,
                    ))))
                })
            }),
    {
        let upper = name_upper_bytes(self.name.as_str());
        let from_right: bool = match classify(&upper) {
            Some(Kind::Blpop) => false,
            Some(Kind::Brpop) => true,
            _ => {
                return None;
            },
        };
        if self.arguments.len() < 2 {
            return None;
        }
        let nkeys = self.arguments.len() - 1;
        proof {
            assert(self.args()[nkeys as int] =~= self.arguments@[nkeys as int]@);
        }
        match parse_i64(self.arguments[nkeys].as_slice()) {
            None => Some(Err(err_value("argument must be an integer"))),
            Some(timeout) => {
                if timeout < 0 {
                    Some(Err(err_value("timeout is negative")))
                } else {
                    Some(Ok((timeout, from_right)))
                }
            },
        }
    }
}

/// Whether a blocking pop keeps waiting: the peer is still there, and the
/// timeout (in seconds; zero means forever) has not elapsed.
pub fn blocking_continue(alive: bool, timeout: i64, elapsed_nanos: u64) -> (r: bool)
    requires
        timeout >= 0,
    ensures
        r == (alive && (timeout == 0 || (elapsed_nanos as int) < timeout * 1_000_000_000)),
{
    alive && (timeout == 0 || (elapsed_nanos as u128) < (timeout as u128) * 1_000_000_000)
}

/// How long a blocking pop may wait before it must look again: at most one
/// second, and never past the deadline.
pub fn blocking_wait_nanos(timeout: i64, elapsed_nanos: u64) -> (r: u64)
    requires
        timeout >= 0,
    ensures
        timeout == 0 ==> r == 1_000_000_000,
        timeout > 0 ==> ({
            let remaining = timeout * 1_000_000_000 - elapsed_nanos;
            r as int == if remaining <= 0 {
                0
            } else if remaining < 1_000_000_000 {
                remaining
            } else {
                1_000_000_000
            }
        }),
        r <= 1_000_000_000,
{
    if timeout == 0 {
        return 1_000_000_000;
    }
    let total: u128 = (timeout as u128) * 1_000_000_000;
    if (elapsed_nanos as u128) >= total {
        0
    } else {
        let rem: u128 = total - (elapsed_nanos as u128);
        if rem >= 1_000_000_000 {
            1_000_000_000
        } else {
            rem as u64
        }
    }
}

fn translate_exec(first: i64, last: i64, index: i64) -> (r: i128)
    ensures
        r as int == translate(first as int, last as int, index as int),
{
    if index < 0 {
        index as i128 + last as i128 + 1
    } else {
        index as i128 + first as i128
    }
}

} // verus!
