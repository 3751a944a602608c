//! Turning a decoded wire value into a command name and its arguments.

use vstd::prelude::*;
use vstd::slice::slice_to_vec;
use vstd::utf8::{decode_utf8, valid_utf8};

use crate::value::{value_bytes, Value};

verus! {

/// Every element of a command array must carry bytes: a simple string or a
/// bulk string.
pub open spec fn all_stringy(elems: Seq<Value>) -> bool {
    forall|i: int| 0 <= i < elems.len() ==> value_bytes(#[trigger] elems[i]) is Some
}

/// The argument byte strings: the bytes of every element after the first.
pub open spec fn args_of(elems: Seq<Value>) -> Seq<Seq<u8>> {
    Seq::new((elems.len() - 1) as nat, |i: int| value_bytes(elems[i + 1]).unwrap())
}

/// Whether an array parses into a command, and what it parses to: see
/// `parse_command_array`.
pub open spec fn parses_to(elems: Seq<Value>, name: Seq<char>, args: Seq<Seq<u8>>) -> bool {
    &&& elems.len() > 0
    &&& all_stringy(elems)
    &&& valid_utf8(value_bytes(elems[0]).unwrap())
    &&& name == decode_utf8(value_bytes(elems[0]).unwrap())
    &&& args == args_of(elems)
}

fn element_bytes(v: &Value) -> (r: Option<Vec<u8>>)
    ensures
        r matches Some(b) ==> value_bytes(*v) == Some(b@),
        r is None ==> value_bytes(*v) is None,
{
    match v {
        Value::Simple(s) => Some(s.as_str().as_bytes_vec()),
        Value::Bulk(b) => Some(slice_to_vec(b.as_slice())),
        _ => None,
    }
}

/// Parses a command array: every element must be a string, and the first
/// must be valid UTF-8; it becomes the name, the rest the arguments.
pub fn parse_command_array(array: &Vec<Value>) -> (r: Result<(String, Vec<Vec<u8>>), String>)
    ensures
        r matches Ok(p) ==> parses_to(array@, p.0@, p.1.deep_view()),
        r matches Err(e) ==> {
            ||| (array@.len() == 0 && e@ == "expected array"@)
            ||| (!all_stringy(array@) && e@ == "all arguments should be strings"@)
            ||| (array@.len() > 0 && all_stringy(array@) && !valid_utf8(
                value_bytes(array@[0]).unwrap(),
            ) && e@ == "invalid command name"@)
        },
{
    if array.len() == 0 {
        return Err(String::from_str("expected array"));
    }
    let mut strings: Vec<Vec<u8>> = Vec::new();
    let mut i: usize = 0;
    while i < array.len()
        invariant
            i <= array.len(),
            strings@.len() == i,
            forall|j: int| 0 <= j < i ==> #[trigger] value_bytes(array@[j]) == Some(
                strings@[j]@,
            ),
        decreases array.len() - i,
    {
        match element_bytes(&array[i]) {
            Some(b) => {
                strings.push(b);
            },
            None => {
                return Err(String::from_str("all arguments should be strings"));
            },
        }
        i = i + 1;
    }
    match crate::text::bytes_to_utf8(strings[0].as_slice()) {
        Some(name) => {
            let mut args: Vec<Vec<u8>> = Vec::new();
            let mut j: usize = 1;
            while j < strings.len()
                invariant
                    1 <= j <= strings.len(),
                    strings@.len() == array@.len(),
                    forall|k: int| 0 <= k < strings@.len() ==> #[trigger] value_bytes(array@[k])
                        == Some(strings@[k]@),
                    args@.len() == j - 1,
                    forall|k: int| 0 <= k < j - 1 ==> #[trigger] args@[k]@ == strings@[k + 1]@,
                decreases strings.len() - j,
            {
                args.push(slice_to_vec(strings[j].as_slice()));
                j = j + 1;
            }
            proof {
                assert forall|k: int| 0 <= k < args@.len() implies #[trigger] args.deep_view()[k]
                    == args_of(array@)[k] by {
                    assert(args.deep_view()[k] == args@[k].deep_view());
                    assert(args@[k].deep_view() =~= args@[k]@);
                }
                assert(args.deep_view() =~= args_of(array@));
            }
            Ok((name, args))
        },
        None => Err(String::from_str("invalid command name")),
    }
}

/// Parses a decoded frame: it must be an array of strings (see
/// `parse_command_array`); anything else is rejected.
pub fn parse_command(value: &Value) -> (r: Result<(String, Vec<Vec<u8>>), String>)
    ensures
        r matches Ok(p) ==> (value matches Value::Array(a) && parses_to(a@, p.0@, p.1.deep_view())),
        r matches Err(e) ==> {
            ||| (!(value matches Value::Array(a) && a@.len() > 0) && e@ == "expected array"@)
            ||| (value matches Value::Array(a) && !all_stringy(a@) && e@
                == "all arguments should be strings"@)
            ||| (value matches Value::Array(a) && a@.len() > 0 && all_stringy(a@) && !valid_utf8(
                value_bytes(a@[0]).unwrap(),
            ) && e@ == "invalid command name"@)
        },
{
    match value {
        Value::Array(a) => parse_command_array(a),
        _ => Err(String::from_str("expected array")),
    }
}

} // verus!
