//! One step of a session: from a decoded frame to the reply, the next
//! session action, and whether waiting poppers must be woken. The session
//! loop itself (socket reads and writes, the waiting of blocking pops, the
//! monitor forwarding loop) lives outside the library and drives this.

use vstd::prelude::*;
use vstd::utf8::{decode_utf8, valid_utf8};

use crate::commands::{dispatch_post, margins_args_ok, Action, Command};
use crate::monitor::Monitor;
use crate::parser::{all_stringy, args_of, parse_command};
use crate::store::ListStore;
use crate::value::{is_error, value_bytes, Value};

verus! {

/// Whether a frame parses into a command at all (see `parse_command`).
pub open spec fn input_parses(value: Value) -> bool {
    value matches Value::Array(a) && a@.len() > 0 && all_stringy(a@) && valid_utf8(
        value_bytes(a@[0]).unwrap(),
    )
}

/// Handles one decoded frame: a frame that does not parse is answered with
/// an error and the session continues; a parsed command is executed.
pub fn handle_input(value: &Value, store: &mut ListStore, monitor: &mut Monitor) -> (r: (
    Value,
    Action,
    bool,
))
    requires
        old(store).wf(),
        old(monitor).wf(),
        old(monitor).stop < usize::MAX,
        input_parses(*value) ==> (value matches Value::Array(a) && margins_args_ok(
            args_of(a@),
            *old(store),
        )),
    ensures
        final(store).wf(),
        final(monitor).wf(),
        !input_parses(*value) ==> {
            &&& r.1 == Action::Continue
            &&& !r.2
            &&& final(store).same_rows(*old(store))
            &&& *final(monitor) == *old(monitor)
            &&& (!(value matches Value::Array(a) && a@.len() > 0) ==> is_error(
                r.0,
                "ERR "@ + "expected array"@,
            ))
            &&& (value matches Value::Array(a) ==> a@.len() > 0 ==> !all_stringy(a@) ==> is_error(
                r.0,
                "ERR "@ + "all arguments should be strings"@,
            ))
            &&& (value matches Value::Array(a) ==> a@.len() > 0 ==> all_stringy(a@) ==> is_error(
                r.0,
                "ERR "@ + "invalid command name"@,
            ))
        },
        input_parses(*value) ==> (value matches Value::Array(a) && dispatch_post(
            decode_utf8(value_bytes(a@[0]).unwrap()),
            args_of(a@),
            *old(store),
            *final(store),
            *old(monitor),
            *final(monitor),
            r,
        )),
{
    match parse_command(value) {
        Ok((name, arguments)) => {
            let command = Command { name, arguments };
            command.execute(store, monitor)
        },
        Err(error) => {
            let reply = Value::Error(String::from_str("ERR ").concat(error.as_str()));
            (reply, Action::Continue, false)
        },
    }
}

} // verus!
