//! The command that puts a value under a key.  It reads the fields `key` and
//! `value`; the record it puts never expires.

use crate::http::body_parser::{form_fields, key_parser, value_views};
use crate::http::response::{
    bad_request, bad_request_text, internal_server_error, internal_server_error_text, ok, ok_text,
};
use crate::storage::manager::{add_item, Facade};
use crate::storage::{item, put_into, Storage};
use vstd::prelude::*;

verus! {

/// The path of the command.
pub fn path() -> (path: &'static str)
    ensures
        path@ == "/set"@,
{
    "/set"
}

/// The names of the fields that the command reads.
pub open spec fn allowed() -> Seq<Seq<char>> {
    seq!["key"@, "value"@]
}

/// Whether the command, run on `request` at `now`, turns the table `before`
/// into `after` and answers with `response`.
pub open spec fn outcome(
    request: Seq<char>,
    before: Option<Storage>,
    after: Option<Storage>,
    now: u64,
    response: Seq<char>,
) -> bool {
    let fields = form_fields(request, allowed());
    if !fields.contains_key("key"@) {
        after == before && response == bad_request_text("Missing key parameter"@)
    } else if !fields.contains_key("value"@) {
        after == before && response == bad_request_text("Missing value parameter"@)
    } else {
        match before {
            None => after is None && response == internal_server_error_text(
                "Error adding item to storage: "@ + "Storage is not initialized."@,
            ),
            Some(t) => {
                &&& after matches Some(a)
                &&& put_into(t, a, item(fields["key"@], fields["value"@], None, now))
                &&& response == ok_text("OK"@)
            },
        }
    }
}

/// Puts the value of the field `value` under the key of the field `key`.
pub fn command(request: &str, facade: &mut Facade, now: u64) -> (response: String)
    requires
        old(facade).wf(),
    ensures
        final(facade).wf(),
        outcome(request@, old(facade).table, final(facade).table, now, response@),
{
    let allowed_keys: Vec<&str> = vec!["key", "value"];
    assert(crate::http::body_parser::name_views(allowed_keys@) == allowed());
    let fields = key_parser(request, allowed_keys.as_slice());
    assert(fields@.contains_key("key"@) == value_views(fields@).contains_key("key"@));
    assert(fields@.contains_key("value"@) == value_views(fields@).contains_key("value"@));
    let key = match fields.get("key") {
        Some(key) => key,
        None => {
            return bad_request("Missing key parameter");
        },
    };
    let value = match fields.get("value") {
        Some(value) => value,
        None => {
            return bad_request("Missing value parameter");
        },
    };
    assert(key@ == value_views(fields@)["key"@]);
    assert(value@ == value_views(fields@)["value"@]);
    match add_item(facade, key.as_str(), value.as_str(), None, now) {
        Ok(_) => ok("OK"),
        Err(err) => {
            let mut text = "Error adding item to storage: ".to_owned();
            text.append(err.message().as_str());
            internal_server_error(text.as_str())
        },
    }
}

} // verus!
