//! The command that reads the value under a key.  It reads the field `key`.

use crate::http::body_parser::{form_fields, key_parser, value_views};
use crate::http::response::{bad_request, bad_request_text, ok, ok_text};
use crate::storage::manager::{get_item, value_of, Facade};
use crate::storage::{read_from, read_result, Storage};
use vstd::prelude::*;

verus! {

/// The path of the command.
pub fn path() -> (path: &'static str)
    ensures
        path@ == "/get"@,
{
    "/get"
}

/// The names of the fields that the command reads.
pub open spec fn allowed() -> Seq<Seq<char>> {
    seq!["key"@]
}

/// The body of the answer to a read that found `found`.
pub open spec fn answer(found: Option<Seq<char>>) -> Seq<char> {
    match found {
        Some(value) => value,
        None => "NOT_FOUND"@,
    }
}

/// Whether the command, run on `request` at `now`, turns the table `before`
/// into `after` and answers with `response`.
pub open spec fn outcome(
    request: Seq<char>,
    before: Option<Storage>,
    after: Option<Storage>,
    now: u64,
    response: Seq<char>,
) -> bool {
    let fields = form_fields(request, allowed());
    if !fields.contains_key("key"@) {
        after == before && response == bad_request_text("Missing key parameter"@)
    } else {
        match before {
            None => after is None && response == ok_text("NOT_FOUND"@),
            Some(t) => {
                &&& after matches Some(a)
                &&& read_from(t, a, fields["key"@], now)
                &&& response == ok_text(answer(value_of(read_result(t@, fields["key"@], now))))
            },
        }
    }
}

/// Reads the value under the key of the field `key`.  A key without a live
/// record, and a table that has not been initialized, give `NOT_FOUND`.
pub fn command(request: &str, facade: &mut Facade, now: u64) -> (response: String)
    requires
        old(facade).wf(),
    ensures
        final(facade).wf(),
        outcome(request@, old(facade).table, final(facade).table, now, response@),
{
    let allowed_keys: Vec<&str> = vec!["key"];
    assert(crate::http::body_parser::name_views(allowed_keys@) == allowed());
    let fields = key_parser(request, allowed_keys.as_slice());
    assert(fields@.contains_key("key"@) == value_views(fields@).contains_key("key"@));
    let key = match fields.get("key") {
        Some(key) => key,
        None => {
            return bad_request("Missing key parameter");
        },
    };
    assert(key@ == value_views(fields@)["key"@]);
    match get_item(facade, key.as_str(), now) {
        Ok(Some(value)) => ok(value.as_str()),
        _ => ok("NOT_FOUND"),
    }
}

} // verus!
