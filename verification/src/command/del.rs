//! The command that removes the record under a key.  It reads the field
//! `key`.

use crate::http::body_parser::{form_fields, key_parser, value_views};
use crate::http::response::{
    bad_request, bad_request_text, internal_server_error, internal_server_error_text, ok, ok_text,
};
use crate::storage::manager::{delete_item, Facade};
use crate::storage::{removed_from, Storage};
use vstd::prelude::*;

verus! {

/// The path of the command.
pub fn path() -> (path: &'static str)
    ensures
        path@ == "/del"@,
{
    "/del"
}

/// The names of the fields that the command reads.
pub open spec fn allowed() -> Seq<Seq<char>> {
    seq!["key"@]
}

/// Whether the command, run on `request`, turns the table `before` into
/// `after` and answers with `response`.
pub open spec fn outcome(
    request: Seq<char>,
    before: Option<Storage>,
    after: Option<Storage>,
    response: Seq<char>,
) -> bool {
    let fields = form_fields(request, allowed());
    if !fields.contains_key("key"@) {
        after == before && response == bad_request_text("Missing key parameter"@)
    } else {
        match before {
            None => after is None && response == internal_server_error_text(
                "Error adding item to storage: "@ + "Storage is not initialized."@,
            ),
            Some(t) => {
                &&& after matches Some(a)
                &&& removed_from(t, a, fields["key"@])
                &&& response == ok_text("OK"@)
            },
        }
    }
}

/// Removes the record under the key of the field `key`.  The answer is `OK`
/// whether or not there was a record.
pub fn command(request: &str, facade: &mut Facade) -> (response: String)
    requires
        old(facade).wf(),
    ensures
        final(facade).wf(),
        outcome(request@, old(facade).table, final(facade).table, response@),
{
    let allowed_keys: Vec<&str> = vec!["key"];
    assert(crate::http::body_parser::name_views(allowed_keys@) == allowed());
    let fields = key_parser(request, allowed_keys.as_slice());
    assert(fields@.contains_key("key"@) == value_views(fields@).contains_key("key"@));
    let key = match fields.get("key") {
        Some(key) => key,
        None => {
            return bad_request("Missing key parameter");
        },
    };
    assert(key@ == value_views(fields@)["key"@]);
    match delete_item(facade, key.as_str()) {
        Ok(_) => ok("OK"),
        Err(err) => {
            let mut text = "Error adding item to storage: ".to_owned();
            text.append(err.message().as_str());
            internal_server_error(text.as_str())
        },
    }
}

} // verus!
