//! The command that lists the keys which a pattern matches.  It reads the
//! field `pattern`, whose percent escapes are read before it is used.

use crate::http::body_parser::{form_fields, key_parser, value_views};
use crate::http::response::{
    bad_request, bad_request_text, internal_server_error, internal_server_error_text, ok, ok_text,
};
use crate::storage::manager::{keys_item_search, Facade};
use crate::storage::{expired_swept, key_views, matched_by, Storage};
use crate::utils::text::{decimal_text, from_chars, push_decimal, push_str_chars};
use crate::utils::url::{decode, decoded};
use vstd::prelude::*;

verus! {

/// The path of the command.
pub fn path() -> (path: &'static str)
    ensures
        path@ == "/keys"@,
{
    "/keys"
}

/// The names of the fields that the command reads.
pub open spec fn allowed() -> Seq<Seq<char>> {
    seq!["pattern"@]
}

/// The line of the key `key` at the place `place` of a listing: the place,
/// a bracket, and the key in quotation marks.
pub open spec fn entry(place: nat, key: Seq<char>) -> Seq<char> {
    decimal_text(place) + ") \""@ + key + "\""@
}

/// The listing of `keys`: one line for each, numbered from one, with a line
/// feed between two lines.
pub open spec fn listing(keys: Seq<Seq<char>>) -> Seq<char>
    decreases keys.len(),
{
    if keys.len() == 0 {
        Seq::<char>::empty()
    } else if keys.len() == 1 {
        entry(1, keys[0])
    } else {
        listing(keys.drop_last()) + "\n"@ + entry(keys.len(), keys.last())
    }
}

/// The body of the answer that lists `keys`.
pub open spec fn answer(keys: Seq<Seq<char>>) -> Seq<char> {
    if keys.len() == 0 {
        "No matching keys found."@
    } else {
        listing(keys)
    }
}

/// Whether the command, run on `request` at `now`, turns the table `before`
/// into `after` and answers with `response`.
pub open spec fn outcome(
    request: Seq<char>,
    before: Option<Storage>,
    after: Option<Storage>,
    now: u64,
    response: Seq<char>,
) -> bool {
    let fields = form_fields(request, allowed());
    if !fields.contains_key("pattern"@) {
        after == before && response == bad_request_text("Missing key parameter"@)
    } else {
        match before {
            None => after is None && response == internal_server_error_text(
                "Storage is not initialized."@,
            ),
            Some(t) => {
                &&& after matches Some(a)
                &&& expired_swept(t, a, now)
                &&& response == ok_text(
                    answer(a.order().filter(matched_by(decoded(fields["pattern"@])))),
                )
            },
        }
    }
}

/// The listing of `keys`.
fn list_keys(keys: &Vec<String>) -> (text: String)
    ensures
        text@ == listing(key_views(keys@)),
{
    let ghost all = key_views(keys@);
    let mut out: Vec<char> = Vec::new();
    let mut i: usize = 0;
    assert(all.take(0) == Seq::<Seq<char>>::empty());
    while i < keys.len()
        invariant
            i <= keys.len(),
            all == key_views(keys@),
            out@ == listing(all.take(i as int)),
        decreases keys.len() - i,
    {
        let ghost seen = all.take(i + 1);
        assert(seen.drop_last() == all.take(i as int));
        assert(seen.last() == keys@[i as int]@);
        assert(seen[0] == all[0]);
        if i > 0 {
            push_str_chars(&mut out, "\n");
        }
        let ghost mid = out@;
        push_decimal(&mut out, (i + 1) as u64);
        push_str_chars(&mut out, ") \"");
        push_str_chars(&mut out, keys[i].as_str());
        push_str_chars(&mut out, "\"");
        assert(out@ == mid + entry((i + 1) as nat, keys@[i as int]@));
        i += 1;
    }
    assert(all.take(i as int) == all);
    from_chars(&out)
}

/// Lists the keys that the pattern of the field `pattern` matches.  Records
/// that have expired are removed first.
pub fn command(request: &str, facade: &mut Facade, now: u64) -> (response: String)
    requires
        old(facade).wf(),
    ensures
        final(facade).wf(),
        outcome(request@, old(facade).table, final(facade).table, now, response@),
{
    let allowed_keys: Vec<&str> = vec!["pattern"];
    assert(crate::http::body_parser::name_views(allowed_keys@) == allowed());
    let fields = key_parser(request, allowed_keys.as_slice());
    assert(fields@.contains_key("pattern"@) == value_views(fields@).contains_key("pattern"@));
    let pattern = match fields.get("pattern") {
        Some(pattern) => decode(pattern.as_str()),
        None => {
            return bad_request("Missing key parameter");
        },
    };
    assert(pattern@ == decoded(value_views(fields@)["pattern"@]));
    match keys_item_search(facade, pattern.as_str(), now) {
        Ok(found) => {
            if found.len() > 0 {
                let text = list_keys(&found);
                ok(text.as_str())
            } else {
                ok("No matching keys found.")
            }
        },
        Err(err) => internal_server_error(err.message().as_str()),
    }
}

} // verus!
