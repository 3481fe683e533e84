//! The form fields of a request.
//!
//! The body of a request starts behind the first empty line, that is, behind
//! the first run of carriage return, line feed, carriage return, line feed.
//! The body is a list of pairs with `&` between them; a pair is a name,
//! `=`, and a value, and what follows a second `=` is left out.  A value is
//! taken without the NUL characters at its end.

use crate::utils::text::{
    first_occurrence, find_chars, from_chars, occurs, occurs_at, same_chars, slice_chars, split,
    split_chars, texts, to_chars, trim_end_chars, trim_end_matches,
};
use vstd::hash_map::StringHashMap;
use vstd::prelude::*;

verus! {

/// The empty line that ends the head of a request.
pub open spec fn head_end() -> Seq<char> {
    seq!['\r', '\n', '\r', '\n']
}

/// The body of a request: what follows the first empty line.  Where there is
/// no empty line, the body is what follows the first four characters.
pub open spec fn body_of(request: Seq<char>) -> Seq<char> {
    if occurs(request, head_end()) {
        request.skip((choose|at: int| first_occurrence(request, head_end(), at)) + 4)
    } else if request.len() >= 4 {
        request.skip(4)
    } else {
        Seq::<char>::empty()
    }
}

/// The name of a pair: what stands before its first `=`.
pub open spec fn pair_name(pair: Seq<char>) -> Seq<char> {
    split(pair, '=')[0]
}

/// The value of a pair: what stands between its first `=` and its second,
/// without the NUL characters at the end; empty where the pair has no `=`.
pub open spec fn pair_value(pair: Seq<char>) -> Seq<char> {
    let parts = split(pair, '=');
    if parts.len() > 1 {
        trim_end_matches(parts[1], '\0')
    } else {
        Seq::<char>::empty()
    }
}

/// The fields that the pairs `pairs` give, of the names in `allowed`.  Where
/// a name comes twice the later pair wins.
pub open spec fn fields_of(pairs: Seq<Seq<char>>, allowed: Seq<Seq<char>>) -> Map<
    Seq<char>,
    Seq<char>,
>
    decreases pairs.len(),
{
    if pairs.len() == 0 {
        Map::<Seq<char>, Seq<char>>::empty()
    } else {
        let before = fields_of(pairs.drop_last(), allowed);
        if allowed.contains(pair_name(pairs.last())) {
            before.insert(pair_name(pairs.last()), pair_value(pairs.last()))
        } else {
            before
        }
    }
}

/// The form fields of `request` with a name in `allowed`.
pub open spec fn form_fields(request: Seq<char>, allowed: Seq<Seq<char>>) -> Map<
    Seq<char>,
    Seq<char>,
> {
    fields_of(split(body_of(request), '&'), allowed)
}

/// The views of the names in `names`.
pub open spec fn name_views(names: Seq<&str>) -> Seq<Seq<char>> {
    names.map_values(|name: &str| name@)
}

/// The views of the values in `fields`.
pub open spec fn value_views(fields: Map<Seq<char>, String>) -> Map<Seq<char>, Seq<char>> {
    fields.map_values(|value: String| value@)
}

/// The body of `request`.
fn body_chars(request: &Vec<char>) -> (body: Vec<char>)
    ensures
        body@ == body_of(request@),
{
    let mark: Vec<char> = vec!['\r', '\n', '\r', '\n'];
    assert(mark@ == head_end());
    match find_chars(request, &mark) {
        Some(at) => {
            proof {
                let chosen = choose|at: int| first_occurrence(request@, head_end(), at);
                assert(occurs_at(request@, head_end(), at as int));
                assert(occurs_at(request@, head_end(), chosen));
                assert(chosen == at);
                assert(head_end().len() == 4);
            }
            let end: usize = request.len();
            slice_chars(request, at + 4, end)
        },
        None => {
            if request.len() >= 4 {
                slice_chars(request, 4, request.len())
            } else {
                Vec::new()
            }
        },
    }
}

/// Whether `name` is one of `allowed`.
fn is_allowed(name: &Vec<char>, allowed: &[&str]) -> (found: bool)
    ensures
        found == name_views(allowed@).contains(name@),
{
    let ghost names = name_views(allowed@);
    let mut i: usize = 0;
    while i < allowed.len()
        invariant
            i <= allowed.len(),
            names == name_views(allowed@),
            forall|j: int| 0 <= j < i ==> names[j] != name@,
        decreases allowed.len() - i,
    {
        let other = to_chars(allowed[i]);
        assert(names[i as int] == other@);
        if same_chars(name, &other) {
            return true;
        }
        i += 1;
    }
    false
}

/// The form fields of `request` whose name is one of `allowed_keys`.
pub fn key_parser(request: &str, allowed_keys: &[&str]) -> (fields: StringHashMap<String>)
    ensures
        value_views(fields@) == form_fields(request@, name_views(allowed_keys@)),
{
    let chars = to_chars(request);
    let body = body_chars(&chars);
    let pairs = split_chars(&body, '&');
    let ghost all = split(body_of(request@), '&');
    let ghost allowed = name_views(allowed_keys@);
    let mut fields: StringHashMap<String> = StringHashMap::new();
    let mut i: usize = 0;
    assert(all.take(0) == Seq::<Seq<char>>::empty());
    assert(value_views(fields@) == Map::<Seq<char>, Seq<char>>::empty());
    while i < pairs.len()
        invariant
            i <= pairs.len(),
            texts(pairs@) == all,
            allowed == name_views(allowed_keys@),
            value_views(fields@) == fields_of(all.take(i as int), allowed),
        decreases pairs.len() - i,
    {
        let ghost before = value_views(fields@);
        assert(texts(pairs@)[i as int] == pairs@[i as int]@);
        let parts = split_chars(&pairs[i], '=');
        assert(texts(parts@).len() == parts@.len());
        proof {
            crate::utils::text::lemma_split_len(pairs@[i as int]@, '=');
        }
        assert(texts(parts@)[0] == parts@[0]@);
        if is_allowed(&parts[0], allowed_keys) {
            let value: Vec<char> = if parts.len() > 1 {
                assert(texts(parts@)[1] == parts@[1]@);
                trim_end_chars(&parts[1], '\0')
            } else {
                Vec::new()
            };
            assert(value@ == pair_value(all[i as int]));
            fields.insert(from_chars(&parts[0]), from_chars(&value));
            assert(value_views(fields@) == before.insert(
                pair_name(all[i as int]),
                pair_value(all[i as int]),
            ));
        }
        proof {
            assert(all.take(i + 1).drop_last() == all.take(i as int));
            assert(all.take(i + 1).last() == all[i as int]);
        }
        i += 1;
    }
    assert(all.take(i as int) == all);
    fields
}

} // verus!
