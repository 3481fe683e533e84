//! The methods of a request.

use crate::utils::text::{chars_are, first_word, first_word_chars, to_chars};
use vstd::prelude::*;

verus! {

/// A request method.
#[derive(Debug, Clone, Copy, PartialEq, Eq, Structural)]
pub enum Method {
    GET,
    POST,
    PUT,
    DELETE,
    HEAD,
    OPTIONS,
    PATCH,
    TRACE,
    CONNECT,
}

/// The method that the word `word` names, in capital letters.
pub open spec fn method_named(word: Seq<char>) -> Option<Method> {
    if word == "GET"@ {
        Some(Method::GET)
    } else if word == "POST"@ {
        Some(Method::POST)
    } else if word == "PUT"@ {
        Some(Method::PUT)
    } else if word == "DELETE"@ {
        Some(Method::DELETE)
    } else if word == "HEAD"@ {
        Some(Method::HEAD)
    } else if word == "OPTIONS"@ {
        Some(Method::OPTIONS)
    } else if word == "PATCH"@ {
        Some(Method::PATCH)
    } else if word == "TRACE"@ {
        Some(Method::TRACE)
    } else if word == "CONNECT"@ {
        Some(Method::CONNECT)
    } else {
        None
    }
}

/// The method of a request: the one that its first word names.
pub fn extract_method(request: &str) -> (method: Option<Method>)
    ensures
        method == method_named(first_word(request@)),
{
    let chars = to_chars(request);
    let word = first_word_chars(&chars);
    if chars_are(&word, "GET") {
        Some(Method::GET)
    } else if chars_are(&word, "POST") {
        Some(Method::POST)
    } else if chars_are(&word, "PUT") {
        Some(Method::PUT)
    } else if chars_are(&word, "DELETE") {
        Some(Method::DELETE)
    } else if chars_are(&word, "HEAD") {
        Some(Method::HEAD)
    } else if chars_are(&word, "OPTIONS") {
        Some(Method::OPTIONS)
    } else if chars_are(&word, "PATCH") {
        Some(Method::PATCH)
    } else if chars_are(&word, "TRACE") {
        Some(Method::TRACE)
    } else if chars_are(&word, "CONNECT") {
        Some(Method::CONNECT)
    } else {
        None
    }
}

} // verus!
