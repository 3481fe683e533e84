//! Routes: which command answers which request.
//!
//! A route answers a request of its method that holds its path somewhere in
//! its text.  Of several routes that answer a request, the first one that was
//! added runs.

use crate::command::{outcome, Command};
use crate::http::methods::{extract_method, method_named, Method};
use crate::storage::manager::Facade;
use crate::storage::Storage;
use crate::utils::text::{find_chars, first_word, occurs, to_chars};
use vstd::prelude::*;

verus! {

/// One route.
#[derive(Debug)]
pub struct Route {
    pub method: Method,
    pub path: String,
    pub handler: Command,
}

impl Clone for Route {
    fn clone(&self) -> (copy: Self)
        ensures
            copy == *self,
    {
        Route { method: self.method, path: self.path.clone(), handler: self.handler }
    }
}

/// The routes of the server, in the order in which they were added.
#[derive(Debug)]
pub struct Router {
    routes: Vec<Route>,
}

impl Clone for Router {
    fn clone(&self) -> (copy: Self)
        ensures
            copy.routes() == self.routes(),
    {
        let mut routes: Vec<Route> = Vec::new();
        let mut i: usize = 0;
        while i < self.routes.len()
            invariant
                i <= self.routes.len(),
                routes@ == self.routes@.take(i as int),
            decreases self.routes.len() - i,
        {
            routes.push(self.routes[i].clone());
            assert(self.routes@.take(i + 1) == self.routes@.take(i as int).push(
                self.routes@[i as int],
            ));
            i += 1;
        }
        assert(self.routes@.take(i as int) == self.routes@);
        Router { routes }
    }
}

/// Whether `route` answers the request `request` of the method `method`.
pub open spec fn answers(route: Route, method: Method, request: Seq<char>) -> bool {
    route.method == method && occurs(request, route.path@)
}

/// The number of routes at the start of `routes` that do not answer the
/// request: the place of the first route that does, or the number of routes
/// where none does.
pub open spec fn first_answering(routes: Seq<Route>, method: Method, request: Seq<char>) -> nat
    decreases routes.len(),
{
    if routes.len() == 0 || answers(routes[0], method, request) {
        0
    } else {
        1 + first_answering(routes.skip(1), method, request)
    }
}

/// The answer to a request that no route answers.
pub open spec fn not_found_text() -> Seq<char> {
    "HTTP/1.1 404 Not Found\r\n\r\n404 Not Found"@
}

impl Route {
    /// Whether the route answers the request `request` of the method
    /// `method`.
    pub fn matches_request(&self, method: &Method, request: &str) -> (matched: bool)
        ensures
            matched == answers(*self, *method, request@),
    {
        if self.method != *method {
            return false;
        }
        let text = to_chars(request);
        let path = to_chars(self.path.as_str());
        find_chars(&text, &path).is_some()
    }
}

impl Router {
    /// The routes, in the order in which they were added.
    pub closed spec fn routes(&self) -> Seq<Route> {
        self.routes@
    }

    /// A router without routes.
    pub fn new() -> (router: Router)
        ensures
            router.routes() == Seq::<Route>::empty(),
    {
        Router { routes: Vec::new() }
    }

    /// Adds a route that lets `handler` answer the requests of the method
    /// `method` that hold `path`.
    pub fn route(&mut self, method: Method, path: &str, handler: Command)
        ensures
            final(self).routes().len() == old(self).routes().len() + 1,
            final(self).routes().drop_last() == old(self).routes(),
            final(self).routes().last().method == method,
            final(self).routes().last().path@ == path@,
            final(self).routes().last().handler == handler,
    {
        let route = Route { method, path: path.to_owned(), handler };
        self.routes.push(route);
    }

    /// Answers the request `request` of the method `method` at the time
    /// `now`: the command of the first route that answers the request runs on
    /// the facade.  Where no route answers it, the facade stays as it is and
    /// the answer is "404 Not Found".
    pub fn handle_request(
        &self,
        method: &Method,
        request: &str,
        facade: &mut Facade,
        now: u64,
    ) -> (response: String)
        requires
            old(facade).wf(),
        ensures
            final(facade).wf(),
            routed(
                self.routes(),
                *method,
                request@,
                old(facade).table,
                final(facade).table,
                now,
                response@,
            ),
    {
        let mut i: usize = 0;
        assert(self.routes@.skip(0) == self.routes@);
        while i < self.routes.len()
            invariant
                i <= self.routes.len(),
                facade.wf(),
                *facade == *old(facade),
                first_answering(self.routes@, *method, request@) == i + first_answering(
                    self.routes@.skip(i as int),
                    *method,
                    request@,
                ),
            decreases self.routes.len() - i,
        {
            assert(self.routes@.skip(i as int)[0] == self.routes@[i as int]);
            if self.routes[i].matches_request(method, request) {
                return self.routes[i].handler.run(request, facade, now);
            }
            assert(self.routes@.skip(i as int).skip(1) == self.routes@.skip(i + 1));
            i += 1;
        }
        "HTTP/1.1 404 Not Found\r\n\r\n404 Not Found".to_owned()
    }

    /// Answers the raw request `request` at the time `now`.  A request whose
    /// first word names no method gets no answer and changes nothing; any
    /// other request is answered as by `handle_request`, under the method
    /// that its first word names.
    pub fn serve(&self, request: &str, facade: &mut Facade, now: u64) -> (response: Option<String>)
        requires
            old(facade).wf(),
        ensures
            final(facade).wf(),
            match method_named(first_word(request@)) {
                None => response is None && final(facade).table == old(facade).table,
                Some(method) => response is Some && routed(
                    self.routes(),
                    method,
                    request@,
                    old(facade).table,
                    final(facade).table,
                    now,
                    response->0@,
                ),
            },
    {
        match extract_method(request) {
            Some(method) => Some(self.handle_request(&method, request, facade, now)),
            None => None,
        }
    }
}

/// Whether the routes `routes`, at `now`, answer the request `request` of the
/// method `method` with `response` and turn the table `before` into `after`.
pub open spec fn routed(
    routes: Seq<Route>,
    method: Method,
    request: Seq<char>,
    before: Option<Storage>,
    after: Option<Storage>,
    now: u64,
    response: Seq<char>,
) -> bool {
    let at = first_answering(routes, method, request);
    if at < routes.len() {
        outcome(routes[at as int].handler, request, before, after, now, response)
    } else {
        after == before && response == not_found_text()
    }
}

} // verus!
