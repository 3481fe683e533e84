//! The commands of the store.  Each reads its parameters from the form
//! fields of a request, works on the facade, and answers with a response.

pub mod del;
pub mod get;
pub mod keys;
pub mod set;

use crate::storage::manager::Facade;
use crate::storage::Storage;
use vstd::prelude::*;

verus! {

/// Which command a route runs.
#[derive(Debug, Clone, Copy, PartialEq, Eq, Structural)]
pub enum Command {
    SetValue,
    GetValue,
    DelValue,
    ListKeys,
}

/// Whether the command `kind`, run on `request` at `now`, turns the table
/// `before` into `after` and answers with `response`.
pub open spec fn outcome(
    kind: Command,
    request: Seq<char>,
    before: Option<Storage>,
    after: Option<Storage>,
    now: u64,
    response: Seq<char>,
) -> bool {
    match kind {
        Command::SetValue => set::outcome(request, before, after, now, response),
        Command::GetValue => get::outcome(request, before, after, now, response),
        Command::DelValue => del::outcome(request, before, after, response),
        Command::ListKeys => keys::outcome(request, before, after, now, response),
    }
}

impl Command {
    /// Runs the command on `request` at the time `now`.
    pub fn run(&self, request: &str, facade: &mut Facade, now: u64) -> (response: String)
        requires
            old(facade).wf(),
        ensures
            final(facade).wf(),
            outcome(*self, request@, old(facade).table, final(facade).table, now, response@),
    {
        match self {
            Command::SetValue => set::command(request, facade, now),
            Command::GetValue => get::command(request, facade, now),
            Command::DelValue => del::command(request, facade),
            Command::ListKeys => keys::command(request, facade, now),
        }
    }
}

} // verus!
