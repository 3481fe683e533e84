//! The facade over the record table: one slot that holds the table once it
//! has been initialized, and the four operations of the store on it.  Every
//! operation on an empty slot fails with `StorageError::Uninitialized` and
//! changes nothing.

use crate::storage::{
    expired_swept, item, key_views, matched_by, put_into, read_from, read_result, removed_from,
    Record, RecordView, Storage,
};
use crate::utils::regex::{glob_matches, is_match};
use vstd::prelude::*;

verus! {

/// Why an operation of the facade failed.
#[derive(Debug, Clone, Copy, PartialEq, Eq, Structural)]
pub enum StorageError {
    /// The table has not been initialized.
    Uninitialized,
}

impl StorageError {
    /// The message of the error.
    pub fn message(&self) -> (text: String)
        ensures
            text@ == "Storage is not initialized."@,
    {
        "Storage is not initialized.".to_owned()
    }
}

/// The slot of the table.
pub struct Facade {
    pub table: Option<Storage>,
}

impl Facade {
    /// What always holds of a facade: its table, if it has one, is well
    /// formed.
    pub open spec fn wf(&self) -> bool {
        match self.table {
            Some(t) => t.wf(),
            None => true,
        }
    }

    /// A facade whose table has not been initialized.
    pub fn new() -> (facade: Facade)
        ensures
            facade.table is None,
            facade.wf(),
    {
        Facade { table: None }
    }
}

/// The value of a record, if there is one.
pub open spec fn value_of(found: Option<RecordView>) -> Option<Seq<char>> {
    match found {
        Some(r) => Some(r.value),
        None => None,
    }
}

/// The view of a value, if there is one.
pub open spec fn value_view(found: Option<String>) -> Option<Seq<char>> {
    match found {
        Some(v) => Some(v@),
        None => None,
    }
}

/// Gives the facade an empty table, unless it has a table already.
pub fn initialize(facade: &mut Facade)
    requires
        old(facade).wf(),
    ensures
        final(facade).wf(),
        match old(facade).table {
            Some(t) => final(facade).table == Some(t),
            None => final(facade).table matches Some(t) && t@ == Map::<
                Seq<char>,
                RecordView,
            >::empty() && t.order() == Seq::<Seq<char>>::empty(),
        },
{
    if facade.table.is_none() {
        facade.table = Some(Storage::new());
    }
}

/// Puts `value` under `key` at the time `now`, to expire `ttl` seconds later
/// or never.  A record that was there under `key` is replaced whole.
pub fn add_item(facade: &mut Facade, key: &str, value: &str, ttl: Option<u64>, now: u64) -> (done:
    Result<(), StorageError>)
    requires
        old(facade).wf(),
    ensures
        final(facade).wf(),
        match old(facade).table {
            None => done == Err::<(), StorageError>(StorageError::Uninitialized) && final(
                facade
            ).table is None,
            Some(t) => {
                &&& done is Ok
                &&& final(facade).table matches Some(after)
                &&& put_into(t, after, item(key@, value@, ttl, now))
            },
        },
{
    match &mut facade.table {
        Some(table) => {
            table.set(Record::new(key, value, ttl, now));
            Ok(())
        },
        None => Err(StorageError::Uninitialized),
    }
}

/// Reads the value under `key` at the time `now`.  A record that has expired
/// is removed and counts as absent; a record that is read has its last access
/// moved up to `now`.
pub fn get_item(facade: &mut Facade, key: &str, now: u64) -> (found: Result<
    Option<String>,
    StorageError,
>)
    requires
        old(facade).wf(),
    ensures
        final(facade).wf(),
        match old(facade).table {
            None => found == Err::<Option<String>, StorageError>(StorageError::Uninitialized)
                && final(facade).table is None,
            Some(t) => {
                &&& found matches Ok(value)
                &&& value_view(value) == value_of(read_result(t@, key@, now))
                &&& final(facade).table matches Some(after)
                &&& read_from(t, after, key@, now)
            },
        },
{
    match &mut facade.table {
        Some(table) => {
            match table.get_at(key, now) {
                Some(record) => Ok(Some(record.value)),
                None => Ok(None),
            }
        },
        None => Err(StorageError::Uninitialized),
    }
}

/// Removes the record under `key` and tells whether there was one.
pub fn delete_item(facade: &mut Facade, key: &str) -> (existed: Result<bool, StorageError>)
    requires
        old(facade).wf(),
    ensures
        final(facade).wf(),
        match old(facade).table {
            None => existed == Err::<bool, StorageError>(StorageError::Uninitialized)
                && final(facade).table is None,
            Some(t) => {
                &&& existed == Ok::<bool, StorageError>(t@.contains_key(key@))
                &&& final(facade).table matches Some(after)
                &&& removed_from(t, after, key@)
            },
        },
{
    match &mut facade.table {
        Some(table) => {
            let removed = table.del(key);
            Ok(removed.is_some())
        },
        None => Err(StorageError::Uninitialized),
    }
}

/// The keys that `pattern` matches at the time `now`, in the order of the
/// table.  Records that have expired are removed first.
pub fn keys_item_search(facade: &mut Facade, pattern: &str, now: u64) -> (found: Result<
    Vec<String>,
    StorageError,
>)
    requires
        old(facade).wf(),
    ensures
        final(facade).wf(),
        match old(facade).table {
            None => found is Err && found->Err_0 == StorageError::Uninitialized
                && final(facade).table is None,
            Some(t) => {
                &&& found matches Ok(keys)
                &&& final(facade).table matches Some(after)
                &&& expired_swept(t, after, now)
                &&& key_views(keys@) == after.order().filter(matched_by(pattern@))
            },
        },
{
    match &mut facade.table {
        Some(table) => Ok(table.keys_at(pattern, now)),
        None => Err(StorageError::Uninitialized),
    }
}

/// Whether the glob `pattern` matches the whole of `s`.
pub fn glob_match(pattern: &str, s: &str) -> (matched: bool)
    ensures
        matched == glob_matches(pattern@, s@),
{
    is_match(pattern, s)
}

} // verus!
