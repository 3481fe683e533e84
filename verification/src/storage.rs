//! The record table: records with an optional expiry, looked up by key, kept
//! in the order in which their keys first came in.
//!
//! Times are whole seconds since the Unix epoch.  A record without an expiry
//! is permanent: neither a read nor a sweep ever removes it.

pub mod manager;
pub mod scheduler;
pub mod snapshot;

use crate::utils::clock::unix_now;
use crate::utils::regex::{glob_matches, is_match_chars};
use crate::utils::text::to_chars;
use vstd::hash_map::StringHashMap;
use vstd::prelude::*;

verus! {

/// One entry of the table.
#[derive(Debug)]
pub struct Record {
    pub key: String,
    pub value: String,
    /// When the record expires; `None` for a record that never does.
    pub exp_time: Option<u64>,
    /// When the record was created or last read.
    pub last_acc_time: u64,
}

/// What a record holds, as plain values.
pub struct RecordView {
    pub key: Seq<char>,
    pub value: Seq<char>,
    pub exp_time: Option<u64>,
    pub last_acc_time: u64,
}

impl View for Record {
    type V = RecordView;

    open spec fn view(&self) -> RecordView {
        RecordView {
            key: self.key@,
            value: self.value@,
            exp_time: self.exp_time,
            last_acc_time: self.last_acc_time,
        }
    }
}

impl Clone for Record {
    fn clone(&self) -> (copy: Self)
        ensures
            copy == *self,
    {
        Record {
            key: self.key.clone(),
            value: self.value.clone(),
            exp_time: self.exp_time,
            last_acc_time: self.last_acc_time,
        }
    }
}

/// The expiry of a record made at `now` to live for `ttl` seconds.  An expiry
/// that would lie beyond the largest instant is that instant.
pub open spec fn expiry_after(now: u64, ttl: Option<u64>) -> Option<u64> {
    match ttl {
        None => None,
        Some(d) => Some(
            if now + d > u64::MAX {
                u64::MAX
            } else {
                (now + d) as u64
            },
        ),
    }
}

/// The record made at `now` for `key` and `value`, to live for `ttl`
/// seconds, or for ever where `ttl` is `None`.
pub open spec fn item(key: Seq<char>, value: Seq<char>, ttl: Option<u64>, now: u64) -> RecordView {
    RecordView { key, value, exp_time: expiry_after(now, ttl), last_acc_time: now }
}

/// Whether the expiry of `r` lies strictly before `now`.
pub open spec fn expired(r: RecordView, now: u64) -> bool {
    match r.exp_time {
        None => false,
        Some(e) => e < now,
    }
}

/// Whether `r` has been idle, at `now`, for at least as long as it has been
/// past its expiry.  Both spans are measured back from `now`, so the expiry
/// and the last access must not lie behind it.
pub open spec fn idle(r: RecordView, now: u64) -> bool {
    match r.exp_time {
        None => false,
        Some(e) => e <= now && r.last_acc_time <= now && now - r.last_acc_time >= now - e,
    }
}

/// `r` after a read at `now`: the last access moves up to `now` and never
/// back.
pub open spec fn touched(r: RecordView, now: u64) -> RecordView {
    RecordView {
        key: r.key,
        value: r.value,
        exp_time: r.exp_time,
        last_acc_time: if r.last_acc_time < now {
            now
        } else {
            r.last_acc_time
        },
    }
}

impl Record {
    /// A record for `key` and `value`, made at `now`, that expires `ttl`
    /// seconds later, or never where `ttl` is `None`.
    pub fn new(key: &str, value: &str, ttl: Option<u64>, now: u64) -> (record: Record)
        ensures
            record@ == item(key@, value@, ttl, now),
    {
        let exp_time: Option<u64> = match ttl {
            None => None,
            Some(d) => Some(if d > u64::MAX - now { u64::MAX } else { now + d }),
        };
        Record { key: key.to_owned(), value: value.to_owned(), exp_time, last_acc_time: now }
    }

    /// Whether the record's expiry lies strictly before `now`.
    pub fn is_expired(&self, now: u64) -> (due: bool)
        ensures
            due == expired(self@, now),
    {
        match self.exp_time {
            None => false,
            Some(e) => e < now,
        }
    }

    /// Whether the record is due for the idle sweep at `now`.
    pub fn is_idle(&self, now: u64) -> (due: bool)
        ensures
            due == idle(self@, now),
    {
        match self.exp_time {
            None => false,
            Some(e) => e <= now && self.last_acc_time <= now && now - self.last_acc_time >= now
                - e,
        }
    }
}

/// The table of records.
pub struct Storage {
    records: StringHashMap<Record>,
    order: Vec<String>,
}

impl View for Storage {
    type V = Map<Seq<char>, RecordView>;

    /// The records of the table, by key.
    closed spec fn view(&self) -> Map<Seq<char>, RecordView> {
        self.records@.map_values(|r: Record| r@)
    }
}

/// The test that every key but `key` passes.
pub open spec fn other_than(key: Seq<char>) -> spec_fn(Seq<char>) -> bool {
    |k: Seq<char>| k != key
}

/// The test that a key passes whose record in `table` has not expired at
/// `now`.
pub open spec fn unexpired_in(table: Map<Seq<char>, RecordView>, now: u64) -> spec_fn(
    Seq<char>,
) -> bool {
    |k: Seq<char>| !expired(table[k], now)
}

/// The test that a key passes whose record in `table` is not idle at `now`.
pub open spec fn active_in(table: Map<Seq<char>, RecordView>, now: u64) -> spec_fn(
    Seq<char>,
) -> bool {
    |k: Seq<char>| !idle(table[k], now)
}

/// The test that a key passes which `pattern` matches.
pub open spec fn matched_by(pattern: Seq<char>) -> spec_fn(Seq<char>) -> bool {
    |k: Seq<char>| glob_matches(pattern, k)
}

/// The views of the strings in `v`.
pub open spec fn key_views(v: Seq<String>) -> Seq<Seq<char>> {
    v.map_values(|k: String| k@)
}

/// The views of the records in `v`.
pub open spec fn record_views(v: Seq<Record>) -> Seq<RecordView> {
    v.map_values(|r: Record| r@)
}

/// A sequence without the one place at which `key` stands holds the other
/// keys in their order.
pub proof fn lemma_remove_is_filter(s: Seq<Seq<char>>, i: int, key: Seq<char>)
    requires
        s.no_duplicates(),
        0 <= i < s.len(),
        s[i] == key,
    ensures
        s.remove(i) == s.filter(other_than(key)),
    decreases s.len(),
{
    let keep = other_than(key);
    let front = s.drop_last();
    assert(front.push(s.last()) == s);
    front.lemma_filter_push(s.last(), keep);
    if i == s.len() - 1 {
        lemma_filter_keeps_all(front, key);
        assert(s.remove(i) == front);
    } else {
        lemma_remove_is_filter(front, i, key);
        assert(s.last() != key);
        assert(s.remove(i) == front.remove(i).push(s.last()));
    }
}

/// A sequence in which `key` does not stand is left whole by the test that
/// drops `key`.
pub proof fn lemma_filter_keeps_all(s: Seq<Seq<char>>, key: Seq<char>)
    requires
        !s.contains(key),
    ensures
        s.filter(other_than(key)) == s,
    decreases s.len(),
{
    let keep = other_than(key);
    if s.len() == 0 {
        reveal(Seq::filter);
    } else {
        let front = s.drop_last();
        assert(front.push(s.last()) == s);
        front.lemma_filter_push(s.last(), keep);
        assert(s.contains(s.last()));
        assert forall|j: int| 0 <= j < front.len() implies front[j] != key by {
            assert(s.contains(front[j]));
        }
        lemma_filter_keeps_all(front, key);
    }
}

/// What passes a filter stood in the sequence and passes the test, and the
/// other way round; a sequence without repeats stays without them.
pub proof fn lemma_filter_members(s: Seq<Seq<char>>, keep: spec_fn(Seq<char>) -> bool)
    ensures
        forall|k: Seq<char>| #[trigger] s.filter(keep).contains(k) <==> s.contains(k) && keep(k),
        s.no_duplicates() ==> s.filter(keep).no_duplicates(),
    decreases s.len(),
{
    if s.len() == 0 {
        reveal(Seq::filter);
    } else {
        let front = s.drop_last();
        let last = s.last();
        assert(front.push(last) == s);
        front.lemma_filter_push(last, keep);
        lemma_filter_members(front, keep);
        let kept = front.filter(keep);
        assert(s.filter(keep) == if keep(last) {
            kept.push(last)
        } else {
            kept
        });
        assert forall|k: Seq<char>| #[trigger] s.filter(keep).contains(k) <==> s.contains(k)
            && keep(k) by {
            if s.filter(keep).contains(k) {
                let j = choose|j: int| 0 <= j < s.filter(keep).len() && s.filter(keep)[j] == k;
                if j < kept.len() {
                    assert(kept.contains(k));
                    let m = choose|m: int| 0 <= m < front.len() && front[m] == k;
                    assert(s[m] == k);
                } else {
                    assert(s[s.len() - 1] == k);
                }
            }
            if s.contains(k) && keep(k) {
                let m = choose|m: int| 0 <= m < s.len() && s[m] == k;
                if m < front.len() {
                    assert(front[m] == k);
                    assert(front.contains(k));
                    assert(kept.contains(k));
                    let j = choose|j: int| 0 <= j < kept.len() && kept[j] == k;
                    assert(s.filter(keep)[j] == k);
                } else {
                    assert(s.filter(keep)[kept.len() as int] == k);
                }
            }
        }
        if s.no_duplicates() {
            assert forall|a: int, b: int| 0 <= a < front.len() && 0 <= b < front.len() && a
                != b implies front[a] != front[b] by {
                assert(s[a] != s[b]);
            }
            if keep(last) {
                if kept.contains(last) {
                    assert(front.contains(last));
                    let m = choose|m: int| 0 <= m < front.len() && front[m] == last;
                    assert(s[m] == s[s.len() - 1]);
                }
            }
        }
    }
}

impl Storage {
    /// The keys of the table, in the order in which they first came in.
    pub closed spec fn order(&self) -> Seq<Seq<char>> {
        key_views(self.order@)
    }

    /// What always holds of a table: each key stands once in the order, the
    /// order holds the keys of the records and no others, and each record is
    /// filed under its own key.
    pub open spec fn wf(&self) -> bool {
        well_formed(self@, self.order())
    }

    /// The records of the table in the order of their keys.
    pub open spec fn entries(&self) -> Seq<RecordView> {
        entries_of(self@, self.order())
    }

    /// An empty table.
    pub fn new() -> (table: Storage)
        ensures
            table.wf(),
            table@ == Map::<Seq<char>, RecordView>::empty(),
            table.order() == Seq::<Seq<char>>::empty(),
    {
        let table = Storage { records: StringHashMap::new(), order: Vec::new() };
        assert(table@ == Map::<Seq<char>, RecordView>::empty());
        assert(table.order() == Seq::<Seq<char>>::empty());
        table
    }

    /// The number of records in the table.
    pub fn len(&self) -> (count: usize)
        requires
            self.wf(),
        ensures
            count == self.order().len(),
            count == self@.len(),
    {
        proof {
            self.order().unique_seq_to_set();
            assert(self.order().to_set() == self@.dom());
        }
        self.order.len()
    }

    /// Puts `entry` into the table under its key.  A record that was there
    /// under that key is replaced whole; its key keeps its place in the order.
    /// A new key goes to the end of the order.
    pub fn set(&mut self, entry: Record)
        requires
            old(self).wf(),
        ensures
            final(self).wf(),
            put_into(*old(self), *final(self), entry@),
    {
        let ghost before = self.order();
        if !self.records.contains_key(entry.key.as_str()) {
            assert(!self@.contains_key(entry.key@));
            assert(!before.contains(entry.key@));
            self.order.push(entry.key.clone());
            assert(self.order() == before.push(entry.key@));
            assert forall|a: int, b: int|
                0 <= a < self.order().len() && 0 <= b < self.order().len() && a
                    != b implies self.order()[a] != self.order()[b] by {
                if a < before.len() {
                    assert(before.contains(before[a]));
                }
                if b < before.len() {
                    assert(before.contains(before[b]));
                }
            }
        }
        let ghost after = self.order();
        self.records.insert(entry.key.clone(), entry);
        assert(self.order() == after);
        assert(self@ == old(self)@.insert(entry.key@, entry@));
        assert forall|k: Seq<char>| self.order().contains(k) <==> #[trigger] self@.contains_key(
            k,
        ) by {
            if self.order().contains(k) {
                let j = choose|j: int| 0 <= j < after.len() && after[j] == k;
                if j < before.len() {
                    assert(before.contains(k));
                }
            }
            if self@.contains_key(k) {
                if k == entry.key@ {
                    if old(self)@.contains_key(k) {
                        assert(before.contains(k));
                    } else {
                        assert(after[after.len() - 1] == k);
                    }
                } else {
                    assert(before.contains(k));
                    let j = choose|j: int| 0 <= j < before.len() && before[j] == k;
                    assert(after[j] == k);
                }
            }
        }
    }

    /// The place of `key` in the order.
    fn position(&self, key: &str) -> (at: usize)
        requires
            self.order().contains(key@),
        ensures
            at < self.order().len(),
            self.order()[at as int] == key@,
    {
        let wanted = key.to_owned();
        let mut i: usize = 0;
        while i < self.order.len()
            invariant
                i <= self.order.len(),
                wanted@ == key@,
                self.order().contains(key@),
                forall|j: int| 0 <= j < i ==> self.order()[j] != key@,
            decreases self.order.len() - i,
        {
            if self.order[i] == wanted {
                return i;
            }
            i += 1;
        }
        proof {
            let j = choose|j: int| 0 <= j < self.order().len() && self.order()[j] == key@;
            assert(false);
        }
        0
    }

    /// Removes the record under `key` and returns it, or `None` where there
    /// was none; the table is then left as it was.
    pub fn del(&mut self, key: &str) -> (removed: Option<Record>)
        requires
            old(self).wf(),
        ensures
            final(self).wf(),
            removed_from(*old(self), *final(self), key@),
            record_view(removed) == old(self)@.get(key@),
            removed is None ==> final(self)@ == old(self)@ && final(self).order() == old(
                self,
            ).order(),
    {
        let ghost before = self.order();
        let found: Option<Record> = match self.records.get(key) {
            Some(r) => Some(r.clone()),
            None => None,
        };
        assert(found.is_some() == self@.contains_key(key@));
        if found.is_some() {
            assert(before.contains(key@));
            let at: usize = self.position(key);
            self.records.remove(key);
            self.order.remove(at);
            proof {
                assert(self.order() == before.remove(at as int));
                lemma_remove_is_filter(before, at as int, key@);
                lemma_filter_members(before, other_than(key@));
                assert(self@ == old(self)@.remove(key@));
            }
        } else {
            proof {
                assert(!before.contains(key@));
                lemma_filter_keeps_all(before, key@);
                assert(self@ == old(self)@.remove(key@));
            }
        }
        found
    }

    /// Reads the record under `key` at the time `now`.  A record that has
    /// expired is removed and not returned.  A record that is returned has
    /// its last access moved up to `now`, in the table and in the copy.
    pub fn get_at(&mut self, key: &str, now: u64) -> (found: Option<Record>)
        requires
            old(self).wf(),
        ensures
            final(self).wf(),
            record_view(found) == read_result(old(self)@, key@, now),
            read_from(*old(self), *final(self), key@, now),
    {
        let current: Option<Record> = match self.records.get(key) {
            Some(r) => Some(r.clone()),
            None => None,
        };
        match current {
            None => None,
            Some(record) => {
                assert(self@.contains_key(key@) && record@ == self@[key@]);
                if record.is_expired(now) {
                    self.del(key);
                    None
                } else {
                    let last_acc_time: u64 = if record.last_acc_time < now {
                        now
                    } else {
                        record.last_acc_time
                    };
                    let fresh = Record {
                        key: record.key,
                        value: record.value,
                        exp_time: record.exp_time,
                        last_acc_time,
                    };
                    let copy = fresh.clone();
                    self.set(fresh);
                    Some(copy)
                }
            },
        }
    }

    /// Reads the record under `key` at the time the system clock shows.
    pub fn get(&mut self, key: &str) -> (found: Option<Record>)
        requires
            old(self).wf(),
        ensures
            final(self).wf(),
            exists|now: u64|
                record_view(found) == read_result(old(self)@, key@, now) && #[trigger] read_from(
                    *old(self),
                    *final(self),
                    key@,
                    now,
                ),
    {
        let now: u64 = unix_now();
        let found = self.get_at(key, now);
        assert(read_from(*old(self), *final(self), key@, now));
        found
    }

    /// Removes the records that fail `staying(.., now, by_idle)`: first the
    /// keys are told apart, then each key that has to go is removed.
    fn sweep(&mut self, now: u64, by_idle: bool)
        requires
            old(self).wf(),
        ensures
            final(self).wf(),
            final(self)@ == old(self)@.restrict(Set::new(staying(old(self)@, now, by_idle))),
            final(self).order() == old(self).order().filter(staying(old(self)@, now, by_idle)),
    {
        let ghost table = self@;
        let ghost order = self.order();
        let ghost keep = staying(table, now, by_idle);
        let mut kept: Vec<String> = Vec::new();
        let mut doomed: Vec<String> = Vec::new();
        let mut i: usize = 0;
        proof {
            assert(order.take(0) == Seq::<Seq<char>>::empty());
            reveal(Seq::filter);
            assert(key_views(kept@) == order.take(0).filter(keep));
        }
        while i < self.order.len()
            invariant
                self.wf(),
                self@ == table,
                self.order() == order,
                keep == staying(table, now, by_idle),
                i <= self.order.len(),
                key_views(kept@) == order.take(i as int).filter(keep),
                forall|k: Seq<char>| #[trigger]
                    key_views(doomed@).contains(k) <==> order.take(i as int).contains(k) && !keep(
                        k,
                    ),
            decreases self.order.len() - i,
        {
            let ghost seen = order.take(i as int);
            let ghost k = order[i as int];
            let ghost old_doomed = key_views(doomed@);
            let ghost old_kept = key_views(kept@);
            assert(self.order@[i as int]@ == k);
            assert(order.contains(k));
            assert(self@.contains_key(k));
            let due: bool = match self.records.get(self.order[i].as_str()) {
                Some(r) => if by_idle {
                    r.is_idle(now)
                } else {
                    r.is_expired(now)
                },
                None => false,
            };
            assert(due == !keep(k));
            if due {
                doomed.push(self.order[i].clone());
                assert(key_views(doomed@) == old_doomed.push(k));
            } else {
                kept.push(self.order[i].clone());
                assert(key_views(kept@) == old_kept.push(k));
            }
            proof {
                assert(order.take(i + 1) == seen.push(k));
                seen.lemma_filter_push(k, keep);
                assert forall|x: Seq<char>| #[trigger]
                    key_views(doomed@).contains(x) <==> order.take(i + 1).contains(x) && !keep(
                        x,
                    ) by {
                    if key_views(doomed@).contains(x) {
                        let j = choose|j: int|
                            0 <= j < key_views(doomed@).len() && key_views(doomed@)[j] == x;
                        if j < old_doomed.len() {
                            assert(old_doomed[j] == x);
                            assert(old_doomed.contains(x));
                            let m = choose|m: int| 0 <= m < seen.len() && seen[m] == x;
                            assert(order.take(i + 1)[m] == x);
                        } else {
                            assert(order.take(i + 1)[i as int] == x);
                        }
                    }
                    if order.take(i + 1).contains(x) && !keep(x) {
                        let upto = order.take(i + 1);
                        let m = choose|m: int| 0 <= m < upto.len() && upto[m] == x;
                        if m < i {
                            assert(seen[m] == x);
                            assert(seen.contains(x));
                            assert(old_doomed.contains(x));
                            let j = choose|j: int| 0 <= j < old_doomed.len() && old_doomed[j] == x;
                            assert(key_views(doomed@)[j] == x);
                        } else {
                            assert(key_views(doomed@)[old_doomed.len() as int] == x);
                        }
                    }
                }
            }
            i += 1;
        }
        assert(order.take(i as int) == order);
        let mut j: usize = 0;
        assert(key_views(doomed@).take(0).to_set() == Set::<Seq<char>>::empty());
        assert(table.remove_keys(Set::<Seq<char>>::empty()) == table);
        while j < doomed.len()
            invariant
                j <= doomed.len(),
                self.order() == order,
                self@ == table.remove_keys(key_views(doomed@).take(j as int).to_set()),
            decreases doomed.len() - j,
        {
            let ghost gone = key_views(doomed@).take(j as int);
            let ghost k = key_views(doomed@)[j as int];
            let ghost prev = self@;
            assert(doomed@[j as int]@ == k);
            self.records.remove(doomed[j].as_str());
            proof {
                assert(self@ == prev.remove(k));
                let more = key_views(doomed@).take(j + 1);
                assert(more == gone.push(k));
                assert forall|x: Seq<char>| more.to_set().contains(x) <==> (gone.to_set().contains(
                    x,
                ) || x == k) by {
                    if gone.contains(x) {
                        let m = choose|m: int| 0 <= m < gone.len() && gone[m] == x;
                        assert(more[m] == x);
                    }
                    if x == k {
                        assert(more[j as int] == x);
                    }
                    if more.contains(x) {
                        let m = choose|m: int| 0 <= m < more.len() && more[m] == x;
                        if m < j {
                            assert(gone[m] == x);
                        }
                    }
                }
                assert(self@ == table.remove_keys(more.to_set()));
            }
            j += 1;
        }
        self.order = kept;
        proof {
            assert(key_views(doomed@).take(doomed.len() as int) == key_views(doomed@));
            lemma_filter_members(order, keep);
            assert(self@ == table.restrict(Set::new(keep)));
        }
    }

    /// Removes every record whose expiry lies strictly before `now`.  Records
    /// without an expiry stay.
    pub fn periodic_expirer_at(&mut self, now: u64)
        requires
            old(self).wf(),
        ensures
            final(self).wf(),
            expired_swept(*old(self), *final(self), now),
    {
        self.sweep(now, false);
    }

    /// The periodic sweep at the time the system clock shows.
    pub fn periodic_expirer(&mut self)
        requires
            old(self).wf(),
        ensures
            final(self).wf(),
            exists|now: u64| #[trigger] expired_swept(*old(self), *final(self), now),
    {
        let now: u64 = unix_now();
        self.periodic_expirer_at(now);
        assert(expired_swept(*old(self), *final(self), now));
    }

    /// Removes every record that has an expiry and is idle at `now`.  Records
    /// without an expiry stay.
    pub fn idle_expirer_at(&mut self, now: u64)
        requires
            old(self).wf(),
        ensures
            final(self).wf(),
            idle_swept(*old(self), *final(self), now),
    {
        self.sweep(now, true);
    }

    /// The idle sweep at the time the system clock shows.
    pub fn idle_expirer(&mut self)
        requires
            old(self).wf(),
        ensures
            final(self).wf(),
            exists|now: u64| #[trigger] idle_swept(*old(self), *final(self), now),
    {
        let now: u64 = unix_now();
        self.idle_expirer_at(now);
        assert(idle_swept(*old(self), *final(self), now));
    }

    /// The keys that `pattern` matches, in the order of the table, at the
    /// time `now`.  Records that have expired are removed first, as by the
    /// periodic sweep, so no key of such a record is listed.
    pub fn keys_at(&mut self, pattern: &str, now: u64) -> (found: Vec<String>)
        requires
            old(self).wf(),
        ensures
            final(self).wf(),
            expired_swept(*old(self), *final(self), now),
            key_views(found@) == final(self).order().filter(matched_by(pattern@)),
    {
        self.sweep(now, false);
        let glob = to_chars(pattern);
        let ghost order = self.order();
        let ghost wanted = matched_by(pattern@);
        let mut found: Vec<String> = Vec::new();
        let mut i: usize = 0;
        proof {
            assert(order.take(0) == Seq::<Seq<char>>::empty());
            reveal(Seq::filter);
            assert(key_views(found@) == order.take(0).filter(wanted));
        }
        while i < self.order.len()
            invariant
                self.order() == order,
                glob@ == pattern@,
                wanted == matched_by(pattern@),
                i <= self.order.len(),
                key_views(found@) == order.take(i as int).filter(wanted),
            decreases self.order.len() - i,
        {
            let ghost seen = order.take(i as int);
            let ghost k = order[i as int];
            let ghost old_found = key_views(found@);
            assert(self.order@[i as int]@ == k);
            let text = to_chars(self.order[i].as_str());
            if is_match_chars(&glob, &text) {
                found.push(self.order[i].clone());
                assert(key_views(found@) == old_found.push(k));
            }
            proof {
                assert(order.take(i + 1) == seen.push(k));
                seen.lemma_filter_push(k, wanted);
            }
            i += 1;
        }
        assert(order.take(i as int) == order);
        found
    }

    /// The keys that `pattern` matches at the time the system clock shows.
    pub fn keys(&mut self, pattern: &str) -> (found: Vec<String>)
        requires
            old(self).wf(),
        ensures
            final(self).wf(),
            key_views(found@) == final(self).order().filter(matched_by(pattern@)),
            exists|now: u64| #[trigger] expired_swept(*old(self), *final(self), now),
    {
        let now: u64 = unix_now();
        let found = self.keys_at(pattern, now);
        assert(expired_swept(*old(self), *final(self), now));
        found
    }

    /// Copies of the records of the table, in the order of their keys.
    pub fn records(&self) -> (copies: Vec<Record>)
        requires
            self.wf(),
        ensures
            record_views(copies@) == self.entries(),
    {
        let mut copies: Vec<Record> = Vec::new();
        let mut i: usize = 0;
        while i < self.order.len()
            invariant
                self.wf(),
                i <= self.order.len(),
                record_views(copies@) == self.entries().take(i as int),
            decreases self.order.len() - i,
        {
            let ghost k = self.order()[i as int];
            let ghost before = record_views(copies@);
            assert(self.order@[i as int]@ == k);
            assert(self.order().contains(k));
            assert(self@.contains_key(k));
            match self.records.get(self.order[i].as_str()) {
                Some(r) => {
                    copies.push(r.clone());
                    assert(record_views(copies@) == before.push(self@[k]));
                },
                None => {},
            }
            assert(self.entries().take(i + 1) == self.entries().take(i as int).push(self@[k]));
            i += 1;
        }
        assert(self.entries().take(i as int) == self.entries());
        copies
    }
}

/// What always holds of the records `table` and the order `order` of their
/// keys: each key stands once in the order, the order holds the keys of the
/// records and no others, and each record is filed under its own key.
pub open spec fn well_formed(table: Map<Seq<char>, RecordView>, order: Seq<Seq<char>>) -> bool {
    &&& order.no_duplicates()
    &&& forall|k: Seq<char>| order.contains(k) <==> #[trigger] table.contains_key(k)
    &&& forall|k: Seq<char>| #[trigger] table.contains_key(k) ==> table[k].key == k
}

/// The records of `table` in the order `order` of their keys.
pub open spec fn entries_of(table: Map<Seq<char>, RecordView>, order: Seq<Seq<char>>) -> Seq<
    RecordView,
> {
    order.map_values(|k: Seq<char>| table[k])
}

/// The order of the keys after a record has been put under `key`: a new key
/// goes to the end.
pub open spec fn order_after_set(
    table: Map<Seq<char>, RecordView>,
    order: Seq<Seq<char>>,
    key: Seq<char>,
) -> Seq<Seq<char>> {
    if table.contains_key(key) {
        order
    } else {
        order.push(key)
    }
}

/// Whether `after` is `before` with the record `r` put under its key.
pub open spec fn put_into(before: Storage, after: Storage, r: RecordView) -> bool {
    &&& after@ == before@.insert(r.key, r)
    &&& after.order() == order_after_set(before@, before.order(), r.key)
}

/// Whether `after` is `before` after a read of `key` at `now`.
pub open spec fn read_from(before: Storage, after: Storage, key: Seq<char>, now: u64) -> bool {
    &&& after@ == after_read(before@, key, now)
    &&& after.order() == order_after_read(before@, before.order(), key, now)
}

/// Whether `after` is `before` without the record under `key`.
pub open spec fn removed_from(before: Storage, after: Storage, key: Seq<char>) -> bool {
    &&& after@ == before@.remove(key)
    &&& after.order() == before.order().filter(other_than(key))
}

/// The records of `table` that have not expired at `now`.
pub open spec fn without_expired(table: Map<Seq<char>, RecordView>, now: u64) -> Map<
    Seq<char>,
    RecordView,
> {
    table.restrict(Set::new(unexpired_in(table, now)))
}

/// The records of `table` that are not idle at `now`.
pub open spec fn without_idle(table: Map<Seq<char>, RecordView>, now: u64) -> Map<
    Seq<char>,
    RecordView,
> {
    table.restrict(Set::new(active_in(table, now)))
}

/// Whether `after` is `before` without the records that have expired at
/// `now`.
pub open spec fn expired_swept(before: Storage, after: Storage, now: u64) -> bool {
    &&& after@ == without_expired(before@, now)
    &&& after.order() == before.order().filter(unexpired_in(before@, now))
}

/// Whether `after` is `before` without the records that are idle at `now`.
pub open spec fn idle_swept(before: Storage, after: Storage, now: u64) -> bool {
    &&& after@ == without_idle(before@, now)
    &&& after.order() == before.order().filter(active_in(before@, now))
}

/// Whether `table` holds under `key` a record with the value `value` that
/// never expires.
pub open spec fn permanent(
    table: Map<Seq<char>, RecordView>,
    key: Seq<char>,
    value: Seq<char>,
) -> bool {
    table.contains_key(key) && table[key].value == value && table[key].exp_time is None
}

/// A record without an expiry is permanent.  Putting a value under a key
/// without a lifetime makes the record permanent; a permanent record is
/// read with its value at every time; and it stays permanent, with its
/// value, through every read of any key, through the periodic sweep and the
/// idle sweep at any time, and through every put and removal under another
/// key.  Only a put or a removal under its own key ends it.
pub proof fn lemma_permanent_record(
    table: Map<Seq<char>, RecordView>,
    key: Seq<char>,
    value: Seq<char>,
    now: u64,
    other: Seq<char>,
    r: RecordView,
)
    ensures
        permanent(table.insert(key, item(key, value, None, now)), key, value),
        permanent(table, key, value) ==> {
            &&& read_result(table, key, now) is Some
            &&& read_result(table, key, now)->0.value == value
            &&& permanent(after_read(table, other, now), key, value)
            &&& permanent(without_expired(table, now), key, value)
            &&& permanent(without_idle(table, now), key, value)
            &&& other != key ==> permanent(table.remove(other), key, value)
            &&& r.key != key ==> permanent(table.insert(r.key, r), key, value)
        },
{
}

/// A record with a lifetime is read until its lifetime has run out, and is
/// removed by the first read after that.  After a value has been put under a
/// key at `made` to live for `ttl` seconds, a read at `now` gives the value
/// where `now` is not behind `made + ttl`; where it is, the read gives
/// nothing and the table no longer holds the key.
pub proof fn lemma_expiry_on_read(
    table: Map<Seq<char>, RecordView>,
    key: Seq<char>,
    value: Seq<char>,
    made: u64,
    ttl: u64,
    now: u64,
)
    ensures
        ({
            let put = table.insert(key, item(key, value, Some(ttl), made));
            &&& now <= made + ttl ==> read_result(put, key, now) is Some && read_result(
                put,
                key,
                now,
            )->0.value == value
            &&& now > made + ttl ==> read_result(put, key, now) is None && !after_read(
                put,
                key,
                now,
            ).contains_key(key)
        }),
{
}

/// What a read leaves behind.  A read at `now` never gives a record that has
/// expired at `now`, and never leaves one under the key that it read.  Under
/// every key, the last access of a record that is still there after the read
/// is no earlier than before it; the sweeps leave the records that stay as
/// they were.
pub proof fn lemma_read_keeps_order_of_time(
    table: Map<Seq<char>, RecordView>,
    key: Seq<char>,
    now: u64,
    other: Seq<char>,
)
    ensures
        read_result(table, key, now) is Some ==> !expired(read_result(table, key, now)->0, now),
        after_read(table, key, now).contains_key(key) ==> !expired(
            after_read(table, key, now)[key],
            now,
        ),
        after_read(table, key, now).contains_key(other) ==> table.contains_key(other)
            && after_read(table, key, now)[other].last_acc_time >= table[other].last_acc_time,
        without_expired(table, now).contains_key(other) ==> without_expired(table, now)[other]
            == table[other],
        without_idle(table, now).contains_key(other) ==> without_idle(table, now)[other]
            == table[other],
{
}

/// Removing is idempotent.  Removing under a key that the table does not
/// hold finds nothing and changes neither the records nor the order of the
/// keys; and after a removal under a key, a second one finds nothing and
/// changes nothing.
pub proof fn lemma_del_idempotent(
    table: Map<Seq<char>, RecordView>,
    order: Seq<Seq<char>>,
    key: Seq<char>,
)
    requires
        well_formed(table, order),
    ensures
        !table.contains_key(key) ==> table.get(key) is None && table.remove(key) == table
            && order.filter(other_than(key)) == order,
        table.remove(key).get(key) is None,
        table.remove(key).remove(key) == table.remove(key),
        order.filter(other_than(key)).filter(other_than(key)) == order.filter(other_than(key)),
        well_formed(table.remove(key), order.filter(other_than(key))),
{
    let rest = order.filter(other_than(key));
    lemma_filter_members(order, other_than(key));
    assert(!rest.contains(key));
    lemma_filter_keeps_all(rest, key);
    if !table.contains_key(key) {
        assert(!order.contains(key));
        lemma_filter_keeps_all(order, key);
        assert(table.remove(key) == table);
    }
    assert(table.remove(key).remove(key) == table.remove(key));
}

/// What a copy of a record holds, if there is one.
pub open spec fn record_view(found: Option<Record>) -> Option<RecordView> {
    match found {
        Some(r) => Some(r@),
        None => None,
    }
}

/// What a read of `key` at `now` returns from `table`: nothing where there is
/// no record or the record has expired, else the record with its last access
/// moved up.
pub open spec fn read_result(table: Map<Seq<char>, RecordView>, key: Seq<char>, now: u64) -> Option<
    RecordView,
> {
    if table.contains_key(key) && !expired(table[key], now) {
        Some(touched(table[key], now))
    } else {
        None
    }
}

/// The table after a read of `key` at `now`: an expired record is gone, a
/// live one has its last access moved up, and nothing else changes.
pub open spec fn after_read(table: Map<Seq<char>, RecordView>, key: Seq<char>, now: u64) -> Map<
    Seq<char>,
    RecordView,
> {
    if !table.contains_key(key) {
        table
    } else if expired(table[key], now) {
        table.remove(key)
    } else {
        table.insert(key, touched(table[key], now))
    }
}

/// The order of the keys after a read of `key` at `now`: without `key` where
/// its record had expired, else unchanged.
pub open spec fn order_after_read(
    table: Map<Seq<char>, RecordView>,
    order: Seq<Seq<char>>,
    key: Seq<char>,
    now: u64,
) -> Seq<Seq<char>> {
    if table.contains_key(key) && expired(table[key], now) {
        order.filter(other_than(key))
    } else {
        order
    }
}

/// The test that a key passes whose record stays in `table` at `now`: in the
/// idle sweep where `by_idle` holds, else in the periodic sweep.
pub open spec fn staying(table: Map<Seq<char>, RecordView>, now: u64, by_idle: bool) -> spec_fn(
    Seq<char>,
) -> bool {
    if by_idle {
        active_in(table, now)
    } else {
        unexpired_in(table, now)
    }
}

} // verus!
