//! The timetable of the background tasks: the periodic sweep, the idle sweep
//! and the snapshot.  Each task has an interval and its next run; the two
//! sweeps can be switched off.
//!
//! The timetable decides, the caller acts: `poll` tells at a given time which
//! tasks are due and moves their next run one interval on, and `run_due`
//! performs them on a table.

use crate::config::Config;
use crate::storage::{
    active_in, idle, unexpired_in, without_expired, without_idle, RecordView, Storage,
};
use crate::storage::snapshot::snapshot_text;
use vstd::prelude::*;

verus! {

/// One task of the timetable.
#[derive(Debug, Clone, Copy, PartialEq, Eq, Structural)]
pub struct Task {
    pub enabled: bool,
    pub interval: u64,
    pub next_run: u64,
}

/// The timetable.
#[derive(Debug, Clone, Copy, PartialEq, Eq, Structural)]
pub struct Scheduler {
    pub periodic: Task,
    pub idle: Task,
    pub snapshot: Task,
}

/// Which tasks are due.
#[derive(Debug, Clone, Copy, PartialEq, Eq, Structural)]
pub struct Due {
    pub periodic: bool,
    pub idle: bool,
    pub snapshot: bool,
}

/// The instant `interval` seconds after `now`, or the largest instant where
/// that lies beyond it.
pub open spec fn later(now: u64, interval: u64) -> u64 {
    if now + interval > u64::MAX {
        u64::MAX
    } else {
        (now + interval) as u64
    }
}

/// Whether `task` is due at `now`: it is switched on and its next run has
/// come.
pub open spec fn is_due(task: Task, now: u64) -> bool {
    task.enabled && task.next_run <= now
}

/// `task` after a poll at `now`: where it was due, its next run lies one
/// interval behind `now`.
pub open spec fn polled(task: Task, now: u64) -> Task {
    if is_due(task, now) {
        Task { enabled: task.enabled, interval: task.interval, next_run: later(now, task.interval) }
    } else {
        task
    }
}

/// The earliest next run among the tasks of `s` that are switched on, or the
/// largest instant where none is.
pub open spec fn earliest_run(s: Scheduler) -> u64 {
    let first = if s.snapshot.enabled {
        s.snapshot.next_run
    } else {
        u64::MAX
    };
    let second = if s.periodic.enabled && s.periodic.next_run < first {
        s.periodic.next_run
    } else {
        first
    };
    if s.idle.enabled && s.idle.next_run < second {
        s.idle.next_run
    } else {
        second
    }
}

/// The shortest sleep between two polls, in seconds.  It keeps a task whose
/// interval is zero from being run without pause.
pub const SHORTEST_WAIT: u64 = 1;

/// The longest sleep between two polls, in seconds.  It bounds the time that
/// a request to stop goes unnoticed.
pub const LONGEST_WAIT: u64 = 5;

/// The sleep at `now` of a caller whose next task runs at `next`: the time
/// up to `next`, kept between the shortest and the longest sleep.
pub open spec fn wait_between(next: u64, now: u64) -> u64 {
    if next <= now || next - now < SHORTEST_WAIT {
        SHORTEST_WAIT
    } else if next - now > LONGEST_WAIT {
        LONGEST_WAIT
    } else {
        (next - now) as u64
    }
}

/// The earliest run is no later than the next run of any task that is
/// switched on, and is the next run of one of them where one is switched on.
pub proof fn lemma_earliest_run(s: Scheduler)
    ensures
        s.snapshot.enabled ==> earliest_run(s) <= s.snapshot.next_run,
        s.periodic.enabled ==> earliest_run(s) <= s.periodic.next_run,
        s.idle.enabled ==> earliest_run(s) <= s.idle.next_run,
        (s.snapshot.enabled && earliest_run(s) == s.snapshot.next_run) || (s.periodic.enabled
            && earliest_run(s) == s.periodic.next_run) || (s.idle.enabled && earliest_run(s)
            == s.idle.next_run) || (!s.snapshot.enabled && !s.periodic.enabled && !s.idle.enabled
            && earliest_run(s) == u64::MAX),
{
}

/// The records of `table` after the sweeps of `due` at `now`: first the
/// periodic sweep, then the idle sweep, each only where it is due.
pub open spec fn after_sweeps(table: Map<Seq<char>, RecordView>, due: Due, now: u64) -> Map<
    Seq<char>,
    RecordView,
> {
    let first = if due.periodic {
        without_expired(table, now)
    } else {
        table
    };
    if due.idle {
        without_idle(first, now)
    } else {
        first
    }
}

/// The order of the keys of `table` after the sweeps of `due` at `now`.
pub open spec fn order_after_sweeps(
    table: Map<Seq<char>, RecordView>,
    order: Seq<Seq<char>>,
    due: Due,
    now: u64,
) -> Seq<Seq<char>> {
    let first = if due.periodic {
        without_expired(table, now)
    } else {
        table
    };
    let first_order = if due.periodic {
        order.filter(unexpired_in(table, now))
    } else {
        order
    };
    if due.idle {
        first_order.filter(active_in(first, now))
    } else {
        first_order
    }
}

impl Task {
    /// A task that first runs one interval after `now`.
    pub fn new(enabled: bool, interval: u64, now: u64) -> (task: Task)
        ensures
            task == (Task { enabled, interval, next_run: later(now, interval) }),
    {
        Task { enabled, interval, next_run: saturating_sum(now, interval) }
    }

    /// Tells whether the task is due at `now`, and if so moves its next run
    /// one interval behind `now`.
    pub fn poll(&mut self, now: u64) -> (due: bool)
        ensures
            due == is_due(*old(self), now),
            *final(self) == polled(*old(self), now),
    {
        if self.enabled && self.next_run <= now {
            self.next_run = saturating_sum(now, self.interval);
            true
        } else {
            false
        }
    }
}

/// The sum of `now` and `interval`, or the largest number where the sum lies
/// beyond it.
fn saturating_sum(now: u64, interval: u64) -> (sum: u64)
    ensures
        sum == later(now, interval),
{
    if interval > u64::MAX - now {
        u64::MAX
    } else {
        now + interval
    }
}

impl Scheduler {
    /// The timetable that `config` asks for, started at `now`: each task
    /// first runs one interval after `now`.  The snapshot is always on.
    pub fn new(config: &Config, now: u64) -> (scheduler: Scheduler)
        ensures
            scheduler == (Scheduler {
                periodic: Task {
                    enabled: config.periodic_timeout_check_enable,
                    interval: config.periodic_scan_range_interval,
                    next_run: later(now, config.periodic_scan_range_interval),
                },
                idle: Task {
                    enabled: config.idle_timeout_check_enable,
                    interval: config.idle_scan_range_interval,
                    next_run: later(now, config.idle_scan_range_interval),
                },
                snapshot: Task {
                    enabled: true,
                    interval: config.snapshot_scan_range_interval,
                    next_run: later(now, config.snapshot_scan_range_interval),
                },
            }),
    {
        Scheduler {
            periodic: Task::new(
                config.periodic_timeout_check_enable,
                config.periodic_scan_range_interval,
                now,
            ),
            idle: Task::new(config.idle_timeout_check_enable, config.idle_scan_range_interval, now),
            snapshot: Task::new(true, config.snapshot_scan_range_interval, now),
        }
    }

    /// Tells which tasks are due at `now` and moves the next run of each of
    /// them one interval behind `now`.
    pub fn poll(&mut self, now: u64) -> (due: Due)
        ensures
            due == (Due {
                periodic: is_due(old(self).periodic, now),
                idle: is_due(old(self).idle, now),
                snapshot: is_due(old(self).snapshot, now),
            }),
            *final(self) == (Scheduler {
                periodic: polled(old(self).periodic, now),
                idle: polled(old(self).idle, now),
                snapshot: polled(old(self).snapshot, now),
            }),
    {
        let periodic = self.periodic.poll(now);
        let idle = self.idle.poll(now);
        let snapshot = self.snapshot.poll(now);
        Due { periodic, idle, snapshot }
    }

    /// The earliest next run among the tasks that are switched on, or the
    /// largest instant where none is.
    pub fn next_wake(&self) -> (next: u64)
        ensures
            next == earliest_run(*self),
    {
        let mut next: u64 = u64::MAX;
        if self.snapshot.enabled && self.snapshot.next_run < next {
            next = self.snapshot.next_run;
        }
        if self.periodic.enabled && self.periodic.next_run < next {
            next = self.periodic.next_run;
        }
        if self.idle.enabled && self.idle.next_run < next {
            next = self.idle.next_run;
        }
        next
    }

    /// How many seconds a caller that polls the timetable should sleep at
    /// `now` before it polls again: the time up to the earliest next run, but
    /// no less than `SHORTEST_WAIT` and no more than `LONGEST_WAIT`.
    pub fn wait_at(&self, now: u64) -> (wait: u64)
        ensures
            wait == wait_between(earliest_run(*self), now),
    {
        let next: u64 = self.next_wake();
        if next <= now || next - now < SHORTEST_WAIT {
            SHORTEST_WAIT
        } else if next - now > LONGEST_WAIT {
            LONGEST_WAIT
        } else {
            next - now
        }
    }
}

/// Performs on `store`, at `now`, the tasks that are due: the periodic sweep,
/// then the idle sweep, then the snapshot of what is left.  Returns the text
/// of the snapshot where one is due.
pub fn run_due(store: &mut Storage, due: Due, now: u64) -> (text: Option<String>)
    requires
        old(store).wf(),
    ensures
        final(store).wf(),
        final(store)@ == after_sweeps(old(store)@, due, now),
        final(store).order() == order_after_sweeps(old(store)@, old(store).order(), due, now),
        match text {
            Some(t) => due.snapshot && t@ == snapshot_text(final(store).entries()),
            None => !due.snapshot,
        },
{
    if due.periodic {
        store.periodic_expirer_at(now);
    }
    if due.idle {
        store.idle_expirer_at(now);
    }
    if due.snapshot {
        Some(store.save_to_text())
    } else {
        None
    }
}

/// The idle sweep removes a record with a lifetime that is not read again,
/// from the moment on at which its lifetime has run out, and not before.  A
/// record made at `made` to live for `ttl` seconds, and last read then, is
/// idle at `now` exactly if `now` is not before `made + ttl`.  So with the
/// periodic sweep off and the idle sweep due, the record is gone after the
/// sweeps at such a `now`, and is still there after the sweeps at an earlier
/// one.
pub proof fn lemma_idle_sweep_removes_unread(
    table: Map<Seq<char>, RecordView>,
    r: RecordView,
    made: u64,
    ttl: u64,
    now: u64,
)
    requires
        made + ttl <= u64::MAX,
        r.exp_time == Some((made + ttl) as u64),
        r.last_acc_time == made,
        table.contains_key(r.key),
        table[r.key] == r,
    ensures
        idle(r, now) <==> made + ttl <= now,
        !after_sweeps(
            table,
            Due { periodic: false, idle: true, snapshot: false },
            now,
        ).contains_key(r.key) <==> made + ttl <= now,
{
}

} // verus!
