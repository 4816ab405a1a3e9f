//! Usage counters: views, checks and solves per calendar date.

use vstd::prelude::*;
use crate::book::PuzzleBook;
use crate::json::json_document;
use crate::lifecycle::{Status, opt_text};
use crate::solve::{CheckStatus, SolveError, solve_verdict, verify_solve};
use crate::text::text_eq;

verus! {

/// What happened to the puzzle of a date.
#[derive(Debug, Clone, Copy, PartialEq, Eq, Structural)]
pub enum StatsEvent {
    View,
    Check,
    Solve,
}

/// The event that a tracking request may name: a view, and nothing else.
pub open spec fn event_named(name: Seq<char>) -> Option<StatsEvent> {
    if name == "view"@ {
        Some(StatsEvent::View)
    } else {
        None
    }
}

/// The event that a tracking request names, if it may name it.
pub fn tracked_event(name: &str) -> (r: Option<StatsEvent>)
    ensures
        r == event_named(name@),
{
    if text_eq(name, "view") {
        Some(StatsEvent::View)
    } else {
        None
    }
}

/// The counters of one date.
pub struct StatsModel {
    pub views: nat,
    pub checks: nat,
    pub solves: nat,
    pub last_seen_at: Option<Seq<char>>,
}

/// The counters of a date without events.
pub open spec fn zero_stats() -> StatsModel {
    StatsModel { views: 0, checks: 0, solves: 0, last_seen_at: None }
}

impl StatsModel {
    /// The counter that an event counts on.
    pub open spec fn count(self, event: StatsEvent) -> nat {
        match event {
            StatsEvent::View => self.views,
            StatsEvent::Check => self.checks,
            StatsEvent::Solve => self.solves,
        }
    }

    /// The counters after an event at the time `now`: the event's own
    /// counter is one higher, and the date was last seen at `now`.
    pub open spec fn bumped(self, event: StatsEvent, now: Seq<char>) -> StatsModel {
        match event {
            StatsEvent::View => StatsModel {
                views: self.views + 1,
                last_seen_at: Some(now),
                ..self
            },
            StatsEvent::Check => StatsModel {
                checks: self.checks + 1,
                last_seen_at: Some(now),
                ..self
            },
            StatsEvent::Solve => StatsModel {
                solves: self.solves + 1,
                last_seen_at: Some(now),
                ..self
            },
        }
    }

    /// The counters after `n` events of one kind, the last of them at the
    /// time `now`.
    pub open spec fn bumped_times(self, event: StatsEvent, now: Seq<char>, n: nat) -> StatsModel
        decreases n,
    {
        if n == 0 {
            self
        } else {
            self.bumped_times(event, now, (n - 1) as nat).bumped(event, now)
        }
    }
}

/// `n` events of one kind raise that kind's counter by exactly `n` and
/// leave the other counters as they were: no event is lost.
pub proof fn lemma_no_lost_events(start: StatsModel, event: StatsEvent, now: Seq<char>, n: nat)
    ensures
        start.bumped_times(event, now, n).count(event) == start.count(event) + n,
        forall|other: StatsEvent|
            other != event ==> start.bumped_times(event, now, n).count(other) == start.count(
                other,
            ),
    decreases n,
{
    if n > 0 {
        lemma_no_lost_events(start, event, now, (n - 1) as nat);
    }
}

/// An event never lowers a counter.
pub proof fn lemma_counters_only_increase(start: StatsModel, event: StatsEvent, now: Seq<char>)
    ensures
        forall|any: StatsEvent| start.bumped(event, now).count(any) >= start.count(any),
{
}

/// The counters of one date, as stored.
#[derive(Debug)]
pub struct PuzzleStats {
    pub date: String,
    pub views: u64,
    pub checks: u64,
    pub solves: u64,
    pub last_seen_at: Option<String>,
}

impl View for PuzzleStats {
    type V = StatsModel;

    open spec fn view(&self) -> StatsModel {
        StatsModel {
            views: self.views as nat,
            checks: self.checks as nat,
            solves: self.solves as nat,
            last_seen_at: opt_text(self.last_seen_at),
        }
    }
}

impl PuzzleStats {
    /// The counters of a date without events: all zero, never seen.
    pub fn zero(date: &str) -> (row: PuzzleStats)
        ensures
            row.date@ == date@,
            row@ == zero_stats(),
    {
        PuzzleStats { date: String::from_str(date), views: 0, checks: 0, solves: 0, last_seen_at: None }
    }
}

/// The dates of a list of rows, element by element.
pub open spec fn row_dates(rows: Seq<PuzzleStats>) -> Seq<Seq<char>> {
    Seq::new(rows.len(), |i: int| rows[i].date@)
}

/// The index that `index_of` gives for an element of a list holds that
/// element.
pub proof fn lemma_index_of(s: Seq<Seq<char>>, x: Seq<char>)
    requires
        s.contains(x),
    ensures
        0 <= s.index_of(x) < s.len(),
        s[s.index_of(x)] == x,
{
    let i = choose|i: int| 0 <= i < s.len() && s[i] == x;
    assert(0 <= i < s.len() && s[i] == x);
}

/// The counters of all dates. A date without events has none stored and
/// counts as zero.
pub struct StatsBook {
    rows: Vec<PuzzleStats>,
}

impl StatsBook {
    /// The dates that have a row, in the order of the rows.
    pub closed spec fn dates(&self) -> Seq<Seq<char>> {
        row_dates(self.rows@)
    }

    /// The counters of the row at index `i`.
    pub closed spec fn row(&self, i: int) -> StatsModel {
        self.rows@[i]@
    }

    /// Whether counters are stored for a date: they are from its first
    /// event on.
    pub open spec fn has_row(&self, date: Seq<char>) -> bool {
        self.dates().contains(date)
    }

    /// The invariant of the book: no date has two rows.
    pub open spec fn wf(&self) -> bool {
        self.dates().no_duplicates()
    }

    /// The counters of a date: those of its row, and zero where it has
    /// none.
    pub open spec fn stats(&self, date: Seq<char>) -> StatsModel {
        if self.dates().contains(date) {
            self.row(self.dates().index_of(date))
        } else {
            zero_stats()
        }
    }

    /// A book without rows: no date has counters stored, so every date
    /// counts as zero.
    pub fn new() -> (book: StatsBook)
        ensures
            book.wf(),
            book.dates() == Seq::<Seq<char>>::empty(),
            forall|d: Seq<char>| #[trigger] book.stats(d) == zero_stats(),
    {
        let book = StatsBook { rows: Vec::new() };
        assert(book.dates() =~= Seq::<Seq<char>>::empty());
        book
    }

    /// The index of the row of `date`.
    fn position(&self, date: &str) -> (r: Option<usize>)
        requires
            self.wf(),
        ensures
            match r {
                Some(i) => i < self.dates().len() && self.dates()[i as int] == date@
                    && self.dates().index_of(date@) == i && self.dates().contains(date@),
                None => !self.dates().contains(date@),
            },
    {
        let mut i: usize = 0;
        while i < self.rows.len()
            invariant
                i <= self.rows.len(),
                self.wf(),
                forall|k: int| 0 <= k < i ==> #[trigger] self.dates()[k] != date@,
            decreases self.rows.len() - i,
        {
            if text_eq(self.rows[i].date.as_str(), date) {
                proof {
                    assert(self.dates()[i as int] == date@);
                    assert(self.dates().contains(date@));
                    lemma_index_of(self.dates(), date@);
                }
                return Some(i);
            }
            i += 1;
        }
        None
    }

    /// The counters of `date`; all zero where it has no row.
    pub fn get(&self, date: &str) -> (r: PuzzleStats)
        requires
            self.wf(),
        ensures
            r@ == self.stats(date@),
            r.date@ == date@,
    {
        match self.position(date) {
            Some(i) => PuzzleStats {
                date: String::from_str(date),
                views: self.rows[i].views,
                checks: self.rows[i].checks,
                solves: self.rows[i].solves,
                last_seen_at: match &self.rows[i].last_seen_at {
                    Some(t) => Some(t.clone()),
                    None => None,
                },
            },
            None => PuzzleStats::zero(date),
        }
    }

    /// Counts one event for `date` at the time `now`: the row of the date
    /// is made if there is none, and exactly the event's own counter goes
    /// up by one.
    pub fn record_stats_event(&mut self, date: &str, event: StatsEvent, now: &str)
        requires
            old(self).wf(),
            old(self).stats(date@).count(event) < u64::MAX,
        ensures
            final(self).wf(),
            forall|d: Seq<char>|
                #[trigger] final(self).stats(d) == if d == date@ {
                    old(self).stats(d).bumped(event, now@)
                } else {
                    old(self).stats(d)
                },
            final(self).has_row(date@),
            forall|d: Seq<char>|
                d != date@ ==> (#[trigger] final(self).has_row(d) <==> old(self).has_row(d)),
    {
        let ghost before_dates = self.dates();
        let row = match self.position(date) {
            Some(i) => self.rows.remove(i),
            None => PuzzleStats::zero(date),
        };
        assert(row@ == old(self).stats(date@));
        assert(row.date@ == date@);
        let ghost kept = self.dates();
        assert(!kept.contains(date@)) by {
            if kept.contains(date@) {
                let j = choose|j: int| 0 <= j < kept.len() && kept[j] == date@;
                if old(self).dates().contains(date@) {
                    let i = old(self).dates().index_of(date@);
                    assert(kept =~= old(self).dates().remove(i));
                    let from = if j < i { j } else { j + 1 };
                    assert(old(self).dates()[from] == date@);
                } else {
                    assert(kept =~= old(self).dates());
                }
            }
        }
        let PuzzleStats { date: row_date, views, checks, solves, last_seen_at: _ } = row;
        let changed = match event {
            StatsEvent::View => PuzzleStats {
                date: row_date,
                views: views + 1,
                checks,
                solves,
                last_seen_at: Some(String::from_str(now)),
            },
            StatsEvent::Check => PuzzleStats {
                date: row_date,
                views,
                checks: checks + 1,
                solves,
                last_seen_at: Some(String::from_str(now)),
            },
            StatsEvent::Solve => PuzzleStats {
                date: row_date,
                views,
                checks,
                solves: solves + 1,
                last_seen_at: Some(String::from_str(now)),
            },
        };
        let ghost middle = self.rows@;
        self.rows.push(changed);
        proof {
            let after = self.dates();
            assert(after =~= kept.push(date@));
            assert(after.no_duplicates()) by {
                assert forall|a: int, b: int|
                    0 <= a < after.len() && 0 <= b < after.len() && a != b implies after[a]
                    != after[b] by {
                    if a < kept.len() && b < kept.len() {
                        if old(self).dates().contains(date@) {
                            let i = old(self).dates().index_of(date@);
                            assert(kept =~= old(self).dates().remove(i));
                        } else {
                            assert(kept =~= old(self).dates());
                        }
                    } else if a < kept.len() {
                        assert(kept.contains(kept[a]));
                    } else if b < kept.len() {
                        assert(kept.contains(kept[b]));
                    }
                }
            }
            assert(after[after.len() - 1] == date@);
            assert(self.has_row(date@));
            assert forall|d: Seq<char>| d != date@ implies (#[trigger] self.has_row(d) <==> old(
                self,
            ).has_row(d)) by {
                let olds = old(self).dates();
                if olds.contains(date@) {
                    lemma_index_of(olds, date@);
                    assert(kept =~= olds.remove(olds.index_of(date@)));
                } else {
                    assert(kept =~= olds);
                }
                if olds.contains(d) {
                    lemma_index_of(olds, d);
                    let j = olds.index_of(d);
                    let to = if olds.contains(date@) && olds.index_of(date@) < j {
                        j - 1
                    } else {
                        j
                    };
                    assert(after[to] == d);
                }
                if after.contains(d) {
                    let k = choose|k: int| 0 <= k < after.len() && after[k] == d;
                    let from = if olds.contains(date@) && k >= olds.index_of(date@) {
                        k + 1
                    } else {
                        k
                    };
                    assert(olds[from] == d);
                }
            }
            assert forall|d: Seq<char>|
                #[trigger] self.stats(d) == if d == date@ {
                    old(self).stats(d).bumped(event, now@)
                } else {
                    old(self).stats(d)
                } by {
                let last = after.len() - 1;
                if d == date@ {
                    assert(after[last] == d);
                    assert(after.contains(d));
                    lemma_index_of(after, d);
                } else if old(self).dates().contains(d) {
                    let olds = old(self).dates();
                    let j = olds.index_of(d);
                    lemma_index_of(olds, d);
                    let to = if olds.contains(date@) && olds.index_of(date@) < j {
                        j - 1
                    } else {
                        j
                    };
                    if olds.contains(date@) {
                        lemma_index_of(olds, date@);
                        assert(kept =~= olds.remove(olds.index_of(date@)));
                        assert(middle =~= old(self).rows@.remove(olds.index_of(date@)));
                    } else {
                        assert(kept =~= olds);
                        assert(middle =~= old(self).rows@);
                    }
                    assert(after[to] == d);
                    assert(after.contains(d));
                    lemma_index_of(after, d);
                    assert(after.index_of(d) == to);
                    assert(self.rows@[to] == old(self).rows@[j]);
                } else {
                    if after.contains(d) {
                        let k = choose|k: int| 0 <= k < after.len() && after[k] == d;
                        assert(k < kept.len());
                        if old(self).dates().contains(date@) {
                            let i = old(self).dates().index_of(date@);
                            assert(kept =~= old(self).dates().remove(i));
                            let from = if k < i { k } else { k + 1 };
                            assert(old(self).dates()[from] == d);
                        } else {
                            assert(kept =~= old(self).dates());
                            assert(old(self).dates()[k] == d);
                        }
                    }
                }
            }
        }
    }
}

/// The stored document text to check a grid of `date` against: that of the
/// date's record where it is published, and none otherwise.
pub open spec fn published_text(book: &PuzzleBook, date: Seq<char>) -> Option<Seq<char>> {
    match book.record(date) {
        Some(record) => if record.status == Status::Published {
            Some(record.puzzle_json)
        } else {
            None
        },
        None => None,
    }
}

/// The verdict on a grid submitted for `date`.
pub open spec fn verdict_for(book: &PuzzleBook, date: Seq<char>, grid: Seq<char>) -> Result<
    CheckStatus,
    SolveError,
> {
    solve_verdict(
        match published_text(book, date) {
            Some(text) => Some(json_document(text)),
            None => None,
        },
        grid,
    )
}

/// The counters of a date after a check with the given outcome at the time
/// `now`: a refused grid counts nothing, every other check counts as a
/// check, and a complete grid counts as a solve too.
pub open spec fn counted(
    before: StatsModel,
    outcome: Result<CheckStatus, SolveError>,
    now: Seq<char>,
) -> StatsModel {
    match outcome {
        Err(_) => before,
        Ok(CheckStatus::Complete) => before.bumped(StatsEvent::Check, now).bumped(
            StatsEvent::Solve,
            now,
        ),
        Ok(_) => before.bumped(StatsEvent::Check, now),
    }
}

/// The events that a check with the given outcome counts, in order: none
/// for a refused grid, a check for every verdict, and after it a solve for
/// a complete grid.
pub open spec fn check_events(outcome: Result<CheckStatus, SolveError>) -> Seq<StatsEvent> {
    match outcome {
        Err(_) => Seq::empty(),
        Ok(CheckStatus::Complete) => seq![StatsEvent::Check, StatsEvent::Solve],
        Ok(_) => seq![StatsEvent::Check],
    }
}

/// The counters after a list of events, each at the time `now`.
pub open spec fn after_events(before: StatsModel, events: Seq<StatsEvent>, now: Seq<char>) -> StatsModel
    decreases events.len(),
{
    if events.len() == 0 {
        before
    } else {
        after_events(before, events.drop_last(), now).bumped(events.last(), now)
    }
}

/// What a check counts is what its events count, one after the other.
pub proof fn lemma_counted_by_events(
    before: StatsModel,
    outcome: Result<CheckStatus, SolveError>,
    now: Seq<char>,
)
    ensures
        counted(before, outcome, now) == after_events(before, check_events(outcome), now),
{
    reveal_with_fuel(after_events, 3);
    let events = check_events(outcome);
    if events.len() == 2 {
        assert(events.drop_last() =~= seq![StatsEvent::Check]);
        assert(events.drop_last().drop_last() =~= Seq::<StatsEvent>::empty());
    } else if events.len() == 1 {
        assert(events.drop_last() =~= Seq::<StatsEvent>::empty());
    }
}

/// The events to count for a check with the given outcome, in order.
pub fn events_of_check(outcome: &Result<CheckStatus, SolveError>) -> (events: Vec<StatsEvent>)
    ensures
        events@ == check_events(*outcome),
{
    let mut events: Vec<StatsEvent> = Vec::new();
    match outcome {
        Err(_) => {},
        Ok(status) => {
            events.push(StatsEvent::Check);
            if status.counts_as_solve() {
                events.push(StatsEvent::Solve);
            }
        },
    }
    assert(events@ =~= check_events(*outcome));
    events
}

/// Checks a grid submitted for `date` against the published puzzle of that
/// date, and counts the check.
pub fn verify_and_count(
    book: &PuzzleBook,
    stats: &mut StatsBook,
    date: &str,
    grid: &str,
    now: &str,
) -> (r: Result<CheckStatus, SolveError>)
    requires
        book.wf(),
        old(stats).wf(),
        old(stats).stats(date@).checks < u64::MAX,
        old(stats).stats(date@).solves < u64::MAX,
    ensures
        r == verdict_for(book, date@, grid@),
        final(stats).wf(),
        forall|d: Seq<char>|
            #[trigger] final(stats).stats(d) == if d == date@ {
                counted(old(stats).stats(d), r, now@)
            } else {
                old(stats).stats(d)
            },
        r is Err ==> final(stats).dates() == old(stats).dates(),
        r is Ok ==> final(stats).has_row(date@),
        forall|d: Seq<char>|
            d != date@ ==> (#[trigger] final(stats).has_row(d) <==> old(stats).has_row(d)),
{
    let stored: Option<&str> = match book.get(date) {
        Some(record) => match record.status {
            Status::Published => Some(record.puzzle_json.as_str()),
            _ => None,
        },
        None => None,
    };
    let outcome = verify_solve(stored, grid);
    match outcome {
        Err(_) => {},
        Ok(status) => {
            stats.record_stats_event(date, StatsEvent::Check, now);
            if status.counts_as_solve() {
                stats.record_stats_event(date, StatsEvent::Solve, now);
            }
        },
    }
    outcome
}

/// What a check counts: a refused grid nothing, a complete grid one check
/// and one solve, every other verdict one check; views are never touched.
pub proof fn lemma_counted(before: StatsModel, outcome: Result<CheckStatus, SolveError>, now: Seq<char>)
    ensures
        counted(before, outcome, now).views == before.views,
        counted(before, outcome, now).checks == before.checks + if outcome is Ok {
            1nat
        } else {
            0nat
        },
        counted(before, outcome, now).solves == before.solves + if outcome == Ok::<
            CheckStatus,
            SolveError,
        >(CheckStatus::Complete) {
            1nat
        } else {
            0nat
        },
        outcome is Err ==> counted(before, outcome, now) == before,
{
}

} // verus!
