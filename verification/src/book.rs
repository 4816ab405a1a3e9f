//! The puzzle book: one record per calendar date, newest first, behind
//! create, publish, archive, get and list.

use vstd::prelude::*;
use crate::codec::VariantErrorModel;
use crate::json::json_document;
use crate::lifecycle::{
    CreateError, CreatePlan, CreateRequest, PuzzleRecord, RecordModel, Refusal, Status, opt_text,
    opt_texts, plan_create, plan_refusal, planned_tags, requested_status,
};
use crate::payload::constraint_list_of;
use crate::text::{
    comes_before, lemma_before_asymmetric, lemma_before_total, lemma_before_transitive,
    text_before, text_eq,
};
use crate::variant::{VariantSpec, texts};

verus! {

/// The models of a list of records, element by element.
pub open spec fn record_models(items: Seq<PuzzleRecord>) -> Seq<RecordModel> {
    Seq::new(items.len(), |i: int| items[i]@)
}

/// Whether the dates of `s` fall strictly from each record to the next.
pub open spec fn descending(s: Seq<RecordModel>) -> bool {
    forall|i: int, j: int|
        #![trigger s[i], s[j]]
        0 <= i < j < s.len() ==> text_before(s[j].date, s[i].date)
}

/// Whether `s` holds a record of the date `d`.
pub open spec fn has_date(s: Seq<RecordModel>, d: Seq<char>) -> bool {
    exists|i: int| 0 <= i < s.len() && (#[trigger] s[i]).date == d
}

/// The record of the date `d` in `s`, if there is one.
pub open spec fn find_record(s: Seq<RecordModel>, d: Seq<char>) -> Option<RecordModel> {
    if has_date(s, d) {
        Some(s[choose|i: int| 0 <= i < s.len() && (#[trigger] s[i]).date == d])
    } else {
        None
    }
}

/// In a descending list no date occurs twice, so the record found for the
/// date of an element is that element.
pub proof fn lemma_find_at(s: Seq<RecordModel>, i: int)
    requires
        descending(s),
        0 <= i < s.len(),
    ensures
        find_record(s, s[i].date) == Some(s[i]),
{
    let d = s[i].date;
    assert(has_date(s, d));
    let j = choose|j: int| 0 <= j < s.len() && (#[trigger] s[j]).date == d;
    lemma_before_asymmetric(d, d, 0);
    if j < i {
        assert(text_before(s[i].date, s[j].date));
    } else if i < j {
        assert(text_before(s[j].date, s[i].date));
    }
}

/// The records of `s` with the status that `filter` asks for, or all of
/// them where it asks for none, in the order of `s`.
pub open spec fn selected(s: Seq<RecordModel>, filter: Option<Status>) -> Seq<RecordModel>
    decreases s.len(),
{
    if s.len() == 0 {
        Seq::empty()
    } else {
        let init = selected(s.drop_last(), filter);
        if filter is None || filter == Some(s.last().status) {
            init.push(s.last())
        } else {
            init
        }
    }
}

/// Every selected record is a record of the list, and the selection of a
/// descending list is descending.
pub proof fn lemma_selected_descending(s: Seq<RecordModel>, filter: Option<Status>)
    requires
        descending(s),
    ensures
        descending(selected(s, filter)),
        forall|k: int|
            0 <= k < selected(s, filter).len() ==> exists|i: int|
                0 <= i < s.len() && #[trigger] s[i] == #[trigger] selected(s, filter)[k],
    decreases s.len(),
{
    if s.len() > 0 {
        let init = s.drop_last();
        let picked = selected(init, filter);
        assert forall|i: int, j: int| 0 <= i < j < init.len() implies text_before(
            init[j].date,
            init[i].date,
        ) by {
            assert(text_before(s[j].date, s[i].date));
        }
        lemma_selected_descending(init, filter);
        let out = selected(s, filter);
        assert forall|k: int| 0 <= k < out.len() implies exists|i: int|
            0 <= i < s.len() && #[trigger] s[i] == #[trigger] out[k] by {
            if k < picked.len() {
                let i = choose|i: int| 0 <= i < init.len() && #[trigger] init[i] == picked[k];
                assert(s[i] == out[k]);
            } else {
                assert(s[s.len() - 1] == out[k]);
            }
        }
        assert forall|a: int, b: int| 0 <= a < b < out.len() implies text_before(
            out[b].date,
            out[a].date,
        ) by {
            if b < picked.len() {
                assert(text_before(picked[b].date, picked[a].date));
            } else {
                let i = choose|i: int| 0 <= i < init.len() && #[trigger] init[i] == picked[a];
                assert(text_before(s[s.len() - 1].date, s[i].date));
            }
        }
    }
}

/// A summary of a record, as a list shows it.
#[derive(Debug)]
pub struct PuzzleSummary {
    pub date: String,
    pub status: Status,
    pub name: Option<String>,
    pub author: Option<String>,
    pub variants: Vec<String>,
    pub difficulty: Option<i64>,
    pub created_at: String,
    pub published_at: Option<String>,
}

/// The mathematical content of a summary.
pub struct SummaryModel {
    pub date: Seq<char>,
    pub status: Status,
    pub name: Option<Seq<char>>,
    pub author: Option<Seq<char>>,
    pub variants: Seq<Seq<char>>,
    pub difficulty: Option<i64>,
    pub created_at: Seq<char>,
    pub published_at: Option<Seq<char>>,
}

impl View for PuzzleSummary {
    type V = SummaryModel;

    open spec fn view(&self) -> SummaryModel {
        SummaryModel {
            date: self.date@,
            status: self.status,
            name: opt_text(self.name),
            author: opt_text(self.author),
            variants: texts(self.variants@),
            difficulty: self.difficulty,
            created_at: self.created_at@,
            published_at: opt_text(self.published_at),
        }
    }
}

impl RecordModel {
    /// What a list shows of this record.
    pub open spec fn summary(self) -> SummaryModel {
        SummaryModel {
            date: self.date,
            status: self.status,
            name: self.title,
            author: self.author,
            variants: self.variants,
            difficulty: self.difficulty,
            created_at: self.created_at,
            published_at: self.published_at,
        }
    }
}

/// The summaries of a list of records, element by element.
pub open spec fn summaries(s: Seq<RecordModel>) -> Seq<SummaryModel> {
    Seq::new(s.len(), |i: int| s[i].summary())
}

/// The models of a list of summaries, element by element.
pub open spec fn summary_models(items: Seq<PuzzleSummary>) -> Seq<SummaryModel> {
    Seq::new(items.len(), |i: int| items[i]@)
}

/// A copy of an optional string.
pub fn copy_opt_text(s: &Option<String>) -> (out: Option<String>)
    ensures
        opt_text(out) == opt_text(*s),
{
    match s {
        Some(t) => Some(t.clone()),
        None => None,
    }
}

/// A copy of a list of strings.
pub fn copy_texts(items: &Vec<String>) -> (out: Vec<String>)
    ensures
        texts(out@) == texts(items@),
{
    let mut out: Vec<String> = Vec::with_capacity(items.len());
    let mut i: usize = 0;
    while i < items.len()
        invariant
            i <= items.len(),
            texts(out@) == texts(items@).take(i as int),
        decreases items.len() - i,
    {
        let ghost before = texts(out@);
        out.push(items[i].clone());
        assert(texts(out@) =~= before.push(items@[i as int]@));
        assert(texts(items@).take(i as int + 1) =~= texts(items@).take(i as int).push(
            items@[i as int]@,
        ));
        i += 1;
    }
    assert(texts(items@).take(i as int) =~= texts(items@));
    out
}

impl PuzzleRecord {
    /// What a list shows of this record.
    pub fn summary(&self) -> (out: PuzzleSummary)
        ensures
            out@ == self@.summary(),
    {
        PuzzleSummary {
            date: self.date.clone(),
            status: self.status,
            name: copy_opt_text(&self.title),
            author: copy_opt_text(&self.author),
            variants: copy_texts(&self.variants),
            difficulty: self.difficulty,
            created_at: self.created_at.clone(),
            published_at: copy_opt_text(&self.published_at),
        }
    }
}

/// Renders the image of a puzzle. The library asks; what renders is up to
/// the implementor, and nothing is assumed of the result.
pub trait Renderer {
    /// The image of the puzzle with this text under these variants, or the
    /// reason why there is none.
    fn render(&mut self, puzzle: &str, specs: &[VariantSpec]) -> Result<String, String>;
}

/// Why a transition was refused.
#[derive(Debug, Clone, Copy, PartialEq, Eq, Structural)]
pub enum LifecycleError {
    /// There is no record of that date.
    NotFound,
}

impl LifecycleError {
    /// The sentence that reports this refusal.
    pub fn message(&self) -> (r: String)
        ensures
            r@ == "Puzzle not found"@,
    {
        String::from_str("Puzzle not found")
    }
}

/// The image of a planned record: the caller's own, or else the rendered
/// one.
pub open spec fn planned_image(plan: CreatePlan, rendered: Option<Seq<char>>) -> Option<Seq<char>> {
    match plan.svg {
        Some(image) => Some(image@),
        None => rendered,
    }
}

/// The record that a plan becomes at the time `now`: it is published at
/// `now` exactly where its status is `Published`, and keeps the time of
/// creation of the record that it replaces.
pub open spec fn planned_record(
    plan: CreatePlan,
    rendered: Option<Seq<char>>,
    now: Seq<char>,
    replaced_created_at: Option<Seq<char>>,
) -> RecordModel {
    RecordModel {
        date: plan.date@,
        status: plan.status,
        puzzle_json: plan.puzzle_json@,
        svg: planned_image(plan, rendered),
        title: opt_text(plan.title),
        author: opt_text(plan.author),
        difficulty: plan.difficulty,
        variants: texts(plan.variants@),
        created_at: match replaced_created_at {
            Some(time) => time,
            None => now,
        },
        updated_at: now,
        published_at: if plan.status == Status::Published {
            Some(now)
        } else {
            None
        },
    }
}

impl CreatePlan {
    /// Makes the record of this plan at the time `now`. `rendered` is the
    /// image that was rendered for the plan's job; `replaced_created_at`
    /// is the time of creation of the record that this one replaces.
    pub fn into_record(
        self,
        rendered: Option<String>,
        now: &str,
        replaced_created_at: Option<String>,
    ) -> (record: PuzzleRecord)
        ensures
            record@ == planned_record(
                self,
                opt_text(rendered),
                now@,
                opt_text(replaced_created_at),
            ),
    {
        let CreatePlan { date, status, puzzle_json, svg, render: _, title, author, difficulty, variants } =
            self;
        let svg: Option<String> = match svg {
            Some(image) => Some(image),
            None => rendered,
        };
        let published_at: Option<String> = match status {
            Status::Published => Some(String::from_str(now)),
            _ => None,
        };
        let created_at: String = match replaced_created_at {
            Some(time) => time,
            None => String::from_str(now),
        };
        PuzzleRecord {
            date,
            status,
            puzzle_json,
            svg,
            title,
            author,
            difficulty,
            variants,
            created_at,
            updated_at: String::from_str(now),
            published_at,
        }
    }
}

/// The puzzles of all dates, newest first.
pub struct PuzzleBook {
    puzzles: Vec<PuzzleRecord>,
}

impl PuzzleBook {
    /// The records, newest first.
    pub closed spec fn records(&self) -> Seq<RecordModel> {
        record_models(self.puzzles@)
    }

    /// The record of a date, if there is one.
    pub open spec fn record(&self, date: Seq<char>) -> Option<RecordModel> {
        find_record(self.records(), date)
    }

    /// The invariant of the book: dates fall strictly from each record to
    /// the next, so no date has two records.
    pub open spec fn wf(&self) -> bool {
        descending(self.records())
    }

    /// A book without records.
    pub fn new() -> (book: PuzzleBook)
        ensures
            book.wf(),
            book.records() == Seq::<RecordModel>::empty(),
    {
        let book = PuzzleBook { puzzles: Vec::new() };
        assert(book.records() =~= Seq::<RecordModel>::empty());
        book
    }

    /// The number of records.
    pub fn len(&self) -> (n: usize)
        ensures
            n == self.records().len(),
    {
        self.puzzles.len()
    }

    /// The index of the record of `date`.
    fn position(&self, date: &str) -> (r: Option<usize>)
        ensures
            match r {
                Some(i) => i < self.records().len() && self.records()[i as int].date == date@,
                None => !has_date(self.records(), date@),
            },
    {
        let mut i: usize = 0;
        while i < self.puzzles.len()
            invariant
                i <= self.puzzles.len(),
                forall|k: int| 0 <= k < i ==> (#[trigger] self.records()[k]).date != date@,
            decreases self.puzzles.len() - i,
        {
            if text_eq(self.puzzles[i].date.as_str(), date) {
                return Some(i);
            }
            i += 1;
        }
        None
    }

    /// The record of `date`.
    pub fn get(&self, date: &str) -> (r: Option<&PuzzleRecord>)
        requires
            self.wf(),
        ensures
            match r {
                Some(record) => self.record(date@) == Some(record@),
                None => self.record(date@) is None,
            },
    {
        match self.position(date) {
            Some(i) => {
                proof {
                    lemma_find_at(self.records(), i as int);
                }
                Some(&self.puzzles[i])
            },
            None => None,
        }
    }

    /// Whether there is a record of `date`.
    pub fn contains(&self, date: &str) -> (r: bool)
        ensures
            r == (self.record(date@) is Some),
    {
        self.position(date).is_some()
    }

    /// The summaries of the records with the status that `filter` asks
    /// for, or of all records where it asks for none, newest first.
    pub fn list(&self, filter: Option<Status>) -> (out: Vec<PuzzleSummary>)
        ensures
            summary_models(out@) == summaries(selected(self.records(), filter)),
            self.wf() ==> descending(selected(self.records(), filter)),
    {
        proof {
            if self.wf() {
                lemma_selected_descending(self.records(), filter);
            }
        }
        let mut out: Vec<PuzzleSummary> = Vec::new();
        let mut i: usize = 0;
        let ghost all = self.records();
        assert(all.take(0) =~= Seq::<RecordModel>::empty());
        assert(summary_models(out@) =~= summaries(selected(all.take(0), filter)));
        while i < self.puzzles.len()
            invariant
                i <= self.puzzles.len(),
                all == self.records(),
                summary_models(out@) == summaries(selected(all.take(i as int), filter)),
            decreases self.puzzles.len() - i,
        {
            let ghost before = summary_models(out@);
            let ghost picked = selected(all.take(i as int), filter);
            assert(all.take(i as int + 1).drop_last() =~= all.take(i as int));
            assert(all.take(i as int + 1).last() == self.puzzles@[i as int]@);
            let keep = match filter {
                None => true,
                Some(status) => status == self.puzzles[i].status,
            };
            if keep {
                let item = self.puzzles[i].summary();
                out.push(item);
                assert(summary_models(out@) =~= before.push(item@));
                assert(summaries(picked.push(all[i as int])) =~= summaries(picked).push(
                    all[i as int].summary(),
                ));
            }
            i += 1;
        }
        assert(all.take(i as int) =~= all);
        out
    }

    /// Puts `record` in the place of the one at index `i`.
    fn replace_at(&mut self, i: usize, record: PuzzleRecord)
        requires
            i < old(self).records().len(),
        ensures
            final(self).records() == old(self).records().update(i as int, record@),
    {
        let _ = self.puzzles.remove(i);
        self.puzzles.insert(i, record);
        assert(self.records() =~= old(self).records().update(i as int, record@));
    }

    /// Puts a record of a date that the book does not have at the place
    /// that keeps the dates falling.
    fn insert_new(&mut self, record: PuzzleRecord)
        requires
            old(self).wf(),
            !has_date(old(self).records(), record@.date),
        ensures
            final(self).wf(),
            forall|d: Seq<char>|
                #[trigger] final(self).record(d) == if d == record@.date {
                    Some(record@)
                } else {
                    old(self).record(d)
                },
    {
        let ghost before = self.records();
        let ghost date = record@.date;
        let mut k: usize = 0;
        while k < self.puzzles.len() && comes_before(
            record.date.as_str(),
            self.puzzles[k].date.as_str(),
        )
            invariant
                k <= self.puzzles.len(),
                before == self.records(),
                date == record@.date,
                forall|i: int| 0 <= i < k ==> text_before(date, (#[trigger] before[i]).date),
            decreases self.puzzles.len() - k,
        {
            k += 1;
        }
        let ghost added = record@;
        self.puzzles.insert(k, record);
        let ghost after = self.records();
        assert(after =~= before.insert(k as int, added));
        proof {
            assert forall|i: int, j: int| 0 <= i < j < after.len() implies text_before(
                after[j].date,
                after[i].date,
            ) by {
                if j < k {
                    assert(text_before(before[j].date, before[i].date));
                } else if j == k {
                    assert(text_before(date, before[i].date));
                } else {
                    // after[j] is before[j - 1], at or below the slot
                    let low = before[j - 1];
                    let at = before[k as int];
                    assert(!text_before(date, at.date));
                    assert(at.date != date);
                    lemma_before_total(at.date, date, 0);
                    if j - 1 > k {
                        assert(text_before(before[j - 1].date, before[k as int].date));
                        lemma_before_transitive(low.date, at.date, date, 0);
                    }
                    if i < k {
                        assert(text_before(date, before[i].date));
                        lemma_before_transitive(low.date, date, before[i].date, 0);
                    } else if i > k {
                        assert(text_before(before[j - 1].date, before[i - 1].date));
                    }
                }
            }
            assert forall|d: Seq<char>|
                #[trigger] find_record(after, d) == if d == date {
                    Some(added)
                } else {
                    find_record(before, d)
                } by {
                if d == date {
                    lemma_find_at(after, k as int);
                } else if has_date(before, d) {
                    let i = choose|i: int| 0 <= i < before.len() && (#[trigger] before[i]).date == d;
                    lemma_find_at(before, i);
                    let to = if i < k { i } else { i + 1 };
                    assert(after[to] == before[i]);
                    lemma_find_at(after, to);
                } else {
                    if has_date(after, d) {
                        let j = choose|j: int| 0 <= j < after.len() && (#[trigger] after[j]).date == d;
                        let from = if j < k { j } else { j - 1 };
                        assert(before[from] == after[j]);
                        assert(has_date(before, d));
                    }
                }
            }
        }
    }

    /// Changes the record at index `i` into one of the same date.
    fn amend_at(&mut self, i: usize, record: PuzzleRecord)
        requires
            old(self).wf(),
            i < old(self).records().len(),
            record@.date == old(self).records()[i as int].date,
        ensures
            final(self).wf(),
            forall|d: Seq<char>|
                #[trigger] final(self).record(d) == if d == record@.date {
                    Some(record@)
                } else {
                    old(self).record(d)
                },
    {
        proof {
            lemma_amend(self.records(), i as int, record@);
        }
        self.replace_at(i, record);
    }

    /// Creates the record of a request, or replaces the one of its date.
    /// A request that must not overwrite is refused where the date has a
    /// record. The kind tags are the caller's or those of the document;
    /// the image is the caller's or else rendered now; the record is
    /// published at `now` exactly where its status is `Published`. A
    /// refused request changes nothing.
    pub fn create<R: Renderer>(
        &mut self,
        request: CreateRequest,
        now: &str,
        renderer: &mut R,
    ) -> (r: Result<(), CreateError>)
        requires
            old(self).wf(),
        ensures
            final(self).wf(),
            match r {
                Err(e) => {
                    &&& final(self).records() == old(self).records()
                    &&& e.kind() == Refusal::Conflict <==> (request.overwrite == Some(false)
                        && old(self).record(request.date@) is Some)
                    &&& e.kind() == Refusal::Render ==> request.svg is None && plan_refusal(
                        opt_texts(request.variants),
                        request.svg is Some,
                        opt_text(request.status),
                        json_document(request.puzzle_json@),
                    ) is None
                    &&& e.kind() != Refusal::Conflict && e.kind() != Refusal::Render ==> Some(
                        e.kind(),
                    ) == plan_refusal(
                        opt_texts(request.variants),
                        request.svg is Some,
                        opt_text(request.status),
                        json_document(request.puzzle_json@),
                    )
                },
                Ok(()) => {
                    &&& !(request.overwrite == Some(false) && old(self).record(request.date@)
                        is Some)
                    &&& plan_refusal(
                        opt_texts(request.variants),
                        request.svg is Some,
                        opt_text(request.status),
                        json_document(request.puzzle_json@),
                    ) is None
                    &&& forall|d: Seq<char>|
                        d != request.date@ ==> #[trigger] final(self).record(d) == old(
                            self,
                        ).record(d)
                    &&& final(self).record(request.date@) matches Some(made) && {
                        &&& made.date == request.date@
                        &&& Some(made.status) == requested_status(opt_text(request.status))
                        &&& made.puzzle_json == request.puzzle_json@
                        &&& made.title == opt_text(request.name)
                        &&& made.author == opt_text(request.author)
                        &&& made.difficulty == request.difficulty
                        &&& Ok::<Seq<Seq<char>>, VariantErrorModel>(made.variants) == planned_tags(
                            opt_texts(request.variants),
                            constraint_list_of(json_document(request.puzzle_json@)->Some_0),
                        )
                        &&& made.svg is Some
                        &&& request.svg is Some ==> made.svg == opt_text(request.svg)
                        &&& made.updated_at == now@
                        &&& made.created_at == match old(self).record(request.date@) {
                            Some(replaced) => replaced.created_at,
                            None => now@,
                        }
                        &&& made.published_at == if made.status == Status::Published {
                            Some(now@)
                        } else {
                            None
                        }
                    }
                },
            },
    {
        let place = self.position(request.date.as_str());
        let plan = match plan_create(request, place.is_some()) {
            Ok(plan) => plan,
            Err(e) => return Err(e),
        };
        let rendered: Option<String> = match &plan.render {
            None => None,
            Some(job) => match renderer.render(job.puzzle.as_str(), job.specs.as_slice()) {
                Ok(image) => Some(image),
                Err(detail) => return Err(CreateError::Render(detail)),
            },
        };
        match place {
            Some(i) => {
                proof {
                    lemma_find_at(self.records(), i as int);
                }
                let created_at = self.puzzles[i].created_at.clone();
                let record = plan.into_record(rendered, now, Some(created_at));
                self.amend_at(i, record);
            },
            None => {
                let record = plan.into_record(rendered, now, None);
                self.insert_new(record);
            },
        }
        Ok(())
    }

    /// Publishes the record of `date` at the time `now`; a record that is
    /// published already gets the new time. An archived record stays as it
    /// is: nothing leads out of `Archived`.
    pub fn publish(&mut self, date: &str, now: &str) -> (r: Result<(), LifecycleError>)
        requires
            old(self).wf(),
        ensures
            final(self).wf(),
            match r {
                Err(_) => old(self).record(date@) is None && final(self).records() == old(
                    self,
                ).records(),
                Ok(()) => old(self).record(date@) matches Some(before) && forall|d: Seq<char>|
                    #[trigger] final(self).record(d) == if d == date@ {
                        Some(before.published(now@))
                    } else {
                        old(self).record(d)
                    },
            },
    {
        let i = match self.position(date) {
            Some(i) => i,
            None => return Err(LifecycleError::NotFound),
        };
        proof {
            lemma_find_at(self.records(), i as int);
        }
        let ghost before = self.records();
        let record = self.puzzles.remove(i);
        let changed = record.publish(now);
        proof {
            lemma_amend(before, i as int, changed@);
        }
        self.puzzles.insert(i, changed);
        assert(self.records() =~= before.update(i as int, changed@));
        Ok(())
    }

    /// Archives the record of `date` at the time `now`, whatever its status
    /// was; the time of its last publish stays.
    pub fn archive(&mut self, date: &str, now: &str) -> (r: Result<(), LifecycleError>)
        requires
            old(self).wf(),
        ensures
            final(self).wf(),
            match r {
                Err(_) => old(self).record(date@) is None && final(self).records() == old(
                    self,
                ).records(),
                Ok(()) => old(self).record(date@) matches Some(before) && forall|d: Seq<char>|
                    #[trigger] final(self).record(d) == if d == date@ {
                        Some(before.archived(now@))
                    } else {
                        old(self).record(d)
                    },
            },
    {
        let i = match self.position(date) {
            Some(i) => i,
            None => return Err(LifecycleError::NotFound),
        };
        proof {
            lemma_find_at(self.records(), i as int);
        }
        let ghost before = self.records();
        let record = self.puzzles.remove(i);
        let changed = record.archive(now);
        proof {
            lemma_amend(before, i as int, changed@);
        }
        self.puzzles.insert(i, changed);
        assert(self.records() =~= before.update(i as int, changed@));
        Ok(())
    }
}

/// Changing a record into one of the same date keeps the dates falling,
/// and changes what is found for that date only.
pub proof fn lemma_amend(before: Seq<RecordModel>, i: int, added: RecordModel)
    requires
        descending(before),
        0 <= i < before.len(),
        added.date == before[i].date,
    ensures
        descending(before.update(i, added)),
        forall|d: Seq<char>|
            #[trigger] find_record(before.update(i, added), d) == if d == added.date {
                Some(added)
            } else {
                find_record(before, d)
            },
{
    let after = before.update(i, added);
    assert forall|a: int, b: int| 0 <= a < b < after.len() implies text_before(
        after[b].date,
        after[a].date,
    ) by {
        assert(text_before(before[b].date, before[a].date));
    }
    assert forall|d: Seq<char>|
        #[trigger] find_record(after, d) == if d == added.date {
            Some(added)
        } else {
            find_record(before, d)
        } by {
        if d == added.date {
            lemma_find_at(after, i);
        } else if has_date(before, d) {
            let j = choose|j: int| 0 <= j < before.len() && (#[trigger] before[j]).date == d;
            lemma_find_at(before, j);
            assert(after[j] == before[j]);
            lemma_find_at(after, j);
        } else {
            if has_date(after, d) {
                let j = choose|j: int| 0 <= j < after.len() && (#[trigger] after[j]).date == d;
                assert(before[j] == after[j]);
                assert(has_date(before, d));
            }
        }
    }
}

/// A record that is published and then archived is archived; where it was
/// not archived before, it keeps the time of that publish.
pub proof fn lemma_publish_then_archive(record: RecordModel, first: Seq<char>, then: Seq<char>)
    ensures
        record.published(first).archived(then).status == Status::Archived,
        record.status != Status::Archived ==> record.published(first).archived(
            then,
        ).published_at == Some(first),
{
}

/// Nothing leads out of `Archived`: publishing an archived record leaves
/// it as it is, and archiving it again keeps it archived.
pub proof fn lemma_archived_stays(record: RecordModel, now: Seq<char>)
    requires
        record.status == Status::Archived,
    ensures
        record.published(now) == record,
        record.archived(now).status == Status::Archived,
{
}

} // verus!
