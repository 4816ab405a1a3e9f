//! The publication lifecycle of a puzzle: its status, its record, and the
//! plan that turns a creation request into a record.

use vstd::prelude::*;
use crate::each::{each_ok, lemma_each_ok_failure};
use crate::codec::{
    VariantError, VariantErrorModel, constraints_from_json, types_of, variants_from_constraints,
    variants_of,
};
use crate::json::{json_document, json_text, read_json, write_json};
use crate::payload::{PayloadError, constraint_list_of, puzzle_from_document, puzzle_text_of};
use crate::text::text_eq;
use crate::variant::{
    VariantModel, VariantSpec, dedup_first, dedupe_variants, texts, variant_models,
};
use crate::wire::{WireModel, WireValue, lemma_array_model, models_of};

verus! {

/// Where a puzzle stands in its lifecycle.
#[derive(Debug, Clone, Copy, PartialEq, Eq, Structural)]
pub enum Status {
    Draft,
    Published,
    Archived,
}

impl Status {
    /// The word that names this status.
    pub open spec fn name(self) -> Seq<char> {
        match self {
            Status::Draft => "draft"@,
            Status::Published => "published"@,
            Status::Archived => "archived"@,
        }
    }

    /// The word that names this status.
    pub fn as_str(&self) -> (r: &'static str)
        ensures
            r@ == self.name(),
    {
        match self {
            Status::Draft => "draft",
            Status::Published => "published",
            Status::Archived => "archived",
        }
    }

    /// The status that a word names, if it names one.
    pub fn parse(word: &str) -> (r: Option<Status>)
        ensures
            r == status_named(word@),
    {
        if text_eq(word, "draft") {
            Some(Status::Draft)
        } else if text_eq(word, "published") {
            Some(Status::Published)
        } else if text_eq(word, "archived") {
            Some(Status::Archived)
        } else {
            None
        }
    }
}

/// The status that a word names, if it names one.
pub open spec fn status_named(word: Seq<char>) -> Option<Status> {
    if word == "draft"@ {
        Some(Status::Draft)
    } else if word == "published"@ {
        Some(Status::Published)
    } else if word == "archived"@ {
        Some(Status::Archived)
    } else {
        None
    }
}

/// Each status is the one that its own name names.
pub proof fn lemma_status_name_round_trip(status: Status)
    ensures
        status_named(status.name()) == Some(status),
{
    reveal_strlit("draft");
    reveal_strlit("published");
    reveal_strlit("archived");
    assert("draft"@.len() == 5 && "published"@.len() == 9 && "archived"@.len() == 8);
}

/// The characters of an optional string.
pub open spec fn opt_text(s: Option<String>) -> Option<Seq<char>> {
    match s {
        Some(t) => Some(t@),
        None => None,
    }
}

/// The mathematical content of a puzzle record.
pub struct RecordModel {
    pub date: Seq<char>,
    pub status: Status,
    pub puzzle_json: Seq<char>,
    pub svg: Option<Seq<char>>,
    pub title: Option<Seq<char>>,
    pub author: Option<Seq<char>>,
    pub difficulty: Option<i64>,
    pub variants: Seq<Seq<char>>,
    pub created_at: Seq<char>,
    pub updated_at: Seq<char>,
    pub published_at: Option<Seq<char>>,
}

/// One puzzle, identified by its calendar date.
#[derive(Debug)]
pub struct PuzzleRecord {
    pub date: String,
    pub status: Status,
    /// The stored puzzle document, as JSON text.
    pub puzzle_json: String,
    /// The rendered image.
    pub svg: Option<String>,
    pub title: Option<String>,
    pub author: Option<String>,
    pub difficulty: Option<i64>,
    /// The distinct kind tags, in order of first appearance.
    pub variants: Vec<String>,
    pub created_at: String,
    pub updated_at: String,
    /// When the puzzle was last published, if it ever was.
    pub published_at: Option<String>,
}

impl View for PuzzleRecord {
    type V = RecordModel;

    open spec fn view(&self) -> RecordModel {
        RecordModel {
            date: self.date@,
            status: self.status,
            puzzle_json: self.puzzle_json@,
            svg: opt_text(self.svg),
            title: opt_text(self.title),
            author: opt_text(self.author),
            difficulty: self.difficulty,
            variants: texts(self.variants@),
            created_at: self.created_at@,
            updated_at: self.updated_at@,
            published_at: opt_text(self.published_at),
        }
    }
}

impl RecordModel {
    /// The record after a publish at the time `now`: published at `now`,
    /// unless it is archived. No transition leads out of `Archived`, so an
    /// archived record stays as it is.
    pub open spec fn published(self, now: Seq<char>) -> RecordModel {
        if self.status == Status::Archived {
            self
        } else {
            RecordModel {
                status: Status::Published,
                published_at: Some(now),
                updated_at: now,
                ..self
            }
        }
    }

    /// The record after an archive at the time `now`; the time of the last
    /// publish stays.
    pub open spec fn archived(self, now: Seq<char>) -> RecordModel {
        RecordModel { status: Status::Archived, updated_at: now, ..self }
    }
}

impl PuzzleRecord {
    /// This record after a publish at the time `now`: published at `now`,
    /// unless it is archived, in which case it stays as it is.
    pub fn publish(self, now: &str) -> (record: PuzzleRecord)
        ensures
            record@ == self@.published(now@),
    {
        match self.status {
            Status::Archived => self,
            _ => PuzzleRecord {
                status: Status::Published,
                published_at: Some(String::from_str(now)),
                updated_at: String::from_str(now),
                ..self
            },
        }
    }

    /// This record after an archive at the time `now`.
    pub fn archive(self, now: &str) -> (record: PuzzleRecord)
        ensures
            record@ == self@.archived(now@),
    {
        PuzzleRecord { status: Status::Archived, updated_at: String::from_str(now), ..self }
    }
}

/// A request to create the puzzle of a date.
#[derive(Debug)]
pub struct CreateRequest {
    pub date: String,
    pub puzzle_json: String,
    /// The image, where the caller brings one.
    pub svg: Option<String>,
    /// The kind tags, where the caller brings them.
    pub variants: Option<Vec<String>>,
    /// The status word; a draft where there is none.
    pub status: Option<String>,
    pub name: Option<String>,
    pub author: Option<String>,
    pub difficulty: Option<i64>,
    /// Whether an existing record may be replaced; it may where this is
    /// left open.
    pub overwrite: Option<bool>,
}

/// Why a creation request was refused.
#[derive(Debug)]
pub enum CreateError {
    /// A record of that date exists and must not be replaced.
    Conflict,
    /// The puzzle document cannot be read.
    Payload(PayloadError),
    /// The constraint list of the document cannot be read.
    Constraints(VariantError),
    /// The status word names no status.
    UnknownStatus(String),
    /// The image could not be rendered; the detail is the renderer's own.
    Render(String),
}

/// The kinds of refusal of a creation request, without their details.
pub enum Refusal {
    Conflict,
    InvalidJson,
    MissingPuzzle,
    Constraints(VariantErrorModel),
    UnknownStatus,
    Render,
}

impl CreateError {
    /// The kind of this refusal.
    pub open spec fn kind(&self) -> Refusal {
        match self {
            CreateError::Conflict => Refusal::Conflict,
            CreateError::Payload(PayloadError::InvalidJson(_)) => Refusal::InvalidJson,
            CreateError::Payload(PayloadError::MissingPuzzle) => Refusal::MissingPuzzle,
            CreateError::Constraints(e) => Refusal::Constraints(e@),
            CreateError::UnknownStatus(_) => Refusal::UnknownStatus,
            CreateError::Render(_) => Refusal::Render,
        }
    }

    /// The sentence that reports this refusal.
    pub fn message(&self) -> (r: String)
        ensures
            r@ == match self {
                CreateError::Conflict => "Puzzle already exists"@,
                CreateError::Payload(PayloadError::InvalidJson(detail)) => "invalid JSON: "@
                    + detail@,
                CreateError::Payload(PayloadError::MissingPuzzle) => "missing puzzle string"@,
                CreateError::Constraints(e) => e@.message(),
                CreateError::UnknownStatus(word) => "unknown status: "@ + word@,
                CreateError::Render(detail) => detail@,
            },
    {
        match self {
            CreateError::Conflict => String::from_str("Puzzle already exists"),
            CreateError::Payload(e) => e.message(),
            CreateError::Constraints(e) => e.message(),
            CreateError::UnknownStatus(word) => {
                let mut text = String::from_str("unknown status: ");
                text.append(word.as_str());
                text
            },
            CreateError::Render(detail) => detail.clone(),
        }
    }
}

/// The status that a request asks for: the one its word names, a draft
/// where it has no word, and none where the word names no status.
pub open spec fn requested_status(word: Option<Seq<char>>) -> Option<Status> {
    match word {
        None => Some(Status::Draft),
        Some(w) => status_named(w),
    }
}

/// The kind tags of a new record: the caller's own, made distinct, or else
/// the distinct strings under `type` of the document's constraints.
pub open spec fn planned_tags(given: Option<Seq<Seq<char>>>, constraints: Seq<WireModel>) -> Result<
    Seq<Seq<char>>,
    VariantErrorModel,
> {
    match given {
        Some(tags) => Ok(dedup_first(tags)),
        None => match types_of(constraints) {
            Ok(tags) => Ok(dedup_first(tags)),
            Err(e) => Err(e),
        },
    }
}

/// What is left to render for a new record: nothing where the caller
/// brought an image, else the variants of the document's constraints.
pub open spec fn planned_render(image_given: bool, constraints: Seq<WireModel>) -> Result<
    Option<Seq<VariantModel>>,
    VariantErrorModel,
> {
    if image_given {
        Ok(None)
    } else {
        match variants_of(constraints) {
            Ok(specs) => Ok(Some(specs)),
            Err(e) => Err(e),
        }
    }
}

/// The refusal of a request whose document was read as `doc`, if it is
/// refused: the checks are made in the order document, puzzle text, kind
/// tags, constraints to render, status.
pub open spec fn plan_refusal(
    given_tags: Option<Seq<Seq<char>>>,
    image_given: bool,
    status_word: Option<Seq<char>>,
    doc: Option<WireModel>,
) -> Option<Refusal> {
    match doc {
        None => Some(Refusal::InvalidJson),
        Some(d) => if puzzle_text_of(d) is None {
            Some(Refusal::MissingPuzzle)
        } else {
            match planned_tags(given_tags, constraint_list_of(d)) {
                Err(e) => Some(Refusal::Constraints(e)),
                Ok(_) => match planned_render(image_given, constraint_list_of(d)) {
                    Err(e) => Some(Refusal::Constraints(e)),
                    Ok(_) => if requested_status(status_word) is None {
                        Some(Refusal::UnknownStatus)
                    } else {
                        None
                    },
                },
            }
        },
    }
}

/// What is to be rendered: the puzzle text with its variants.
#[derive(Debug)]
pub struct RenderJob {
    pub puzzle: String,
    pub specs: Vec<VariantSpec>,
}

/// A creation request that passed its checks: the record to be, but for
/// its times and, where `render` holds a job, its image.
#[derive(Debug)]
pub struct CreatePlan {
    pub date: String,
    pub status: Status,
    pub puzzle_json: String,
    pub svg: Option<String>,
    pub render: Option<RenderJob>,
    pub title: Option<String>,
    pub author: Option<String>,
    pub difficulty: Option<i64>,
    pub variants: Vec<String>,
}

/// A copy of an optional list of strings, as their characters.
pub open spec fn opt_texts(v: Option<Vec<String>>) -> Option<Seq<Seq<char>>> {
    match v {
        Some(items) => Some(texts(items@)),
        None => None,
    }
}

/// Plans the record of a request whose document has been read already:
/// `doc` is what the reader gave for the request's `puzzle_json`.
pub fn plan_with_document(request: CreateRequest, doc: Result<WireValue, String>) -> (r: Result<
    CreatePlan,
    CreateError,
>)
    ensures
        match r {
            Ok(plan) => {
                let d = doc->Ok_0.model();
                &&& doc is Ok
                &&& plan_refusal(
                    opt_texts(request.variants),
                    request.svg is Some,
                    opt_text(request.status),
                    Some(d),
                ) is None
                &&& plan.date@ == request.date@
                &&& plan.puzzle_json@ == request.puzzle_json@
                &&& Some(plan.status) == requested_status(opt_text(request.status))
                &&& opt_text(plan.svg) == opt_text(request.svg)
                &&& opt_text(plan.title) == opt_text(request.name)
                &&& opt_text(plan.author) == opt_text(request.author)
                &&& plan.difficulty == request.difficulty
                &&& Ok::<Seq<Seq<char>>, VariantErrorModel>(texts(plan.variants@)) == planned_tags(
                    opt_texts(request.variants),
                    constraint_list_of(d),
                )
                &&& match plan.render {
                    Some(job) => Some(job.puzzle@) == puzzle_text_of(d) && planned_render(
                        request.svg is Some,
                        constraint_list_of(d),
                    ) == Ok::<Option<Seq<VariantModel>>, VariantErrorModel>(
                        Some(variant_models(job.specs@)),
                    ),
                    None => request.svg is Some,
                }
            },
            Err(e) => Some(e.kind()) == plan_refusal(
                opt_texts(request.variants),
                request.svg is Some,
                opt_text(request.status),
                match doc {
                    Ok(d) => Some(d.model()),
                    Err(_) => None,
                },
            ),
        },
{
    let document = match doc {
        Ok(document) => document,
        Err(detail) => return Err(CreateError::Payload(PayloadError::InvalidJson(detail))),
    };
    let parsed = match puzzle_from_document(document) {
        Ok(parsed) => parsed,
        Err(e) => return Err(CreateError::Payload(e)),
    };
    let CreateRequest { date, puzzle_json, svg, variants, status, name, author, difficulty, overwrite } =
        request;
    let variants: Vec<String> = match variants {
        Some(list) => dedupe_variants(list),
        None => match variants_from_constraints(parsed.constraints.as_slice()) {
            Ok(list) => list,
            Err(e) => return Err(CreateError::Constraints(e)),
        },
    };
    let render: Option<RenderJob> = if svg.is_some() {
        None
    } else {
        match constraints_from_json(parsed.constraints.as_slice()) {
            Ok(specs) => Some(RenderJob { puzzle: parsed.puzzle, specs }),
            Err(e) => return Err(CreateError::Constraints(e)),
        }
    };
    let status: Status = match status {
        None => Status::Draft,
        Some(word) => match Status::parse(word.as_str()) {
            Some(status) => status,
            None => return Err(CreateError::UnknownStatus(word)),
        },
    };
    Ok(CreatePlan { date, status, puzzle_json, svg, render, title: name, author, difficulty, variants })
}

/// Plans the record of a request. A request that must not overwrite is
/// refused where a record of its date exists; only then is the document
/// read.
pub fn plan_create(request: CreateRequest, exists: bool) -> (r: Result<CreatePlan, CreateError>)
    ensures
        (request.overwrite == Some(false) && exists) ==> (r matches Err(e) && e.kind()
            == Refusal::Conflict),
        !(request.overwrite == Some(false) && exists) ==> match r {
            Ok(plan) => {
                &&& json_document(request.puzzle_json@) is Some
                &&& plan_refusal(
                    opt_texts(request.variants),
                    request.svg is Some,
                    opt_text(request.status),
                    json_document(request.puzzle_json@),
                ) is None
                &&& plan.date@ == request.date@
                &&& plan.puzzle_json@ == request.puzzle_json@
                &&& Some(plan.status) == requested_status(opt_text(request.status))
                &&& opt_text(plan.svg) == opt_text(request.svg)
                &&& opt_text(plan.title) == opt_text(request.name)
                &&& opt_text(plan.author) == opt_text(request.author)
                &&& plan.difficulty == request.difficulty
                &&& Ok::<Seq<Seq<char>>, VariantErrorModel>(texts(plan.variants@)) == planned_tags(
                    opt_texts(request.variants),
                    constraint_list_of(json_document(request.puzzle_json@)->Some_0),
                )
                &&& match plan.render {
                    Some(job) => Some(job.puzzle@) == puzzle_text_of(
                        json_document(request.puzzle_json@)->Some_0,
                    ) && planned_render(
                        request.svg is Some,
                        constraint_list_of(json_document(request.puzzle_json@)->Some_0),
                    ) == Ok::<Option<Seq<VariantModel>>, VariantErrorModel>(
                        Some(variant_models(job.specs@)),
                    ),
                    None => request.svg is Some,
                }
            },
            Err(e) => Some(e.kind()) == plan_refusal(
                opt_texts(request.variants),
                request.svg is Some,
                opt_text(request.status),
                json_document(request.puzzle_json@),
            ),
        },
{
    let overwrite = match request.overwrite {
        Some(flag) => flag,
        None => true,
    };
    if !overwrite && exists {
        return Err(CreateError::Conflict);
    }
    let doc = read_json(request.puzzle_json.as_str());
    plan_with_document(request, doc)
}

/// The string that a wire value is, if it is one.
pub open spec fn string_of(w: WireModel) -> Result<Seq<char>, ()> {
    match w.text() {
        Some(t) => Ok(t),
        None => Err(()),
    }
}

/// The reading of one string.
pub open spec fn string_reader() -> spec_fn(WireModel) -> Result<Seq<char>, ()> {
    |w: WireModel| string_of(w)
}

/// The strings of a list of wire values, where all of them are strings.
pub open spec fn strings_of(items: Seq<WireModel>) -> Option<Seq<Seq<char>>> {
    match each_ok(items, string_reader()) {
        Ok(tags) => Some(tags),
        Err(_) => None,
    }
}

/// The kind tags that a stored document lists: its elements where it is an
/// array of strings, and none in every other case.
pub open spec fn listed_tags(doc: Option<WireModel>) -> Seq<Seq<char>> {
    match doc {
        Some(d) => match d.items() {
            Some(items) => match strings_of(items) {
                Some(tags) => tags,
                None => Seq::empty(),
            },
            None => Seq::empty(),
        },
        None => Seq::empty(),
    }
}

/// The wire forms of a list of strings, element by element.
pub open spec fn texts_wire(tags: Seq<Seq<char>>) -> Seq<WireModel> {
    Seq::new(tags.len(), |i: int| WireModel::Text(tags[i]))
}

/// The kind tags that a document lists; `doc` is `None` where the stored
/// text is no document at all.
pub fn variants_from_document(doc: Option<&WireValue>) -> (tags: Vec<String>)
    ensures
        texts(tags@) == listed_tags(
            match doc {
                Some(d) => Some(d.model()),
                None => None,
            },
        ),
{
    let empty: Vec<String> = Vec::new();
    assert(texts(empty@) =~= Seq::<Seq<char>>::empty());
    let items = match doc {
        Some(d) => match d.as_array() {
            Some(items) => items,
            None => return empty,
        },
        None => return empty,
    };
    let ghost all = models_of(items@);
    let mut out: Vec<String> = Vec::with_capacity(items.len());
    let mut i: usize = 0;
    assert(all.take(0) =~= Seq::<WireModel>::empty());
    assert(texts(out@) =~= Seq::<Seq<char>>::empty());
    while i < items.len()
        invariant
            i <= items.len(),
            all == models_of(items@),
            doc matches Some(d) && d.model().items() == Some(all),
            strings_of(all.take(i as int)) == Some(texts(out@)),
        decreases items.len() - i,
    {
        let ghost before = texts(out@);
        assert(all.take(i as int + 1).drop_last() =~= all.take(i as int));
        assert(all.take(i as int + 1).last() == items@[i as int].model());
        match items[i].as_str() {
            Some(tag) => {
                out.push(String::from_str(tag));
                assert(texts(out@) =~= before.push(tag@));
            },
            None => {
                proof {
                    lemma_each_ok_failure(all, string_reader(), i as int + 1);
                }
                let none: Vec<String> = Vec::new();
                assert(texts(none@) =~= Seq::<Seq<char>>::empty());
                return none;
            },
        }
        i += 1;
    }
    assert(all.take(i as int) =~= all);
    out
}

/// The kind tags that a stored text lists; a record without such a text
/// lists none.
pub fn variants_from_text(stored: Option<&str>) -> (tags: Vec<String>)
    ensures
        texts(tags@) == match stored {
            Some(text) => listed_tags(json_document(text@)),
            None => Seq::<Seq<char>>::empty(),
        },
{
    match stored {
        None => variants_from_document(None),
        Some(text) => match read_json(text) {
            Ok(doc) => variants_from_document(Some(&doc)),
            Err(_) => variants_from_document(None),
        },
    }
}

/// Writes a list of kind tags as a document: the array of the strings.
pub fn variants_document(tags: &Vec<String>) -> (doc: WireValue)
    ensures
        doc.model() == WireModel::Array(texts_wire(texts(tags@))),
{
    let mut items: Vec<WireValue> = Vec::with_capacity(tags.len());
    let mut i: usize = 0;
    while i < tags.len()
        invariant
            i <= tags.len(),
            models_of(items@) == texts_wire(texts(tags@).take(i as int)),
        decreases tags.len() - i,
    {
        let ghost before = models_of(items@);
        items.push(WireValue::Text(tags[i].clone()));
        assert(models_of(items@) =~= before.push(WireModel::Text(tags@[i as int]@)));
        assert(texts_wire(texts(tags@).take(i as int + 1)) =~= texts_wire(
            texts(tags@).take(i as int),
        ).push(WireModel::Text(tags@[i as int]@)));
        i += 1;
    }
    assert(texts(tags@).take(i as int) =~= texts(tags@));
    proof {
        lemma_array_model(items);
    }
    WireValue::Array(items)
}

/// Writes a list of kind tags as the JSON text to store.
pub fn variants_to_text(tags: &Vec<String>) -> (text: String)
    ensures
        text@ == json_text(WireModel::Array(texts_wire(texts(tags@)))),
{
    let doc = variants_document(tags);
    write_json(&doc)
}

/// The document of a list of kind tags lists those tags.
pub proof fn lemma_tags_read_back(tags: Seq<Seq<char>>)
    ensures
        listed_tags(Some(WireModel::Array(texts_wire(tags)))) == tags,
{
    lemma_strings_read_back(tags);
}

/// The wire forms of strings are read back as those strings.
pub proof fn lemma_strings_read_back(tags: Seq<Seq<char>>)
    ensures
        strings_of(texts_wire(tags)) == Some(tags),
    decreases tags.len(),
{
    if tags.len() > 0 {
        let init = tags.drop_last();
        lemma_strings_read_back(init);
        assert(texts_wire(tags).drop_last() =~= texts_wire(init));
        assert(init.push(tags.last()) =~= tags);
    } else {
        assert(tags =~= Seq::empty());
    }
}

} // verus!
