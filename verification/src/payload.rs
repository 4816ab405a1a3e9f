//! The stored puzzle document: its reading, its solution, and its assembly.

use vstd::prelude::*;
use crate::each::{each_ok, lemma_each_ok_entries, lemma_each_ok_failure};
use crate::json::{json_document, json_text, read_json, write_json};
use crate::text::chars_of;
use crate::wire::{
    WireModel, WireValue, first_member, lemma_array_model, lemma_object_model, member_models,
    models_of,
};

verus! {

/// The number of cells of the grid.
pub const NN: usize = 81;

/// What a stored puzzle document holds for the lifecycle: the puzzle text
/// and the list of constraints, still in wire form.
#[derive(Debug)]
pub struct ParsedPuzzleJson {
    pub puzzle: String,
    pub constraints: Vec<WireValue>,
}

/// Why a text is not a puzzle document.
#[derive(Debug)]
pub enum PayloadError {
    /// The text is not JSON; the detail is the reader's own message.
    InvalidJson(String),
    /// The document has no string under `puzzle`.
    MissingPuzzle,
}

impl PayloadError {
    /// The sentence that reports this failure.
    pub fn message(&self) -> (r: String)
        ensures
            r@ == match self {
                PayloadError::InvalidJson(detail) => "invalid JSON: "@ + detail@,
                PayloadError::MissingPuzzle => "missing puzzle string"@,
            },
    {
        match self {
            PayloadError::InvalidJson(detail) => {
                let mut text = String::from_str("invalid JSON: ");
                text.append(detail.as_str());
                text
            },
            PayloadError::MissingPuzzle => String::from_str("missing puzzle string"),
        }
    }
}

/// The puzzle text of a document: the string under `puzzle`.
pub open spec fn puzzle_text_of(doc: WireModel) -> Option<Seq<char>> {
    match doc.field("puzzle"@) {
        Some(p) => p.text(),
        None => None,
    }
}

/// The constraint list of a document: the array under `constraints`, and
/// the empty list where there is none.
pub open spec fn constraint_list_of(doc: WireModel) -> Seq<WireModel> {
    match doc.field("constraints"@) {
        Some(c) => match c.items() {
            Some(items) => items,
            None => Seq::empty(),
        },
        None => Seq::empty(),
    }
}

/// Takes the puzzle text and the constraint list out of a document.
pub fn puzzle_from_document(doc: WireValue) -> (r: Result<ParsedPuzzleJson, PayloadError>)
    ensures
        match r {
            Ok(parsed) => puzzle_text_of(doc.model()) == Some(parsed.puzzle@) && models_of(
                parsed.constraints@,
            ) == constraint_list_of(doc.model()),
            Err(e) => e is MissingPuzzle && puzzle_text_of(doc.model()) is None,
        },
{
    let puzzle: String = match doc.get("puzzle") {
        Some(p) => match p.as_str() {
            Some(text) => String::from_str(text),
            None => return Err(PayloadError::MissingPuzzle),
        },
        None => return Err(PayloadError::MissingPuzzle),
    };
    let constraints: Vec<WireValue> = match doc.into_member("constraints") {
        Some(c) => match c.into_array() {
            Some(items) => items,
            None => Vec::new(),
        },
        None => Vec::new(),
    };
    assert(models_of(constraints@) =~= constraint_list_of(doc.model()));
    Ok(ParsedPuzzleJson { puzzle, constraints })
}

/// Reads a stored puzzle document from its JSON text.
pub fn parse_puzzle_json(puzzle_json: &str) -> (r: Result<ParsedPuzzleJson, PayloadError>)
    ensures
        match r {
            Ok(parsed) => match json_document(puzzle_json@) {
                Some(doc) => puzzle_text_of(doc) == Some(parsed.puzzle@) && models_of(
                    parsed.constraints@,
                ) == constraint_list_of(doc),
                None => false,
            },
            Err(PayloadError::InvalidJson(_)) => json_document(puzzle_json@) is None,
            Err(PayloadError::MissingPuzzle) => match json_document(puzzle_json@) {
                Some(doc) => puzzle_text_of(doc) is None,
                None => false,
            },
        },
{
    match read_json(puzzle_json) {
        Ok(doc) => puzzle_from_document(doc),
        Err(detail) => Err(PayloadError::InvalidJson(detail)),
    }
}

/// Why a document holds no usable solution.
#[derive(Debug, Clone, Copy, PartialEq, Eq, Structural)]
pub enum SolutionError {
    /// There is no array under `solution`.
    Missing,
    /// The array does not have 81 elements.
    WrongLength,
    /// An element is not an unsigned integer.
    NotNumber,
    /// An element is not between 1 and 9.
    OutOfRange,
}

impl SolutionError {
    /// The sentence that reports this failure.
    pub fn message(&self) -> (r: String)
        ensures
            r@ == match self {
                SolutionError::Missing => "solution missing"@,
                SolutionError::WrongLength => "solution must have 81 digits"@,
                SolutionError::NotNumber => "solution digits must be numbers"@,
                SolutionError::OutOfRange => "solution digits must be 1-9"@,
            },
    {
        match self {
            SolutionError::Missing => String::from_str("solution missing"),
            SolutionError::WrongLength => String::from_str("solution must have 81 digits"),
            SolutionError::NotNumber => String::from_str("solution digits must be numbers"),
            SolutionError::OutOfRange => String::from_str("solution digits must be 1-9"),
        }
    }
}

/// What a wire value says as a digit: an unsigned integer from 1 to 9.
pub open spec fn digit_of(w: WireModel) -> Result<u8, SolutionError> {
    match w.unsigned() {
        None => Err(SolutionError::NotNumber),
        Some(n) => if 1 <= n <= 9 {
            Ok(n as u8)
        } else {
            Err(SolutionError::OutOfRange)
        },
    }
}

/// The reading of one digit.
pub open spec fn digit_reader() -> spec_fn(WireModel) -> Result<u8, SolutionError> {
    |w: WireModel| digit_of(w)
}

/// What a list of wire values says as digits; the first element that is no
/// digit decides the failure.
pub open spec fn digits_of(items: Seq<WireModel>) -> Result<Seq<u8>, SolutionError> {
    each_ok(items, digit_reader())
}

/// The solution that a document holds: the array under `solution`, of 81
/// digits from 1 to 9.
pub open spec fn solution_of(doc: WireModel) -> Result<Seq<u8>, SolutionError> {
    match doc.field("solution"@) {
        None => Err(SolutionError::Missing),
        Some(s) => match s.items() {
            None => Err(SolutionError::Missing),
            Some(items) => if items.len() != NN {
                Err(SolutionError::WrongLength)
            } else {
                digits_of(items)
            },
        },
    }
}

/// The digits that `digits_of` accepts are as many as the elements, each
/// from 1 to 9.
pub proof fn lemma_digits_of_range(items: Seq<WireModel>)
    requires
        digits_of(items) is Ok,
    ensures
        digits_of(items)->Ok_0.len() == items.len(),
        forall|i: int| 0 <= i < items.len() ==> 1 <= #[trigger] digits_of(items)->Ok_0[i] <= 9,
{
    lemma_each_ok_entries(items, digit_reader());
    assert forall|i: int| 0 <= i < items.len() implies 1 <= #[trigger] digits_of(items)->Ok_0[i]
        <= 9 by {
        assert(digit_of(items[i]) == Ok::<u8, SolutionError>(digits_of(items)->Ok_0[i]));
    }
}

/// Reads the solution of a document: the 81 digits under `solution`.
pub fn parse_solution_from_json(value: &WireValue) -> (r: Result<Vec<u8>, SolutionError>)
    ensures
        match r {
            Ok(digits) => solution_of(value.model()) == Ok::<Seq<u8>, SolutionError>(digits@),
            Err(e) => solution_of(value.model()) == Err::<Seq<u8>, SolutionError>(e),
        },
{
    let items = match value.get("solution") {
        Some(s) => match s.as_array() {
            Some(items) => items,
            None => return Err(SolutionError::Missing),
        },
        None => return Err(SolutionError::Missing),
    };
    if items.len() != NN {
        return Err(SolutionError::WrongLength);
    }
    let ghost all = models_of(items@);
    let mut out: Vec<u8> = Vec::with_capacity(NN);
    let mut i: usize = 0;
    assert(all.take(0) =~= Seq::empty());
    while i < items.len()
        invariant
            i <= items.len(),
            all == models_of(items@),
            solution_of(value.model()) == digits_of(all),
            digits_of(all.take(i as int)) == Ok::<Seq<u8>, SolutionError>(out@),
        decreases items.len() - i,
    {
        let ghost next = all.take(i as int + 1);
        assert(next.drop_last() =~= all.take(i as int));
        assert(next.last() == items@[i as int].model());
        let n: u64 = match items[i].as_u64() {
            Some(n) => n,
            None => {
                proof {
                    lemma_each_ok_failure(all, digit_reader(), i as int + 1);
                }
                return Err(SolutionError::NotNumber);
            },
        };
        if n < 1 || n > 9 {
            proof {
                lemma_each_ok_failure(all, digit_reader(), i as int + 1);
            }
            return Err(SolutionError::OutOfRange);
        }
        out.push(n as u8);
        i += 1;
    }
    assert(all.take(i as int) =~= all);
    Ok(out)
}

/// The number of characters of a puzzle text that are not a dot.
pub open spec fn text_clues(text: Seq<char>) -> nat
    decreases text.len(),
{
    if text.len() == 0 {
        0
    } else {
        text_clues(text.drop_last()) + if text.last() != '.' {
            1nat
        } else {
            0nat
        }
    }
}

/// The number of clues of a puzzle text: its characters other than dots.
pub fn count_clues(puzzle: &str) -> (n: usize)
    ensures
        n == text_clues(puzzle@),
{
    let cells = chars_of(puzzle);
    let mut n: usize = 0;
    let mut i: usize = 0;
    assert(cells@.take(0) =~= Seq::<char>::empty());
    while i < cells.len()
        invariant
            i <= cells.len(),
            n == text_clues(cells@.take(i as int)),
            n <= i,
        decreases cells.len() - i,
    {
        assert(cells@.take(i as int + 1).drop_last() =~= cells@.take(i as int));
        if cells[i] != '.' {
            n += 1;
        }
        i += 1;
    }
    assert(cells@.take(i as int) =~= cells@);
    n
}

/// The wire forms of a list of digits, element by element.
pub open spec fn digits_wire(digits: Seq<u8>) -> Seq<WireModel> {
    Seq::new(digits.len(), |i: int| WireModel::Unsigned(digits[i] as u64))
}

/// The stored document of a puzzle: its text, its solution, its
/// constraints in wire form, the seed, the clue count and the symmetry.
pub open spec fn payload_model(
    puzzle: Seq<char>,
    solution: Seq<u8>,
    constraints: Seq<WireModel>,
    seed: u64,
    clue_count: u64,
    symmetry: Option<Seq<char>>,
) -> WireModel {
    WireModel::Object(
        seq![
            ("puzzle"@, WireModel::Text(puzzle)),
            ("solution"@, WireModel::Array(digits_wire(solution))),
            ("constraints"@, WireModel::Array(constraints)),
            ("seed"@, WireModel::Unsigned(seed)),
            ("clue_count"@, WireModel::Unsigned(clue_count)),
            (
                "symmetry"@,
                match symmetry {
                    Some(name) => WireModel::Text(name),
                    None => WireModel::Null,
                },
            ),
        ],
    )
}

/// What a generated puzzle stores.
#[derive(Debug)]
pub struct PuzzlePayload {
    pub puzzle: String,
    pub solution: Vec<u8>,
    /// The constraints in wire form.
    pub constraints: Vec<WireValue>,
    pub seed: u64,
    pub clue_count: usize,
    /// The name of the symmetry of the clue layout, where there is one.
    pub symmetry: Option<String>,
}

impl PuzzlePayload {
    /// The document of this payload.
    pub open spec fn model(&self) -> WireModel {
        payload_model(
            self.puzzle@,
            self.solution@,
            models_of(self.constraints@),
            self.seed,
            self.clue_count as u64,
            match self.symmetry {
                Some(name) => Some(name@),
                None => None,
            },
        )
    }

    /// The payload of a dug puzzle: the clue count is that of the text.
    pub fn assemble(
        puzzle: String,
        solution: &[u8; 81],
        constraints: Vec<WireValue>,
        seed: u64,
        symmetry: Option<String>,
    ) -> (payload: PuzzlePayload)
        ensures
            payload.puzzle@ == puzzle@,
            payload.solution@ == solution@,
            models_of(payload.constraints@) == models_of(constraints@),
            payload.seed == seed,
            payload.clue_count == text_clues(puzzle@),
            payload.symmetry == symmetry,
    {
        let mut digits: Vec<u8> = Vec::with_capacity(NN);
        let mut i: usize = 0;
        while i < NN
            invariant
                i <= NN,
                solution@.len() == NN,
                digits@ == solution@.take(i as int),
            decreases NN - i,
        {
            digits.push(solution[i]);
            assert(digits@ =~= solution@.take(i as int + 1));
            i += 1;
        }
        assert(solution@.take(NN as int) =~= solution@);
        let clue_count = count_clues(puzzle.as_str());
        PuzzlePayload { puzzle, solution: digits, constraints, seed, clue_count, symmetry }
    }

    /// Writes the payload as a document.
    pub fn into_document(self) -> (doc: WireValue)
        ensures
            doc.model() == self.model(),
    {
        let PuzzlePayload { puzzle, solution, constraints, seed, clue_count, symmetry } = self;
        let mut digits: Vec<WireValue> = Vec::with_capacity(solution.len());
        let mut i: usize = 0;
        while i < solution.len()
            invariant
                i <= solution.len(),
                models_of(digits@) == digits_wire(solution@.take(i as int)),
            decreases solution.len() - i,
        {
            let ghost before = models_of(digits@);
            digits.push(WireValue::Unsigned(solution[i] as u64));
            assert(models_of(digits@) =~= before.push(
                WireModel::Unsigned(solution@[i as int] as u64),
            ));
            assert(digits_wire(solution@.take(i as int + 1)) =~= digits_wire(
                solution@.take(i as int),
            ).push(WireModel::Unsigned(solution@[i as int] as u64)));
            i += 1;
        }
        assert(solution@.take(i as int) =~= solution@);
        let shape = match symmetry {
            Some(name) => WireValue::Text(name),
            None => WireValue::Null,
        };
        proof {
            lemma_array_model(digits);
            lemma_array_model(constraints);
        }
        let members: Vec<(String, WireValue)> = vec![
            (String::from_str("puzzle"), WireValue::Text(puzzle)),
            (String::from_str("solution"), WireValue::Array(digits)),
            (String::from_str("constraints"), WireValue::Array(constraints)),
            (String::from_str("seed"), WireValue::Unsigned(seed)),
            (String::from_str("clue_count"), WireValue::Unsigned(clue_count as u64)),
            (String::from_str("symmetry"), shape),
        ];
        proof {
            lemma_object_model(members);
            assert(member_models(members@) =~= self.model()->Object_0);
        }
        WireValue::Object(members)
    }

    /// Writes the payload as JSON text.
    pub fn into_text(self) -> (text: String)
        ensures
            text@ == json_text(self.model()),
    {
        let doc = self.into_document();
        write_json(&doc)
    }
}

/// The wire forms of digits from 1 to 9 are read back as those digits.
pub proof fn lemma_digits_round_trip(digits: Seq<u8>)
    requires
        forall|i: int| 0 <= i < digits.len() ==> 1 <= #[trigger] digits[i] <= 9,
    ensures
        digits_of(digits_wire(digits)) == Ok::<Seq<u8>, SolutionError>(digits),
    decreases digits.len(),
{
    if digits.len() > 0 {
        let init = digits.drop_last();
        lemma_digits_round_trip(init);
        assert(digits_wire(digits).drop_last() =~= digits_wire(init));
        assert(init.push(digits.last()) =~= digits);
    } else {
        assert(digits =~= Seq::empty());
    }
}

/// What is read from a payload's document is what was written: the puzzle
/// text, the constraint list and, where it is 81 digits from 1 to 9, the
/// solution.
pub proof fn lemma_payload_reads_back(
    puzzle: Seq<char>,
    solution: Seq<u8>,
    constraints: Seq<WireModel>,
    seed: u64,
    clue_count: u64,
    symmetry: Option<Seq<char>>,
)
    ensures
        puzzle_text_of(payload_model(puzzle, solution, constraints, seed, clue_count, symmetry))
            == Some(puzzle),
        constraint_list_of(
            payload_model(puzzle, solution, constraints, seed, clue_count, symmetry),
        ) == constraints,
        solution.len() == NN && (forall|i: int|
            0 <= i < solution.len() ==> 1 <= #[trigger] solution[i] <= 9) ==> solution_of(
            payload_model(puzzle, solution, constraints, seed, clue_count, symmetry),
        ) == Ok::<Seq<u8>, SolutionError>(solution),
{
    reveal_strlit("puzzle");
    reveal_strlit("solution");
    reveal_strlit("constraints");
    assert("puzzle"@.len() == 6 && "solution"@.len() == 8 && "constraints"@.len() == 11);
    reveal_with_fuel(first_member, 4);
    if solution.len() == NN && (forall|i: int|
        0 <= i < solution.len() ==> 1 <= #[trigger] solution[i] <= 9) {
        lemma_digits_round_trip(solution);
    }
}

} // verus!
