//! Checking a submitted grid against the stored solution.

use vstd::prelude::*;
use crate::dig::digit_char;
use crate::json::{json_document, read_json};
use crate::payload::{
    NN, SolutionError, lemma_digits_of_range, parse_solution_from_json, solution_of,
};
use crate::text::{lemma_trimmed_padded, trimmed, trimmed_chars, white_space};
use crate::wire::{WireModel, WireValue};

verus! {

/// What a check of a submitted grid found.
#[derive(Debug, Clone, Copy, PartialEq, Eq, Structural)]
pub enum CheckStatus {
    /// A filled cell differs from the solution.
    Incorrect,
    /// No filled cell differs, and at least one cell is blank.
    Partial,
    /// Every cell is filled as in the solution.
    Complete,
    /// The stored solution is missing or malformed, so nothing can be said.
    Unavailable,
}

impl CheckStatus {
    /// The word that reports this status.
    pub open spec fn name(self) -> Seq<char> {
        match self {
            CheckStatus::Incorrect => "incorrect"@,
            CheckStatus::Partial => "partial"@,
            CheckStatus::Complete => "complete"@,
            CheckStatus::Unavailable => "unavailable"@,
        }
    }

    /// The word that reports this status.
    pub fn as_str(&self) -> (r: &'static str)
        ensures
            r@ == self.name(),
    {
        match self {
            CheckStatus::Incorrect => "incorrect",
            CheckStatus::Partial => "partial",
            CheckStatus::Complete => "complete",
            CheckStatus::Unavailable => "unavailable",
        }
    }

    /// Whether a check with this status counts as a solve: only a complete
    /// grid does. Every status counts as a check.
    pub fn counts_as_solve(&self) -> (r: bool)
        ensures
            r == (*self == CheckStatus::Complete),
    {
        match self {
            CheckStatus::Complete => true,
            _ => false,
        }
    }
}

/// Why a submitted grid cannot be checked.
#[derive(Debug, Clone, Copy, PartialEq, Eq, Structural)]
pub enum SolveError {
    /// The grid, without the white space around it, does not have 81
    /// characters.
    WrongLength,
    /// There is no published puzzle to check against.
    NotFound,
    /// A character is neither a digit nor a dot.
    InvalidCharacter,
}

impl SolveError {
    /// The sentence that reports this failure.
    pub fn message(&self) -> (r: String)
        ensures
            r@ == match self {
                SolveError::WrongLength => "grid must be exactly 81 characters"@,
                SolveError::NotFound => "Puzzle not published"@,
                SolveError::InvalidCharacter => "grid must contain digits 1-9 or '.'"@,
            },
    {
        match self {
            SolveError::WrongLength => String::from_str("grid must be exactly 81 characters"),
            SolveError::NotFound => String::from_str("Puzzle not published"),
            SolveError::InvalidCharacter => String::from_str("grid must contain digits 1-9 or '.'"),
        }
    }
}

/// Whether a character marks an unknown cell.
pub open spec fn is_blank(c: char) -> bool {
    c == '.' || c == '0'
}

/// The digit that a character from `1` to `9` stands for.
pub open spec fn digit_value(c: char) -> Option<u8> {
    if c == '1' {
        Some(1u8)
    } else if c == '2' {
        Some(2u8)
    } else if c == '3' {
        Some(3u8)
    } else if c == '4' {
        Some(4u8)
    } else if c == '5' {
        Some(5u8)
    } else if c == '6' {
        Some(6u8)
    } else if c == '7' {
        Some(7u8)
    } else if c == '8' {
        Some(8u8)
    } else if c == '9' {
        Some(9u8)
    } else {
        None
    }
}

/// Whether a character may stand in a grid: a blank, or a digit from 1 to
/// 9.
pub open spec fn valid_cell(c: char) -> bool {
    is_blank(c) || digit_value(c) is Some
}

/// Whether every character of a grid may stand in a grid.
pub open spec fn well_formed_grid(grid: Seq<char>) -> bool {
    forall|k: int| 0 <= k < grid.len() ==> valid_cell(#[trigger] grid[k])
}

/// Whether the cell at index `k` is filled with something other than the
/// solution's digit.
pub open spec fn differs_at(solution: Seq<u8>, grid: Seq<char>, k: int) -> bool {
    !is_blank(grid[k]) && digit_value(grid[k]) != Some(solution[k])
}

/// Whether some filled cell differs from the solution.
pub open spec fn differs(solution: Seq<u8>, grid: Seq<char>) -> bool {
    exists|k: int| 0 <= k < grid.len() && #[trigger] differs_at(solution, grid, k)
}

/// Whether some cell is blank.
pub open spec fn has_blank(grid: Seq<char>) -> bool {
    exists|k: int| 0 <= k < grid.len() && is_blank(#[trigger] grid[k])
}

/// What a well-formed grid is against the solution: incorrect where a
/// filled cell differs, else partial where a cell is blank, else complete.
pub open spec fn compared(solution: Seq<u8>, grid: Seq<char>) -> CheckStatus {
    if differs(solution, grid) {
        CheckStatus::Incorrect
    } else if has_blank(grid) {
        CheckStatus::Partial
    } else {
        CheckStatus::Complete
    }
}

/// The verdict on a grid of as many cells as the solution: a character
/// that may not stand in a grid, wherever it stands, is an error; only a
/// grid without one is compared.
pub open spec fn judged(solution: Seq<u8>, grid: Seq<char>) -> Result<CheckStatus, SolveError> {
    if !well_formed_grid(grid) {
        Err(SolveError::InvalidCharacter)
    } else {
        Ok(compared(solution, grid))
    }
}

/// The digit that a character from `1` to `9` stands for.
fn digit_of_char(c: char) -> (r: Option<u8>)
    ensures
        r == digit_value(c),
{
    if c == '1' {
        Some(1)
    } else if c == '2' {
        Some(2)
    } else if c == '3' {
        Some(3)
    } else if c == '4' {
        Some(4)
    } else if c == '5' {
        Some(5)
    } else if c == '6' {
        Some(6)
    } else if c == '7' {
        Some(7)
    } else if c == '8' {
        Some(8)
    } else if c == '9' {
        Some(9)
    } else {
        None
    }
}

/// Whether every character of a grid is a blank or a digit from 1 to 9.
pub fn grid_is_well_formed(grid: &[char]) -> (r: bool)
    ensures
        r == well_formed_grid(grid@),
{
    let mut i: usize = 0;
    while i < grid.len()
        invariant
            i <= grid.len(),
            forall|k: int| 0 <= k < i ==> valid_cell(#[trigger] grid@[k]),
        decreases grid.len() - i,
    {
        let c = grid[i];
        if !(c == '.' || c == '0') && digit_of_char(c).is_none() {
            assert(!valid_cell(grid@[i as int]));
            return false;
        }
        i += 1;
    }
    true
}

/// Judges a grid against the solution: every character is looked at
/// first, and only a grid of blanks and digits is compared, cell by cell.
pub fn judge_grid(solution: &[u8], grid: &[char]) -> (r: Result<CheckStatus, SolveError>)
    requires
        solution@.len() == grid@.len(),
    ensures
        r == judged(solution@, grid@),
{
    if !grid_is_well_formed(grid) {
        return Err(SolveError::InvalidCharacter);
    }
    let mut incomplete = false;
    let mut i: usize = 0;
    while i < grid.len()
        invariant
            i <= grid.len(),
            solution@.len() == grid@.len(),
            well_formed_grid(grid@),
            forall|k: int| 0 <= k < i ==> !#[trigger] differs_at(solution@, grid@, k),
            incomplete <==> exists|k: int| 0 <= k < i && is_blank(#[trigger] grid@[k]),
        decreases grid.len() - i,
    {
        let c = grid[i];
        if c == '.' || c == '0' {
            incomplete = true;
        } else {
            match digit_of_char(c) {
                None => {},
                Some(d) => {
                    if d != solution[i] {
                        assert(differs_at(solution@, grid@, i as int));
                        return Ok(CheckStatus::Incorrect);
                    }
                },
            }
            assert(valid_cell(grid@[i as int]));
        }
        i += 1;
    }
    Ok(
        if incomplete {
            CheckStatus::Partial
        } else {
            CheckStatus::Complete
        },
    )
}

/// The verdict on a submitted text against a stored document, where there
/// is one. In this order: the text is trimmed and must have 81 characters;
/// without a document there is nothing to check against; every character
/// must be a blank or a digit; a document without a usable solution makes
/// the check `Unavailable`; else the cells are compared.
pub open spec fn solve_verdict(doc: Option<Option<WireModel>>, grid: Seq<char>) -> Result<
    CheckStatus,
    SolveError,
> {
    if trimmed(grid).len() != NN {
        Err(SolveError::WrongLength)
    } else if doc is None {
        Err(SolveError::NotFound)
    } else if !well_formed_grid(trimmed(grid)) {
        Err(SolveError::InvalidCharacter)
    } else {
        match doc {
            Some(Some(d)) => match solution_of(d) {
                Err(_) => Ok(CheckStatus::Unavailable),
                Ok(solution) => Ok(compared(solution, trimmed(grid))),
            },
            _ => Ok(CheckStatus::Unavailable),
        }
    }
}

/// Checks a submitted grid against the document of the published puzzle.
/// `doc` is `None` where no puzzle is published, and holds `None` where the
/// stored text is no document at all.
pub fn check_against_document(doc: Option<Option<&WireValue>>, grid: &str) -> (r: Result<
    CheckStatus,
    SolveError,
>)
    ensures
        r == solve_verdict(
            match doc {
                None => None,
                Some(None) => Some(None),
                Some(Some(d)) => Some(Some(d.model())),
            },
            grid@,
        ),
{
    let cells = trimmed_chars(grid);
    if cells.len() != NN {
        return Err(SolveError::WrongLength);
    }
    let stored = match doc {
        None => return Err(SolveError::NotFound),
        Some(stored) => stored,
    };
    if !grid_is_well_formed(cells.as_slice()) {
        return Err(SolveError::InvalidCharacter);
    }
    let document = match stored {
        None => return Ok(CheckStatus::Unavailable),
        Some(document) => document,
    };
    match parse_solution_from_json(document) {
        Err(_) => Ok(CheckStatus::Unavailable),
        Ok(solution) => {
            proof {
                let items = document.model().field("solution"@)->Some_0.items()->Some_0;
                lemma_digits_of_range(items);
            }
            judge_grid(solution.as_slice(), cells.as_slice())
        },
    }
}

/// Checks a submitted grid against the stored text of the published
/// puzzle's document; `stored` is `None` where no puzzle is published.
pub fn verify_solve(stored: Option<&str>, grid: &str) -> (r: Result<CheckStatus, SolveError>)
    ensures
        r == solve_verdict(
            match stored {
                None => None,
                Some(text) => Some(json_document(text@)),
            },
            grid@,
        ),
{
    match stored {
        None => check_against_document(None, grid),
        Some(text) => match read_json(text) {
            Ok(document) => check_against_document(Some(Some(&document)), grid),
            Err(_) => check_against_document(Some(None), grid),
        },
    }
}

/// The text of a solution: the character of each digit, in order.
pub open spec fn solution_text(solution: Seq<u8>) -> Seq<char> {
    Seq::new(solution.len(), |i: int| digit_char(solution[i]))
}

/// The character of a digit from 1 to 9 stands for that digit, and is
/// neither a blank nor white space; nor are the two blanks white space.
pub proof fn lemma_digit_char(d: u8)
    requires
        1 <= d <= 9,
    ensures
        digit_value(digit_char(d)) == Some(d),
        !is_blank(digit_char(d)),
        !white_space(digit_char(d)),
        !white_space('.'),
        !white_space('0'),
{
}

/// The text of a solution of digits from 1 to 9 is a well-formed grid
/// without a blank, and no cell of it differs from the solution.
pub proof fn lemma_solution_text(solution: Seq<u8>)
    requires
        forall|i: int| 0 <= i < solution.len() ==> 1 <= #[trigger] solution[i] <= 9,
    ensures
        well_formed_grid(solution_text(solution)),
        !has_blank(solution_text(solution)),
        !differs(solution, solution_text(solution)),
{
    let text = solution_text(solution);
    assert forall|k: int| 0 <= k < text.len() implies valid_cell(#[trigger] text[k]) && !is_blank(
        text[k],
    ) && !differs_at(solution, text, k) by {
        lemma_digit_char(solution[k]);
    }
}

/// The digits of a usable stored solution: 81 of them, each from 1 to 9.
pub proof fn lemma_stored_solution(doc: WireModel, solution: Seq<u8>)
    requires
        solution_of(doc) == Ok::<Seq<u8>, SolutionError>(solution),
    ensures
        solution.len() == NN,
        forall|i: int| 0 <= i < solution.len() ==> 1 <= #[trigger] solution[i] <= 9,
{
    let items = doc.field("solution"@)->Some_0.items()->Some_0;
    lemma_digits_of_range(items);
}

/// A submitted grid that is the solution's own text, with or without white
/// space around it, is complete.
pub proof fn lemma_identical_grid_is_complete(doc: WireModel, solution: Seq<u8>, grid: Seq<char>)
    requires
        solution_of(doc) == Ok::<Seq<u8>, SolutionError>(solution),
        trimmed(grid) == solution_text(solution),
    ensures
        solve_verdict(Some(Some(doc)), grid) == Ok::<CheckStatus, SolveError>(
            CheckStatus::Complete,
        ),
{
    lemma_stored_solution(doc, solution);
    lemma_solution_text(solution);
}

/// A submitted grid that is the solution's text with one cell made blank
/// is partial.
pub proof fn lemma_grid_with_a_blank_is_partial(
    doc: WireModel,
    solution: Seq<u8>,
    grid: Seq<char>,
    at: int,
    blank: char,
)
    requires
        solution_of(doc) == Ok::<Seq<u8>, SolutionError>(solution),
        0 <= at < solution.len(),
        is_blank(blank),
        trimmed(grid) == solution_text(solution).update(at, blank),
    ensures
        solve_verdict(Some(Some(doc)), grid) == Ok::<CheckStatus, SolveError>(
            CheckStatus::Partial,
        ),
{
    lemma_stored_solution(doc, solution);
    lemma_solution_text(solution);
    let text = solution_text(solution);
    let cells = text.update(at, blank);
    assert forall|k: int| 0 <= k < cells.len() implies valid_cell(#[trigger] cells[k])
        && !differs_at(solution, cells, k) by {
        if k != at {
            assert(cells[k] == text[k]);
            assert(valid_cell(text[k]));
            assert(!differs_at(solution, text, k));
        }
    }
    assert(is_blank(cells[at]));
}

/// A submitted grid that is the solution's text with one digit changed to
/// another digit from 1 to 9 is incorrect.
pub proof fn lemma_grid_with_a_wrong_digit_is_incorrect(
    doc: WireModel,
    solution: Seq<u8>,
    grid: Seq<char>,
    at: int,
    digit: u8,
)
    requires
        solution_of(doc) == Ok::<Seq<u8>, SolutionError>(solution),
        0 <= at < solution.len(),
        1 <= digit <= 9,
        digit != solution[at],
        trimmed(grid) == solution_text(solution).update(at, digit_char(digit)),
    ensures
        solve_verdict(Some(Some(doc)), grid) == Ok::<CheckStatus, SolveError>(
            CheckStatus::Incorrect,
        ),
{
    lemma_stored_solution(doc, solution);
    lemma_solution_text(solution);
    lemma_digit_char(digit);
    let text = solution_text(solution);
    let cells = text.update(at, digit_char(digit));
    assert forall|k: int| 0 <= k < cells.len() implies valid_cell(#[trigger] cells[k]) by {
        if k != at {
            assert(cells[k] == text[k]);
            assert(valid_cell(text[k]));
        }
    }
    assert(differs_at(solution, cells, at));
}

/// A submitted grid that does not have 81 characters once trimmed is
/// refused, whatever is stored.
pub proof fn lemma_wrong_length_is_refused(doc: Option<Option<WireModel>>, grid: Seq<char>)
    requires
        trimmed(grid).len() != NN,
    ensures
        solve_verdict(doc, grid) == Err::<CheckStatus, SolveError>(SolveError::WrongLength),
{
}

/// A submitted grid of 81 characters with a character that is neither a
/// blank nor a digit is refused, wherever that character stands and
/// whatever is stored for the published puzzle.
pub proof fn lemma_bad_character_is_refused(
    doc: Option<WireModel>,
    grid: Seq<char>,
    at: int,
)
    requires
        trimmed(grid).len() == NN,
        0 <= at < NN,
        !valid_cell(trimmed(grid)[at]),
    ensures
        solve_verdict(Some(doc), grid) == Err::<CheckStatus, SolveError>(
            SolveError::InvalidCharacter,
        ),
{
}

/// White space around a grid of digits and blanks does not count: the
/// trimming of such a grid with white space before and after it is the
/// grid.
pub proof fn lemma_grid_trimmed(lead: Seq<char>, cells: Seq<char>, tail: Seq<char>)
    requires
        forall|i: int| 0 <= i < lead.len() ==> white_space(#[trigger] lead[i]),
        forall|i: int| 0 <= i < tail.len() ==> white_space(#[trigger] tail[i]),
        cells.len() > 0,
        well_formed_grid(cells),
    ensures
        trimmed(lead + cells + tail) == cells,
{
    assert(valid_cell(cells[0]));
    assert(valid_cell(cells.last()));
    lemma_trimmed_padded(lead, cells, tail);
}

} // verus!
