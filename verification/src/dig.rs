//! Digging: clues are taken out of a full solution one by one, in a
//! shuffled order, and a removal stays only where an oracle finds that the
//! puzzle still has exactly one solution.
//!
//! The oracle is not part of this library. It is asked first whether a
//! solver can be built over the full grid, and a run starts only where one
//! can. From then on `DigState` hands out the text to ask about and takes
//! the answer;
//! `generate_puzzle_from_solution` runs that exchange against any
//! `UniquenessOracle`.

use vstd::prelude::*;
use crate::payload::{NN, text_clues};
use crate::shuffle::{
    arranges, identity_order, iota, lemma_shuffled_arranges, shuffle_indices, shuffled,
    valid_draws,
};

verus! {

/// The character of a digit from 0 to 9.
pub open spec fn digit_char(d: u8) -> char {
    if d == 0 {
        '0'
    } else if d == 1 {
        '1'
    } else if d == 2 {
        '2'
    } else if d == 3 {
        '3'
    } else if d == 4 {
        '4'
    } else if d == 5 {
        '5'
    } else if d == 6 {
        '6'
    } else if d == 7 {
        '7'
    } else if d == 8 {
        '8'
    } else {
        '9'
    }
}

/// The character of a cell: its digit, or a dot where it is blank.
pub open spec fn cell_char(cell: Option<u8>) -> char {
    match cell {
        Some(d) => digit_char(d),
        None => '.',
    }
}

/// The text of a grid: one character for each cell, in order.
pub open spec fn grid_text(cells: Seq<Option<u8>>) -> Seq<char> {
    Seq::new(cells.len(), |i: int| cell_char(cells[i]))
}

/// Whether every filled cell holds a digit from 0 to 9.
pub open spec fn digits_only(cells: Seq<Option<u8>>) -> bool {
    forall|i: int| 0 <= i < cells.len() ==> match #[trigger] cells[i] {
        Some(d) => d <= 9,
        None => true,
    }
}

/// The number of filled cells.
pub open spec fn clue_count(cells: Seq<Option<u8>>) -> nat
    decreases cells.len(),
{
    if cells.len() == 0 {
        0
    } else {
        clue_count(cells.drop_last()) + if cells.last() is Some {
            1nat
        } else {
            0nat
        }
    }
}

/// A grid has at most as many clues as cells.
pub proof fn lemma_clue_count_bound(cells: Seq<Option<u8>>)
    ensures
        clue_count(cells) <= cells.len(),
    decreases cells.len(),
{
    if cells.len() > 0 {
        lemma_clue_count_bound(cells.drop_last());
    }
}

/// A grid without a blank has as many clues as cells.
pub proof fn lemma_clue_count_full(cells: Seq<Option<u8>>)
    requires
        forall|i: int| 0 <= i < cells.len() ==> (#[trigger] cells[i]) is Some,
    ensures
        clue_count(cells) == cells.len(),
    decreases cells.len(),
{
    if cells.len() > 0 {
        lemma_clue_count_full(cells.drop_last());
    }
}

/// Blanking a cell takes one clue away where the cell was filled, and none
/// where it was blank.
pub proof fn lemma_clue_count_blank(cells: Seq<Option<u8>>, pos: int)
    requires
        0 <= pos < cells.len(),
    ensures
        clue_count(cells.update(pos, None)) + (if cells[pos] is Some {
            1nat
        } else {
            0nat
        }) == clue_count(cells),
    decreases cells.len(),
{
    let after = cells.update(pos, None);
    if pos == cells.len() - 1 {
        assert(after.drop_last() =~= cells.drop_last());
    } else {
        lemma_clue_count_blank(cells.drop_last(), pos);
        assert(after.drop_last() =~= cells.drop_last().update(pos, None));
    }
}

/// The text of a grid has one character for each cell, and as many
/// characters other than dots as the grid has clues.
pub proof fn lemma_grid_text_clues(cells: Seq<Option<u8>>)
    ensures
        grid_text(cells).len() == cells.len(),
        text_clues(grid_text(cells)) == clue_count(cells),
    decreases cells.len(),
{
    if cells.len() > 0 {
        lemma_grid_text_clues(cells.drop_last());
        assert(grid_text(cells).drop_last() =~= grid_text(cells.drop_last()));
    }
}

/// The one-character string of a cell.
fn cell_str(cell: Option<u8>) -> (s: &'static str)
    requires
        match cell {
            Some(d) => d <= 9,
            None => true,
        },
    ensures
        s@ == seq![cell_char(cell)],
{
    proof {
        reveal_strlit(".");
        reveal_strlit("0");
        reveal_strlit("1");
        reveal_strlit("2");
        reveal_strlit("3");
        reveal_strlit("4");
        reveal_strlit("5");
        reveal_strlit("6");
        reveal_strlit("7");
        reveal_strlit("8");
        reveal_strlit("9");
    }
    let s: &'static str = match cell {
        None => ".",
        Some(d) => if d == 0 {
            "0"
        } else if d == 1 {
            "1"
        } else if d == 2 {
            "2"
        } else if d == 3 {
            "3"
        } else if d == 4 {
            "4"
        } else if d == 5 {
            "5"
        } else if d == 6 {
            "6"
        } else if d == 7 {
            "7"
        } else if d == 8 {
            "8"
        } else {
            "9"
        },
    };
    assert(s@ =~= seq![cell_char(cell)]);
    s
}

/// Writes a grid as text: a digit for each filled cell and a dot for each
/// blank one.
pub fn puzzle_vec_to_string(puzzle: &[Option<u8>]) -> (s: String)
    requires
        digits_only(puzzle@),
    ensures
        s@ == grid_text(puzzle@),
{
    let mut s = String::new();
    let mut i: usize = 0;
    assert(s@ =~= grid_text(puzzle@.take(0)));
    while i < puzzle.len()
        invariant
            i <= puzzle.len(),
            digits_only(puzzle@),
            s@ == grid_text(puzzle@.take(i as int)),
        decreases puzzle.len() - i,
    {
        let ghost before = s@;
        assert(puzzle@[i as int] == puzzle[i as int]);
        s.append(cell_str(puzzle[i]));
        assert(s@ =~= grid_text(puzzle@.take(i as int + 1))) by {
            assert(s@ == before + seq![cell_char(puzzle@[i as int])]);
        }
        i += 1;
    }
    assert(puzzle@.take(i as int) =~= puzzle@);
    s
}

/// The grid of a full solution: every cell filled.
pub open spec fn full_grid(solution: Seq<u8>) -> Seq<Option<u8>> {
    Seq::new(solution.len(), |i: int| Some(solution[i]))
}

/// Whether `solution` is a complete grid: 81 digits from 1 to 9.
pub open spec fn complete_solution(solution: Seq<u8>) -> bool {
    &&& solution.len() == NN
    &&& forall|i: int| 0 <= i < solution.len() ==> 1 <= #[trigger] solution[i] <= 9
}

/// The grid after the trials that `answers` records: trial `k` is made at
/// position `order[k]`, and the cell there is blank from then on where the
/// answer was that the puzzle stays unique.
pub open spec fn dig_cells(solution: Seq<u8>, order: Seq<usize>, answers: Seq<bool>) -> Seq<
    Option<u8>,
>
    decreases answers.len(),
{
    if answers.len() == 0 {
        full_grid(solution)
    } else {
        let before = dig_cells(solution, order, answers.drop_last());
        if answers.last() {
            before.update(order[answers.len() - 1] as int, None)
        } else {
            before
        }
    }
}

/// Whether `answers` records a run that the stopping rule allows: there is
/// at most one trial per position, and each trial was made while the grid
/// had more clues than the target.
pub open spec fn live_run(
    solution: Seq<u8>,
    order: Seq<usize>,
    target: nat,
    answers: Seq<bool>,
) -> bool
    decreases answers.len(),
{
    answers.len() == 0 || {
        &&& answers.len() <= order.len()
        &&& live_run(solution, order, target, answers.drop_last())
        &&& clue_count(dig_cells(solution, order, answers.drop_last())) > target
    }
}

/// Whether the run that `answers` records is over: every position was
/// tried, or the grid is down to the target.
pub open spec fn run_over(
    solution: Seq<u8>,
    order: Seq<usize>,
    target: nat,
    answers: Seq<bool>,
) -> bool {
    answers.len() >= order.len() || clue_count(dig_cells(solution, order, answers)) <= target
}

/// The grid of a run keeps the size of the solution, and each of its cells
/// is blank or holds the solution's digit.
pub proof fn lemma_dig_cells_shape(solution: Seq<u8>, order: Seq<usize>, answers: Seq<bool>)
    requires
        arranges(order, solution.len()),
        answers.len() <= order.len(),
    ensures
        dig_cells(solution, order, answers).len() == solution.len(),
        forall|p: int|
            0 <= p < solution.len() ==> {
                let cell = #[trigger] dig_cells(solution, order, answers)[p];
                cell is None || cell == Some(solution[p])
            },
    decreases answers.len(),
{
    if answers.len() > 0 {
        lemma_dig_cells_shape(solution, order, answers.drop_last());
        assert(order[answers.len() - 1] < solution.len());
    }
}

/// A cell is blank after a run exactly when a trial at its position was
/// answered with "still unique": no clue goes without that answer.
pub proof fn lemma_blank_was_checked(
    solution: Seq<u8>,
    order: Seq<usize>,
    answers: Seq<bool>,
    p: int,
)
    requires
        arranges(order, solution.len()),
        answers.len() <= order.len(),
        0 <= p < solution.len(),
    ensures
        dig_cells(solution, order, answers)[p] is None <==> exists|k: int|
            0 <= k < answers.len() && #[trigger] order[k] == p && answers[k],
    decreases answers.len(),
{
    if answers.len() > 0 {
        let init = answers.drop_last();
        let last = answers.len() - 1;
        lemma_blank_was_checked(solution, order, init, p);
        lemma_dig_cells_shape(solution, order, init);
        assert(order[last] < solution.len());
        if dig_cells(solution, order, answers)[p] is None {
            if answers.last() && order[last] == p {
                assert(0 <= last < answers.len() && order[last] == p && answers[last]);
            } else {
                let k = choose|k: int| 0 <= k < init.len() && #[trigger] order[k] == p && init[k];
                assert(0 <= k < answers.len() && order[k] == p && answers[k]);
            }
        }
        if exists|k: int| 0 <= k < answers.len() && #[trigger] order[k] == p && answers[k] {
            let k = choose|k: int| 0 <= k < answers.len() && #[trigger] order[k] == p && answers[k];
            if k < last {
                assert(0 <= k < init.len() && order[k] == p && init[k]);
            }
        }
    }
}

/// A run that the stopping rule allows never leaves fewer clues than the
/// target.
pub proof fn lemma_live_run_keeps_target(
    solution: Seq<u8>,
    order: Seq<usize>,
    target: nat,
    answers: Seq<bool>,
)
    requires
        arranges(order, solution.len()),
        target < solution.len(),
        live_run(solution, order, target, answers),
    ensures
        clue_count(dig_cells(solution, order, answers)) >= target,
    decreases answers.len(),
{
    if answers.len() > 0 {
        let init = answers.drop_last();
        lemma_dig_cells_shape(solution, order, init);
        assert(order[answers.len() - 1] < solution.len());
        lemma_clue_count_blank(dig_cells(solution, order, init), order[answers.len() - 1] as int);
    } else {
        lemma_clue_count_full(full_grid(solution));
    }
}

/// The order in which the positions of the grid are tried: all of them,
/// shuffled by `draws`.
pub open spec fn trial_order(draws: Seq<usize>) -> Seq<usize> {
    shuffled(iota(NN as nat), draws)
}

/// The clue target of a generation request that names none.
pub const DEFAULT_CLUE_TARGET: usize = 30;

/// The clue target of a request: its own, or the default.
pub fn clue_target_or_default(requested: Option<usize>) -> (target: usize)
    ensures
        target == match requested {
            Some(t) => t,
            None => DEFAULT_CLUE_TARGET,
        },
{
    match requested {
        Some(t) => t,
        None => DEFAULT_CLUE_TARGET,
    }
}

/// Why no puzzle was dug.
#[derive(Debug, Clone, Copy, PartialEq, Eq, Structural)]
pub enum DigError {
    /// The clue target is not below the number of cells.
    TargetOutOfRange,
    /// The solver does not accept the full solution under the variants: an
    /// internal error, as nothing the caller sent is at fault.
    SolverRefused,
}

impl DigError {
    /// The sentence that reports this failure.
    pub fn message(&self) -> (r: String)
        ensures
            r@ == match self {
                DigError::TargetOutOfRange => "clue_target must be less than 81"@,
                DigError::SolverRefused => "solver does not accept the full solution"@,
            },
    {
        match self {
            DigError::TargetOutOfRange => String::from_str("clue_target must be less than 81"),
            DigError::SolverRefused => String::from_str("solver does not accept the full solution"),
        }
    }
}

/// What the oracle says of a puzzle text.
#[derive(Debug, Clone, Copy, PartialEq, Eq, Structural)]
pub enum OracleAnswer {
    /// The puzzle has exactly one solution.
    Unique,
    /// The puzzle has no solution, or more than one.
    NotUnique,
    /// No solver could be built over the text under the variants.
    Refused,
}

impl OracleAnswer {
    /// Whether a cell that was blanked for this answer stays blank: only
    /// where the puzzle is still unique. A refusal keeps the clue, as does
    /// any other answer.
    pub open spec fn keeps_blank(self) -> bool {
        self == OracleAnswer::Unique
    }
}

/// Answers whether a puzzle text has exactly one solution. The library
/// asks; what answers is up to the implementor, and nothing is assumed of
/// the answers.
pub trait UniquenessOracle {
    /// Whether a solver can be built over the puzzle with this text under
    /// the variants. No solution is searched for.
    fn accepts(&mut self, puzzle: &str) -> bool;

    /// What holds of the puzzle with this text.
    fn has_unique_solution(&mut self, puzzle: &str) -> OracleAnswer;
}

/// Why a run does not start, if it does not: the target is looked at
/// first, then whether the solver accepted the full grid.
pub open spec fn start_refusal(target_clues: nat, accepted: bool) -> Option<DigError> {
    if target_clues >= NN {
        Some(DigError::TargetOutOfRange)
    } else if !accepted {
        Some(DigError::SolverRefused)
    } else {
        None
    }
}

/// The full grid of a solution.
fn full_cells(solution: &[u8; 81]) -> (cells: Vec<Option<u8>>)
    ensures
        cells@ == full_grid(solution@),
{
    let mut cells: Vec<Option<u8>> = Vec::with_capacity(NN);
    let mut i: usize = 0;
    while i < NN
        invariant
            i <= NN,
            solution@.len() == NN,
            cells@ == full_grid(solution@.take(i as int)),
        decreases NN - i,
    {
        cells.push(Some(solution[i]));
        assert(cells@ =~= full_grid(solution@.take(i as int + 1)));
        i += 1;
    }
    assert(solution@.take(NN as int) =~= solution@);
    cells
}

/// The text of the full grid of a solution: what the oracle is asked to
/// accept before the first trial.
pub fn opening_text(solution: &[u8; 81]) -> (text: String)
    requires
        complete_solution(solution@),
    ensures
        text@ == grid_text(full_grid(solution@)),
{
    let cells = full_cells(solution);
    puzzle_vec_to_string(cells.as_slice())
}

/// A digging run in progress.
pub struct DigState {
    cells: Vec<Option<u8>>,
    order: Vec<usize>,
    next: usize,
    target: usize,
    clues: usize,
    solution: Ghost<Seq<u8>>,
    answers: Ghost<Seq<bool>>,
}

impl DigState {
    /// The grid as it stands.
    pub closed spec fn cells(&self) -> Seq<Option<u8>> {
        self.cells@
    }

    /// The order in which positions are tried.
    pub closed spec fn order(&self) -> Seq<usize> {
        self.order@
    }

    /// The clue target.
    pub closed spec fn target(&self) -> nat {
        self.target as nat
    }

    /// The solution that the run started from.
    pub closed spec fn solution(&self) -> Seq<u8> {
        self.solution@
    }

    /// The answers taken so far, one for each trial.
    pub closed spec fn answers(&self) -> Seq<bool> {
        self.answers@
    }

    /// The invariant of a run: the grid is what the answers so far make of
    /// the solution, and the run got here under the stopping rule.
    pub closed spec fn wf(&self) -> bool {
        &&& complete_solution(self.solution@)
        &&& arranges(self.order@, NN as nat)
        &&& self.target < NN
        &&& self.next == self.answers@.len()
        &&& self.next <= NN
        &&& self.cells@ == dig_cells(self.solution@, self.order@, self.answers@)
        &&& self.clues == clue_count(self.cells@)
        &&& live_run(self.solution@, self.order@, self.target as nat, self.answers@)
    }

    /// Whether the run is over.
    pub open spec fn finished(&self) -> bool {
        run_over(self.solution(), self.order(), self.target(), self.answers())
    }

    /// What the invariant says in terms of the run's parts.
    pub proof fn lemma_wf(&self)
        requires
            self.wf(),
        ensures
            complete_solution(self.solution()),
            arranges(self.order(), NN as nat),
            self.target() < NN,
            self.answers().len() <= NN,
            self.cells() == dig_cells(self.solution(), self.order(), self.answers()),
            live_run(self.solution(), self.order(), self.target(), self.answers()),
            clue_count(self.cells()) >= self.target(),
    {
        lemma_live_run_keeps_target(
            self.solution@,
            self.order@,
            self.target as nat,
            self.answers@,
        );
    }

    /// Starts a run on a complete solution: nothing is blank yet, and the
    /// trial order is the shuffle of all positions by `draws`. `accepted`
    /// says whether the solver could be built over the full grid. A target
    /// that is not below the number of cells is refused; with a target in
    /// range, so is a solution that the solver did not accept.
    pub fn start(
        solution: &[u8; 81],
        target_clues: usize,
        draws: &[usize],
        accepted: bool,
    ) -> (r: Result<DigState, DigError>)
        requires
            complete_solution(solution@),
            valid_draws(NN as nat, draws@),
        ensures
            match r {
                Ok(state) => {
                    &&& start_refusal(target_clues as nat, accepted) is None
                    &&& state.wf()
                    &&& state.solution() == solution@
                    &&& state.order() == trial_order(draws@)
                    &&& state.target() == target_clues
                    &&& state.answers() == Seq::<bool>::empty()
                },
                Err(e) => start_refusal(target_clues as nat, accepted) == Some(e),
            },
    {
        if target_clues >= NN {
            return Err(DigError::TargetOutOfRange);
        }
        if !accepted {
            return Err(DigError::SolverRefused);
        }
        let cells = full_cells(solution);
        let mut order = identity_order(NN);
        proof {
            lemma_shuffled_arranges(iota(NN as nat), draws@, draws@.len());
            lemma_clue_count_full(cells@);
        }
        shuffle_indices(&mut order, draws);
        Ok(
            DigState {
                cells,
                order,
                next: 0,
                target: target_clues,
                clues: NN,
                solution: Ghost(solution@),
                answers: Ghost(Seq::empty()),
            },
        )
    }

    /// Whether the run is over: every position was tried, or the grid is
    /// down to the target.
    pub fn is_finished(&self) -> (r: bool)
        requires
            self.wf(),
        ensures
            r == self.finished(),
    {
        self.next >= NN || self.clues <= self.target
    }

    /// The number of clues in the grid as it stands.
    pub fn clues(&self) -> (r: usize)
        requires
            self.wf(),
        ensures
            r == clue_count(self.cells()),
            r >= self.target(),
    {
        proof {
            self.lemma_wf();
        }
        self.clues
    }

    /// The text of the grid as it stands.
    pub fn puzzle_text(&self) -> (text: String)
        requires
            self.wf(),
        ensures
            text@ == grid_text(self.cells()),
    {
        proof {
            lemma_dig_cells_shape(self.solution@, self.order@, self.answers@);
        }
        puzzle_vec_to_string(self.cells.as_slice())
    }

    /// The text to ask the oracle about: the grid with the next position in
    /// the trial order blanked. There is none once the run is over.
    pub fn candidate(&self) -> (r: Option<String>)
        requires
            self.wf(),
        ensures
            match r {
                Some(text) => !self.finished() && text@ == grid_text(
                    self.cells().update(self.order()[self.answers().len() as int] as int, None),
                ),
                None => self.finished(),
            },
    {
        if self.is_finished() {
            return None;
        }
        proof {
            lemma_dig_cells_shape(self.solution@, self.order@, self.answers@);
        }
        let pos: usize = self.order[self.next];
        let mut trial: Vec<Option<u8>> = Vec::with_capacity(NN);
        let mut i: usize = 0;
        while i < NN
            invariant
                i <= NN,
                pos < NN,
                self.cells@.len() == NN,
                trial@ == self.cells@.update(pos as int, None).take(i as int),
            decreases NN - i,
        {
            let cell: Option<u8> = if i == pos {
                None
            } else {
                self.cells[i]
            };
            trial.push(cell);
            assert(trial@ =~= self.cells@.update(pos as int, None).take(i as int + 1));
            i += 1;
        }
        assert(self.cells@.update(pos as int, None).take(NN as int) =~= self.cells@.update(
            pos as int,
            None,
        ));
        Some(puzzle_vec_to_string(trial.as_slice()))
    }

    /// Takes the oracle's answer for the candidate: where the puzzle stays
    /// unique the position is blank from now on, else the clue is kept, also
    /// where the oracle refused the candidate. Either way the trial is
    /// over. A run that is over is left as it is.
    pub fn advance(&mut self, answer: OracleAnswer)
        requires
            old(self).wf(),
        ensures
            final(self).wf(),
            final(self).solution() == old(self).solution(),
            final(self).order() == old(self).order(),
            final(self).target() == old(self).target(),
            old(self).finished() ==> final(self).answers() == old(self).answers(),
            !old(self).finished() ==> final(self).answers() == old(self).answers().push(
                answer.keeps_blank(),
            ),
    {
        if self.is_finished() {
            return ;
        }
        let unique: bool = match answer {
            OracleAnswer::Unique => true,
            _ => false,
        };
        let pos: usize = self.order[self.next];
        proof {
            lemma_dig_cells_shape(self.solution@, self.order@, self.answers@);
            lemma_clue_count_blank(self.cells@, pos as int);
            lemma_clue_count_bound(self.cells@);
            assert(self.answers@.push(unique).drop_last() =~= self.answers@);
        }
        if unique {
            if self.cells[pos].is_some() {
                self.clues = self.clues - 1;
            }
            self.cells.set(pos, None);
        }
        self.next = self.next + 1;
        self.answers = Ghost(self.answers@.push(unique));
    }
}

/// Digs a puzzle out of a complete solution. A target that is not below
/// the number of cells is refused before the oracle is asked anything. Then
/// the oracle is asked whether a solver can be built over the full grid,
/// and a refusal there ends the generation. After that positions are tried
/// in the order that `draws` shuffles them into: the oracle is asked about
/// the grid with the position blanked, and the blank stays where the oracle
/// says the puzzle is still unique. The run ends once the grid is down to
/// `target_clues` clues, or when every position was tried.
pub fn generate_puzzle_from_solution<O: UniquenessOracle>(
    solution: &[u8; 81],
    target_clues: usize,
    draws: &[usize],
    oracle: &mut O,
) -> (r: Result<String, DigError>)
    requires
        complete_solution(solution@),
        valid_draws(NN as nat, draws@),
    ensures
        r == Err::<String, DigError>(DigError::TargetOutOfRange) <==> target_clues >= NN,
        r matches Ok(text) ==> {
            &&& text@.len() == NN
            &&& text_clues(text@) >= target_clues
            &&& exists|answers: Seq<bool>|
                {
                    &&& answers.len() <= NN
                    &&& live_run(solution@, trial_order(draws@), target_clues as nat, answers)
                    &&& run_over(solution@, trial_order(draws@), target_clues as nat, answers)
                    &&& text@ == grid_text(
                        #[trigger] dig_cells(solution@, trial_order(draws@), answers),
                    )
                }
        },
{
    if target_clues >= NN {
        return Err(DigError::TargetOutOfRange);
    }
    let full = opening_text(solution);
    let accepted = oracle.accepts(full.as_str());
    let mut state = match DigState::start(solution, target_clues, draws, accepted) {
        Ok(state) => state,
        Err(e) => return Err(e),
    };
    loop
        invariant_except_break
            state.wf(),
            state.solution() == solution@,
            state.order() == trial_order(draws@),
            state.target() == target_clues,
        ensures
            state.wf(),
            state.finished(),
            state.solution() == solution@,
            state.order() == trial_order(draws@),
            state.target() == target_clues,
        decreases NN - state.answers().len(),
    {
        proof {
            state.lemma_wf();
        }
        match state.candidate() {
            None => {
                break ;
            },
            Some(text) => {
                let answer = oracle.has_unique_solution(text.as_str());
                state.advance(answer);
            },
        }
    }
    let text = state.puzzle_text();
    proof {
        state.lemma_wf();
        lemma_grid_text_clues(state.cells());
        lemma_dig_cells_shape(solution@, trial_order(draws@), state.answers());
        assert(text@ == grid_text(
            dig_cells(solution@, trial_order(draws@), state.answers()),
        ));
    }
    Ok(text)
}

} // verus!
