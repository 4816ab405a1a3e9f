use daily_puzzle::dig::{
    clue_target_or_default, generate_puzzle_from_solution, opening_text, puzzle_vec_to_string,
    DigError, DigState, OracleAnswer, UniquenessOracle, DEFAULT_CLUE_TARGET,
};
use daily_puzzle::payload::{count_clues, NN};
use daily_puzzle::shuffle::{draw_bound, identity_order, shuffle_indices};

const SOLUTION: &str =
    "123456789456789123789123456214365897365897214897214365531642978642978531978531642";

fn solution() -> [u8; 81] {
    let mut out = [0u8; 81];
    for (i, b) in SOLUTION.bytes().enumerate() {
        out[i] = b - b'0';
    }
    out
}

fn zero_draws() -> Vec<usize> {
    vec![0; 80]
}

const YES: OracleAnswer = OracleAnswer::Unique;
const NO: OracleAnswer = OracleAnswer::NotUnique;
const REFUSED: OracleAnswer = OracleAnswer::Refused;

struct Always(OracleAnswer);

impl UniquenessOracle for Always {
    fn accepts(&mut self, _puzzle: &str) -> bool {
        true
    }

    fn has_unique_solution(&mut self, _puzzle: &str) -> OracleAnswer {
        self.0
    }
}

/// Refuses whatever it is asked, and counts the questions of each kind.
struct RefusesAll {
    accepts: usize,
    trials: usize,
}

impl UniquenessOracle for RefusesAll {
    fn accepts(&mut self, _puzzle: &str) -> bool {
        self.accepts += 1;
        false
    }

    fn has_unique_solution(&mut self, _puzzle: &str) -> OracleAnswer {
        self.trials += 1;
        OracleAnswer::Refused
    }
}

/// Accepts the full grid, then gives `answers` in turn, again and again.
struct Recording {
    opened: Vec<String>,
    asked: Vec<String>,
    answers: Vec<OracleAnswer>,
}

impl Recording {
    fn new(answers: Vec<OracleAnswer>) -> Recording {
        Recording { opened: vec![], asked: vec![], answers }
    }

    fn trials(&self) -> &[String] {
        &self.asked
    }
}

impl UniquenessOracle for Recording {
    fn accepts(&mut self, puzzle: &str) -> bool {
        self.opened.push(puzzle.to_string());
        true
    }

    fn has_unique_solution(&mut self, puzzle: &str) -> OracleAnswer {
        let answer = self.answers[self.asked.len() % self.answers.len()];
        self.asked.push(puzzle.to_string());
        answer
    }
}

#[test]
fn shuffle_follows_the_draws() {
    let mut positions = vec![10, 20, 30, 40];
    shuffle_indices(&mut positions, &[1, 1, 0]);
    // 3 <-> 1 gives 10 40 30 20; 2 <-> 1 gives 10 30 40 20; 1 <-> 0 gives the result
    assert_eq!(positions, vec![30, 10, 40, 20]);
}

#[test]
fn shuffle_with_each_draw_at_its_index_changes_nothing() {
    let mut positions = identity_order(NN);
    let draws: Vec<usize> = (0..80).map(|k| 80 - k).collect();
    shuffle_indices(&mut positions, &draws);
    assert_eq!(positions, identity_order(NN));
}

#[test]
fn shuffle_is_a_permutation() {
    let mut positions = identity_order(NN);
    let draws: Vec<usize> = (0..80).map(|k| (k * 7 + 3) % (81 - k)).collect();
    shuffle_indices(&mut positions, &draws);
    assert_ne!(positions, identity_order(NN));
    let mut sorted = positions.clone();
    sorted.sort();
    assert_eq!(sorted, identity_order(NN));
}

#[test]
fn shuffle_repeats_on_the_same_draws() {
    let draws: Vec<usize> = (0..80).map(|k| (k * 13 + 5) % (81 - k)).collect();
    let mut first = identity_order(NN);
    let mut second = identity_order(NN);
    shuffle_indices(&mut first, &draws);
    shuffle_indices(&mut second, &draws);
    assert_eq!(first, second);
}

#[test]
fn shuffle_leaves_short_lists_alone() {
    let mut none: Vec<usize> = vec![];
    shuffle_indices(&mut none, &[]);
    assert_eq!(none, Vec::<usize>::new());
    let mut one = vec![5];
    shuffle_indices(&mut one, &[]);
    assert_eq!(one, vec![5]);
}

#[test]
fn draw_bounds_fall_from_the_length() {
    assert_eq!(draw_bound(81, 0), 81);
    assert_eq!(draw_bound(81, 79), 2);
}

#[test]
fn grid_text_has_digits_and_dots() {
    assert_eq!(puzzle_vec_to_string(&[Some(1), None, Some(9), Some(0)]), "1.90");
    assert_eq!(puzzle_vec_to_string(&[]), "");
}

#[test]
fn target_of_81_is_out_of_range() {
    let r = generate_puzzle_from_solution(&solution(), 81, &zero_draws(), &mut Always(YES));
    assert_eq!(r, Err(DigError::TargetOutOfRange));
    assert_eq!(DigError::TargetOutOfRange.message(), "clue_target must be less than 81");
}

#[test]
fn target_of_82_is_out_of_range() {
    let r = generate_puzzle_from_solution(&solution(), 82, &zero_draws(), &mut Always(YES));
    assert_eq!(r, Err(DigError::TargetOutOfRange));
    assert!(matches!(
        DigState::start(&solution(), 82, &zero_draws(), true),
        Err(DigError::TargetOutOfRange)
    ));
    assert!(matches!(
        DigState::start(&solution(), 82, &zero_draws(), false),
        Err(DigError::TargetOutOfRange)
    ));
}

#[test]
fn no_work_is_done_on_a_target_out_of_range() {
    let mut oracle = Recording::new(vec![YES]);
    let r = generate_puzzle_from_solution(&solution(), 81, &zero_draws(), &mut oracle);
    assert!(r.is_err());
    assert!(oracle.opened.is_empty());
    assert!(oracle.asked.is_empty());
}

#[test]
fn digging_stops_at_the_target() {
    let text =
        generate_puzzle_from_solution(&solution(), 30, &zero_draws(), &mut Always(YES)).unwrap();
    assert_eq!(text.chars().count(), 81);
    assert_eq!(count_clues(&text), 30);
    for (got, want) in text.chars().zip(SOLUTION.chars()) {
        assert!(got == '.' || got == want);
    }
}

#[test]
fn target_zero_is_reached_when_every_removal_passes() {
    let text =
        generate_puzzle_from_solution(&solution(), 0, &zero_draws(), &mut Always(YES)).unwrap();
    assert_eq!(text, ".".repeat(81));
}

#[test]
fn digging_keeps_every_clue_that_the_oracle_refuses() {
    let mut oracle = Recording::new(vec![NO]);
    let text = generate_puzzle_from_solution(&solution(), 30, &zero_draws(), &mut oracle).unwrap();
    assert_eq!(text, SOLUTION);
    assert_eq!(oracle.trials().len(), 81);
}

#[test]
fn digging_may_end_above_the_target() {
    let mut oracle = Recording::new(vec![YES, NO]);
    let text = generate_puzzle_from_solution(&solution(), 10, &zero_draws(), &mut oracle).unwrap();
    // 81 trials, every other one accepted: 41 blanks
    assert_eq!(oracle.trials().len(), 81);
    assert_eq!(count_clues(&text), 40);
}

#[test]
fn each_question_blanks_one_more_cell_of_the_trial_order() {
    let draws: Vec<usize> = (0..80).map(|k| 80 - k).collect();
    let mut oracle = Recording::new(vec![YES, NO]);
    let text = generate_puzzle_from_solution(&solution(), 79, &draws, &mut oracle).unwrap();
    // the full grid first; then the order is 0, 1, 2, ..: cell 0 goes, cell 1 is kept, cell 2 goes
    assert_eq!(oracle.opened, vec![SOLUTION.to_string()]);
    assert_eq!(oracle.trials().len(), 3);
    assert_eq!(oracle.trials()[0], format!(".{}", &SOLUTION[1..]));
    assert_eq!(oracle.trials()[1], format!("..{}", &SOLUTION[2..]));
    assert_eq!(oracle.trials()[2], format!(".2.{}", &SOLUTION[3..]));
    assert_eq!(text, format!(".2.{}", &SOLUTION[3..]));
}

#[test]
fn a_run_can_be_driven_step_by_step() {
    let draws: Vec<usize> = (0..80).map(|k| 80 - k).collect();
    let mut state = DigState::start(&solution(), 80, &draws, true).unwrap();
    assert!(!state.is_finished());
    assert_eq!(state.clues(), 81);
    assert_eq!(state.puzzle_text(), SOLUTION);
    assert_eq!(state.candidate(), Some(format!(".{}", &SOLUTION[1..])));
    state.advance(NO);
    assert_eq!(state.clues(), 81);
    assert_eq!(state.candidate(), Some(format!("1.{}", &SOLUTION[2..])));
    state.advance(YES);
    assert!(state.is_finished());
    assert_eq!(state.clues(), 80);
    assert_eq!(state.candidate(), None);
    state.advance(YES);
    assert_eq!(state.clues(), 80);
    assert_eq!(state.puzzle_text(), format!("1.{}", &SOLUTION[2..]));
}

#[test]
fn a_solution_that_the_solver_refuses_ends_the_generation() {
    let mut oracle = Recording::new(vec![YES]);
    let mut refusing = RefusesAll { accepts: 0, trials: 0 };
    let r = generate_puzzle_from_solution(&solution(), 30, &zero_draws(), &mut refusing);
    assert_eq!(r, Err(DigError::SolverRefused));
    assert_eq!((refusing.accepts, refusing.trials), (1, 0));
    assert_eq!(
        DigError::SolverRefused.message(),
        "solver does not accept the full solution"
    );
    assert!(matches!(
        DigState::start(&solution(), 0, &zero_draws(), false),
        Err(DigError::SolverRefused)
    ));
    assert!(DigState::start(&solution(), 0, &zero_draws(), true).is_ok());
    // the same run goes through where the full grid is accepted
    assert!(generate_puzzle_from_solution(&solution(), 30, &zero_draws(), &mut oracle).is_ok());
}

#[test]
fn a_refusal_in_a_later_trial_keeps_the_clue() {
    let draws: Vec<usize> = (0..80).map(|k| 80 - k).collect();
    let mut oracle = Recording::new(vec![REFUSED, YES, REFUSED]);
    let text = generate_puzzle_from_solution(&solution(), 80, &draws, &mut oracle).unwrap();
    assert_eq!(oracle.trials().len(), 2);
    assert_eq!(text, format!("1.{}", &SOLUTION[2..]));

    let mut oracle = Recording::new(vec![REFUSED]);
    let text = generate_puzzle_from_solution(&solution(), 30, &draws, &mut oracle).unwrap();
    assert_eq!(text, SOLUTION);
    assert_eq!(oracle.trials().len(), 81);
}

#[test]
fn the_oracle_is_asked_about_the_full_grid_first() {
    assert_eq!(opening_text(&solution()), SOLUTION);
    let mut oracle = Recording::new(vec![YES]);
    let _ = generate_puzzle_from_solution(&solution(), 80, &zero_draws(), &mut oracle);
    assert_eq!(oracle.opened, vec![SOLUTION.to_string()]);
    assert_eq!(oracle.asked.len(), 1);
}

#[test]
fn the_clue_target_defaults_to_thirty() {
    assert_eq!(DEFAULT_CLUE_TARGET, 30);
    assert_eq!(clue_target_or_default(None), 30);
    assert_eq!(clue_target_or_default(Some(0)), 0);
    assert_eq!(clue_target_or_default(Some(81)), 81);
}
