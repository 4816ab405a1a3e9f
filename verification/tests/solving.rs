use daily_puzzle::payload::{
    count_clues, parse_puzzle_json, parse_solution_from_json, puzzle_from_document, PayloadError,
    PuzzlePayload, SolutionError,
};
use daily_puzzle::solve::{
    check_against_document, grid_is_well_formed, judge_grid, verify_solve, CheckStatus, SolveError,
};
use daily_puzzle::text::{chars_of, comes_before, is_white_space, trimmed_chars};
use daily_puzzle::wire::WireValue;

const SOLUTION: &str =
    "123456789456789123789123456214365897365897214897214365531642978642978531978531642";

fn solution() -> [u8; 81] {
    let mut out = [0u8; 81];
    for (i, b) in SOLUTION.bytes().enumerate() {
        out[i] = b - b'0';
    }
    out
}

fn stored_text() -> String {
    PuzzlePayload::assemble(SOLUTION.to_string(), &solution(), vec![], 7, None).into_text()
}

fn with_cell(index: usize, c: char) -> String {
    let mut cells: Vec<char> = SOLUTION.chars().collect();
    cells[index] = c;
    cells.into_iter().collect()
}

fn document_with_solution(solution: WireValue) -> WireValue {
    WireValue::Object(vec![("solution".to_string(), solution)])
}

#[test]
fn identical_grid_is_complete() {
    assert_eq!(verify_solve(Some(&stored_text()), SOLUTION), Ok(CheckStatus::Complete));
}

#[test]
fn grid_with_a_blank_is_partial() {
    let stored = stored_text();
    assert_eq!(verify_solve(Some(&stored), &with_cell(40, '.')), Ok(CheckStatus::Partial));
    assert_eq!(verify_solve(Some(&stored), &with_cell(0, '0')), Ok(CheckStatus::Partial));
}

#[test]
fn grid_with_a_wrong_digit_is_incorrect() {
    // the solution has 9 at index 40
    assert_eq!(SOLUTION.as_bytes()[40], b'9');
    assert_eq!(verify_solve(Some(&stored_text()), &with_cell(40, '6')), Ok(CheckStatus::Incorrect));
}

#[test]
fn grid_of_80_characters_is_a_format_error() {
    let err = verify_solve(Some(&stored_text()), &SOLUTION[..80]).unwrap_err();
    assert_eq!(err, SolveError::WrongLength);
    assert_eq!(err.message(), "grid must be exactly 81 characters");
}

#[test]
fn the_length_is_checked_before_anything_else() {
    assert_eq!(verify_solve(None, "123"), Err(SolveError::WrongLength));
    assert_eq!(verify_solve(Some("not json"), ""), Err(SolveError::WrongLength));
}

#[test]
fn surrounding_white_space_is_not_counted() {
    let padded = format!(" \t\n{}\u{a0}\r\n", SOLUTION);
    assert_eq!(verify_solve(Some(&stored_text()), &padded), Ok(CheckStatus::Complete));
    let inner = format!("{} {}", &SOLUTION[..40], &SOLUTION[41..]);
    assert_eq!(
        verify_solve(Some(&stored_text()), &inner),
        Err(SolveError::InvalidCharacter)
    );
}

#[test]
fn without_a_published_puzzle_there_is_nothing_to_check() {
    let err = verify_solve(None, SOLUTION).unwrap_err();
    assert_eq!(err, SolveError::NotFound);
    assert_eq!(err.message(), "Puzzle not published");
}

#[test]
fn other_characters_are_a_format_error() {
    let err = verify_solve(Some(&stored_text()), &with_cell(80, 'x')).unwrap_err();
    assert_eq!(err, SolveError::InvalidCharacter);
    assert_eq!(err.message(), "grid must contain digits 1-9 or '.'");
    // a full-width digit is no digit
    assert_eq!(
        verify_solve(Some(&stored_text()), &with_cell(80, '\u{ff12}')),
        Err(SolveError::InvalidCharacter)
    );
}

#[test]
fn a_bad_character_is_a_format_error_wherever_it_stands() {
    // a wrong digit before the bad character
    let mut cells: Vec<char> = SOLUTION.chars().collect();
    cells[0] = '2';
    cells[80] = 'x';
    let grid: String = cells.into_iter().collect();
    assert_eq!(verify_solve(Some(&stored_text()), &grid), Err(SolveError::InvalidCharacter));

    // a wrong digit after it
    let mut cells: Vec<char> = SOLUTION.chars().collect();
    cells[3] = 'x';
    cells[50] = '1';
    let grid: String = cells.into_iter().collect();
    assert_eq!(verify_solve(Some(&stored_text()), &grid), Err(SolveError::InvalidCharacter));

    // blanks around it
    let mut cells: Vec<char> = ".".repeat(81).chars().collect();
    cells[40] = '-';
    let grid: String = cells.into_iter().collect();
    assert_eq!(verify_solve(Some(&stored_text()), &grid), Err(SolveError::InvalidCharacter));
}

#[test]
fn a_bad_character_is_looked_for_before_the_solution() {
    assert_eq!(verify_solve(Some("{}"), &with_cell(0, 'x')), Err(SolveError::InvalidCharacter));
    assert_eq!(
        verify_solve(Some("this is not json"), &with_cell(80, '?')),
        Err(SolveError::InvalidCharacter)
    );
    assert_eq!(
        check_against_document(Some(None), &with_cell(5, 'a')),
        Err(SolveError::InvalidCharacter)
    );
    // but not before the puzzle
    assert_eq!(verify_solve(None, &with_cell(0, 'x')), Err(SolveError::NotFound));
}

#[test]
fn the_first_of_several_wrong_digits_changes_nothing() {
    let mut cells: Vec<char> = SOLUTION.chars().collect();
    cells[3] = '9';
    cells[50] = '.';
    cells[60] = '1';
    let grid: String = cells.into_iter().collect();
    assert_eq!(verify_solve(Some(&stored_text()), &grid), Ok(CheckStatus::Incorrect));
}

#[test]
fn a_missing_or_malformed_solution_makes_the_check_unavailable() {
    assert_eq!(verify_solve(Some("{}"), SOLUTION), Ok(CheckStatus::Unavailable));
    assert_eq!(verify_solve(Some("{\"solution\":[1,2,3]}"), SOLUTION), Ok(CheckStatus::Unavailable));
    assert_eq!(verify_solve(Some("this is not json"), SOLUTION), Ok(CheckStatus::Unavailable));
    assert_eq!(verify_solve(Some("{}"), &with_cell(0, '.')), Ok(CheckStatus::Unavailable));
    assert_eq!(
        check_against_document(Some(None), SOLUTION),
        Ok(CheckStatus::Unavailable)
    );
}

#[test]
fn a_document_is_checked_without_its_text() {
    let doc = PuzzlePayload::assemble(SOLUTION.to_string(), &solution(), vec![], 7, None)
        .into_document();
    assert_eq!(check_against_document(Some(Some(&doc)), SOLUTION), Ok(CheckStatus::Complete));
    assert_eq!(check_against_document(None, SOLUTION), Err(SolveError::NotFound));
}

#[test]
fn judge_reads_cell_by_cell() {
    let grid: Vec<char> = "1.3".chars().collect();
    assert_eq!(judge_grid(&[1, 2, 3], &grid), Ok(CheckStatus::Partial));
    let grid: Vec<char> = "123".chars().collect();
    assert_eq!(judge_grid(&[1, 2, 3], &grid), Ok(CheckStatus::Complete));
    let grid: Vec<char> = "1.4".chars().collect();
    assert_eq!(judge_grid(&[1, 2, 3], &grid), Ok(CheckStatus::Incorrect));
    let grid: Vec<char> = "4.x".chars().collect();
    assert_eq!(judge_grid(&[1, 2, 3], &grid), Err(SolveError::InvalidCharacter));
    let grid: Vec<char> = "x23".chars().collect();
    assert_eq!(judge_grid(&[1, 2, 3], &grid), Err(SolveError::InvalidCharacter));
    assert_eq!(judge_grid(&[], &[]), Ok(CheckStatus::Complete));
    assert!(grid_is_well_formed(&['.', '0', '1', '9']));
    assert!(!grid_is_well_formed(&['1', ' ', '2']));
    assert!(grid_is_well_formed(&[]));
}

#[test]
fn statuses_have_their_words() {
    assert_eq!(CheckStatus::Incorrect.as_str(), "incorrect");
    assert_eq!(CheckStatus::Partial.as_str(), "partial");
    assert_eq!(CheckStatus::Complete.as_str(), "complete");
    assert_eq!(CheckStatus::Unavailable.as_str(), "unavailable");
    assert!(CheckStatus::Complete.counts_as_solve());
    assert!(!CheckStatus::Partial.counts_as_solve());
    assert!(!CheckStatus::Incorrect.counts_as_solve());
    assert!(!CheckStatus::Unavailable.counts_as_solve());
}

#[test]
fn solution_is_read_from_the_document() {
    let digits: Vec<WireValue> = solution().iter().map(|d| WireValue::Unsigned(*d as u64)).collect();
    let doc = document_with_solution(WireValue::Array(digits));
    assert_eq!(parse_solution_from_json(&doc), Ok(solution().to_vec()));
}

#[test]
fn solution_errors_name_the_first_fault() {
    assert_eq!(parse_solution_from_json(&WireValue::Null), Err(SolutionError::Missing));
    assert_eq!(
        parse_solution_from_json(&document_with_solution(WireValue::Text("1".to_string()))),
        Err(SolutionError::Missing)
    );
    let short: Vec<WireValue> = (0..80).map(|_| WireValue::Unsigned(1)).collect();
    assert_eq!(
        parse_solution_from_json(&document_with_solution(WireValue::Array(short))),
        Err(SolutionError::WrongLength)
    );
    let mut digits: Vec<WireValue> = (0..81).map(|_| WireValue::Unsigned(1)).collect();
    digits[5] = WireValue::Unsigned(0);
    digits[6] = WireValue::Text("x".to_string());
    assert_eq!(
        parse_solution_from_json(&document_with_solution(WireValue::Array(digits))),
        Err(SolutionError::OutOfRange)
    );
    let mut digits: Vec<WireValue> = (0..81).map(|_| WireValue::Unsigned(1)).collect();
    digits[5] = WireValue::OtherNumber("1.5".to_string());
    digits[6] = WireValue::Unsigned(10);
    assert_eq!(
        parse_solution_from_json(&document_with_solution(WireValue::Array(digits))),
        Err(SolutionError::NotNumber)
    );
    assert_eq!(SolutionError::Missing.message(), "solution missing");
    assert_eq!(SolutionError::WrongLength.message(), "solution must have 81 digits");
    assert_eq!(SolutionError::NotNumber.message(), "solution digits must be numbers");
    assert_eq!(SolutionError::OutOfRange.message(), "solution digits must be 1-9");
}

#[test]
fn puzzle_document_is_read_from_text() {
    let parsed = parse_puzzle_json(
        "{\"puzzle\":\"1.3\",\"constraints\":[{\"type\":\"king\"},{\"type\":\"thermo\",\"path\":[[0,1]]}],\"seed\":5}",
    )
    .unwrap();
    assert_eq!(parsed.puzzle, "1.3");
    assert_eq!(
        parsed.constraints,
        vec![
            WireValue::Object(vec![("type".to_string(), WireValue::Text("king".to_string()))]),
            WireValue::Object(vec![
                (
                    "path".to_string(),
                    WireValue::Array(vec![WireValue::Array(vec![
                        WireValue::Unsigned(0),
                        WireValue::Unsigned(1)
                    ])])
                ),
                ("type".to_string(), WireValue::Text("thermo".to_string())),
            ]),
        ]
    );
}

#[test]
fn puzzle_document_without_constraints_has_none() {
    let parsed = parse_puzzle_json("{\"puzzle\":\"...\"}").unwrap();
    assert_eq!(parsed.puzzle, "...");
    assert!(parsed.constraints.is_empty());
    let parsed = parse_puzzle_json("{\"puzzle\":\"...\",\"constraints\":7}").unwrap();
    assert!(parsed.constraints.is_empty());
}

#[test]
fn puzzle_document_errors() {
    let err = parse_puzzle_json("{\"puzzle\":").unwrap_err();
    assert!(matches!(err, PayloadError::InvalidJson(_)));
    assert!(err.message().starts_with("invalid JSON: "));
    assert!(err.message().len() > "invalid JSON: ".len());
    let err = parse_puzzle_json("{\"puzzle\":5}").unwrap_err();
    assert!(matches!(err, PayloadError::MissingPuzzle));
    assert_eq!(err.message(), "missing puzzle string");
    assert!(matches!(parse_puzzle_json("[]"), Err(PayloadError::MissingPuzzle)));
    assert!(matches!(
        puzzle_from_document(WireValue::Object(vec![])),
        Err(PayloadError::MissingPuzzle)
    ));
}

#[test]
fn numbers_other_than_unsigned_integers_are_kept_apart() {
    let parsed = parse_puzzle_json("{\"puzzle\":\"\",\"constraints\":[-3, 1.5, 18446744073709551615, true, null]}").unwrap();
    assert_eq!(
        parsed.constraints,
        vec![
            WireValue::OtherNumber("-3".to_string()),
            WireValue::OtherNumber("1.5".to_string()),
            WireValue::Unsigned(u64::MAX),
            WireValue::Bool(true),
            WireValue::Null,
        ]
    );
}

#[test]
fn payload_text_is_json_with_every_field() {
    let text = PuzzlePayload::assemble(
        "1.".to_string(),
        &solution(),
        vec![WireValue::Object(vec![("type".to_string(), WireValue::Text("king".to_string()))])],
        42,
        Some("Rotational".to_string()),
    )
    .into_text();
    let digits: Vec<String> = solution().iter().map(|d| d.to_string()).collect();
    assert_eq!(
        text,
        format!(
            "{{\"clue_count\":1,\"constraints\":[{{\"type\":\"king\"}}],\"puzzle\":\"1.\",\"seed\":42,\"solution\":[{}],\"symmetry\":\"Rotational\"}}",
            digits.join(",")
        )
    );
}

#[test]
fn payload_without_symmetry_writes_null() {
    let payload = PuzzlePayload::assemble(SOLUTION.to_string(), &solution(), vec![], 1, None);
    assert_eq!(payload.clue_count, 81);
    assert_eq!(payload.solution, solution().to_vec());
    let text = payload.into_text();
    assert!(text.ends_with("\"symmetry\":null}"));
    let parsed = parse_puzzle_json(&text).unwrap();
    assert_eq!(parsed.puzzle, SOLUTION);
}

#[test]
fn clues_are_the_characters_other_than_dots() {
    assert_eq!(count_clues(""), 0);
    assert_eq!(count_clues("..."), 0);
    assert_eq!(count_clues("1.0.x"), 3);
    assert_eq!(count_clues(SOLUTION), 81);
}

#[test]
fn trimming_takes_white_space_from_both_ends_only() {
    assert_eq!(trimmed_chars("  a b \n"), vec!['a', ' ', 'b']);
    assert_eq!(trimmed_chars(" \t "), Vec::<char>::new());
    assert_eq!(trimmed_chars(""), Vec::<char>::new());
    assert_eq!(trimmed_chars("\u{3000}x\u{2003}"), vec!['x']);
    assert_eq!(trimmed_chars("x"), vec!['x']);
    assert_eq!(chars_of("h\u{e9}"), vec!['h', '\u{e9}']);
}

#[test]
fn strings_are_ordered_by_their_first_difference() {
    assert!(comes_before("2024-01-01", "2024-01-02"));
    assert!(!comes_before("2024-01-02", "2024-01-01"));
    assert!(!comes_before("2024-01-01", "2024-01-01"));
    assert!(comes_before("2024", "2024-01"));
    assert!(!comes_before("2024-01", "2024"));
    assert!(comes_before("", "a"));
    assert!(!comes_before("", ""));
    assert!(comes_before("Z", "a"));
}

#[test]
fn other_numbers_are_written_as_they_were_read() {
    let text = PuzzlePayload::assemble(
        String::new(),
        &solution(),
        vec![
            WireValue::OtherNumber("-3".to_string()),
            WireValue::OtherNumber("1.5".to_string()),
            WireValue::OtherNumber("not a number".to_string()),
            WireValue::Unsigned(u64::MAX),
        ],
        0,
        None,
    )
    .into_text();
    assert!(text.contains("\"constraints\":[-3,1.5,null,18446744073709551615]"));
    let parsed = parse_puzzle_json(&text).unwrap();
    assert_eq!(
        parsed.constraints,
        vec![
            WireValue::OtherNumber("-3".to_string()),
            WireValue::OtherNumber("1.5".to_string()),
            WireValue::Null,
            WireValue::Unsigned(u64::MAX),
        ]
    );
}

#[test]
fn white_space_is_what_std_takes_for_it() {
    let mut c = 0u32;
    while c <= 0x3100 {
        if let Some(ch) = char::from_u32(c) {
            assert_eq!(is_white_space(ch), ch.is_whitespace(), "U+{:04X}", c);
        }
        c += 1;
    }
    for ch in ['\u{feff}', '\u{200b}', '\u{180e}', '\u{10ffff}', 'x'] {
        assert_eq!(is_white_space(ch), ch.is_whitespace());
        assert!(!is_white_space(ch));
    }
}
