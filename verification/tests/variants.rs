use daily_puzzle::codec::{
    constraints_from_json, normalize_constraints_input, normalize_constraints_text, parse_cell, parse_path, parse_variant,
    parse_variants, to_wire, variant_specs_to_json, variant_to_json, variants_from_constraints,
    Field, FieldKind, VariantError,
};
use daily_puzzle::variant::{dedupe_variants, variant_kinds, VariantSpec};
use daily_puzzle::text::text_eq;
use daily_puzzle::wire::WireValue;

fn text(s: &str) -> WireValue {
    WireValue::Text(s.to_string())
}

fn cell(r: u64, c: u64) -> WireValue {
    WireValue::Array(vec![WireValue::Unsigned(r), WireValue::Unsigned(c)])
}

fn object(members: Vec<(&str, WireValue)>) -> WireValue {
    WireValue::Object(members.into_iter().map(|(k, v)| (k.to_string(), v)).collect())
}

fn all_kinds() -> Vec<VariantSpec> {
    vec![
        VariantSpec::KropkiWhite((0, 0), (0, 1)),
        VariantSpec::KropkiBlack((3, 4), (4, 4)),
        VariantSpec::Thermo(vec![(1, 1), (1, 2), (2, 2)]),
        VariantSpec::Arrow(vec![(5, 5), (5, 6)]),
        VariantSpec::Killer { cells: vec![(8, 8), (8, 7)], sum: 17, no_repeats: false },
        VariantSpec::King,
        VariantSpec::Knight,
        VariantSpec::Queen,
    ]
}

#[test]
fn round_trip_of_every_kind() {
    let specs = all_kinds();
    let wire = to_wire(&specs);
    assert_eq!(parse_variants(wire), Ok(all_kinds()));
}

#[test]
fn round_trip_of_the_empty_list() {
    let wire = to_wire(&[]);
    assert_eq!(wire, WireValue::Array(vec![]));
    assert_eq!(parse_variants(wire), Ok(vec![]));
}

#[test]
fn round_trip_keeps_order_and_repeats() {
    let specs = vec![VariantSpec::King, VariantSpec::Queen, VariantSpec::King];
    let items = variant_specs_to_json(&specs);
    assert_eq!(items.len(), 3);
    assert_eq!(constraints_from_json(&items), Ok(specs));
}

#[test]
fn kropki_white_has_the_canonical_shape() {
    let wire = variant_to_json(&VariantSpec::KropkiWhite((2, 3), (2, 4)));
    assert_eq!(
        wire,
        object(vec![("type", text("kropki_white")), ("a", cell(2, 3)), ("b", cell(2, 4))])
    );
}

#[test]
fn killer_has_the_canonical_shape() {
    let wire = variant_to_json(&VariantSpec::Killer {
        cells: vec![(0, 0), (0, 1)],
        sum: 9,
        no_repeats: true,
    });
    assert_eq!(
        wire,
        object(vec![
            ("type", text("killer")),
            ("cells", WireValue::Array(vec![cell(0, 0), cell(0, 1)])),
            ("sum", WireValue::Unsigned(9)),
            ("no_repeats", WireValue::Bool(true)),
        ])
    );
}

#[test]
fn thermo_and_plain_kinds_have_the_canonical_shape() {
    assert_eq!(
        variant_to_json(&VariantSpec::Thermo(vec![(4, 4)])),
        object(vec![("type", text("thermo")), ("path", WireValue::Array(vec![cell(4, 4)]))])
    );
    assert_eq!(variant_to_json(&VariantSpec::Knight), object(vec![("type", text("knight"))]));
}

#[test]
fn members_are_found_in_any_order() {
    let item = object(vec![("b", cell(1, 2)), ("a", cell(1, 1)), ("type", text("kropki_black"))]);
    assert_eq!(parse_variant(&item), Ok(VariantSpec::KropkiBlack((1, 1), (1, 2))));
}

#[test]
fn unknown_type_is_named_in_the_error() {
    let item = object(vec![("type", text("sandwich"))]);
    let err = parse_variant(&item).unwrap_err();
    assert_eq!(err, VariantError::UnknownType("sandwich".to_string()));
    assert_eq!(err.message(), "unknown constraint type: sandwich");
}

#[test]
fn missing_type_is_refused() {
    assert_eq!(parse_variant(&object(vec![])), Err(VariantError::MissingType));
    assert_eq!(
        parse_variant(&object(vec![("type", WireValue::Unsigned(3))])),
        Err(VariantError::MissingType)
    );
    assert_eq!(parse_variant(&WireValue::Null), Err(VariantError::MissingType));
    assert_eq!(VariantError::MissingType.message(), "constraint missing type");
}

#[test]
fn missing_fields_are_refused() {
    let no_a = object(vec![("type", text("kropki_white")), ("b", cell(0, 0))]);
    let err = parse_variant(&no_a).unwrap_err();
    assert_eq!(err, VariantError::MissingField(FieldKind::KropkiWhite, Field::A));
    assert_eq!(err.message(), "kropki_white missing a");

    let no_b = object(vec![("type", text("kropki_black")), ("a", cell(0, 0))]);
    let err = parse_variant(&no_b).unwrap_err();
    assert_eq!(err, VariantError::MissingField(FieldKind::KropkiBlack, Field::B));
    assert_eq!(err.message(), "kropki_black missing b");

    let no_path = object(vec![("type", text("thermo"))]);
    assert_eq!(parse_variant(&no_path).unwrap_err().message(), "thermo missing path");
    let no_path = object(vec![("type", text("arrow"))]);
    assert_eq!(parse_variant(&no_path).unwrap_err().message(), "arrow missing path");

    let no_cells = object(vec![("type", text("killer")), ("sum", WireValue::Unsigned(3))]);
    assert_eq!(parse_variant(&no_cells).unwrap_err().message(), "killer missing cells");

    let no_sum = object(vec![("type", text("killer")), ("cells", WireValue::Array(vec![cell(0, 0)]))]);
    assert_eq!(parse_variant(&no_sum).unwrap_err().message(), "killer missing sum");

    let text_sum = object(vec![
        ("type", text("killer")),
        ("cells", WireValue::Array(vec![cell(0, 0)])),
        ("sum", text("12")),
    ]);
    assert_eq!(
        parse_variant(&text_sum),
        Err(VariantError::MissingField(FieldKind::Killer, Field::Sum))
    );
}

#[test]
fn cell_shapes_are_checked() {
    assert_eq!(parse_cell(&cell(3, 7)), Ok((3, 7)));
    assert_eq!(parse_cell(&WireValue::Unsigned(3)), Err(VariantError::CellNotArray));
    assert_eq!(
        parse_cell(&WireValue::Array(vec![WireValue::Unsigned(1)])),
        Err(VariantError::CellNotPair)
    );
    assert_eq!(
        parse_cell(&WireValue::Array(vec![
            WireValue::Unsigned(1),
            WireValue::Unsigned(2),
            WireValue::Unsigned(3)
        ])),
        Err(VariantError::CellNotPair)
    );
    assert_eq!(
        parse_cell(&WireValue::Array(vec![text("1"), WireValue::Unsigned(2)])),
        Err(VariantError::RowNotInteger)
    );
    assert_eq!(
        parse_cell(&WireValue::Array(vec![
            WireValue::Unsigned(1),
            WireValue::OtherNumber("-2".to_string())
        ])),
        Err(VariantError::ColNotInteger)
    );
    if usize::BITS < 64 {
        assert_eq!(parse_cell(&cell(u64::MAX, 0)), Err(VariantError::CellTooLarge));
        assert_eq!(parse_cell(&cell(0, u64::MAX)), Err(VariantError::CellTooLarge));
    } else {
        assert_eq!(parse_cell(&cell(u64::MAX, 1)), Ok((usize::MAX, 1)));
    }
    assert_eq!(VariantError::CellTooLarge.message(), "cell index is too large");
    assert_eq!(VariantError::CellNotArray.message(), "cell must be a [row, col] array");
    assert_eq!(VariantError::CellNotPair.message(), "cell must have two elements");
    assert_eq!(VariantError::RowNotInteger.message(), "row must be an integer");
    assert_eq!(VariantError::ColNotInteger.message(), "col must be an integer");
}

#[test]
fn path_shapes_are_checked() {
    assert_eq!(
        parse_path(&WireValue::Array(vec![cell(0, 0), cell(0, 1)])),
        Ok(vec![(0, 0), (0, 1)])
    );
    assert_eq!(parse_path(&WireValue::Array(vec![])), Err(VariantError::PathEmpty));
    assert_eq!(parse_path(&text("x")), Err(VariantError::PathNotArray));
    assert_eq!(
        parse_path(&WireValue::Array(vec![cell(0, 0), WireValue::Null, text("x")])),
        Err(VariantError::CellNotArray)
    );
    assert_eq!(VariantError::PathNotArray.message(), "path must be an array of cells");
    assert_eq!(VariantError::PathEmpty.message(), "path must have at least one cell");
}

fn cage(sum: WireValue, flag: Option<WireValue>) -> WireValue {
    let mut members = vec![
        ("type", text("killer")),
        ("cells", WireValue::Array(vec![cell(0, 0), cell(0, 1)])),
        ("sum", sum),
    ];
    if let Some(flag) = flag {
        members.push(("no_repeats", flag));
    }
    object(members)
}

#[test]
fn a_cage_without_the_flag_has_no_repeats() {
    assert_eq!(
        parse_variant(&cage(WireValue::Unsigned(45), None)),
        Ok(VariantSpec::Killer { cells: vec![(0, 0), (0, 1)], sum: 45, no_repeats: true })
    );
    assert_eq!(
        parse_variant(&cage(WireValue::Unsigned(0), Some(WireValue::Bool(false)))),
        Ok(VariantSpec::Killer { cells: vec![(0, 0), (0, 1)], sum: 0, no_repeats: false })
    );
}

#[test]
fn a_cage_sum_that_does_not_fit_is_refused() {
    assert_eq!(
        parse_variant(&cage(WireValue::Unsigned(255), None)),
        Ok(VariantSpec::Killer { cells: vec![(0, 0), (0, 1)], sum: 255, no_repeats: true })
    );
    let err = parse_variant(&cage(WireValue::Unsigned(256), None)).unwrap_err();
    assert_eq!(err, VariantError::SumTooLarge);
    assert_eq!(err.message(), "killer sum must be at most 255");
    assert_eq!(
        parse_variant(&cage(WireValue::Unsigned(300), Some(WireValue::Bool(true)))),
        Err(VariantError::SumTooLarge)
    );
    assert_eq!(
        constraints_from_json(&[cage(WireValue::Unsigned(300), Some(WireValue::Bool(true)))]),
        Err(VariantError::SumTooLarge)
    );
    assert_eq!(
        parse_variant(&cage(WireValue::Unsigned(u64::MAX), None)),
        Err(VariantError::SumTooLarge)
    );
}

#[test]
fn a_cage_flag_that_is_no_boolean_is_refused() {
    let err = parse_variant(&cage(WireValue::Unsigned(45), Some(text("no")))).unwrap_err();
    assert_eq!(err, VariantError::FlagNotBoolean);
    assert_eq!(err.message(), "killer no_repeats must be a boolean");
    assert_eq!(
        parse_variant(&cage(WireValue::Unsigned(45), Some(WireValue::Null))),
        Err(VariantError::FlagNotBoolean)
    );
    assert_eq!(
        parse_variant(&cage(WireValue::Unsigned(45), Some(WireValue::Unsigned(1)))),
        Err(VariantError::FlagNotBoolean)
    );
    // the sum is read before the flag
    assert_eq!(
        parse_variant(&cage(WireValue::Unsigned(999), Some(text("no")))),
        Err(VariantError::SumTooLarge)
    );
}

#[test]
fn the_first_bad_element_decides() {
    let items = vec![
        object(vec![("type", text("king"))]),
        object(vec![("type", text("nope"))]),
        object(vec![]),
    ];
    assert_eq!(
        constraints_from_json(&items),
        Err(VariantError::UnknownType("nope".to_string()))
    );
}

#[test]
fn a_list_may_come_bare_or_under_constraints() {
    let bare = WireValue::Array(vec![object(vec![("type", text("king"))])]);
    assert_eq!(parse_variants(bare), Ok(vec![VariantSpec::King]));

    let wrapped = object(vec![
        ("seed", WireValue::Unsigned(1)),
        ("constraints", WireValue::Array(vec![object(vec![("type", text("queen"))])])),
    ]);
    assert_eq!(parse_variants(wrapped), Ok(vec![VariantSpec::Queen]));

    assert_eq!(normalize_constraints_input(WireValue::Null), Err(VariantError::NotAList));
    assert_eq!(
        normalize_constraints_input(object(vec![("constraints", text("x"))])),
        Err(VariantError::NotAList)
    );
    assert_eq!(normalize_constraints_input(object(vec![])), Err(VariantError::NotAList));
    assert_eq!(VariantError::NotAList.message(), "constraints must be a JSON array");
}

#[test]
fn kind_tags_keep_the_first_occurrence() {
    let specs =
        vec![VariantSpec::King, VariantSpec::Knight, VariantSpec::King, VariantSpec::Queen];
    assert_eq!(variant_kinds(&specs), vec!["king", "knight", "queen"]);
}

#[test]
fn kind_tags_of_every_kind() {
    assert_eq!(
        variant_kinds(&all_kinds()),
        vec![
            "kropki_white",
            "kropki_black",
            "thermo",
            "arrow",
            "killer",
            "king",
            "knight",
            "queen"
        ]
    );
    assert_eq!(variant_kinds(&[]), Vec::<String>::new());
}

#[test]
fn kind_str_names_each_kind() {
    let names: Vec<&str> = all_kinds().iter().map(|v| v.kind_str()).collect();
    assert_eq!(
        names,
        vec![
            "kropki_white",
            "kropki_black",
            "thermo",
            "arrow",
            "killer",
            "king",
            "knight",
            "queen"
        ]
    );
}

#[test]
fn dedupe_keeps_the_first_occurrence() {
    let input: Vec<String> =
        ["king", "knight", "king", "queen", "knight"].iter().map(|s| s.to_string()).collect();
    assert_eq!(dedupe_variants(input), vec!["king", "knight", "queen"]);
    assert_eq!(dedupe_variants(vec![]), Vec::<String>::new());
}

#[test]
fn tags_of_constraints_are_not_held_against_the_kinds() {
    let items = vec![
        object(vec![("type", text("king"))]),
        object(vec![("type", text("homemade"))]),
        object(vec![("type", text("king"))]),
    ];
    assert_eq!(variants_from_constraints(&items), Ok(vec!["king".to_string(), "homemade".to_string()]));
    let items = vec![object(vec![("type", text("king"))]), object(vec![("kind", text("king"))])];
    assert_eq!(variants_from_constraints(&items), Err(VariantError::MissingType));
}

#[test]
fn a_clone_is_equal() {
    for spec in all_kinds() {
        assert_eq!(spec.clone(), spec);
    }
}

#[test]
fn text_eq_compares_characters() {
    assert!(text_eq("view", "view"));
    assert!(!text_eq("view", "views"));
    assert!(text_eq("", ""));
}

#[test]
fn wire_accessors_read_the_shape() {
    let doc = object(vec![("a", WireValue::Unsigned(1)), ("a", WireValue::Unsigned(2))]);
    assert_eq!(doc.get("a"), Some(&WireValue::Unsigned(1)));
    assert_eq!(doc.get("b"), None);
    assert_eq!(WireValue::Bool(true).as_bool(), Some(true));
    assert_eq!(WireValue::Unsigned(7).as_u64(), Some(7));
    assert_eq!(WireValue::OtherNumber("1.5".to_string()).as_u64(), None);
    assert_eq!(text("x").as_str(), Some("x"));
    assert_eq!(WireValue::Null.as_array(), None);
    assert_eq!(doc.into_member("a"), Some(WireValue::Unsigned(1)));
    assert_eq!(WireValue::Array(vec![WireValue::Null]).into_array(), Some(vec![WireValue::Null]));
}

#[test]
fn a_list_is_taken_out_of_json_text() {
    let items = normalize_constraints_text(
        "[{\"type\":\"king\"},{\"type\":\"killer\",\"cells\":[[0,1]],\"sum\":7}]",
    )
    .unwrap();
    assert_eq!(
        constraints_from_json(&items),
        Ok(vec![
            VariantSpec::King,
            VariantSpec::Killer { cells: vec![(0, 1)], sum: 7, no_repeats: true },
        ])
    );
    let items = normalize_constraints_text("{\"constraints\":[{\"type\":\"queen\"}]}").unwrap();
    assert_eq!(constraints_from_json(&items), Ok(vec![VariantSpec::Queen]));
    assert_eq!(normalize_constraints_text("7"), Err(VariantError::NotAList));
    assert_eq!(normalize_constraints_text("[1,"), Err(VariantError::NotAList));
    assert_eq!(normalize_constraints_text(""), Err(VariantError::NotAList));
}
