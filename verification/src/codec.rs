//! The wire encoding of variants: decoding with validation, encoding, and
//! the law that decoding undoes encoding.

use vstd::prelude::*;
use crate::each::{each_ok, lemma_each_ok_failure};
use crate::json::{json_document, read_json};
use crate::text::text_eq;
use crate::variant::{
    Cell, VariantModel, VariantSpec, dedup_first, dedupe_variants, texts, variant_models,
};
use crate::wire::{
    WireModel, WireValue, first_member, lemma_array_model, lemma_object_model, member_models,
    models_of,
};

verus! {

/// A kind of variant that carries fields on the wire.
#[derive(Debug, Clone, Copy, PartialEq, Eq, Structural)]
pub enum FieldKind {
    KropkiWhite,
    KropkiBlack,
    Thermo,
    Arrow,
    Killer,
}

/// A field of a variant on the wire.
#[derive(Debug, Clone, Copy, PartialEq, Eq, Structural)]
pub enum Field {
    A,
    B,
    Path,
    Cells,
    Sum,
}

/// The mathematical content of a decoding failure.
pub enum VariantErrorModel {
    CellNotArray,
    CellNotPair,
    RowNotInteger,
    ColNotInteger,
    CellTooLarge,
    PathNotArray,
    PathEmpty,
    MissingType,
    MissingField(FieldKind, Field),
    SumTooLarge,
    FlagNotBoolean,
    UnknownType(Seq<char>),
    NotAList,
}

/// Why a wire value is not a list of variants.
#[derive(Debug, PartialEq, Eq)]
pub enum VariantError {
    /// A cell is not an array.
    CellNotArray,
    /// A cell is an array of another length than two.
    CellNotPair,
    /// The first element of a cell is not an unsigned integer.
    RowNotInteger,
    /// The second element of a cell is not an unsigned integer.
    ColNotInteger,
    /// The row or the column of a cell is above the largest index that the
    /// machine can hold.
    CellTooLarge,
    /// A path is not an array.
    PathNotArray,
    /// A path has no cell.
    PathEmpty,
    /// An element has no string under `type`.
    MissingType,
    /// An element of the given kind lacks the given field.
    MissingField(FieldKind, Field),
    /// The sum of a cage is above 255, the largest that a cage can hold.
    SumTooLarge,
    /// The `no_repeats` member of a cage is there and is not a boolean.
    FlagNotBoolean,
    /// An element names a kind that does not exist.
    UnknownType(String),
    /// The input is neither a list nor an object with a list under
    /// `constraints`.
    NotAList,
}

impl View for VariantError {
    type V = VariantErrorModel;

    open spec fn view(&self) -> VariantErrorModel {
        match self {
            VariantError::CellNotArray => VariantErrorModel::CellNotArray,
            VariantError::CellNotPair => VariantErrorModel::CellNotPair,
            VariantError::RowNotInteger => VariantErrorModel::RowNotInteger,
            VariantError::ColNotInteger => VariantErrorModel::ColNotInteger,
            VariantError::CellTooLarge => VariantErrorModel::CellTooLarge,
            VariantError::PathNotArray => VariantErrorModel::PathNotArray,
            VariantError::PathEmpty => VariantErrorModel::PathEmpty,
            VariantError::MissingType => VariantErrorModel::MissingType,
            VariantError::MissingField(kind, field) => VariantErrorModel::MissingField(
                *kind,
                *field,
            ),
            VariantError::SumTooLarge => VariantErrorModel::SumTooLarge,
            VariantError::FlagNotBoolean => VariantErrorModel::FlagNotBoolean,
            VariantError::UnknownType(name) => VariantErrorModel::UnknownType(name@),
            VariantError::NotAList => VariantErrorModel::NotAList,
        }
    }
}

impl FieldKind {
    /// The kind's discriminator string.
    pub open spec fn tag(self) -> Seq<char> {
        match self {
            FieldKind::KropkiWhite => "kropki_white"@,
            FieldKind::KropkiBlack => "kropki_black"@,
            FieldKind::Thermo => "thermo"@,
            FieldKind::Arrow => "arrow"@,
            FieldKind::Killer => "killer"@,
        }
    }

    /// The kind's discriminator string.
    pub fn as_str(&self) -> (r: &'static str)
        ensures
            r@ == self.tag(),
    {
        match self {
            FieldKind::KropkiWhite => "kropki_white",
            FieldKind::KropkiBlack => "kropki_black",
            FieldKind::Thermo => "thermo",
            FieldKind::Arrow => "arrow",
            FieldKind::Killer => "killer",
        }
    }
}

impl Field {
    /// The member name of the field.
    pub open spec fn name(self) -> Seq<char> {
        match self {
            Field::A => "a"@,
            Field::B => "b"@,
            Field::Path => "path"@,
            Field::Cells => "cells"@,
            Field::Sum => "sum"@,
        }
    }

    /// The member name of the field.
    pub fn as_str(&self) -> (r: &'static str)
        ensures
            r@ == self.name(),
    {
        match self {
            Field::A => "a",
            Field::B => "b",
            Field::Path => "path",
            Field::Cells => "cells",
            Field::Sum => "sum",
        }
    }
}

impl VariantErrorModel {
    /// The sentence that reports this failure.
    pub open spec fn message(self) -> Seq<char> {
        match self {
            VariantErrorModel::CellNotArray => "cell must be a [row, col] array"@,
            VariantErrorModel::CellNotPair => "cell must have two elements"@,
            VariantErrorModel::RowNotInteger => "row must be an integer"@,
            VariantErrorModel::ColNotInteger => "col must be an integer"@,
            VariantErrorModel::CellTooLarge => "cell index is too large"@,
            VariantErrorModel::PathNotArray => "path must be an array of cells"@,
            VariantErrorModel::PathEmpty => "path must have at least one cell"@,
            VariantErrorModel::MissingType => "constraint missing type"@,
            VariantErrorModel::MissingField(kind, field) => kind.tag() + " missing "@
                + field.name(),
            VariantErrorModel::SumTooLarge => "killer sum must be at most 255"@,
            VariantErrorModel::FlagNotBoolean => "killer no_repeats must be a boolean"@,
            VariantErrorModel::UnknownType(name) => "unknown constraint type: "@ + name,
            VariantErrorModel::NotAList => "constraints must be a JSON array"@,
        }
    }
}

impl VariantError {
    /// The sentence that reports this failure.
    pub fn message(&self) -> (r: String)
        ensures
            r@ == self@.message(),
    {
        match self {
            VariantError::CellNotArray => String::from_str("cell must be a [row, col] array"),
            VariantError::CellNotPair => String::from_str("cell must have two elements"),
            VariantError::RowNotInteger => String::from_str("row must be an integer"),
            VariantError::ColNotInteger => String::from_str("col must be an integer"),
            VariantError::CellTooLarge => String::from_str("cell index is too large"),
            VariantError::PathNotArray => String::from_str("path must be an array of cells"),
            VariantError::PathEmpty => String::from_str("path must have at least one cell"),
            VariantError::MissingType => String::from_str("constraint missing type"),
            VariantError::MissingField(kind, field) => {
                let mut text = String::from_str(kind.as_str());
                text.append(" missing ");
                text.append(field.as_str());
                text
            },
            VariantError::SumTooLarge => String::from_str("killer sum must be at most 255"),
            VariantError::FlagNotBoolean => String::from_str("killer no_repeats must be a boolean"),
            VariantError::UnknownType(name) => {
                let mut text = String::from_str("unknown constraint type: ");
                text.append(name.as_str());
                text
            },
            VariantError::NotAList => String::from_str("constraints must be a JSON array"),
        }
    }
}

/// What a wire value says as a cell: an array of two unsigned integers,
/// neither above the largest index of the machine.
pub open spec fn cell_of(w: WireModel) -> Result<Cell, VariantErrorModel> {
    match w.items() {
        None => Err(VariantErrorModel::CellNotArray),
        Some(pair) => if pair.len() != 2 {
            Err(VariantErrorModel::CellNotPair)
        } else {
            match pair[0].unsigned() {
                None => Err(VariantErrorModel::RowNotInteger),
                Some(row) => match pair[1].unsigned() {
                    None => Err(VariantErrorModel::ColNotInteger),
                    Some(col) => if row > usize::MAX || col > usize::MAX {
                        Err(VariantErrorModel::CellTooLarge)
                    } else {
                        Ok((row as usize, col as usize))
                    },
                },
            }
        },
    }
}

/// The reading of one cell.
pub open spec fn cell_reader() -> spec_fn(WireModel) -> Result<Cell, VariantErrorModel> {
    |w: WireModel| cell_of(w)
}

/// What a list of wire values says as cells; the first element that is no
/// cell decides the failure.
pub open spec fn cells_of(items: Seq<WireModel>) -> Result<Seq<Cell>, VariantErrorModel> {
    each_ok(items, cell_reader())
}

/// What a wire value says as a path: a non-empty array of cells.
pub open spec fn path_of(w: WireModel) -> Result<Seq<Cell>, VariantErrorModel> {
    match w.items() {
        None => Err(VariantErrorModel::PathNotArray),
        Some(items) => match cells_of(items) {
            Err(e) => Err(e),
            Ok(cells) => if cells.len() == 0 {
                Err(VariantErrorModel::PathEmpty)
            } else {
                Ok(cells)
            },
        },
    }
}

/// Reads a cell: an array of a row and a column, both unsigned integers
/// that fit an index.
pub fn parse_cell(value: &WireValue) -> (r: Result<Cell, VariantError>)
    ensures
        match r {
            Ok(cell) => cell_of(value.model()) == Ok::<Cell, VariantErrorModel>(cell),
            Err(e) => cell_of(value.model()) == Err::<Cell, VariantErrorModel>(e@),
        },
{
    let pair = match value.as_array() {
        Some(pair) => pair,
        None => return Err(VariantError::CellNotArray),
    };
    if pair.len() != 2 {
        return Err(VariantError::CellNotPair);
    }
    let row: u64 = match pair[0].as_u64() {
        Some(n) => n,
        None => return Err(VariantError::RowNotInteger),
    };
    let col: u64 = match pair[1].as_u64() {
        Some(n) => n,
        None => return Err(VariantError::ColNotInteger),
    };
    if row > usize::MAX as u64 || col > usize::MAX as u64 {
        return Err(VariantError::CellTooLarge);
    }
    Ok((row as usize, col as usize))
}

/// Reads a path: a non-empty array of cells.
pub fn parse_path(value: &WireValue) -> (r: Result<Vec<Cell>, VariantError>)
    ensures
        match r {
            Ok(path) => path_of(value.model()) == Ok::<Seq<Cell>, VariantErrorModel>(path@),
            Err(e) => path_of(value.model()) == Err::<Seq<Cell>, VariantErrorModel>(e@),
        },
{
    let items = match value.as_array() {
        Some(items) => items,
        None => return Err(VariantError::PathNotArray),
    };
    let ghost all = models_of(items@);
    let mut out: Vec<Cell> = Vec::with_capacity(items.len());
    let mut i: usize = 0;
    assert(all.take(0) =~= Seq::empty());
    while i < items.len()
        invariant
            i <= items.len(),
            all == models_of(items@),
            value.model().items() == Some(all),
            cells_of(all.take(i as int)) == Ok::<Seq<Cell>, VariantErrorModel>(out@),
        decreases items.len() - i,
    {
        let ghost next = all.take(i as int + 1);
        assert(next.drop_last() =~= all.take(i as int));
        assert(next.last() == items@[i as int].model());
        match parse_cell(&items[i]) {
            Ok(cell) => out.push(cell),
            Err(e) => {
                proof {
                    lemma_each_ok_failure(all, cell_reader(), i as int + 1);
                    assert(all.take(all.len() as int) =~= all);
                }
                return Err(e);
            },
        }
        i += 1;
    }
    assert(all.take(i as int) =~= all);
    if out.len() == 0 {
        return Err(VariantError::PathEmpty);
    }
    Ok(out)
}

/// What an object says as the two cells of a dot, under `a` and `b`.
pub open spec fn dot_of(w: WireModel, kind: FieldKind) -> Result<(Cell, Cell), VariantErrorModel> {
    match w.field("a"@) {
        None => Err(VariantErrorModel::MissingField(kind, Field::A)),
        Some(first) => match cell_of(first) {
            Err(e) => Err(e),
            Ok(a) => match w.field("b"@) {
                None => Err(VariantErrorModel::MissingField(kind, Field::B)),
                Some(second) => match cell_of(second) {
                    Err(e) => Err(e),
                    Ok(b) => Ok((a, b)),
                },
            },
        },
    }
}

/// What an object says as a path under the member `name`.
pub open spec fn line_of(w: WireModel, kind: FieldKind, name: Seq<char>, field: Field) -> Result<
    Seq<Cell>,
    VariantErrorModel,
> {
    match w.field(name) {
        None => Err(VariantErrorModel::MissingField(kind, field)),
        Some(path) => path_of(path),
    }
}

/// The `no_repeats` flag of a cage: the boolean under that name, `true`
/// where the cage has no such member, and a failure where the member is
/// anything but a boolean.
pub open spec fn no_repeats_of(w: WireModel) -> Result<bool, VariantErrorModel> {
    match w.field("no_repeats"@) {
        Some(flag) => match flag.boolean() {
            Some(b) => Ok(b),
            None => Err(VariantErrorModel::FlagNotBoolean),
        },
        None => Ok(true),
    }
}

/// What an object says as a cage: cells, a sum of at most 255 and the
/// `no_repeats` flag, read in that order.
pub open spec fn cage_of(w: WireModel) -> Result<VariantModel, VariantErrorModel> {
    match line_of(w, FieldKind::Killer, "cells"@, Field::Cells) {
        Err(e) => Err(e),
        Ok(cells) => match w.field("sum"@) {
            None => Err(VariantErrorModel::MissingField(FieldKind::Killer, Field::Sum)),
            Some(sum) => match sum.unsigned() {
                None => Err(VariantErrorModel::MissingField(FieldKind::Killer, Field::Sum)),
                Some(n) => if n > 255 {
                    Err(VariantErrorModel::SumTooLarge)
                } else {
                    match no_repeats_of(w) {
                        Err(e) => Err(e),
                        Ok(no_repeats) => Ok(
                            VariantModel::Killer { cells, sum: n as u8, no_repeats },
                        ),
                    }
                },
            },
        },
    }
}

/// What a wire value says as a variant: the string under `type` picks the
/// kind, and the kind picks the fields that are read.
pub open spec fn variant_of(w: WireModel) -> Result<VariantModel, VariantErrorModel> {
    match w.field("type"@) {
        None => Err(VariantErrorModel::MissingType),
        Some(tag) => match tag.text() {
            None => Err(VariantErrorModel::MissingType),
            Some(kind) => if kind == "kropki_white"@ {
                match dot_of(w, FieldKind::KropkiWhite) {
                    Err(e) => Err(e),
                    Ok(ends) => Ok(VariantModel::KropkiWhite(ends.0, ends.1)),
                }
            } else if kind == "kropki_black"@ {
                match dot_of(w, FieldKind::KropkiBlack) {
                    Err(e) => Err(e),
                    Ok(ends) => Ok(VariantModel::KropkiBlack(ends.0, ends.1)),
                }
            } else if kind == "thermo"@ {
                match line_of(w, FieldKind::Thermo, "path"@, Field::Path) {
                    Err(e) => Err(e),
                    Ok(path) => Ok(VariantModel::Thermo(path)),
                }
            } else if kind == "arrow"@ {
                match line_of(w, FieldKind::Arrow, "path"@, Field::Path) {
                    Err(e) => Err(e),
                    Ok(path) => Ok(VariantModel::Arrow(path)),
                }
            } else if kind == "killer"@ {
                cage_of(w)
            } else if kind == "king"@ {
                Ok(VariantModel::King)
            } else if kind == "knight"@ {
                Ok(VariantModel::Knight)
            } else if kind == "queen"@ {
                Ok(VariantModel::Queen)
            } else {
                Err(VariantErrorModel::UnknownType(kind))
            },
        },
    }
}

/// The reading of one variant.
pub open spec fn variant_reader() -> spec_fn(WireModel) -> Result<VariantModel, VariantErrorModel> {
    |w: WireModel| variant_of(w)
}

/// What a list of wire values says as variants; the first element that is
/// no variant decides the failure.
pub open spec fn variants_of(items: Seq<WireModel>) -> Result<Seq<VariantModel>, VariantErrorModel> {
    each_ok(items, variant_reader())
}

/// Reads the two cells of a dot from the members `a` and `b`.
fn parse_dot(item: &WireValue, kind: FieldKind) -> (r: Result<(Cell, Cell), VariantError>)
    ensures
        match r {
            Ok(ends) => dot_of(item.model(), kind) == Ok::<(Cell, Cell), VariantErrorModel>(ends),
            Err(e) => dot_of(item.model(), kind) == Err::<(Cell, Cell), VariantErrorModel>(e@),
        },
{
    let a = match item.get("a") {
        Some(first) => match parse_cell(first) {
            Ok(cell) => cell,
            Err(e) => return Err(e),
        },
        None => return Err(VariantError::MissingField(kind, Field::A)),
    };
    let b = match item.get("b") {
        Some(second) => match parse_cell(second) {
            Ok(cell) => cell,
            Err(e) => return Err(e),
        },
        None => return Err(VariantError::MissingField(kind, Field::B)),
    };
    Ok((a, b))
}

/// Reads a path from the member `name`.
fn parse_line(item: &WireValue, kind: FieldKind, name: &str, field: Field) -> (r: Result<
    Vec<Cell>,
    VariantError,
>)
    ensures
        match r {
            Ok(path) => line_of(item.model(), kind, name@, field) == Ok::<
                Seq<Cell>,
                VariantErrorModel,
            >(path@),
            Err(e) => line_of(item.model(), kind, name@, field) == Err::<
                Seq<Cell>,
                VariantErrorModel,
            >(e@),
        },
{
    match item.get(name) {
        Some(path) => parse_path(path),
        None => Err(VariantError::MissingField(kind, field)),
    }
}

/// Reads a cage from the members `cells`, `sum` and `no_repeats`.
fn parse_cage(item: &WireValue) -> (r: Result<VariantSpec, VariantError>)
    ensures
        match r {
            Ok(v) => cage_of(item.model()) == Ok::<VariantModel, VariantErrorModel>(v@),
            Err(e) => cage_of(item.model()) == Err::<VariantModel, VariantErrorModel>(e@),
        },
{
    let cells = match parse_line(item, FieldKind::Killer, "cells", Field::Cells) {
        Ok(cells) => cells,
        Err(e) => return Err(e),
    };
    let total: u64 = match item.get("sum") {
        Some(sum) => match sum.as_u64() {
            Some(n) => n,
            None => return Err(VariantError::MissingField(FieldKind::Killer, Field::Sum)),
        },
        None => return Err(VariantError::MissingField(FieldKind::Killer, Field::Sum)),
    };
    if total > 255 {
        return Err(VariantError::SumTooLarge);
    }
    let no_repeats = match item.get("no_repeats") {
        Some(flag) => match flag.as_bool() {
            Some(b) => b,
            None => return Err(VariantError::FlagNotBoolean),
        },
        None => true,
    };
    Ok(VariantSpec::Killer { cells, sum: total as u8, no_repeats })
}

/// Reads one variant.
pub fn parse_variant(item: &WireValue) -> (r: Result<VariantSpec, VariantError>)
    ensures
        match r {
            Ok(v) => variant_of(item.model()) == Ok::<VariantModel, VariantErrorModel>(v@),
            Err(e) => variant_of(item.model()) == Err::<VariantModel, VariantErrorModel>(e@),
        },
{
    let kind: &str = match item.get("type") {
        Some(tag) => match tag.as_str() {
            Some(kind) => kind,
            None => return Err(VariantError::MissingType),
        },
        None => return Err(VariantError::MissingType),
    };
    if text_eq(kind, "kropki_white") {
        match parse_dot(item, FieldKind::KropkiWhite) {
            Ok(ends) => Ok(VariantSpec::KropkiWhite(ends.0, ends.1)),
            Err(e) => Err(e),
        }
    } else if text_eq(kind, "kropki_black") {
        match parse_dot(item, FieldKind::KropkiBlack) {
            Ok(ends) => Ok(VariantSpec::KropkiBlack(ends.0, ends.1)),
            Err(e) => Err(e),
        }
    } else if text_eq(kind, "thermo") {
        match parse_line(item, FieldKind::Thermo, "path", Field::Path) {
            Ok(path) => Ok(VariantSpec::Thermo(path)),
            Err(e) => Err(e),
        }
    } else if text_eq(kind, "arrow") {
        match parse_line(item, FieldKind::Arrow, "path", Field::Path) {
            Ok(path) => Ok(VariantSpec::Arrow(path)),
            Err(e) => Err(e),
        }
    } else if text_eq(kind, "killer") {
        parse_cage(item)
    } else if text_eq(kind, "king") {
        Ok(VariantSpec::King)
    } else if text_eq(kind, "knight") {
        Ok(VariantSpec::Knight)
    } else if text_eq(kind, "queen") {
        Ok(VariantSpec::Queen)
    } else {
        Err(VariantError::UnknownType(kind.to_owned()))
    }
}

/// Reads a list of variants, in order; the first element that is no
/// variant decides the failure.
pub fn constraints_from_json(constraints: &[WireValue]) -> (r: Result<
    Vec<VariantSpec>,
    VariantError,
>)
    ensures
        match r {
            Ok(specs) => variants_of(models_of(constraints@)) == Ok::<
                Seq<VariantModel>,
                VariantErrorModel,
            >(variant_models(specs@)),
            Err(e) => variants_of(models_of(constraints@)) == Err::<
                Seq<VariantModel>,
                VariantErrorModel,
            >(e@),
        },
{
    let ghost all = models_of(constraints@);
    let mut out: Vec<VariantSpec> = Vec::new();
    let mut i: usize = 0;
    assert(all.take(0) =~= Seq::empty());
    assert(variant_models(out@) =~= Seq::empty());
    while i < constraints.len()
        invariant
            i <= constraints.len(),
            all == models_of(constraints@),
            variants_of(all.take(i as int)) == Ok::<Seq<VariantModel>, VariantErrorModel>(
                variant_models(out@),
            ),
        decreases constraints.len() - i,
    {
        let ghost next = all.take(i as int + 1);
        let ghost before = variant_models(out@);
        assert(next.drop_last() =~= all.take(i as int));
        assert(next.last() == constraints@[i as int].model());
        match parse_variant(&constraints[i]) {
            Ok(spec) => {
                out.push(spec);
                assert(variant_models(out@) =~= before.push(spec@));
            },
            Err(e) => {
                proof {
                    lemma_each_ok_failure(all, variant_reader(), i as int + 1);
                }
                return Err(e);
            },
        }
        i += 1;
    }
    assert(all.take(i as int) =~= all);
    Ok(out)
}

/// The wire form of a cell: the array of its row and its column.
pub open spec fn cell_wire(cell: Cell) -> WireModel {
    WireModel::Array(seq![WireModel::Unsigned(cell.0 as u64), WireModel::Unsigned(cell.1 as u64)])
}

/// The wire forms of a list of cells, element by element.
pub open spec fn cells_wire(cells: Seq<Cell>) -> Seq<WireModel> {
    Seq::new(cells.len(), |i: int| cell_wire(cells[i]))
}

/// The member that names a variant's kind.
pub open spec fn type_member(tag: Seq<char>) -> (Seq<char>, WireModel) {
    ("type"@, WireModel::Text(tag))
}

/// The wire form of a variant: an object with the kind under `type` and the
/// kind's own fields after it.
pub open spec fn variant_wire(v: VariantModel) -> WireModel {
    match v {
        VariantModel::KropkiWhite(a, b) => WireModel::Object(
            seq![type_member(v.tag()), ("a"@, cell_wire(a)), ("b"@, cell_wire(b))],
        ),
        VariantModel::KropkiBlack(a, b) => WireModel::Object(
            seq![type_member(v.tag()), ("a"@, cell_wire(a)), ("b"@, cell_wire(b))],
        ),
        VariantModel::Thermo(path) => WireModel::Object(
            seq![type_member(v.tag()), ("path"@, WireModel::Array(cells_wire(path)))],
        ),
        VariantModel::Arrow(path) => WireModel::Object(
            seq![type_member(v.tag()), ("path"@, WireModel::Array(cells_wire(path)))],
        ),
        VariantModel::Killer { cells, sum, no_repeats } => WireModel::Object(
            seq![
                type_member(v.tag()),
                ("cells"@, WireModel::Array(cells_wire(cells))),
                ("sum"@, WireModel::Unsigned(sum as u64)),
                ("no_repeats"@, WireModel::Bool(no_repeats)),
            ],
        ),
        _ => WireModel::Object(seq![type_member(v.tag())]),
    }
}

/// The wire forms of a list of variants, element by element.
pub open spec fn variants_wire(vs: Seq<VariantModel>) -> Seq<WireModel> {
    Seq::new(vs.len(), |i: int| variant_wire(vs[i]))
}

/// Writes a cell as the array of its row and its column.
fn cell_to_json(cell: Cell) -> (w: WireValue)
    ensures
        w.model() == cell_wire(cell),
{
    let pair: Vec<WireValue> = vec![
        WireValue::Unsigned(cell.0 as u64),
        WireValue::Unsigned(cell.1 as u64),
    ];
    proof {
        lemma_array_model(pair);
        assert(models_of(pair@) =~= seq![
            WireModel::Unsigned(cell.0 as u64),
            WireModel::Unsigned(cell.1 as u64),
        ]);
    }
    WireValue::Array(pair)
}

/// Writes a list of cells as an array of cells.
fn path_to_json(path: &Vec<Cell>) -> (w: WireValue)
    ensures
        w.model() == WireModel::Array(cells_wire(path@)),
{
    let mut out: Vec<WireValue> = Vec::with_capacity(path.len());
    let mut i: usize = 0;
    while i < path.len()
        invariant
            i <= path.len(),
            models_of(out@) == cells_wire(path@.take(i as int)),
        decreases path.len() - i,
    {
        let ghost before = models_of(out@);
        let cell = cell_to_json(path[i]);
        out.push(cell);
        assert(models_of(out@) =~= before.push(cell_wire(path@[i as int])));
        assert(cells_wire(path@.take(i as int + 1)) =~= cells_wire(path@.take(i as int)).push(
            cell_wire(path@[i as int]),
        ));
        i += 1;
    }
    assert(path@.take(i as int) =~= path@);
    proof {
        lemma_array_model(out);
    }
    WireValue::Array(out)
}

/// Writes one variant as an object.
pub fn variant_to_json(spec: &VariantSpec) -> (w: WireValue)
    ensures
        w.model() == variant_wire(spec@),
{
    let kind = (String::from_str("type"), WireValue::Text(String::from_str(spec.kind_str())));
    let members: Vec<(String, WireValue)> = match spec {
        VariantSpec::KropkiWhite(a, b) => vec![
            kind,
            (String::from_str("a"), cell_to_json(*a)),
            (String::from_str("b"), cell_to_json(*b)),
        ],
        VariantSpec::KropkiBlack(a, b) => vec![
            kind,
            (String::from_str("a"), cell_to_json(*a)),
            (String::from_str("b"), cell_to_json(*b)),
        ],
        VariantSpec::Thermo(path) => vec![kind, (String::from_str("path"), path_to_json(path))],
        VariantSpec::Arrow(path) => vec![kind, (String::from_str("path"), path_to_json(path))],
        VariantSpec::Killer { cells, sum, no_repeats } => vec![
            kind,
            (String::from_str("cells"), path_to_json(cells)),
            (String::from_str("sum"), WireValue::Unsigned(*sum as u64)),
            (String::from_str("no_repeats"), WireValue::Bool(*no_repeats)),
        ],
        _ => vec![kind],
    };
    proof {
        lemma_object_model(members);
        assert(member_models(members@) =~= variant_wire(spec@)->Object_0);
    }
    WireValue::Object(members)
}

/// Writes a list of variants, element by element and in order.
pub fn variant_specs_to_json(specs: &[VariantSpec]) -> (out: Vec<WireValue>)
    ensures
        models_of(out@) == variants_wire(variant_models(specs@)),
{
    let mut out: Vec<WireValue> = Vec::with_capacity(specs.len());
    let mut i: usize = 0;
    let ghost all = variant_models(specs@);
    while i < specs.len()
        invariant
            i <= specs.len(),
            all == variant_models(specs@),
            models_of(out@) == variants_wire(all.take(i as int)),
        decreases specs.len() - i,
    {
        let ghost before = models_of(out@);
        let item = variant_to_json(&specs[i]);
        out.push(item);
        assert(models_of(out@) =~= before.push(variant_wire(all[i as int])));
        assert(variants_wire(all.take(i as int + 1)) =~= variants_wire(all.take(i as int)).push(
            variant_wire(all[i as int]),
        ));
        i += 1;
    }
    assert(all.take(i as int) =~= all);
    out
}

/// The member names and the kind tags are pairwise different strings.
pub proof fn lemma_names_distinct()
    ensures
        "type"@ != "a"@,
        "type"@ != "b"@,
        "type"@ != "path"@,
        "type"@ != "cells"@,
        "type"@ != "sum"@,
        "type"@ != "no_repeats"@,
        "a"@ != "b"@,
        "cells"@ != "sum"@,
        "cells"@ != "no_repeats"@,
        "sum"@ != "no_repeats"@,
        "kropki_white"@ != "kropki_black"@,
        "thermo"@ != "killer"@,
        "thermo"@ != "knight"@,
        "killer"@ != "knight"@,
        "arrow"@ != "queen"@,
        "kropki_white"@.len() == 12,
        "kropki_black"@.len() == 12,
        "thermo"@.len() == 6,
        "killer"@.len() == 6,
        "knight"@.len() == 6,
        "arrow"@.len() == 5,
        "queen"@.len() == 5,
        "king"@.len() == 4,
{
    reveal_strlit("type");
    reveal_strlit("a");
    reveal_strlit("b");
    reveal_strlit("path");
    reveal_strlit("cells");
    reveal_strlit("sum");
    reveal_strlit("no_repeats");
    reveal_strlit("kropki_white");
    reveal_strlit("kropki_black");
    reveal_strlit("thermo");
    reveal_strlit("arrow");
    reveal_strlit("killer");
    reveal_strlit("king");
    reveal_strlit("knight");
    reveal_strlit("queen");
    assert("type"@.len() == 4 && "a"@.len() == 1 && "b"@.len() == 1 && "path"@.len() == 4);
    assert("cells"@.len() == 5 && "sum"@.len() == 3 && "no_repeats"@.len() == 10);
    assert("type"@[0] != "path"@[0]);
    assert("a"@[0] != "b"@[0]);
    assert("kropki_white"@[7] != "kropki_black"@[7]);
    assert("thermo"@[0] != "killer"@[0]);
    assert("thermo"@[0] != "knight"@[0]);
    assert("killer"@[1] != "knight"@[1]);
    assert("arrow"@[0] != "queen"@[0]);
}

/// Decoding the wire form of a cell gives the cell back.
pub proof fn lemma_cell_round_trip(cell: Cell)
    ensures
        cell_of(cell_wire(cell)) == Ok::<Cell, VariantErrorModel>(cell),
{
}

/// Decoding the wire forms of a list of cells gives the cells back.
pub proof fn lemma_cells_round_trip(cells: Seq<Cell>)
    ensures
        cells_of(cells_wire(cells)) == Ok::<Seq<Cell>, VariantErrorModel>(cells),
    decreases cells.len(),
{
    if cells.len() > 0 {
        let init = cells.drop_last();
        lemma_cells_round_trip(init);
        lemma_cell_round_trip(cells.last());
        assert(cells_wire(cells).drop_last() =~= cells_wire(init));
        assert(init.push(cells.last()) =~= cells);
    } else {
        assert(cells =~= Seq::empty());
    }
}

/// Decoding the wire form of a variant gives the variant back, where its
/// path or cage has a cell.
pub proof fn lemma_variant_round_trip(v: VariantModel)
    requires
        v.well_formed(),
    ensures
        variant_of(variant_wire(v)) == Ok::<VariantModel, VariantErrorModel>(v),
{
    lemma_names_distinct();
    reveal_with_fuel(first_member, 5);
    match v {
        VariantModel::KropkiWhite(a, b) => {
            lemma_cell_round_trip(a);
            lemma_cell_round_trip(b);
        },
        VariantModel::KropkiBlack(a, b) => {
            lemma_cell_round_trip(a);
            lemma_cell_round_trip(b);
        },
        VariantModel::Thermo(path) => {
            lemma_cells_round_trip(path);
        },
        VariantModel::Arrow(path) => {
            lemma_cells_round_trip(path);
        },
        VariantModel::Killer { cells, sum, no_repeats } => {
            lemma_cells_round_trip(cells);
        },
        _ => {},
    }
}

/// Decoding undoes encoding: the wire form of a list of variants, each with
/// at least one cell in its path or cage, decodes to that list.
pub proof fn lemma_round_trip(vs: Seq<VariantModel>)
    requires
        forall|i: int| 0 <= i < vs.len() ==> (#[trigger] vs[i]).well_formed(),
    ensures
        variants_of(variants_wire(vs)) == Ok::<Seq<VariantModel>, VariantErrorModel>(vs),
    decreases vs.len(),
{
    if vs.len() > 0 {
        let init = vs.drop_last();
        lemma_round_trip(init);
        lemma_variant_round_trip(vs.last());
        assert(variants_wire(vs).drop_last() =~= variants_wire(init));
        assert(init.push(vs.last()) =~= vs);
    } else {
        assert(vs =~= Seq::empty());
    }
}

/// The list that a wire value stands for: the value itself where it is an
/// array, else the array under its member `constraints`.
pub open spec fn list_of(w: WireModel) -> Result<Seq<WireModel>, VariantErrorModel> {
    match w.items() {
        Some(items) => Ok(items),
        None => match w.field("constraints"@) {
            Some(inner) => match inner.items() {
                Some(items) => Ok(items),
                None => Err(VariantErrorModel::NotAList),
            },
            None => Err(VariantErrorModel::NotAList),
        },
    }
}

/// What a wire value says as a list of variants.
pub open spec fn parsed(w: WireModel) -> Result<Seq<VariantModel>, VariantErrorModel> {
    match list_of(w) {
        Ok(items) => variants_of(items),
        Err(e) => Err(e),
    }
}

/// Takes the list out of a wire value: the value itself where it is an
/// array, else the array under its member `constraints`.
pub fn normalize_constraints_input(input: WireValue) -> (r: Result<Vec<WireValue>, VariantError>)
    ensures
        match r {
            Ok(items) => list_of(input.model()) == Ok::<Seq<WireModel>, VariantErrorModel>(
                models_of(items@),
            ),
            Err(e) => list_of(input.model()) == Err::<Seq<WireModel>, VariantErrorModel>(e@),
        },
{
    match input {
        WireValue::Array(items) => {
            proof {
                lemma_array_model(items);
            }
            Ok(items)
        },
        other => match other.into_member("constraints") {
            Some(inner) => match inner.into_array() {
                Some(items) => Ok(items),
                None => Err(VariantError::NotAList),
            },
            None => Err(VariantError::NotAList),
        },
    }
}

/// The list that a JSON text stands for: that of its document, and none
/// where the text is no JSON.
pub open spec fn list_of_text(text: Seq<char>) -> Result<Seq<WireModel>, VariantErrorModel> {
    match json_document(text) {
        Some(doc) => list_of(doc),
        None => Err(VariantErrorModel::NotAList),
    }
}

/// Takes the list out of a JSON text: the document itself where it is an
/// array, else the array under its member `constraints`.
pub fn normalize_constraints_text(text: &str) -> (r: Result<Vec<WireValue>, VariantError>)
    ensures
        match r {
            Ok(items) => list_of_text(text@) == Ok::<Seq<WireModel>, VariantErrorModel>(
                models_of(items@),
            ),
            Err(e) => list_of_text(text@) == Err::<Seq<WireModel>, VariantErrorModel>(e@),
        },
{
    match read_json(text) {
        Ok(doc) => normalize_constraints_input(doc),
        Err(_) => Err(VariantError::NotAList),
    }
}

/// Reads a list of variants from a wire value that is the list or holds it
/// under `constraints`.
pub fn parse_variants(input: WireValue) -> (r: Result<Vec<VariantSpec>, VariantError>)
    ensures
        match r {
            Ok(specs) => parsed(input.model()) == Ok::<Seq<VariantModel>, VariantErrorModel>(
                variant_models(specs@),
            ),
            Err(e) => parsed(input.model()) == Err::<Seq<VariantModel>, VariantErrorModel>(e@),
        },
{
    match normalize_constraints_input(input) {
        Ok(items) => constraints_from_json(items.as_slice()),
        Err(e) => Err(e),
    }
}

/// Writes a list of variants as one wire value: the array of their wire
/// forms.
pub fn to_wire(specs: &[VariantSpec]) -> (w: WireValue)
    ensures
        w.model() == WireModel::Array(variants_wire(variant_models(specs@))),
{
    let items = variant_specs_to_json(specs);
    proof {
        lemma_array_model(items);
    }
    WireValue::Array(items)
}

/// What `parse_variants` reads from what `to_wire` wrote is the list that
/// was written, where each path or cage in it has a cell.
pub proof fn lemma_parse_inverts_to_wire(vs: Seq<VariantModel>)
    requires
        forall|i: int| 0 <= i < vs.len() ==> (#[trigger] vs[i]).well_formed(),
    ensures
        parsed(WireModel::Array(variants_wire(vs))) == Ok::<Seq<VariantModel>, VariantErrorModel>(
            vs,
        ),
{
    lemma_round_trip(vs);
}

/// The string under `type` of a wire value, whatever it names.
pub open spec fn type_of(w: WireModel) -> Result<Seq<char>, VariantErrorModel> {
    match w.field("type"@) {
        None => Err(VariantErrorModel::MissingType),
        Some(tag) => match tag.text() {
            None => Err(VariantErrorModel::MissingType),
            Some(kind) => Ok(kind),
        },
    }
}

/// The reading of one `type`.
pub open spec fn type_reader() -> spec_fn(WireModel) -> Result<Seq<char>, VariantErrorModel> {
    |w: WireModel| type_of(w)
}

/// The strings under `type` of a list of wire values, whatever they name;
/// the first element without one decides the failure.
pub open spec fn types_of(items: Seq<WireModel>) -> Result<Seq<Seq<char>>, VariantErrorModel> {
    each_ok(items, type_reader())
}

/// The distinct strings under `type` of a list of wire values, in order of
/// first appearance. The strings are not held against the known kinds.
pub fn variants_from_constraints(constraints: &[WireValue]) -> (r: Result<
    Vec<String>,
    VariantError,
>)
    ensures
        match r {
            Ok(tags) => match types_of(models_of(constraints@)) {
                Ok(all) => texts(tags@) == dedup_first(all),
                Err(_) => false,
            },
            Err(e) => types_of(models_of(constraints@)) == Err::<
                Seq<Seq<char>>,
                VariantErrorModel,
            >(e@),
        },
{
    let ghost all = models_of(constraints@);
    let mut out: Vec<String> = Vec::new();
    let mut i: usize = 0;
    assert(all.take(0) =~= Seq::empty());
    assert(texts(out@) =~= Seq::empty());
    while i < constraints.len()
        invariant
            i <= constraints.len(),
            all == models_of(constraints@),
            types_of(all.take(i as int)) == Ok::<Seq<Seq<char>>, VariantErrorModel>(texts(out@)),
        decreases constraints.len() - i,
    {
        let ghost next = all.take(i as int + 1);
        let ghost before = texts(out@);
        assert(next.drop_last() =~= all.take(i as int));
        assert(next.last() == constraints@[i as int].model());
        let kind: Option<&str> = match constraints[i].get("type") {
            Some(tag) => tag.as_str(),
            None => None,
        };
        match kind {
            Some(kind) => {
                out.push(String::from_str(kind));
                assert(texts(out@) =~= before.push(kind@));
            },
            None => {
                proof {
                    lemma_each_ok_failure(all, type_reader(), i as int + 1);
                }
                return Err(VariantError::MissingType);
            },
        }
        i += 1;
    }
    assert(all.take(i as int) =~= all);
    Ok(dedupe_variants(out))
}

} // verus!
