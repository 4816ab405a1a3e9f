//! Placement constraints ("variants") and their kind tags.

use vstd::prelude::*;
use crate::text::text_eq;

verus! {

/// A cell of the grid: row, then column.
pub type Cell = (usize, usize);

/// The mathematical content of a variant.
pub enum VariantModel {
    KropkiWhite(Cell, Cell),
    KropkiBlack(Cell, Cell),
    Thermo(Seq<Cell>),
    Arrow(Seq<Cell>),
    Killer { cells: Seq<Cell>, sum: u8, no_repeats: bool },
    King,
    Knight,
    Queen,
}

/// A placement constraint beyond the base rules of the grid.
#[derive(Debug, PartialEq, Eq)]
pub enum VariantSpec {
    /// The two cells hold consecutive digits.
    KropkiWhite(Cell, Cell),
    /// One of the two cells holds twice the other.
    KropkiBlack(Cell, Cell),
    /// Digits increase along the path.
    Thermo(Vec<Cell>),
    /// The first cell of the path holds the sum of the others.
    Arrow(Vec<Cell>),
    /// The cells add up to `sum`, without a repeated digit if `no_repeats`.
    Killer { cells: Vec<Cell>, sum: u8, no_repeats: bool },
    /// Cells a king's move apart differ.
    King,
    /// Cells a knight's move apart differ.
    Knight,
    /// Nines a queen's move apart are excluded.
    Queen,
}

impl View for VariantSpec {
    type V = VariantModel;

    open spec fn view(&self) -> VariantModel {
        match self {
            VariantSpec::KropkiWhite(a, b) => VariantModel::KropkiWhite(*a, *b),
            VariantSpec::KropkiBlack(a, b) => VariantModel::KropkiBlack(*a, *b),
            VariantSpec::Thermo(path) => VariantModel::Thermo(path@),
            VariantSpec::Arrow(path) => VariantModel::Arrow(path@),
            VariantSpec::Killer { cells, sum, no_repeats } => VariantModel::Killer {
                cells: cells@,
                sum: *sum,
                no_repeats: *no_repeats,
            },
            VariantSpec::King => VariantModel::King,
            VariantSpec::Knight => VariantModel::Knight,
            VariantSpec::Queen => VariantModel::Queen,
        }
    }
}

impl VariantModel {
    /// The discriminator string of this variant's kind.
    pub open spec fn tag(self) -> Seq<char> {
        match self {
            VariantModel::KropkiWhite(..) => "kropki_white"@,
            VariantModel::KropkiBlack(..) => "kropki_black"@,
            VariantModel::Thermo(..) => "thermo"@,
            VariantModel::Arrow(..) => "arrow"@,
            VariantModel::Killer { .. } => "killer"@,
            VariantModel::King => "king"@,
            VariantModel::Knight => "knight"@,
            VariantModel::Queen => "queen"@,
        }
    }

    /// Whether the variant has the shape that the wire format can carry: a
    /// path or a cage has at least one cell.
    pub open spec fn well_formed(self) -> bool {
        match self {
            VariantModel::Thermo(path) => path.len() > 0,
            VariantModel::Arrow(path) => path.len() > 0,
            VariantModel::Killer { cells, .. } => cells.len() > 0,
            _ => true,
        }
    }
}

/// A copy of a list of cells.
pub fn copy_cells(cells: &Vec<Cell>) -> (out: Vec<Cell>)
    ensures
        out@ == cells@,
{
    let mut out: Vec<Cell> = Vec::with_capacity(cells.len());
    let mut i: usize = 0;
    while i < cells.len()
        invariant
            i <= cells.len(),
            out@ == cells@.take(i as int),
        decreases cells.len() - i,
    {
        out.push(cells[i]);
        assert(out@ =~= cells@.take(i as int + 1));
        i += 1;
    }
    assert(cells@.take(i as int) =~= cells@);
    out
}

impl Clone for VariantSpec {
    fn clone(&self) -> (copy: VariantSpec)
        ensures
            copy@ == self@,
    {
        match self {
            VariantSpec::KropkiWhite(a, b) => VariantSpec::KropkiWhite(*a, *b),
            VariantSpec::KropkiBlack(a, b) => VariantSpec::KropkiBlack(*a, *b),
            VariantSpec::Thermo(path) => VariantSpec::Thermo(copy_cells(path)),
            VariantSpec::Arrow(path) => VariantSpec::Arrow(copy_cells(path)),
            VariantSpec::Killer { cells, sum, no_repeats } => VariantSpec::Killer {
                cells: copy_cells(cells),
                sum: *sum,
                no_repeats: *no_repeats,
            },
            VariantSpec::King => VariantSpec::King,
            VariantSpec::Knight => VariantSpec::Knight,
            VariantSpec::Queen => VariantSpec::Queen,
        }
    }
}

impl VariantSpec {
    /// The discriminator string of this variant's kind.
    pub fn kind_str(&self) -> (tag: &'static str)
        ensures
            tag@ == self@.tag(),
    {
        match self {
            VariantSpec::KropkiWhite(..) => "kropki_white",
            VariantSpec::KropkiBlack(..) => "kropki_black",
            VariantSpec::Thermo(..) => "thermo",
            VariantSpec::Arrow(..) => "arrow",
            VariantSpec::Killer { .. } => "killer",
            VariantSpec::King => "king",
            VariantSpec::Knight => "knight",
            VariantSpec::Queen => "queen",
        }
    }
}

/// The views of a list of variants, element by element.
pub open spec fn variant_models(specs: Seq<VariantSpec>) -> Seq<VariantModel> {
    Seq::new(specs.len(), |i: int| specs[i]@)
}

/// The kind tags of a list of variants, element by element.
pub open spec fn tags_of(models: Seq<VariantModel>) -> Seq<Seq<char>> {
    Seq::new(models.len(), |i: int| models[i].tag())
}

/// The characters of a list of strings, element by element.
pub open spec fn texts(items: Seq<String>) -> Seq<Seq<char>> {
    Seq::new(items.len(), |i: int| items[i]@)
}

/// The distinct elements of `s`, each at the place of its first occurrence.
pub open spec fn dedup_first<T>(s: Seq<T>) -> Seq<T>
    decreases s.len(),
{
    if s.len() == 0 {
        Seq::empty()
    } else {
        let rest = dedup_first(s.drop_last());
        if rest.contains(s.last()) {
            rest
        } else {
            rest.push(s.last())
        }
    }
}

/// An element is in `s.push(y)` when it is in `s` or is `y`.
proof fn lemma_push_contains<T>(s: Seq<T>, y: T, x: T)
    ensures
        s.push(y).contains(x) <==> (s.contains(x) || x == y),
{
    let t = s.push(y);
    if s.contains(x) {
        let i = choose|i: int| 0 <= i < s.len() && #[trigger] s[i] == x;
        assert(t[i] == x);
    }
    if x == y {
        assert(t[s.len() as int] == x);
    }
    if t.contains(x) {
        let j = choose|j: int| 0 <= j < t.len() && #[trigger] t[j] == x;
        if j < s.len() {
            assert(s[j] == x);
        }
    }
}

/// An element is in `dedup_first(s)` exactly when it is in `s`.
pub proof fn lemma_dedup_first_contains<T>(s: Seq<T>, x: T)
    ensures
        dedup_first(s).contains(x) <==> s.contains(x),
    decreases s.len(),
{
    if s.len() > 0 {
        let init = s.drop_last();
        lemma_dedup_first_contains(init, x);
        lemma_dedup_first_contains(init, s.last());
        assert(s =~= init.push(s.last()));
        lemma_push_contains(init, s.last(), x);
        lemma_push_contains(dedup_first(init), s.last(), x);
    }
}

/// `dedup_first` keeps exactly the elements of its input.
pub proof fn lemma_dedup_first_same_elements<T>(s: Seq<T>)
    ensures
        forall|x: T| #[trigger] dedup_first(s).contains(x) <==> s.contains(x),
{
    assert forall|x: T| #[trigger] dedup_first(s).contains(x) <==> s.contains(x) by {
        lemma_dedup_first_contains(s, x);
    }
}

/// `dedup_first` holds no element twice.
pub proof fn lemma_dedup_first_no_duplicates<T>(s: Seq<T>)
    ensures
        dedup_first(s).no_duplicates(),
    decreases s.len(),
{
    if s.len() > 0 {
        lemma_dedup_first_no_duplicates(s.drop_last());
    }
}

/// `dedup_first` leaves a list without repetitions as it is.
pub proof fn lemma_dedup_first_fixpoint<T>(s: Seq<T>)
    requires
        s.no_duplicates(),
    ensures
        dedup_first(s) == s,
    decreases s.len(),
{
    if s.len() > 0 {
        let init = s.drop_last();
        lemma_dedup_first_fixpoint(init);
        if init.contains(s.last()) {
            let i = choose|i: int| 0 <= i < init.len() && #[trigger] init[i] == s.last();
            assert(s[i] == s[s.len() - 1]);
        }
        assert(init.push(s.last()) =~= s);
    } else {
        assert(s =~= Seq::empty());
    }
}

/// The index at which `x` first occurs in `s`, where it occurs at all.
pub open spec fn first_index<T>(s: Seq<T>, x: T) -> int
    decreases s.len(),
{
    if s.len() == 0 {
        0
    } else if s.drop_last().contains(x) {
        first_index(s.drop_last(), x)
    } else {
        s.len() - 1
    }
}

/// `first_index` is the place of the first occurrence.
pub proof fn lemma_first_index<T>(s: Seq<T>, x: T)
    requires
        s.contains(x),
    ensures
        0 <= first_index(s, x) < s.len(),
        s[first_index(s, x)] == x,
        forall|j: int| 0 <= j < first_index(s, x) ==> s[j] != x,
    decreases s.len(),
{
    let i = choose|i: int| 0 <= i < s.len() && #[trigger] s[i] == x;
    assert(0 <= i < s.len() && s[i] == x);
    let init = s.drop_last();
    if init.contains(x) {
        lemma_first_index(init, x);
        assert forall|j: int| 0 <= j < first_index(s, x) implies s[j] != x by {
            assert(init[j] == s[j]);
        }
    } else {
        if i < s.len() - 1 {
            assert(init[i] == x);
            assert(init.contains(x));
        }
        assert forall|j: int| 0 <= j < s.len() - 1 implies s[j] != x by {
            if s[j] == x {
                assert(init[j] == x);
                assert(init.contains(x));
            }
        }
    }
}

/// `dedup_first` keeps the order of first occurrence: of two of its
/// elements, the earlier one occurs first in the input.
pub proof fn lemma_dedup_first_order<T>(s: Seq<T>)
    ensures
        forall|a: int, b: int|
            #![trigger dedup_first(s)[a], dedup_first(s)[b]]
            0 <= a < b < dedup_first(s).len() ==> first_index(s, dedup_first(s)[a])
                < first_index(s, dedup_first(s)[b]),
    decreases s.len(),
{
    if s.len() > 0 {
        let init = s.drop_last();
        let rest = dedup_first(init);
        let out = dedup_first(s);
        lemma_dedup_first_order(init);
        assert forall|a: int, b: int| 0 <= a < b < out.len() implies first_index(s, out[a])
            < first_index(s, out[b]) by {
            assert(rest[a] == out[a]);
            assert(rest.contains(rest[a]));
            lemma_dedup_first_contains(init, out[a]);
            lemma_first_index(init, out[a]);
            if b < rest.len() {
                assert(rest[b] == out[b]);
                assert(rest.contains(rest[b]));
                lemma_dedup_first_contains(init, out[b]);
            } else {
                lemma_dedup_first_contains(init, s.last());
            }
        }
    }
}

/// Whether `items` holds a string with the characters of `wanted`.
fn holds_text(items: &Vec<String>, wanted: &str) -> (found: bool)
    ensures
        found == texts(items@).contains(wanted@),
{
    let mut i: usize = 0;
    while i < items.len()
        invariant
            i <= items.len(),
            forall|k: int| 0 <= k < i ==> texts(items@)[k] != wanted@,
        decreases items.len() - i,
    {
        if text_eq(items[i].as_str(), wanted) {
            assert(texts(items@)[i as int] == wanted@);
            return true;
        }
        i += 1;
    }
    false
}

/// The distinct strings of `input`, in order of first appearance.
pub fn dedupe_variants(input: Vec<String>) -> (out: Vec<String>)
    ensures
        texts(out@) == dedup_first(texts(input@)),
{
    let mut out: Vec<String> = Vec::new();
    let mut i: usize = 0;
    assert(texts(input@).take(0) =~= Seq::empty());
    assert(texts(out@) =~= Seq::empty());
    while i < input.len()
        invariant
            i <= input.len(),
            texts(out@) == dedup_first(texts(input@).take(i as int)),
        decreases input.len() - i,
    {
        let ghost before = texts(out@);
        let ghost next = texts(input@).take(i as int + 1);
        assert(next.drop_last() =~= texts(input@).take(i as int));
        assert(next.last() == input@[i as int]@);
        if !holds_text(&out, input[i].as_str()) {
            out.push(input[i].clone());
            assert(texts(out@) =~= before.push(input@[i as int]@));
        }
        i += 1;
    }
    assert(texts(input@).take(i as int) =~= texts(input@));
    out
}

/// The distinct kind tags of `input`, in order of first appearance.
pub fn variant_kinds(input: &[VariantSpec]) -> (out: Vec<String>)
    ensures
        texts(out@) == dedup_first(tags_of(variant_models(input@))),
{
    let mut out: Vec<String> = Vec::new();
    let mut i: usize = 0;
    let ghost tags = tags_of(variant_models(input@));
    assert(tags.take(0) =~= Seq::empty());
    assert(texts(out@) =~= Seq::empty());
    while i < input.len()
        invariant
            i <= input.len(),
            tags == tags_of(variant_models(input@)),
            texts(out@) == dedup_first(tags.take(i as int)),
        decreases input.len() - i,
    {
        let ghost before = texts(out@);
        let ghost next = tags.take(i as int + 1);
        assert(next.drop_last() =~= tags.take(i as int));
        let tag: &str = input[i].kind_str();
        assert(next.last() == tag@);
        if !holds_text(&out, tag) {
            out.push(tag.to_owned());
            assert(texts(out@) =~= before.push(tag@));
        }
        i += 1;
    }
    assert(tags.take(i as int) =~= tags);
    out
}

} // verus!
