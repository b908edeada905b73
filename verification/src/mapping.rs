//! The row mapper: a pure transformation of one `SourceRow` into one
//! `TargetRow` (or a per-row error), driven by a declarative mapping
//! specification.
//!
//! A `ColumnSpec` lists `(source column, target column)` pairs: the named
//! source columns are kept and renamed, in the order given. An optional
//! `DerivedMemoSpec` composes one target cell out of a primary reference
//! field plus, when the paid-currency field is non-empty, a
//! paid-amount/paid-currency/exchange-rate suffix; the suffix is appended
//! fully or not at all. Values are carried over verbatim: no numeric
//! parsing and no normalization.

use vstd::prelude::*;
use vstd::string::StringExecFns;
use crate::row::{ColsView, SourceRow, TargetRow, lookup_in};

verus! {

/// Spec-level image of a `DerivedMemoSpec`: the names of the derived
/// target column, the reference column, and the paid-amount,
/// paid-currency and exchange-rate columns, in that order.
pub type MemoView = (Seq<char>, Seq<char>, Seq<char>, Seq<char>, Seq<char>);

pub open spec fn memo_target(m: MemoView) -> Seq<char> {
    m.0
}

pub open spec fn memo_reference(m: MemoView) -> Seq<char> {
    m.1
}

pub open spec fn memo_paid_amount(m: MemoView) -> Seq<char> {
    m.2
}

pub open spec fn memo_paid_currency(m: MemoView) -> Seq<char> {
    m.3
}

pub open spec fn memo_exchange_rate(m: MemoView) -> Seq<char> {
    m.4
}

/// Which source columns are kept, and the target name of each: an ordered
/// table of `(source column, target column)` pairs. Target names must be
/// unique (`MappingSpec::wf`).
pub struct ColumnSpec {
    pub pairs: Vec<(String, String)>,
}

impl View for ColumnSpec {
    type V = ColsView;

    open spec fn view(&self) -> ColsView {
        self.pairs.deep_view()
    }
}

/// The rule for a derived memo cell. The cell named `target` is built as
/// `"reference: "` followed by the value of the `reference` column; when
/// the value of the `paid_currency` column is non-empty, the suffix
/// `", paid_amount: <amount> <currency>, exchange_rate: <rate>"` is
/// appended as a whole.
pub struct DerivedMemoSpec {
    pub target: String,
    pub reference: String,
    pub paid_amount: String,
    pub paid_currency: String,
    pub exchange_rate: String,
}

impl View for DerivedMemoSpec {
    type V = MemoView;

    open spec fn view(&self) -> MemoView {
        (self.target@, self.reference@, self.paid_amount@, self.paid_currency@,
        self.exchange_rate@)
    }
}

/// The whole mapping specification: the column table, and optionally a
/// derived-memo rule.
pub struct MappingSpec {
    pub columns: ColumnSpec,
    pub memo: Option<DerivedMemoSpec>,
}

impl MappingSpec {
    pub open spec fn cols_view(&self) -> ColsView {
        self.columns@
    }

    pub open spec fn memo_view(&self) -> Option<MemoView> {
        match self.memo {
            Some(m) => Some(m@),
            None => None,
        }
    }

    /// Well-formedness: target column names are unique, and a derived
    /// memo rule names one of them as its target.
    pub open spec fn wf(&self) -> bool {
        &&& forall|i: int, j: int|
            0 <= i < j < self.cols_view().len() ==> self.cols_view()[i].1
                != self.cols_view()[j].1
        &&& match self.memo_view() {
            Some(m) => exists|i: int|
                0 <= i < self.cols_view().len() && self.cols_view()[i].1 == memo_target(m),
            None => true,
        }
    }
}

/// The first source column of `cols` that `row` lacks, if any, in table
/// order.
pub open spec fn first_missing(cols: ColsView, row: ColsView) -> Option<Seq<char>>
    decreases cols.len(),
{
    if cols.len() == 0 {
        None
    } else if lookup_in(row, cols[0].0) is None {
        Some(cols[0].0)
    } else {
        first_missing(cols.drop_first(), row)
    }
}

/// The straight rename: for each `(source, target)` pair of `cols`, the
/// pair `(target, value of source in row)`. Meaningful when no referenced
/// column is missing.
pub open spec fn rename_values(cols: ColsView, row: ColsView) -> ColsView {
    cols.map_values(|p: (Seq<char>, Seq<char>)| (p.1, lookup_in(row, p.0).unwrap()))
}

/// The first memo source column that `row` lacks, if any. The reference
/// and paid-currency columns are always read; the paid-amount and
/// exchange-rate columns only when the paid-currency value is non-empty.
pub open spec fn memo_missing(m: MemoView, row: ColsView) -> Option<Seq<char>> {
    if lookup_in(row, memo_reference(m)) is None {
        Some(memo_reference(m))
    } else if lookup_in(row, memo_paid_currency(m)) is None {
        Some(memo_paid_currency(m))
    } else if lookup_in(row, memo_paid_currency(m)).unwrap().len() > 0 && lookup_in(
        row,
        memo_paid_amount(m),
    ) is None {
        Some(memo_paid_amount(m))
    } else if lookup_in(row, memo_paid_currency(m)).unwrap().len() > 0 && lookup_in(
        row,
        memo_exchange_rate(m),
    ) is None {
        Some(memo_exchange_rate(m))
    } else {
        None
    }
}

/// The derived memo text. Meaningful when `memo_missing` is `None`.
pub open spec fn memo_value(m: MemoView, row: ColsView) -> Seq<char> {
    let refv = lookup_in(row, memo_reference(m)).unwrap();
    let cur = lookup_in(row, memo_paid_currency(m)).unwrap();
    "reference: "@ + refv + if cur.len() > 0 {
        ", paid_amount: "@ + lookup_in(row, memo_paid_amount(m)).unwrap() + " "@ + cur
            + ", exchange_rate: "@ + lookup_in(row, memo_exchange_rate(m)).unwrap()
    } else {
        Seq::<char>::empty()
    }
}

/// `pairs` with the value of every cell named `target` replaced by
/// `value`; with unique target names that is at most one cell.
pub open spec fn apply_memo(pairs: ColsView, target: Seq<char>, value: Seq<char>) -> ColsView {
    pairs.map_values(
        |p: (Seq<char>, Seq<char>)|
            if p.0 == target {
                (target, value)
            } else {
                p
            },
    )
}

/// What the row mapper returns: the renamed (and possibly memo-enriched)
/// cells, or the name of the first missing source column.
pub open spec fn map_row_spec(cols: ColsView, memo: Option<MemoView>, row: ColsView) -> Result<
    ColsView,
    Seq<char>,
> {
    if first_missing(cols, row) is Some {
        Err(first_missing(cols, row).unwrap())
    } else {
        match memo {
            None => Ok(rename_values(cols, row)),
            Some(m) => if memo_missing(m, row) is Some {
                Err(memo_missing(m, row).unwrap())
            } else {
                Ok(apply_memo(rename_values(cols, row), memo_target(m), memo_value(m, row)))
            },
        }
    }
}

proof fn lemma_first_missing_none(cols: ColsView, row: ColsView)
    requires
        forall|i: int| 0 <= i < cols.len() ==> lookup_in(row, #[trigger] cols[i].0) is Some,
    ensures
        first_missing(cols, row) is None,
    decreases cols.len(),
{
    if cols.len() > 0 {
        assert(lookup_in(row, cols[0].0) is Some);
        assert(forall|i: int|
            0 <= i < cols.drop_first().len() ==> lookup_in(
                row,
                #[trigger] cols.drop_first()[i].0,
            ) is Some) by {
            assert(forall|i: int|
                0 <= i < cols.drop_first().len() ==> cols.drop_first()[i] == cols[i + 1]);
        }
        lemma_first_missing_none(cols.drop_first(), row);
    }
}

proof fn lemma_first_missing_some(cols: ColsView, row: ColsView)
    requires
        exists|i: int| 0 <= i < cols.len() && lookup_in(row, #[trigger] cols[i].0) is None,
    ensures
        first_missing(cols, row) matches Some(c) && lookup_in(row, c) is None && exists|i: int|
            0 <= i < cols.len() && #[trigger] cols[i].0 == c,
    decreases cols.len(),
{
    if lookup_in(row, cols[0].0) is None {
        assert(cols[0].0 == first_missing(cols, row).unwrap());
    } else {
        let k = choose|i: int| 0 <= i < cols.len() && lookup_in(row, #[trigger] cols[i].0) is None;
        assert(cols.drop_first()[k - 1] == cols[k]);
        lemma_first_missing_some(cols.drop_first(), row);
        let c = first_missing(cols.drop_first(), row).unwrap();
        let j = choose|i: int|
            0 <= i < cols.drop_first().len() && #[trigger] cols.drop_first()[i].0 == c;
        assert(cols[j + 1].0 == c);
    }
}

/// Law: a row that holds every column the table references maps, under a
/// plain rename table (no derived memo), to the pure rename: each target
/// cell carries the corresponding source value unchanged.
pub proof fn lemma_map_row_pure_rename(cols: ColsView, row: ColsView)
    requires
        forall|i: int| 0 <= i < cols.len() ==> lookup_in(row, #[trigger] cols[i].0) is Some,
    ensures
        map_row_spec(cols, None, row) == Ok::<ColsView, Seq<char>>(rename_values(cols, row)),
        rename_values(cols, row).len() == cols.len(),
        forall|i: int|
            0 <= i < cols.len() ==> rename_values(cols, row)[i] == (
                cols[i].1,
                lookup_in(row, #[trigger] cols[i].0).unwrap(),
            ),
{
    lemma_first_missing_none(cols, row);
}

/// Law: a row that lacks some column the table references maps to a
/// `MissingColumn` error that names a referenced column the row indeed
/// lacks, and to no target row.
pub proof fn lemma_map_row_missing_column(cols: ColsView, memo: Option<MemoView>, row: ColsView)
    requires
        exists|i: int| 0 <= i < cols.len() && lookup_in(row, #[trigger] cols[i].0) is None,
    ensures
        map_row_spec(cols, memo, row) matches Err(c) && lookup_in(row, c) is None && exists|i: int|
            0 <= i < cols.len() && #[trigger] cols[i].0 == c,
{
    lemma_first_missing_some(cols, row);
}

/// The per-row error of the mapper. The row is dropped; nothing partial
/// is produced.
#[derive(Debug)]
pub enum MapError {
    /// A source column that the mapping references is absent from the row;
    /// the payload names that column.
    MissingColumn(String),
}

impl View for MapError {
    type V = Seq<char>;

    open spec fn view(&self) -> Seq<char> {
        match self {
            MapError::MissingColumn(s) => s@,
        }
    }
}

impl MapError {
    /// The name of the missing column, for diagnostics.
    pub fn column_name(&self) -> (r: &String)
        ensures
            r@ == self@,
    {
        match self {
            MapError::MissingColumn(s) => s,
        }
    }
}

/// Maps one source row. Pure and deterministic: the result is exactly
/// `map_row_spec` of the row and the specification.
pub fn map_row(ms: &MappingSpec, row: &SourceRow) -> (r: Result<TargetRow, MapError>)
    requires
        ms.wf(),
    ensures
        r matches Ok(t) ==> map_row_spec(ms.cols_view(), ms.memo_view(), row@) == Ok::<
            ColsView,
            Seq<char>,
        >(t@),
        r matches Err(e) ==> map_row_spec(ms.cols_view(), ms.memo_view(), row@) == Err::<
            ColsView,
            Seq<char>,
        >(e@),
{
    let ghost gcols = ms.cols_view();
    let cols = &ms.columns.pairs;
    proof {
        assert(gcols.skip(0) =~= gcols);
    }
    let mut cells: Vec<(String, String)> = Vec::new();
    let mut i: usize = 0;
    while i < cols.len()
        invariant
            i <= cols.len(),
            gcols == cols.deep_view(),
            gcols == ms.cols_view(),
            cells.len() == i,
            first_missing(gcols, row@) == first_missing(gcols.skip(i as int), row@),
            forall|j: int| 0 <= j < i ==> lookup_in(row@, #[trigger] gcols[j].0) is Some,
            forall|j: int| 0 <= j < i ==> #[trigger] cells.deep_view()[j] == (
                gcols[j].1,
                lookup_in(row@, gcols[j].0).unwrap(),
            ),
        decreases cols.len() - i,
    {
        proof {
            assert(gcols.skip(i as int)[0] == gcols[i as int]);
            assert(gcols.skip(i as int).drop_first() =~= gcols.skip(i as int + 1));
        }
        let p = &cols[i];
        match row.get(&p.0) {
            None => {
                proof {
                    assert(first_missing(gcols.skip(i as int), row@) == Some(gcols[i as int].0));
                }
                return Err(MapError::MissingColumn(p.0.clone()));
            },
            Some(v) => {
                let ghost prev = cells.deep_view();
                cells.push((p.1.clone(), v));
                proof {
                    assert(forall|j: int|
                        0 <= j < prev.len() ==> #[trigger] cells.deep_view()[j] == prev[j]);
                    assert(cells.deep_view()[i as int] == (
                        gcols[i as int].1,
                        lookup_in(row@, gcols[i as int].0).unwrap(),
                    ));
                }
            },
        }
        i += 1;
    }
    proof {
        assert(gcols.skip(cols.len() as int).len() == 0);
        assert(cells.deep_view() =~= rename_values(gcols, row@));
    }
    match &ms.memo {
        None => Ok(TargetRow { cells }),
        Some(m) => {
            let refv = match row.get(&m.reference) {
                Some(v) => v,
                None => {
                    return Err(MapError::MissingColumn(m.reference.clone()));
                },
            };
            let cur = match row.get(&m.paid_currency) {
                Some(v) => v,
                None => {
                    return Err(MapError::MissingColumn(m.paid_currency.clone()));
                },
            };
            let mut memo_text = String::from_str("reference: ");
            memo_text.append(refv.as_str());
            if !cur.as_str().is_empty() {
                let amt = match row.get(&m.paid_amount) {
                    Some(v) => v,
                    None => {
                        return Err(MapError::MissingColumn(m.paid_amount.clone()));
                    },
                };
                let rate = match row.get(&m.exchange_rate) {
                    Some(v) => v,
                    None => {
                        return Err(MapError::MissingColumn(m.exchange_rate.clone()));
                    },
                };
                memo_text.append(", paid_amount: ");
                memo_text.append(amt.as_str());
                memo_text.append(" ");
                memo_text.append(cur.as_str());
                memo_text.append(", exchange_rate: ");
                memo_text.append(rate.as_str());
            }
            proof {
                assert(memo_text@ =~= memo_value(m@, row@));
            }
            let ghost base = cells.deep_view();
            let mut j: usize = 0;
            while j < cells.len()
                invariant
                    j <= cells.len(),
                    cells.len() == base.len(),
                    forall|k: int|
                        j <= k < base.len() ==> #[trigger] cells.deep_view()[k] == base[k],
                    forall|k: int|
                        0 <= k < j ==> #[trigger] cells.deep_view()[k] == (
                            if base[k].0 == m.target@ {
                                (m.target@, memo_text@)
                            } else {
                                base[k]
                            }
                        ),
                decreases cells.len() - j,
            {
                if cells[j].0 == m.target {
                    let ghost prev = cells.deep_view();
                    let cell = (m.target.clone(), memo_text.clone());
                    cells[j] = cell;
                    proof {
                        assert(prev[j as int] == base[j as int]);
                        assert(base[j as int].0 == m.target@);
                        assert(forall|k: int|
                            0 <= k < prev.len() && k != j ==> #[trigger] cells.deep_view()[k]
                                == prev[k]);
                        assert(cells.deep_view()[j as int] == (m.target@, memo_text@));
                    }
                } else {
                    proof {
                        assert(cells.deep_view()[j as int] == base[j as int]);
                        assert(base[j as int].0 != m.target@);
                    }
                }
                j += 1;
            }
            proof {
                assert(cells.deep_view() =~= apply_memo(base, memo_target(m@), memo_value(
                    m@,
                    row@,
                )));
            }
            Ok(TargetRow { cells })
        },
    }
}

/// The stock mapping for Rabobank creditcard exports, straight renames
/// only: Datum, Omschrijving, Transactiereferentie and Bedrag become
/// Date, Payee, Memo and Amount.
pub fn rabo_card_spec() -> (r: MappingSpec)
    ensures
        r.wf(),
        r.memo_view() is None,
        r.cols_view() == seq![
            ("Datum"@, "Date"@),
            ("Omschrijving"@, "Payee"@),
            ("Transactiereferentie"@, "Memo"@),
            ("Bedrag"@, "Amount"@),
        ],
{
    let ms = MappingSpec { columns: rabo_card_columns(), memo: None };
    proof {
        lemma_rabo_targets_unique(ms.cols_view());
    }
    ms
}

/// The stock mapping for Rabobank creditcard exports with the derived
/// memo: the same four renames, and the Memo cell composed from the
/// transaction reference plus, for charges in a foreign currency, the
/// original amount (Oorspr bedrag), its currency (Oorspr munt) and the
/// exchange rate (Koers).
pub fn rabo_card_memo_spec() -> (r: MappingSpec)
    ensures
        r.wf(),
        r.memo_view() == Some(
            ("Memo"@, "Transactiereferentie"@, "Oorspr bedrag"@, "Oorspr munt"@, "Koers"@),
        ),
        r.cols_view() == seq![
            ("Datum"@, "Date"@),
            ("Omschrijving"@, "Payee"@),
            ("Transactiereferentie"@, "Memo"@),
            ("Bedrag"@, "Amount"@),
        ],
{
    let memo = DerivedMemoSpec {
        target: String::from_str("Memo"),
        reference: String::from_str("Transactiereferentie"),
        paid_amount: String::from_str("Oorspr bedrag"),
        paid_currency: String::from_str("Oorspr munt"),
        exchange_rate: String::from_str("Koers"),
    };
    let ms = MappingSpec { columns: rabo_card_columns(), memo: Some(memo) };
    proof {
        lemma_rabo_targets_unique(ms.cols_view());
        assert(ms.cols_view()[2].1 == "Memo"@);
    }
    ms
}

fn rabo_card_columns() -> (r: ColumnSpec)
    ensures
        r@ == seq![
            ("Datum"@, "Date"@),
            ("Omschrijving"@, "Payee"@),
            ("Transactiereferentie"@, "Memo"@),
            ("Bedrag"@, "Amount"@),
        ],
{
    let mut pairs: Vec<(String, String)> = Vec::new();
    pairs.push((String::from_str("Datum"), String::from_str("Date")));
    pairs.push((String::from_str("Omschrijving"), String::from_str("Payee")));
    pairs.push((String::from_str("Transactiereferentie"), String::from_str("Memo")));
    pairs.push((String::from_str("Bedrag"), String::from_str("Amount")));
    let cs = ColumnSpec { pairs };
    proof {
        assert(cs@ =~= seq![
            ("Datum"@, "Date"@),
            ("Omschrijving"@, "Payee"@),
            ("Transactiereferentie"@, "Memo"@),
            ("Bedrag"@, "Amount"@),
        ]);
    }
    cs
}

proof fn lemma_rabo_targets_unique(cols: ColsView)
    requires
        cols == seq![
            ("Datum"@, "Date"@),
            ("Omschrijving"@, "Payee"@),
            ("Transactiereferentie"@, "Memo"@),
            ("Bedrag"@, "Amount"@),
        ],
    ensures
        forall|i: int, j: int| 0 <= i < j < cols.len() ==> cols[i].1 != cols[j].1,
{
    reveal_strlit("Date");
    reveal_strlit("Payee");
    reveal_strlit("Memo");
    reveal_strlit("Amount");
    assert("Date"@.len() == 4);
    assert("Payee"@.len() == 5);
    assert("Memo"@.len() == 4);
    assert("Amount"@.len() == 6);
    assert("Date"@[0] == 'D');
    assert("Memo"@[0] == 'M');
}

} // verus!
