//! The two row shapes of the converter: a `SourceRow` as the CSV reader
//! hands it over, and a `TargetRow` as the writer consumes it. Both are
//! ordered mappings from column name to raw string value.

use vstd::prelude::*;

verus! {

/// The view of a row: a sequence of (column name, value) pairs.
pub type ColsView = Seq<(Seq<char>, Seq<char>)>;

/// One parsed input line: an ordered mapping from source column name to
/// raw string value. Immutable once parsed.
pub struct SourceRow {
    pub cols: Vec<(String, String)>,
}

/// The value of the first pair in `cols` whose name equals `name`, if any.
pub open spec fn lookup_in(cols: ColsView, name: Seq<char>) -> Option<Seq<char>>
    decreases cols.len(),
{
    if cols.len() == 0 {
        None
    } else if cols[0].0 == name {
        Some(cols[0].1)
    } else {
        lookup_in(cols.drop_first(), name)
    }
}

impl View for SourceRow {
    type V = ColsView;

    open spec fn view(&self) -> ColsView {
        self.cols.deep_view()
    }
}

impl DeepView for SourceRow {
    type V = ColsView;

    open spec fn deep_view(&self) -> ColsView {
        self.cols.deep_view()
    }
}

impl SourceRow {
    /// The value of the column called `name`, or `None` if the row has no
    /// such column.
    pub fn get(&self, name: &String) -> (r: Option<String>)
        ensures
            match r {
                Some(v) => lookup_in(self@, name@) == Some(v@),
                None => lookup_in(self@, name@) is None,
            },
    {
        proof {
            assert(self@.skip(0) =~= self@);
        }
        let mut i: usize = 0;
        while i < self.cols.len()
            invariant
                i <= self.cols.len(),
                lookup_in(self@, name@) == lookup_in(self@.skip(i as int), name@),
            decreases self.cols.len() - i,
        {
            let p = &self.cols[i];
            if p.0 == *name {
                proof {
                    assert(self@.skip(i as int)[0] == self@[i as int]);
                }
                return Some(p.1.clone());
            }
            proof {
                assert(self@.skip(i as int)[0] == self@[i as int]);
                assert(self@.skip(i as int).drop_first() =~= self@.skip(i as int + 1));
            }
            i += 1;
        }
        proof {
            assert(self@.skip(i as int).len() == 0);
        }
        None
    }
}

/// The pairing of a header with one line's values, name by name, in
/// order. Meaningful when the two have the same length.
pub open spec fn zip_cols(header: Seq<Seq<char>>, values: Seq<Seq<char>>) -> ColsView {
    Seq::new(header.len(), |i: int| (header[i], values[i]))
}

/// Builds a row from a parsed header and one parsed data line. `None`
/// exactly when the field count does not match the header.
pub fn row_from_fields(header: &Vec<String>, values: &Vec<String>) -> (r: Option<SourceRow>)
    ensures
        r is Some <==> header.deep_view().len() == values.deep_view().len(),
        r matches Some(row) ==> row@ == zip_cols(header.deep_view(), values.deep_view()),
{
    if header.len() != values.len() {
        return None;
    }
    let mut cols: Vec<(String, String)> = Vec::new();
    let mut i: usize = 0;
    while i < header.len()
        invariant
            i <= header.len(),
            header.len() == values.len(),
            cols.len() == i,
            forall|j: int|
                0 <= j < i ==> #[trigger] cols.deep_view()[j] == (
                    header.deep_view()[j],
                    values.deep_view()[j],
                ),
        decreases header.len() - i,
    {
        let ghost prev = cols.deep_view();
        cols.push((header[i].clone(), values[i].clone()));
        proof {
            assert(forall|j: int|
                0 <= j < prev.len() ==> #[trigger] cols.deep_view()[j] == prev[j]);
            assert(cols.deep_view()[i as int] == (
                header.deep_view()[i as int],
                values.deep_view()[i as int],
            ));
        }
        i += 1;
    }
    let row = SourceRow { cols };
    proof {
        assert(row@ =~= zip_cols(header.deep_view(), values.deep_view()));
    }
    Some(row)
}

/// One converted line, in the fixed target column order: an ordered
/// mapping from target column name to string value.
pub struct TargetRow {
    pub cells: Vec<(String, String)>,
}

impl View for TargetRow {
    type V = ColsView;

    open spec fn view(&self) -> ColsView {
        self.cells.deep_view()
    }
}

impl DeepView for TargetRow {
    type V = ColsView;

    open spec fn deep_view(&self) -> ColsView {
        self.cells.deep_view()
    }
}

impl TargetRow {
    /// The values of the cells, in order, without the column names.
    pub fn values(&self) -> (r: Vec<String>)
        ensures
            r.deep_view() == self@.map_values(|p: (Seq<char>, Seq<char>)| p.1),
    {
        let mut out: Vec<String> = Vec::new();
        let mut i: usize = 0;
        while i < self.cells.len()
            invariant
                i <= self.cells.len(),
                out.len() == i,
                forall|j: int| 0 <= j < i ==> out.deep_view()[j] == self@[j].1,
            decreases self.cells.len() - i,
        {
            let ghost prev = out.deep_view();
            out.push(self.cells[i].1.clone());
            proof {
                assert(forall|j: int| 0 <= j < prev.len() ==> #[trigger] out.deep_view()[j]
                    == prev[j]);
                assert(out.deep_view()[i as int] == self@[i as int].1);
            }
            i += 1;
        }
        proof {
            assert(out.deep_view() =~= self@.map_values(|p: (Seq<char>, Seq<char>)| p.1));
        }
        out
    }
}

} // verus!
