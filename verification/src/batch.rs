//! The batch converter: applies the row mapper to every row of one or
//! more input files, in arrival order, keeps the rows that map, counts
//! and samples the rows that do not, and pins the output text byte for
//! byte. Row-level failures never abort a batch; only the caller's I/O
//! can.

use vstd::prelude::*;
use crate::row::{ColsView, SourceRow, TargetRow};
use crate::mapping::{MappingSpec, MapError, MemoView, map_row_spec, map_row};
use crate::csvline::{encode_record, format_record};

verus! {

/// A spec closure deciding what one source row becomes: the mapped cells,
/// or nothing when the row fails to map.
pub open spec fn success_fn(cols: ColsView, memo: Option<MemoView>) -> spec_fn(ColsView) -> Option<
    ColsView,
> {
    |r: ColsView|
        match map_row_spec(cols, memo, r) {
            Ok(t) => Some(t),
            Err(_) => None,
        }
}

/// The output rows of one file: the mapped image of exactly the rows
/// that map, in input order.
pub open spec fn file_successes(cols: ColsView, memo: Option<MemoView>, rows: Seq<ColsView>) -> Seq<
    ColsView,
> {
    rows.filter_map(success_fn(cols, memo))
}

/// How many rows of one file fail to map.
pub open spec fn file_failures(cols: ColsView, memo: Option<MemoView>, rows: Seq<ColsView>) -> nat
    decreases rows.len(),
{
    if rows.len() == 0 {
        0
    } else {
        file_failures(cols, memo, rows.drop_last()) + if map_row_spec(
            cols,
            memo,
            rows.last(),
        ) is Err {
            1nat
        } else {
            0nat
        }
    }
}

/// The output rows of a whole batch: each file's output in file order,
/// concatenated.
pub open spec fn batch_successes(
    cols: ColsView,
    memo: Option<MemoView>,
    files: Seq<Seq<ColsView>>,
) -> Seq<ColsView>
    decreases files.len(),
{
    if files.len() == 0 {
        Seq::empty()
    } else {
        file_successes(cols, memo, files[0]) + batch_successes(cols, memo, files.drop_first())
    }
}

/// How many rows a whole batch holds.
pub open spec fn batch_len(files: Seq<Seq<ColsView>>) -> nat
    decreases files.len(),
{
    if files.len() == 0 {
        0
    } else {
        files[0].len() + batch_len(files.drop_first())
    }
}

/// Law: within one file the converter preserves order and drops exactly
/// the failing rows — the output is the filtered, mapped image of the
/// input, and the success and failure counts add up to the row count.
pub proof fn lemma_file_order_and_counts(cols: ColsView, memo: Option<MemoView>, rows: Seq<ColsView>)
    ensures
        file_successes(cols, memo, rows) == rows.filter_map(success_fn(cols, memo)),
        file_successes(cols, memo, rows).len() + file_failures(cols, memo, rows) == rows.len(),
    decreases rows.len(),
{
    if rows.len() > 0 {
        lemma_file_order_and_counts(cols, memo, rows.drop_last());
    }
}

proof fn lemma_batch_successes_snoc(
    cols: ColsView,
    memo: Option<MemoView>,
    files: Seq<Seq<ColsView>>,
    x: Seq<ColsView>,
)
    ensures
        batch_successes(cols, memo, files.push(x)) == batch_successes(cols, memo, files)
            + file_successes(cols, memo, x),
    decreases files.len(),
{
    if files.len() == 0 {
        assert(files.push(x)[0] == x);
        assert(files.push(x).drop_first() =~= Seq::<Seq<ColsView>>::empty());
        assert(batch_successes(cols, memo, Seq::<Seq<ColsView>>::empty()) =~= Seq::<
            ColsView,
        >::empty());
        assert(batch_successes(cols, memo, files.push(x)) =~= batch_successes(cols, memo, files)
            + file_successes(cols, memo, x));
    } else {
        assert(files.push(x)[0] == files[0]);
        assert(files.push(x).drop_first() =~= files.drop_first().push(x));
        lemma_batch_successes_snoc(cols, memo, files.drop_first(), x);
        assert(batch_successes(cols, memo, files.push(x)) =~= batch_successes(cols, memo, files)
            + file_successes(cols, memo, x));
    }
}

/// Law: converting the concatenation of two file sequences yields the
/// first sequence's output followed by the second's — files are simply
/// concatenated, never merged or reordered.
pub proof fn lemma_batch_concat(
    cols: ColsView,
    memo: Option<MemoView>,
    fa: Seq<Seq<ColsView>>,
    fb: Seq<Seq<ColsView>>,
)
    ensures
        batch_successes(cols, memo, fa + fb) == batch_successes(cols, memo, fa) + batch_successes(
            cols,
            memo,
            fb,
        ),
    decreases fa.len(),
{
    if fa.len() == 0 {
        assert(fa + fb =~= fb);
        assert(batch_successes(cols, memo, fa) =~= Seq::<ColsView>::empty());
        assert(batch_successes(cols, memo, fa) + batch_successes(cols, memo, fb) =~=
            batch_successes(cols, memo, fb));
    } else {
        assert((fa + fb)[0] == fa[0]);
        assert((fa + fb).drop_first() =~= fa.drop_first() + fb);
        lemma_batch_concat(cols, memo, fa.drop_first(), fb);
        assert(batch_successes(cols, memo, fa + fb) =~= batch_successes(cols, memo, fa)
            + batch_successes(cols, memo, fb));
    }
}

proof fn lemma_batch_len_snoc(files: Seq<Seq<ColsView>>, x: Seq<ColsView>)
    ensures
        batch_len(files.push(x)) == batch_len(files) + x.len(),
    decreases files.len(),
{
    if files.len() == 0 {
        assert(files.push(x)[0] == x);
        assert(files.push(x).drop_first() =~= Seq::<Seq<ColsView>>::empty());
        assert(batch_len(Seq::<Seq<ColsView>>::empty()) == 0);
    } else {
        assert(files.push(x)[0] == files[0]);
        assert(files.push(x).drop_first() =~= files.drop_first().push(x));
        lemma_batch_len_snoc(files.drop_first(), x);
    }
}

proof fn lemma_batch_len_take_succ(files: Seq<Seq<ColsView>>, k: int)
    requires
        0 <= k < files.len(),
    ensures
        batch_len(files.take(k + 1)) == batch_len(files.take(k)) + files[k].len(),
{
    lemma_batch_len_snoc(files.take(k), files[k]);
    assert(files.take(k + 1) =~= files.take(k).push(files[k]));
}

proof fn lemma_batch_len_take_le(files: Seq<Seq<ColsView>>, k: int)
    requires
        0 <= k <= files.len(),
    ensures
        batch_len(files.take(k)) <= batch_len(files),
    decreases files.len() - k,
{
    if k < files.len() {
        lemma_batch_len_take_succ(files, k);
        lemma_batch_len_take_le(files, k + 1);
    } else {
        assert(files.take(k) =~= files);
    }
}

/// The run's tallies: rows seen, rows written, rows dropped.
#[derive(PartialEq, Eq, Structural, Clone, Copy, Debug)]
pub struct BatchStats {
    pub processed: usize,
    pub written: usize,
    pub failed: usize,
}

/// Why one row was dropped.
pub enum RowIssue {
    /// The mapping references a column the row does not have; the
    /// payload names it.
    MissingColumn(String),
    /// The line could not be read as a record of the dialect, or its
    /// field count does not match the header.
    Malformed,
}

impl View for RowIssue {
    /// `Some` of the missing column's name, or `None` for a malformed row.
    type V = Option<Seq<char>>;

    open spec fn view(&self) -> Option<Seq<char>> {
        match self {
            RowIssue::MissingColumn(s) => Some(s@),
            RowIssue::Malformed => None,
        }
    }
}

/// One dropped row: which file, which row of it (0-based data-row
/// index), and why.
pub struct RowFailure {
    pub file: String,
    pub row: usize,
    pub issue: RowIssue,
}

impl View for RowFailure {
    type V = (Seq<char>, int, Option<Seq<char>>);

    open spec fn view(&self) -> (Seq<char>, int, Option<Seq<char>>) {
        (self.file@, self.row as int, self.issue@)
    }
}

impl DeepView for RowFailure {
    type V = (Seq<char>, int, Option<Seq<char>>);

    open spec fn deep_view(&self) -> (Seq<char>, int, Option<Seq<char>>) {
        self.view()
    }
}

/// A bounded accumulator of row failures: the full count, and the last
/// `cap` failures as samples, so memory stays bounded on large files.
pub struct ErrorLog {
    pub total: usize,
    pub cap: usize,
    pub samples: Vec<RowFailure>,
}

impl ErrorLog {
    pub open spec fn wf(&self) -> bool {
        self.samples.len() <= self.cap
    }

    pub fn new(cap: usize) -> (r: ErrorLog)
        ensures
            r.wf(),
            r.total == 0,
            r.cap == cap,
            r.samples.len() == 0,
    {
        ErrorLog { total: 0, cap, samples: Vec::new() }
    }

    /// Counts one failure and keeps it as a sample, evicting the oldest
    /// sample once `cap` are held.
    pub fn record(&mut self, f: RowFailure)
        requires
            old(self).wf(),
            old(self).total < usize::MAX,
        ensures
            final(self).wf(),
            final(self).cap == old(self).cap,
            final(self).total == old(self).total + 1,
            old(self).cap == 0 ==> final(self).samples.deep_view()
                == old(self).samples.deep_view(),
            old(self).samples.len() < old(self).cap ==> final(self).samples.deep_view()
                == old(self).samples.deep_view().push(f@),
            old(self).cap > 0 && old(self).samples.len() == old(self).cap ==> final(self)
                .samples.deep_view() == old(self).samples.deep_view().drop_first().push(f@),
    {
        self.total += 1;
        if self.cap == 0 {
            return ;
        }
        if self.samples.len() == self.cap {
            let ghost prev = self.samples.deep_view();
            self.samples.remove(0);
            proof {
                assert(self.samples.deep_view() =~= prev.drop_first());
            }
        }
        let ghost prev = self.samples.deep_view();
        self.samples.push(f);
        proof {
            assert(forall|j: int|
                0 <= j < prev.len() ==> #[trigger] self.samples.deep_view()[j] == prev[j]);
            assert(self.samples.deep_view() =~= prev.push(f@));
        }
    }
}

/// The converter's streaming state: the mapping, the tallies, and the
/// bounded failure log. One row is handed in at a time, so a caller can
/// write each mapped row out before reading the next.
pub struct Converter {
    pub mapping: MappingSpec,
    pub stats: BatchStats,
    pub errors: ErrorLog,
}

impl Converter {
    /// Every tally agrees: rows seen split into written and failed, and
    /// every failure is logged.
    pub open spec fn wf(&self) -> bool {
        &&& self.mapping.wf()
        &&& self.errors.wf()
        &&& self.stats.processed == self.stats.written + self.stats.failed
        &&& self.errors.total == self.stats.failed
    }

    pub fn new(mapping: MappingSpec, error_cap: usize) -> (r: Converter)
        requires
            mapping.wf(),
        ensures
            r.wf(),
            r.mapping == mapping,
            r.stats == (BatchStats { processed: 0, written: 0, failed: 0 }),
            r.errors.total == 0,
            r.errors.cap == error_cap,
            r.errors.samples.len() == 0,
    {
        Converter {
            mapping,
            stats: BatchStats { processed: 0, written: 0, failed: 0 },
            errors: ErrorLog::new(error_cap),
        }
    }

    /// Feeds one parsed row. Returns the mapped row to write, or `None`
    /// for a row that fails to map; the failure is tallied and sampled
    /// with its file and row identity, and the batch goes on.
    pub fn process_row(&mut self, file: &String, row_index: usize, row: &SourceRow) -> (r: Option<
        TargetRow,
    >)
        requires
            old(self).wf(),
            old(self).stats.processed < usize::MAX,
        ensures
            final(self).wf(),
            final(self).mapping == old(self).mapping,
            final(self).errors.cap == old(self).errors.cap,
            final(self).stats.processed == old(self).stats.processed + 1,
            match r {
                Some(t) => {
                    &&& map_row_spec(
                        old(self).mapping.cols_view(),
                        old(self).mapping.memo_view(),
                        row@,
                    ) == Ok::<ColsView, Seq<char>>(t@)
                    &&& final(self).stats.written == old(self).stats.written + 1
                    &&& final(self).stats.failed == old(self).stats.failed
                    &&& final(self).errors == old(self).errors
                },
                None => {
                    &&& map_row_spec(
                        old(self).mapping.cols_view(),
                        old(self).mapping.memo_view(),
                        row@,
                    ) matches Err(c) && final(self).errors.total == old(self).errors.total + 1
                        && (old(self).errors.samples.len() < old(self).errors.cap ==> final(self)
                        .errors.samples.deep_view() == old(self).errors.samples.deep_view().push(
                        (file@, row_index as int, Some(c)),
                    ))
                    &&& final(self).stats.failed == old(self).stats.failed + 1
                    &&& final(self).stats.written == old(self).stats.written
                },
            },
    {
        match map_row(&self.mapping, row) {
            Ok(t) => {
                self.stats.processed += 1;
                self.stats.written += 1;
                Some(t)
            },
            Err(e) => {
                self.stats.processed += 1;
                self.stats.failed += 1;
                let name = match e {
                    MapError::MissingColumn(s) => s,
                };
                self.errors.record(
                    RowFailure {
                        file: file.clone(),
                        row: row_index,
                        issue: RowIssue::MissingColumn(name),
                    },
                );
                None
            },
        }
    }

    /// Tallies a row that never reached the mapper because its line
    /// could not be read as a record (or had the wrong field count).
    pub fn note_malformed(&mut self, file: &String, row_index: usize)
        requires
            old(self).wf(),
            old(self).stats.processed < usize::MAX,
        ensures
            final(self).wf(),
            final(self).mapping == old(self).mapping,
            final(self).errors.cap == old(self).errors.cap,
            final(self).stats.processed == old(self).stats.processed + 1,
            final(self).stats.failed == old(self).stats.failed + 1,
            final(self).stats.written == old(self).stats.written,
            final(self).errors.total == old(self).errors.total + 1,
            old(self).errors.samples.len() < old(self).errors.cap ==> final(self)
                .errors.samples.deep_view() == old(self).errors.samples.deep_view().push(
                (file@, row_index as int, None::<Seq<char>>),
            ),
    {
        self.stats.processed += 1;
        self.stats.failed += 1;
        self.errors.record(
            RowFailure { file: file.clone(), row: row_index, issue: RowIssue::Malformed },
        );
    }
}

/// One input file, already read and parsed: its identity and its data
/// rows in on-disk order.
pub struct FileInput {
    pub name: String,
    pub rows: Vec<SourceRow>,
}

/// The view of a batch input: each file's rows, file order kept.
pub open spec fn files_rows_view(files: Seq<FileInput>) -> Seq<Seq<ColsView>> {
    files.map_values(|f: FileInput| f.rows.deep_view())
}

/// What a whole run produced: the mapped rows in order, the tallies, and
/// the failure log.
pub struct BatchOutcome {
    pub rows: Vec<TargetRow>,
    pub stats: BatchStats,
    pub errors: ErrorLog,
}

/// Converts a whole batch held in memory: every row of every file, files
/// in the order given, rows in file order. The output is exactly the
/// concatenation of each file's surviving rows, still in order.
pub fn convert_batch(mapping: &MappingSpec, files: &Vec<FileInput>, error_cap: usize) -> (r:
    BatchOutcome)
    requires
        mapping.wf(),
        batch_len(files_rows_view(files@)) <= usize::MAX,
    ensures
        r.rows.deep_view() == batch_successes(
            mapping.cols_view(),
            mapping.memo_view(),
            files_rows_view(files@),
        ),
        r.stats.processed == batch_len(files_rows_view(files@)),
        r.stats.written == r.rows.len(),
        r.stats.processed == r.stats.written + r.stats.failed,
        r.errors.total == r.stats.failed,
        r.errors.cap == error_cap,
        r.errors.samples.len() <= error_cap,
{
    let ghost colsv = mapping.cols_view();
    let ghost memov = mapping.memo_view();
    let ghost fv = files_rows_view(files@);
    let mut conv = Converter::new(
        MappingSpec {
            columns: crate::mapping::ColumnSpec { pairs: clone_pairs(&mapping.columns.pairs) },
            memo: clone_memo(&mapping.memo),
        },
        error_cap,
    );
    proof {
        assert(conv.mapping.cols_view() == colsv);
        assert(conv.mapping.memo_view() == memov);
        assert(fv.take(0) =~= Seq::<Seq<ColsView>>::empty());
    }
    let mut out: Vec<TargetRow> = Vec::new();
    let mut fi: usize = 0;
    while fi < files.len()
        invariant
            fi <= files.len(),
            conv.wf(),
            conv.mapping.cols_view() == colsv,
            conv.mapping.memo_view() == memov,
            conv.errors.cap == error_cap,
            colsv == mapping.cols_view(),
            memov == mapping.memo_view(),
            fv == files_rows_view(files@),
            fv.len() == files.len(),
            batch_len(fv) <= usize::MAX,
            out.deep_view() == batch_successes(colsv, memov, fv.take(fi as int)),
            conv.stats.processed == batch_len(fv.take(fi as int)),
            conv.stats.written == out.len(),
        decreases files.len() - fi,
    {
        let f = &files[fi];
        let ghost rowsv = fv[fi as int];
        proof {
            assert(rowsv == f.rows.deep_view());
            assert(rowsv.take(0) =~= Seq::<ColsView>::empty());
            assert(out.deep_view() =~= batch_successes(colsv, memov, fv.take(fi as int))
                + file_successes(colsv, memov, rowsv.take(0)));
        }
        let mut ri: usize = 0;
        while ri < f.rows.len()
            invariant
                ri <= f.rows.len(),
                fi < files.len(),
                conv.wf(),
                conv.mapping.cols_view() == colsv,
                conv.mapping.memo_view() == memov,
                conv.errors.cap == error_cap,
                fv == files_rows_view(files@),
                fv.len() == files.len(),
                batch_len(fv) <= usize::MAX,
                rowsv == fv[fi as int],
                rowsv == f.rows.deep_view(),
                rowsv.len() == f.rows.len(),
                out.deep_view() == batch_successes(colsv, memov, fv.take(fi as int))
                    + file_successes(colsv, memov, rowsv.take(ri as int)),
                conv.stats.processed == batch_len(fv.take(fi as int)) + ri,
                conv.stats.written == out.len(),
            decreases f.rows.len() - ri,
        {
            proof {
                lemma_batch_len_take_succ(fv, fi as int);
                lemma_batch_len_take_le(fv, fi as int + 1);
            }
            let mapped = conv.process_row(&f.name, ri, &f.rows[ri]);
            proof {
                rowsv.lemma_filter_map_take_succ(success_fn(colsv, memov), ri as int);
            }
            match mapped {
                Some(t) => {
                    let ghost prev = out.deep_view();
                    out.push(t);
                    proof {
                        assert(forall|j: int|
                            0 <= j < prev.len() ==> #[trigger] out.deep_view()[j] == prev[j]);
                        assert(out.deep_view() =~= prev.push(t@));
                        assert(success_fn(colsv, memov)(rowsv[ri as int]) == Some(t@));
                        assert(out.deep_view() =~= batch_successes(colsv, memov, fv.take(fi as int))
                            + file_successes(colsv, memov, rowsv.take(ri as int + 1)));
                    }
                },
                None => {
                    proof {
                        assert(success_fn(colsv, memov)(rowsv[ri as int]) is None);
                        assert(file_successes(colsv, memov, rowsv.take(ri as int + 1))
                            =~= file_successes(colsv, memov, rowsv.take(ri as int)));
                    }
                },
            }
            ri += 1;
        }
        proof {
            assert(rowsv.take(f.rows.len() as int) =~= rowsv);
            lemma_batch_successes_snoc(colsv, memov, fv.take(fi as int), rowsv);
            assert(fv.take(fi as int + 1) =~= fv.take(fi as int).push(rowsv));
            lemma_batch_len_take_succ(fv, fi as int);
        }
        fi += 1;
    }
    proof {
        assert(fv.take(files.len() as int) =~= fv);
    }
    let stats = conv.stats;
    BatchOutcome { rows: out, stats, errors: conv.errors }
}

/// The header of the output: the target column names, in table order.
pub open spec fn header_names(cols: ColsView) -> Seq<Seq<char>> {
    cols.map_values(|p: (Seq<char>, Seq<char>)| p.1)
}

/// The cell values of one output row, in order.
pub open spec fn row_values(t: ColsView) -> Seq<Seq<char>> {
    t.map_values(|p: (Seq<char>, Seq<char>)| p.1)
}

/// The exact text of the output's data part: each surviving row encoded
/// as a record and terminated by a line feed.
pub open spec fn render_rows_text(rows: Seq<ColsView>) -> Seq<char>
    decreases rows.len(),
{
    if rows.len() == 0 {
        Seq::empty()
    } else {
        encode_record(row_values(rows[0])) + seq!['\n'] + render_rows_text(rows.drop_first())
    }
}

/// The exact text of a whole run's output file: the header record, a
/// line feed, then every surviving row of the batch in order.
pub open spec fn output_text(
    cols: ColsView,
    memo: Option<MemoView>,
    files: Seq<Seq<ColsView>>,
) -> Seq<char> {
    encode_record(header_names(cols)) + seq!['\n'] + render_rows_text(
        batch_successes(cols, memo, files),
    )
}

/// Law: the output text is a function of the mapping and the input rows
/// alone — re-running the converter on the same input produces
/// byte-identical output.
pub proof fn lemma_output_deterministic(
    cols: ColsView,
    memo: Option<MemoView>,
    files1: Seq<Seq<ColsView>>,
    files2: Seq<Seq<ColsView>>,
)
    requires
        files1 == files2,
    ensures
        output_text(cols, memo, files1) == output_text(cols, memo, files2),
{
}

proof fn lemma_render_rows_snoc(rows: Seq<ColsView>, x: ColsView)
    ensures
        render_rows_text(rows.push(x)) == render_rows_text(rows) + encode_record(row_values(x))
            + seq!['\n'],
    decreases rows.len(),
{
    if rows.len() == 0 {
        assert(rows.push(x)[0] == x);
        assert(rows.push(x).drop_first() =~= Seq::<ColsView>::empty());
        assert(render_rows_text(Seq::<ColsView>::empty()) =~= Seq::<char>::empty());
        assert(render_rows_text(rows.push(x)) =~= render_rows_text(rows) + encode_record(
            row_values(x),
        ) + seq!['\n']);
    } else {
        assert(rows.push(x)[0] == rows[0]);
        assert(rows.push(x).drop_first() =~= rows.drop_first().push(x));
        lemma_render_rows_snoc(rows.drop_first(), x);
        assert(render_rows_text(rows.push(x)) =~= render_rows_text(rows) + encode_record(
            row_values(x),
        ) + seq!['\n']);
    }
}

/// The output header record, encoded: the target column names joined by
/// commas.
pub fn header_line(ms: &MappingSpec) -> (r: String)
    ensures
        r@ == encode_record(header_names(ms.cols_view())),
{
    let pairs = &ms.columns.pairs;
    let mut names: Vec<String> = Vec::new();
    let mut i: usize = 0;
    while i < pairs.len()
        invariant
            i <= pairs.len(),
            names.len() == i,
            forall|j: int|
                0 <= j < i ==> #[trigger] names.deep_view()[j] == ms.cols_view()[j].1,
            ms.cols_view() == pairs.deep_view(),
        decreases pairs.len() - i,
    {
        let ghost prev = names.deep_view();
        names.push(pairs[i].1.clone());
        proof {
            assert(forall|j: int|
                0 <= j < prev.len() ==> #[trigger] names.deep_view()[j] == prev[j]);
            assert(names.deep_view()[i as int] == ms.cols_view()[i as int].1);
        }
        i += 1;
    }
    proof {
        assert(names.deep_view() =~= header_names(ms.cols_view()));
    }
    format_record(&names)
}

/// One output row, encoded: its cell values joined by commas.
pub fn render_row_line(t: &TargetRow) -> (r: String)
    ensures
        r@ == encode_record(row_values(t@)),
{
    let vals = t.values();
    format_record(&vals)
}

/// The whole output text for already-converted rows: the header record,
/// a line feed, then each row's record and line feed, byte for byte.
pub fn render_output(ms: &MappingSpec, rows: &Vec<TargetRow>) -> (r: String)
    ensures
        r@ == encode_record(header_names(ms.cols_view())) + seq!['\n'] + render_rows_text(
            rows.deep_view(),
        ),
{
    let mut out = header_line(ms);
    crate::strutil::push_char(&mut out, '\n');
    proof {
        assert(rows.deep_view().take(0) =~= Seq::<ColsView>::empty());
        assert(out@ =~= encode_record(header_names(ms.cols_view())) + seq!['\n']
            + render_rows_text(rows.deep_view().take(0)));
    }
    let mut i: usize = 0;
    while i < rows.len()
        invariant
            i <= rows.len(),
            rows.deep_view().len() == rows.len(),
            out@ == encode_record(header_names(ms.cols_view())) + seq!['\n'] + render_rows_text(
                rows.deep_view().take(i as int),
            ),
        decreases rows.len() - i,
    {
        let line = render_row_line(&rows[i]);
        out.append(line.as_str());
        crate::strutil::push_char(&mut out, '\n');
        proof {
            lemma_render_rows_snoc(rows.deep_view().take(i as int), rows.deep_view()[i as int]);
            assert(rows.deep_view().take(i as int + 1) =~= rows.deep_view().take(i as int).push(
                rows.deep_view()[i as int],
            ));
            assert(out@ =~= encode_record(header_names(ms.cols_view())) + seq!['\n']
                + render_rows_text(rows.deep_view().take(i as int + 1)));
        }
        i += 1;
    }
    proof {
        assert(rows.deep_view().take(rows.len() as int) =~= rows.deep_view());
    }
    out
}

fn clone_pairs(pairs: &Vec<(String, String)>) -> (r: Vec<(String, String)>)
    ensures
        r.deep_view() == pairs.deep_view(),
{
    let mut out: Vec<(String, String)> = Vec::new();
    let mut i: usize = 0;
    while i < pairs.len()
        invariant
            i <= pairs.len(),
            out.len() == i,
            forall|j: int| 0 <= j < i ==> #[trigger] out.deep_view()[j] == pairs.deep_view()[j],
        decreases pairs.len() - i,
    {
        let ghost prev = out.deep_view();
        out.push((pairs[i].0.clone(), pairs[i].1.clone()));
        proof {
            assert(forall|j: int|
                0 <= j < prev.len() ==> #[trigger] out.deep_view()[j] == prev[j]);
            assert(out.deep_view()[i as int] == pairs.deep_view()[i as int]);
        }
        i += 1;
    }
    proof {
        assert(out.deep_view() =~= pairs.deep_view());
    }
    out
}

fn clone_memo(memo: &Option<crate::mapping::DerivedMemoSpec>) -> (r: Option<
    crate::mapping::DerivedMemoSpec,
>)
    ensures
        match r {
            Some(m) => memo matches Some(o) && m@ == o@,
            None => memo is None,
        },
{
    match memo {
        Some(m) => Some(
            crate::mapping::DerivedMemoSpec {
                target: m.target.clone(),
                reference: m.reference.clone(),
                paid_amount: m.paid_amount.clone(),
                paid_currency: m.paid_currency.clone(),
                exchange_rate: m.exchange_rate.clone(),
            },
        ),
        None => None,
    }
}

} // verus!
