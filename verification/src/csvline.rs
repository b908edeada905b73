//! The CSV record codec, for the fixed dialect of the converter:
//! comma-delimited, double-quote quoting, a quote inside a quoted field
//! written twice. `encode_record` pins the exact bytes a record is
//! written as; `parse_record` reads one record from one line (the dialect
//! keeps no line breaks inside quoted fields).

use vstd::prelude::*;
use vstd::string::{StrSliceExecFns, StringExecFns};
use crate::strutil::push_char;

verus! {

/// A character that forces a field to be quoted on output.
pub open spec fn is_special(c: char) -> bool {
    c == ',' || c == '"' || c == '\n' || c == '\r'
}

pub open spec fn needs_quoting(f: Seq<char>) -> bool {
    exists|i: int| 0 <= i < f.len() && is_special(f[i])
}

/// A single character as it appears inside a quoted field.
pub open spec fn esc_char(c: char) -> Seq<char> {
    if c == '"' {
        seq!['"', '"']
    } else {
        seq![c]
    }
}

pub open spec fn escape_quotes(f: Seq<char>) -> Seq<char>
    decreases f.len(),
{
    if f.len() == 0 {
        Seq::empty()
    } else {
        esc_char(f[0]) + escape_quotes(f.drop_first())
    }
}

/// The exact text a field is written as: quoted (with doubled inner
/// quotes) when it holds a delimiter, a quote or a line break, verbatim
/// otherwise.
pub open spec fn encode_field(f: Seq<char>) -> Seq<char> {
    if needs_quoting(f) {
        seq!['"'] + escape_quotes(f) + seq!['"']
    } else {
        f
    }
}

/// The exact text a record is written as: the encoded fields joined by
/// commas.
pub open spec fn encode_record(fs: Seq<Seq<char>>) -> Seq<char>
    decreases fs.len(),
{
    if fs.len() == 0 {
        Seq::empty()
    } else if fs.len() == 1 {
        encode_field(fs[0])
    } else {
        encode_field(fs[0]) + seq![','] + encode_record(fs.drop_first())
    }
}

proof fn lemma_escape_snoc(f: Seq<char>, c: char)
    ensures
        escape_quotes(f.push(c)) == escape_quotes(f) + esc_char(c),
    decreases f.len(),
{
    if f.len() == 0 {
        assert(f.push(c)[0] == c);
        assert(f.push(c).drop_first() =~= Seq::<char>::empty());
        assert(escape_quotes(Seq::<char>::empty()) =~= Seq::<char>::empty());
        assert(escape_quotes(f.push(c)) =~= esc_char(c));
        assert(escape_quotes(f) + esc_char(c) =~= esc_char(c));
    } else {
        assert(f.push(c).drop_first() =~= f.drop_first().push(c));
        lemma_escape_snoc(f.drop_first(), c);
        assert(escape_quotes(f.push(c)) =~= escape_quotes(f) + esc_char(c));
    }
}

proof fn lemma_encode_record_snoc(fs: Seq<Seq<char>>, f: Seq<char>)
    ensures
        encode_record(fs.push(f)) == if fs.len() == 0 {
            encode_field(f)
        } else {
            encode_record(fs) + seq![','] + encode_field(f)
        },
    decreases fs.len(),
{
    if fs.len() == 0 {
        assert(encode_record(fs.push(f)) == encode_field(fs.push(f)[0]));
        assert(fs.push(f)[0] == f);
    } else {
        assert(fs.push(f).drop_first() =~= fs.drop_first().push(f));
        lemma_encode_record_snoc(fs.drop_first(), f);
        if fs.len() == 1 {
            assert(encode_record(fs) == encode_field(fs[0]));
            assert(encode_record(fs.push(f)) =~= encode_record(fs) + seq![','] + encode_field(f));
        } else {
            assert(encode_record(fs.push(f)) =~= encode_record(fs) + seq![','] + encode_field(f));
        }
    }
}

fn field_needs_quoting(f: &str) -> (b: bool)
    ensures
        b == needs_quoting(f@),
{
    let n = f.unicode_len();
    let mut i: usize = 0;
    while i < n
        invariant
            i <= n,
            n == f@.len(),
            forall|j: int| 0 <= j < i ==> !is_special(f@[j]),
        decreases n - i,
    {
        let c = f.get_char(i);
        if c == ',' || c == '"' || c == '\n' || c == '\r' {
            proof {
                assert(is_special(f@[i as int]));
            }
            return true;
        }
        i += 1;
    }
    false
}

fn append_escaped(out: &mut String, f: &str)
    ensures
        final(out)@ == old(out)@ + escape_quotes(f@),
{
    let n = f.unicode_len();
    let mut i: usize = 0;
    while i < n
        invariant
            i <= n,
            n == f@.len(),
            out@ == old(out)@ + escape_quotes(f@.take(i as int)),
        decreases n - i,
    {
        let c = f.get_char(i);
        if c == '"' {
            push_char(out, '"');
            push_char(out, '"');
        } else {
            push_char(out, c);
        }
        proof {
            lemma_escape_snoc(f@.take(i as int), f@[i as int]);
            assert(f@.take(i as int + 1) =~= f@.take(i as int).push(f@[i as int]));
            assert(out@ =~= old(out)@ + escape_quotes(f@.take(i as int + 1)));
        }
        i += 1;
    }
    proof {
        assert(f@.take(n as int) =~= f@);
    }
}

fn append_field(out: &mut String, f: &str)
    ensures
        final(out)@ == old(out)@ + encode_field(f@),
{
    if field_needs_quoting(f) {
        push_char(out, '"');
        append_escaped(out, f);
        push_char(out, '"');
        proof {
            assert(out@ =~= old(out)@ + encode_field(f@));
        }
    } else {
        out.append(f);
    }
}

/// Writes one record in the output dialect: fields joined by commas, each
/// quoted exactly when it needs to be. The result is pinned byte for
/// byte by `encode_record`.
pub fn format_record(fields: &Vec<String>) -> (r: String)
    ensures
        r@ == encode_record(fields.deep_view()),
{
    let mut out = String::new();
    let mut i: usize = 0;
    while i < fields.len()
        invariant
            i <= fields.len(),
            fields.deep_view().len() == fields.len(),
            out@ == encode_record(fields.deep_view().take(i as int)),
        decreases fields.len() - i,
    {
        if i > 0 {
            push_char(&mut out, ',');
        }
        append_field(&mut out, fields[i].as_str());
        proof {
            lemma_encode_record_snoc(
                fields.deep_view().take(i as int),
                fields.deep_view()[i as int],
            );
            assert(fields.deep_view().take(i as int + 1) =~= fields.deep_view().take(
                i as int,
            ).push(fields.deep_view()[i as int]));
            if i > 0 {
                assert(out@ =~= encode_record(fields.deep_view().take(i as int + 1)));
            } else {
                assert(out@ =~= encode_record(fields.deep_view().take(1)));
            }
        }
        i += 1;
    }
    proof {
        assert(fields.deep_view().take(fields.len() as int) =~= fields.deep_view());
    }
    out
}

/// The reader's state between two characters of a record.
pub enum ScanMode {
    /// In an unquoted field (possibly still empty).
    Unquoted,
    /// Inside a quoted field.
    Quoted,
    /// Right after a quote inside a quoted field: either the field's end
    /// or the first half of a doubled quote.
    QuoteClosed,
}

/// One step short of the whole grammar: reads `s` left to right with the
/// accumulated `fields`, the current field `cur` and the reader state,
/// and yields the fields of the record, or `None` when the text is not a
/// record of the dialect.
pub open spec fn scan(
    s: Seq<char>,
    fields: Seq<Seq<char>>,
    cur: Seq<char>,
    mode: ScanMode,
) -> Option<Seq<Seq<char>>>
    decreases s.len(),
{
    if s.len() == 0 {
        match mode {
            ScanMode::Quoted => None,
            _ => Some(fields.push(cur)),
        }
    } else {
        let c = s[0];
        let rest = s.drop_first();
        match mode {
            ScanMode::Unquoted => if c == ',' {
                scan(rest, fields.push(cur), Seq::empty(), ScanMode::Unquoted)
            } else if c == '"' {
                if cur.len() == 0 {
                    scan(rest, fields, cur, ScanMode::Quoted)
                } else {
                    None
                }
            } else {
                scan(rest, fields, cur.push(c), ScanMode::Unquoted)
            },
            ScanMode::Quoted => if c == '"' {
                scan(rest, fields, cur, ScanMode::QuoteClosed)
            } else {
                scan(rest, fields, cur.push(c), ScanMode::Quoted)
            },
            ScanMode::QuoteClosed => if c == '"' {
                scan(rest, fields, cur.push('"'), ScanMode::Quoted)
            } else if c == ',' {
                scan(rest, fields.push(cur), Seq::empty(), ScanMode::Unquoted)
            } else {
                None
            },
        }
    }
}

/// The fields of one record line, or `None` when the line is malformed
/// (a stray quote in an unquoted field, text after a closing quote, or
/// an unterminated quoted field).
pub open spec fn parse_record_spec(line: Seq<char>) -> Option<Seq<Seq<char>>> {
    scan(line, Seq::empty(), Seq::empty(), ScanMode::Unquoted)
}

proof fn lemma_scan_unquoted_field(f: Seq<char>, y: Seq<char>, acc: Seq<Seq<char>>, cur: Seq<char>)
    requires
        forall|i: int| 0 <= i < f.len() ==> !is_special(#[trigger] f[i]),
    ensures
        scan(f + y, acc, cur, ScanMode::Unquoted) == scan(y, acc, cur + f, ScanMode::Unquoted),
    decreases f.len(),
{
    if f.len() == 0 {
        assert(f + y =~= y);
        assert(cur + f =~= cur);
    } else {
        let c = f[0];
        assert((f + y)[0] == c);
        assert(!is_special(c));
        assert((f + y).drop_first() =~= f.drop_first() + y);
        assert(forall|i: int|
            0 <= i < f.drop_first().len() ==> !is_special(#[trigger] f.drop_first()[i]));
        lemma_scan_unquoted_field(f.drop_first(), y, acc, cur.push(c));
        assert(cur.push(c) + f.drop_first() =~= cur + f);
    }
}

proof fn lemma_scan_quoted_content(f: Seq<char>, y: Seq<char>, acc: Seq<Seq<char>>, cur: Seq<char>)
    ensures
        scan(escape_quotes(f) + y, acc, cur, ScanMode::Quoted) == scan(
            y,
            acc,
            cur + f,
            ScanMode::Quoted,
        ),
    decreases f.len(),
{
    if f.len() == 0 {
        assert(escape_quotes(f) + y =~= y);
        assert(cur + f =~= cur);
    } else {
        let c = f[0];
        if c == '"' {
            assert(escape_quotes(f) =~= seq!['"', '"'] + escape_quotes(f.drop_first()));
            let s = escape_quotes(f) + y;
            assert(s[0] == '"');
            assert(s.drop_first() =~= seq!['"'] + (escape_quotes(f.drop_first()) + y));
            let s1 = s.drop_first();
            assert(s1[0] == '"');
            assert(s1.drop_first() =~= escape_quotes(f.drop_first()) + y);
            assert(scan(s, acc, cur, ScanMode::Quoted) == scan(s1, acc, cur, ScanMode::QuoteClosed));
            assert(scan(s1, acc, cur, ScanMode::QuoteClosed) == scan(
                s1.drop_first(),
                acc,
                cur.push('"'),
                ScanMode::Quoted,
            ));
            lemma_scan_quoted_content(f.drop_first(), y, acc, cur.push('"'));
            assert(cur.push('"') + f.drop_first() =~= cur + f);
        } else {
            assert(escape_quotes(f) =~= seq![c] + escape_quotes(f.drop_first()));
            let s = escape_quotes(f) + y;
            assert(s[0] == c);
            assert(s.drop_first() =~= escape_quotes(f.drop_first()) + y);
            lemma_scan_quoted_content(f.drop_first(), y, acc, cur.push(c));
            assert(cur.push(c) + f.drop_first() =~= cur + f);
        }
    }
}

proof fn lemma_scan_encoded_field(f: Seq<char>, y: Seq<char>, acc: Seq<Seq<char>>)
    ensures
        needs_quoting(f) ==> scan(encode_field(f) + y, acc, Seq::empty(), ScanMode::Unquoted)
            == scan(y, acc, f, ScanMode::QuoteClosed),
        !needs_quoting(f) ==> scan(encode_field(f) + y, acc, Seq::empty(), ScanMode::Unquoted)
            == scan(y, acc, f, ScanMode::Unquoted),
{
    if needs_quoting(f) {
        let s = encode_field(f) + y;
        assert(s[0] == '"');
        assert(s.drop_first() =~= escape_quotes(f) + (seq!['"'] + y));
        lemma_scan_quoted_content(f, seq!['"'] + y, acc, Seq::empty());
        assert(Seq::empty() + f =~= f);
        let s2 = seq!['"'] + y;
        assert(s2[0] == '"');
        assert(s2.drop_first() =~= y);
    } else {
        assert(forall|i: int| 0 <= i < f.len() ==> !is_special(#[trigger] f[i]));
        lemma_scan_unquoted_field(f, y, acc, Seq::empty());
        assert(encode_field(f) + y =~= f + y);
        assert(Seq::empty() + f =~= f);
    }
}

proof fn lemma_scan_record(fs: Seq<Seq<char>>, acc: Seq<Seq<char>>)
    requires
        fs.len() >= 1,
    ensures
        scan(encode_record(fs), acc, Seq::empty(), ScanMode::Unquoted) == Some(acc + fs),
    decreases fs.len(),
{
    if fs.len() == 1 {
        lemma_scan_encoded_field(fs[0], Seq::empty(), acc);
        assert(encode_record(fs) =~= encode_field(fs[0]) + Seq::<char>::empty());
        assert(acc.push(fs[0]) =~= acc + fs);
    } else {
        let y = seq![','] + encode_record(fs.drop_first());
        assert(encode_record(fs) =~= encode_field(fs[0]) + y);
        lemma_scan_encoded_field(fs[0], y, acc);
        assert(y[0] == ',');
        assert(y.drop_first() =~= encode_record(fs.drop_first()));
        lemma_scan_record(fs.drop_first(), acc.push(fs[0]));
        assert(acc.push(fs[0]) + fs.drop_first() =~= acc + fs);
    }
}

/// Law: the codec round-trips — any record of at least one field parses
/// back from its encoding to exactly the same fields.
pub proof fn lemma_encode_parse_round_trip(fields: Seq<Seq<char>>)
    requires
        fields.len() >= 1,
    ensures
        parse_record_spec(encode_record(fields)) == Some(fields),
{
    lemma_scan_record(fields, Seq::empty());
    assert(Seq::empty() + fields =~= fields);
}

/// Reads one record from one line of the fixed dialect. Exactly the
/// records that `parse_record_spec` accepts are parsed, to exactly those
/// fields.
pub fn parse_record(line: &str) -> (r: Option<Vec<String>>)
    ensures
        match r {
            Some(fs) => parse_record_spec(line@) == Some(fs.deep_view()),
            None => parse_record_spec(line@) is None,
        },
{
    let n = line.unicode_len();
    let mut fields: Vec<String> = Vec::new();
    let mut cur = String::new();
    let mut mode = ScanMode::Unquoted;
    let mut i: usize = 0;
    proof {
        assert(line@.skip(0) =~= line@);
        assert(fields.deep_view() =~= Seq::<Seq<char>>::empty());
    }
    while i < n
        invariant
            i <= n,
            n == line@.len(),
            parse_record_spec(line@) == scan(
                line@.skip(i as int),
                fields.deep_view(),
                cur@,
                mode,
            ),
        decreases n - i,
    {
        proof {
            assert(line@.skip(i as int)[0] == line@[i as int]);
            assert(line@.skip(i as int).drop_first() =~= line@.skip(i as int + 1));
        }
        let c = line.get_char(i);
        match mode {
            ScanMode::Unquoted => {
                if c == ',' {
                    let ghost prev = fields.deep_view();
                    fields.push(cur);
                    proof {
                        assert(forall|j: int|
                            0 <= j < prev.len() ==> #[trigger] fields.deep_view()[j] == prev[j]);
                        assert(fields.deep_view() =~= prev.push(cur@));
                    }
                    cur = String::new();
                } else if c == '"' {
                    if cur.as_str().is_empty() {
                        mode = ScanMode::Quoted;
                    } else {
                        return None;
                    }
                } else {
                    push_char(&mut cur, c);
                }
            },
            ScanMode::Quoted => {
                if c == '"' {
                    mode = ScanMode::QuoteClosed;
                } else {
                    push_char(&mut cur, c);
                }
            },
            ScanMode::QuoteClosed => {
                if c == '"' {
                    push_char(&mut cur, '"');
                    mode = ScanMode::Quoted;
                } else if c == ',' {
                    let ghost prev = fields.deep_view();
                    fields.push(cur);
                    proof {
                        assert(forall|j: int|
                            0 <= j < prev.len() ==> #[trigger] fields.deep_view()[j] == prev[j]);
                        assert(fields.deep_view() =~= prev.push(cur@));
                    }
                    cur = String::new();
                    mode = ScanMode::Unquoted;
                } else {
                    return None;
                }
            },
        }
        i += 1;
    }
    proof {
        assert(line@.skip(n as int).len() == 0);
    }
    match mode {
        ScanMode::Quoted => None,
        _ => {
            let ghost prev = fields.deep_view();
            fields.push(cur);
            proof {
                assert(forall|j: int|
                    0 <= j < prev.len() ==> #[trigger] fields.deep_view()[j] == prev[j]);
                assert(fields.deep_view() =~= prev.push(cur@));
            }
            Some(fields)
        },
    }
}

} // verus!
