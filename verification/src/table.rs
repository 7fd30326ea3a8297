//! The allocation table parser.
//!
//! The table is semi-structured text: a header line whose tokens must be
//! exactly `buckets sectors fragmented`, then one row per line until the
//! first blank line or the end of input. A row is either four tokens
//! `type buckets sectors fragmented` or two tokens `capacity <buckets>`;
//! any other shape is fatal, because it signals that the on-disk schema no
//! longer matches this parser.

use vstd::prelude::*;
use crate::errors::ExtractionError;
use crate::errors::GExtractionError;
use crate::numbers::is_u64_str;
use crate::numbers::uint_val;
use crate::numbers::parse_u64;
use crate::text::is_ws;
use crate::text::find_first;
use crate::text::lemma_find_first_is;
use crate::text::views_of;
use crate::text::lemma_views_push;
use crate::text::str_to_chars;
use crate::text::chars_to_string;
use crate::text::chars_eq_str;
use crate::text::chars_subrange;

verus! {

pub open spec fn nl_pred() -> spec_fn(char) -> bool {
    |c: char| c == '\n'
}

pub open spec fn ws_pred() -> spec_fn(char) -> bool {
    |c: char| is_ws(c)
}

/// A carriage return directly before the line feed belongs to the line
/// ending, not to the line.
pub open spec fn strip_cr(l: Seq<char>) -> Seq<char> {
    if l.len() > 0 && l.last() == '\r' {
        l.drop_last()
    } else {
        l
    }
}

/// The lines of `s`: split at `\n` or `\r\n`, final line ending optional.
pub open spec fn spec_lines(s: Seq<char>) -> Seq<Seq<char>>
    decreases s.len(),
{
    if s.len() == 0 {
        Seq::empty()
    } else {
        let i = find_first(s, nl_pred());
        if i < s.len() {
            seq![strip_cr(s.subrange(0, i as int))] + spec_lines(s.skip(i as int + 1))
        } else {
            seq![s]
        }
    }
}

/// The maximal whitespace-free tokens of one line, in order.
pub open spec fn spec_tokens(s: Seq<char>) -> Seq<Seq<char>>
    decreases s.len(),
{
    if s.len() == 0 {
        Seq::empty()
    } else if is_ws(s[0]) {
        spec_tokens(s.skip(1))
    } else {
        let j = find_first(s, ws_pred());
        if j < s.len() {
            seq![s.subrange(0, j as int)] + spec_tokens(s.skip(j as int))
        } else {
            seq![s]
        }
    }
}

/// One line of the allocation table.
#[derive(Debug, PartialEq, Eq)]
pub enum AllocRow {
    /// `type buckets sectors fragmented`: one allocation type's usage.
    /// Only `ty` and `sectors` feed the produced metrics; the other two
    /// columns are validated as numerals and then unused.
    Typed { ty: String, buckets: u64, sectors: u64, fragmented: u64 },
    /// `capacity <buckets>`: the device's total size in buckets.
    Capacity { buckets: u64 },
}

/// Mathematical form of one table row.
pub enum GAllocRow {
    Typed { ty: Seq<char>, buckets: u64, sectors: u64, fragmented: u64 },
    Capacity { buckets: u64 },
}

impl View for AllocRow {
    type V = GAllocRow;

    open spec fn view(&self) -> GAllocRow {
        match self {
            AllocRow::Typed { ty, buckets, sectors, fragmented } => GAllocRow::Typed {
                ty: ty@,
                buckets: *buckets,
                sectors: *sectors,
                fragmented: *fragmented,
            },
            AllocRow::Capacity { buckets } => GAllocRow::Capacity { buckets: *buckets },
        }
    }
}

pub open spec fn rows_view(rs: Seq<AllocRow>) -> Seq<GAllocRow> {
    rs.map_values(|r: AllocRow| r@)
}

/// What one non-blank table line means, decided by its token shape.
pub open spec fn spec_parse_row(line: Seq<char>) -> Result<GAllocRow, GExtractionError> {
    let ts = spec_tokens(line);
    if ts.len() == 4 {
        if !is_u64_str(ts[1]) {
            Err(GExtractionError::InvalidNumber { text: ts[1] })
        } else if !is_u64_str(ts[2]) {
            Err(GExtractionError::InvalidNumber { text: ts[2] })
        } else if !is_u64_str(ts[3]) {
            Err(GExtractionError::InvalidNumber { text: ts[3] })
        } else {
            Ok(
                GAllocRow::Typed {
                    ty: ts[0],
                    buckets: uint_val(ts[1]) as u64,
                    sectors: uint_val(ts[2]) as u64,
                    fragmented: uint_val(ts[3]) as u64,
                },
            )
        }
    } else if ts.len() == 2 {
        if ts[0] != "capacity"@ {
            Err(GExtractionError::UnexpectedFormat)
        } else if !is_u64_str(ts[1]) {
            Err(GExtractionError::InvalidNumber { text: ts[1] })
        } else {
            Ok(GAllocRow::Capacity { buckets: uint_val(ts[1]) as u64 })
        }
    } else {
        Err(GExtractionError::UnexpectedFormat)
    }
}

/// The rows named by `lines`, up to the first blank line.
pub open spec fn spec_parse_rows(lines: Seq<Seq<char>>) -> Result<
    Seq<GAllocRow>,
    GExtractionError,
>
    decreases lines.len(),
{
    if lines.len() == 0 {
        Ok(Seq::empty())
    } else if lines[0].len() == 0 {
        Ok(Seq::empty())
    } else {
        match spec_parse_row(lines[0]) {
            Err(e) => Err(e),
            Ok(row) => match spec_parse_rows(lines.skip(1)) {
                Err(e) => Err(e),
                Ok(rest) => Ok(seq![row] + rest),
            },
        }
    }
}

/// Whether a line carries exactly the expected header tokens.
pub open spec fn header_ok(line: Seq<char>) -> bool {
    spec_tokens(line) == seq!["buckets"@, "sectors"@, "fragmented"@]
}

pub open spec fn skip_blank(lines: Seq<Seq<char>>) -> Seq<Seq<char>>
    decreases lines.len(),
{
    if lines.len() > 0 && lines[0].len() == 0 {
        skip_blank(lines.skip(1))
    } else {
        lines
    }
}

/// The whole table: the first non-empty line must be the header, the rows
/// follow until a blank line or the end of input.
pub open spec fn spec_parse_table(s: Seq<char>) -> Result<Seq<GAllocRow>, GExtractionError> {
    let ls = skip_blank(spec_lines(s));
    if ls.len() == 0 {
        Err(GExtractionError::UnexpectedFormat)
    } else if !header_ok(ls[0]) {
        Err(GExtractionError::UnexpectedFormat)
    } else {
        spec_parse_rows(ls.skip(1))
    }
}

/// A table whose first non-blank line is not exactly the header
/// `buckets sectors fragmented` — or that has no non-blank line at all —
/// always yields `UnexpectedFormat`, never a partial row list.
pub proof fn lemma_bad_header_rejected(s: Seq<char>)
    requires
        skip_blank(spec_lines(s)).len() == 0 || !header_ok(skip_blank(spec_lines(s))[0]),
    ensures
        spec_parse_table(s) == Err::<Seq<GAllocRow>, GExtractionError>(
            GExtractionError::UnexpectedFormat,
        ),
{
}

/// A table row with any token count other than 2 or 4 always yields
/// `UnexpectedFormat`.
pub proof fn lemma_bad_row_shape_rejected(line: Seq<char>)
    requires
        spec_tokens(line).len() != 2,
        spec_tokens(line).len() != 4,
    ensures
        spec_parse_row(line) == Err::<GAllocRow, GExtractionError>(
            GExtractionError::UnexpectedFormat,
        ),
{
}

/// A row error is never absorbed: as soon as one data line before the first
/// blank line fails to parse, the whole table yields that error and no row
/// list at all.
pub proof fn lemma_row_error_aborts(lines: Seq<Seq<char>>, i: int)
    requires
        0 <= i < lines.len(),
        forall|k: int| 0 <= k < i ==> (lines[k].len() > 0 && spec_parse_row(lines[k]) is Ok),
        lines[i].len() > 0,
        spec_parse_row(lines[i]) is Err,
    ensures
        spec_parse_rows(lines) == Err::<Seq<GAllocRow>, GExtractionError>(
            spec_parse_row(lines[i])->Err_0,
        ),
    decreases i,
{
    if i == 0 {
    } else {
        assert forall|k: int| 0 <= k < i - 1 implies (lines.skip(1)[k].len() > 0 && spec_parse_row(
            lines.skip(1)[k],
        ) is Ok) by {
            assert(lines.skip(1)[k] == lines[k + 1]);
        }
        assert(lines.skip(1)[i - 1] == lines[i]);
        lemma_row_error_aborts(lines.skip(1), i - 1);
    }
}

/// The lines of `v`, as `spec_lines` names them.
pub fn split_lines(v: &Vec<char>) -> (r: Vec<Vec<char>>)
    ensures
        views_of(r@) == spec_lines(v@),
{
    let mut out: Vec<Vec<char>> = Vec::new();
    let mut pos: usize = 0;
    proof {
        assert(v@.skip(0) =~= v@);
        assert(views_of(out@) + spec_lines(v@) =~= spec_lines(v@));
    }
    while pos < v.len()
        invariant
            pos <= v.len(),
            views_of(out@) + spec_lines(v@.skip(pos as int)) == spec_lines(v@),
        decreases v.len() - pos,
    {
        let ghost su = v@.skip(pos as int);
        let mut e: usize = pos;
        while e < v.len() && v[e] != '\n'
            invariant
                pos <= e <= v.len(),
                forall|k: int| pos <= k < e ==> v@[k] != '\n',
            decreases v.len() - e,
        {
            e = e + 1;
        }
        proof {
            assert forall|k: int| 0 <= k < e - pos implies !(nl_pred())(su[k]) by {
                assert(su[k] == v@[pos + k]);
            }
            if e < v.len() {
                assert(su[e - pos] == v@[e as int]);
            }
            lemma_find_first_is(su, nl_pred(), e - pos);
        }
        let mut line: Vec<char>;
        if e < v.len() {
            line = chars_subrange(v, pos, e);
            if line.len() > 0 && line[line.len() - 1] == '\r' {
                line.pop();
            }
            proof {
                assert(su.subrange(0, e - pos) =~= v@.subrange(pos as int, e as int));
                if v@.subrange(pos as int, e as int).len() > 0 && v@.subrange(
                    pos as int,
                    e as int,
                ).last() == '\r' {
                    assert(line@ =~= v@.subrange(pos as int, e as int).drop_last());
                }
                assert(line@ == strip_cr(su.subrange(0, e - pos)));
                assert(su.skip(e - pos + 1) =~= v@.skip(e as int + 1));
                lemma_views_push(out@, line);
                assert(views_of(out@.push(line)) + spec_lines(v@.skip(e as int + 1))
                    =~= spec_lines(v@));
            }
            out.push(line);
            pos = e + 1;
        } else {
            line = chars_subrange(v, pos, e);
            proof {
                assert(line@ =~= su);
                assert(spec_lines(su) =~= seq![su]);
                lemma_views_push(out@, line);
                assert(v@.skip(v@.len() as int).len() == 0);
                assert(views_of(out@.push(line)) + spec_lines(v@.skip(v@.len() as int))
                    =~= spec_lines(v@));
            }
            out.push(line);
            pos = e;
        }
    }
    proof {
        assert(spec_lines(v@.skip(v@.len() as int)) =~= Seq::<Seq<char>>::empty());
        assert(views_of(out@) =~= spec_lines(v@));
    }
    out
}

/// The whitespace-separated tokens of one line.
pub fn tokens_of_line(l: &Vec<char>) -> (r: Vec<Vec<char>>)
    ensures
        views_of(r@) == spec_tokens(l@),
{
    let mut out: Vec<Vec<char>> = Vec::new();
    let mut i: usize = 0;
    proof {
        assert(l@.skip(0) =~= l@);
        assert(views_of(out@) + spec_tokens(l@) =~= spec_tokens(l@));
    }
    while i < l.len()
        invariant
            i <= l.len(),
            views_of(out@) + spec_tokens(l@.skip(i as int)) == spec_tokens(l@),
        decreases l.len() - i,
    {
        let c = l[i];
        let ghost su = l@.skip(i as int);
        proof {
            assert(su[0] == l@[i as int]);
        }
        if c == ' ' || c == '\t' || c == '\r' {
            proof {
                assert(su.skip(1) =~= l@.skip(i as int + 1));
            }
            i = i + 1;
        } else {
            let mut j: usize = i + 1;
            while j < l.len() && !(l[j] == ' ' || l[j] == '\t' || l[j] == '\r')
                invariant
                    i < j <= l.len(),
                    forall|k: int| i <= k < j ==> !is_ws(l@[k]),
                decreases l.len() - j,
            {
                j = j + 1;
            }
            proof {
                assert forall|k: int| 0 <= k < j - i implies !(ws_pred())(su[k]) by {
                    assert(su[k] == l@[i + k]);
                }
                if j < l.len() {
                    assert(su[j - i] == l@[j as int]);
                }
                lemma_find_first_is(su, ws_pred(), j - i);
            }
            let token = chars_subrange(l, i, j);
            proof {
                assert(token@ =~= su.subrange(0, j - i));
                lemma_views_push(out@, token);
                if j < l.len() {
                    assert(su.skip(j - i) =~= l@.skip(j as int));
                    assert(views_of(out@.push(token)) + spec_tokens(l@.skip(j as int))
                        =~= spec_tokens(l@));
                } else {
                    assert(token@ =~= su);
                    assert(spec_tokens(su) =~= seq![su]);
                    assert(l@.skip(j as int).len() == 0);
                    assert(views_of(out@.push(token)) + spec_tokens(l@.skip(j as int))
                        =~= spec_tokens(l@));
                }
            }
            out.push(token);
            i = j;
        }
    }
    proof {
        assert(spec_tokens(l@.skip(l@.len() as int)) =~= Seq::<Seq<char>>::empty());
        assert(views_of(out@) =~= spec_tokens(l@));
    }
    out
}

/// Whether the line carries exactly the header tokens
/// `buckets sectors fragmented`.
pub fn is_header_line(l: &Vec<char>) -> (r: bool)
    ensures
        r == header_ok(l@),
{
    let ts = tokens_of_line(l);
    let ghost target = seq!["buckets"@, "sectors"@, "fragmented"@];
    if ts.len() != 3 {
        proof {
            assert(views_of(ts@).len() != target.len());
        }
        return false;
    }
    let ok = chars_eq_str(&ts[0], "buckets") && chars_eq_str(&ts[1], "sectors") && chars_eq_str(
        &ts[2],
        "fragmented",
    );
    proof {
        if ok {
            assert(views_of(ts@) =~= target);
        } else {
            assert(views_of(ts@)[0] == ts@[0]@);
            assert(views_of(ts@)[1] == ts@[1]@);
            assert(views_of(ts@)[2] == ts@[2]@);
        }
    }
    ok
}

/// One non-blank line of the table, dispatched by its token shape.
pub fn parse_row(l: &Vec<char>) -> (r: Result<AllocRow, ExtractionError>)
    ensures
        (match r {
            Ok(row) => spec_parse_row(l@) == Ok::<GAllocRow, GExtractionError>(row@),
            Err(e) => spec_parse_row(l@) == Err::<GAllocRow, GExtractionError>(e@),
        }),
{
    let ts = tokens_of_line(l);
    proof {
        assert(views_of(ts@).len() == ts@.len());
        assert forall|k: int| 0 <= k < ts@.len() implies views_of(ts@)[k] == ts@[k]@ by {}
    }
    if ts.len() == 4 {
        let buckets = match parse_u64(&ts[1]) {
            Some(n) => n,
            None => {
                return Err(ExtractionError::InvalidNumber { text: chars_to_string(&ts[1]) });
            },
        };
        let sectors = match parse_u64(&ts[2]) {
            Some(n) => n,
            None => {
                return Err(ExtractionError::InvalidNumber { text: chars_to_string(&ts[2]) });
            },
        };
        let fragmented = match parse_u64(&ts[3]) {
            Some(n) => n,
            None => {
                return Err(ExtractionError::InvalidNumber { text: chars_to_string(&ts[3]) });
            },
        };
        Ok(AllocRow::Typed { ty: chars_to_string(&ts[0]), buckets, sectors, fragmented })
    } else if ts.len() == 2 {
        if !chars_eq_str(&ts[0], "capacity") {
            return Err(ExtractionError::UnexpectedFormat);
        }
        let buckets = match parse_u64(&ts[1]) {
            Some(n) => n,
            None => {
                return Err(ExtractionError::InvalidNumber { text: chars_to_string(&ts[1]) });
            },
        };
        Ok(AllocRow::Capacity { buckets })
    } else {
        Err(ExtractionError::UnexpectedFormat)
    }
}

/// Parses the raw text of one device's allocation table.
///
/// Returns the rows up to the first blank line, or the error that
/// `spec_parse_table` names for this text: `UnexpectedFormat` when the
/// header or a row shape is wrong, `InvalidNumber` with the offending token
/// when a count does not parse.
pub fn parse_alloc_table(text: &str) -> (r: Result<Vec<AllocRow>, ExtractionError>)
    ensures
        (match r {
            Ok(rows) => spec_parse_table(text@) == Ok::<Seq<GAllocRow>, GExtractionError>(
                rows_view(rows@),
            ),
            Err(e) => spec_parse_table(text@) == Err::<Seq<GAllocRow>, GExtractionError>(e@),
        }),
{
    let chars = str_to_chars(text);
    let lines = split_lines(&chars);
    let ghost lsv = views_of(lines@);
    let mut h: usize = 0;
    proof {
        assert(lsv.skip(0) =~= lsv);
    }
    while h < lines.len() && lines[h].len() == 0
        invariant
            h <= lines.len(),
            lsv == views_of(lines@),
            lsv.len() == lines@.len(),
            skip_blank(lsv) == skip_blank(lsv.skip(h as int)),
        decreases lines.len() - h,
    {
        proof {
            assert(lsv.skip(h as int)[0] == lsv[h as int]);
            assert(lsv[h as int] == lines@[h as int]@);
            assert(lsv.skip(h as int).skip(1) =~= lsv.skip(h as int + 1));
        }
        h = h + 1;
    }
    if h == lines.len() {
        proof {
            assert(lsv.skip(h as int).len() == 0);
            assert(skip_blank(lsv).len() == 0);
        }
        return Err(ExtractionError::UnexpectedFormat);
    }
    proof {
        assert(lsv.skip(h as int)[0] == lines@[h as int]@);
        assert(lines@[h as int]@.len() > 0);
        assert(skip_blank(lsv) == lsv.skip(h as int));
    }
    if !is_header_line(&lines[h]) {
        proof {
            assert(skip_blank(lsv)[0] == lines@[h as int]@);
        }
        return Err(ExtractionError::UnexpectedFormat);
    }
    proof {
        assert(skip_blank(lsv)[0] == lines@[h as int]@);
    }
    let ghost dl = lsv.skip(h as int + 1);
    proof {
        assert(skip_blank(lsv).skip(1) =~= dl);
        assert(spec_parse_table(text@) == spec_parse_rows(dl));
    }
    let mut rows: Vec<AllocRow> = Vec::new();
    let mut i: usize = h + 1;
    proof {
        assert(lsv.skip(i as int) == dl);
        if spec_parse_rows(dl) is Ok {
            assert(rows_view(rows@) + spec_parse_rows(dl)->Ok_0 =~= spec_parse_rows(dl)->Ok_0);
        }
    }
    while i < lines.len()
        invariant
            h + 1 <= i <= lines.len(),
            lsv == views_of(lines@),
            lsv.len() == lines@.len(),
            dl == lsv.skip(h as int + 1),
            spec_parse_table(text@) == spec_parse_rows(dl),
            spec_parse_rows(dl) == (match spec_parse_rows(lsv.skip(i as int)) {
                Ok(rest) => Ok::<Seq<GAllocRow>, GExtractionError>(rows_view(rows@) + rest),
                Err(e) => Err::<Seq<GAllocRow>, GExtractionError>(e),
            }),
        decreases lines.len() - i,
    {
        proof {
            assert(lsv.skip(i as int)[0] == lines@[i as int]@);
            assert(lsv.skip(i as int).skip(1) =~= lsv.skip(i as int + 1));
        }
        if lines[i].len() == 0 {
            proof {
                assert(spec_parse_rows(lsv.skip(i as int)) == Ok::<
                    Seq<GAllocRow>,
                    GExtractionError,
                >(Seq::empty()));
                assert(rows_view(rows@) + Seq::<GAllocRow>::empty() =~= rows_view(rows@));
            }
            return Ok(rows);
        }
        match parse_row(&lines[i]) {
            Err(e) => {
                return Err(e);
            },
            Ok(row) => {
                proof {
                    if spec_parse_rows(lsv.skip(i as int + 1)) is Ok {
                        let rest = spec_parse_rows(lsv.skip(i as int + 1))->Ok_0;
                        assert(rows_view(rows@.push(row)) =~= rows_view(rows@).push(row@));
                        assert(rows_view(rows@) + (seq![row@] + rest) =~= rows_view(rows@.push(row))
                            + rest);
                    }
                }
                rows.push(row);
            },
        }
        i = i + 1;
    }
    proof {
        assert(lsv.skip(lsv.len() as int).len() == 0);
        assert(spec_parse_rows(lsv.skip(lsv.len() as int)) == Ok::<Seq<GAllocRow>, GExtractionError>(
            Seq::<GAllocRow>::empty(),
        ));
        assert(rows_view(rows@) + Seq::<GAllocRow>::empty() =~= rows_view(rows@));
    }
    Ok(rows)
}

} // verus!
