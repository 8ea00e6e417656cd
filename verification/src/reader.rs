//! The table reader: delimited text to an in-memory table.  The first
//! line is the header naming the columns in order; every following line
//! is one data row whose cell count must match the header.  A trailing
//! newline on the final line is accepted, and one optional carriage
//! return before each newline is dropped, so both LF and CRLF exports
//! parse alike.

use vstd::prelude::*;
use vstd::string::StrSliceExecFns;
use vstd::string::StringExecFns;

use crate::errors::PipelineError;
use crate::table::distinct_names;
use crate::table::Table;
use crate::text::lemma_split_on_len;
use crate::text::split_on;
use crate::text::split_str;

verus! {

/// A line as the reader sees it: one carriage return at its end, left
/// over from a CRLF terminator, is dropped.
pub open spec fn strip_cr(line: Seq<char>) -> Seq<char> {
    if line.len() > 0 && line.last() == '\r' {
        line.drop_last()
    } else {
        line
    }
}

/// Every segment but the last was terminated by a newline in the
/// source text; one optional carriage return before each such newline
/// is dropped.
pub open spec fn stripped_segs(segs: Seq<Seq<char>>) -> Seq<Seq<char>> {
    Seq::new(
        segs.len(),
        |i: int|
            if i < segs.len() - 1 {
                strip_cr(segs[i])
            } else {
                segs[i]
            },
    )
}

/// The lines of `text`: the segments between newline characters, each
/// freed of one optional carriage return before its newline, with one
/// trailing empty segment (from a final terminating newline, or from
/// empty text) dropped.
pub open spec fn lines_of(text: Seq<char>) -> Seq<Seq<char>> {
    let stripped = stripped_segs(split_on(text, '\n'));
    if stripped.len() > 0 && stripped.last().len() == 0 {
        stripped.drop_last()
    } else {
        stripped
    }
}

/// The column names: the cells of the first line.
pub open spec fn header_of(text: Seq<char>) -> Seq<Seq<char>> {
    split_on(lines_of(text)[0], ',')
}

/// The data rows: the cells of every line after the first.
pub open spec fn data_rows_of(text: Seq<char>) -> Seq<Seq<Seq<char>>> {
    if lines_of(text).len() == 0 {
        Seq::empty()
    } else {
        Seq::new(
            (lines_of(text).len() - 1) as nat,
            |i: int| split_on(lines_of(text)[i + 1], ','),
        )
    }
}

/// Whether `text` parses as a table: a header line exists, its column
/// names are pairwise distinct, and every data row has exactly one
/// cell per column.
pub open spec fn parse_ok(text: Seq<char>) -> bool {
    &&& lines_of(text).len() >= 1
    &&& distinct_names(header_of(text))
    &&& forall|i: int|
        0 <= i < data_rows_of(text).len() ==> (#[trigger] data_rows_of(text)[i]).len()
            == header_of(text).len()
}

/// Drop one carriage return from the end of a line, when one stands
/// there.
fn strip_cr_line(s: &str) -> (r: String)
    ensures
        r@ == strip_cr(s@),
{
    let n = s.unicode_len();
    if n > 0 && s.get_char(n - 1) == '\r' {
        let r = s.substring_char(0, n - 1).to_owned();
        proof {
            assert(s@.subrange(0, n as int - 1) =~= s@.drop_last());
        }
        r
    } else {
        s.to_owned()
    }
}

/// Parse delimited text into a table, or report why it is not one.
pub fn parse_table(text: &str) -> (r: Result<Table, PipelineError>)
    ensures
        match r {
            Ok(t) => {
                &&& parse_ok(text@)
                &&& t.wf()
                &&& t.names_view() == header_of(text@)
                &&& t.rows_view() == data_rows_of(text@)
            },
            Err(e) => !parse_ok(text@) && e is ParseFailure,
        },
{
    proof {
        lemma_split_on_len(text@, '\n');
    }
    let raw = split_str(text, '\n');
    let ghost raw_segs = raw.deep_view();
    let ghost all_segs = stripped_segs(raw_segs);
    let n = raw.len();
    let mut segs: Vec<String> = Vec::new();
    proof {
        assert(segs.deep_view() =~= all_segs.take(0));
    }
    let mut s0: usize = 0;
    while s0 < n
        invariant
            s0 <= n,
            n == raw@.len(),
            raw_segs == raw.deep_view(),
            raw_segs.len() == n as int,
            all_segs == stripped_segs(raw_segs),
            all_segs.len() == n as int,
            segs.deep_view() == all_segs.take(s0 as int),
        decreases n - s0,
    {
        let ghost prev = segs;
        if s0 + 1 < n {
            segs.push(strip_cr_line(raw[s0].as_str()));
        } else {
            segs.push(raw[s0].clone());
        }
        proof {
            crate::table::lemma_vec_push_deep_view(prev, segs, segs@[segs@.len() - 1]);
            assert(segs.deep_view() =~= all_segs.take(s0 as int + 1));
        }
        s0 += 1;
    }
    proof {
        assert(all_segs.take(n as int) =~= all_segs);
    }
    let last_is_empty = segs[segs.len() - 1].as_str().is_empty();
    if last_is_empty {
        let ghost before = segs;
        segs.pop();
        proof {
            assert forall|k: int| 0 <= k < segs.deep_view().len() implies segs.deep_view()[k]
                == all_segs.drop_last()[k] by {
                assert(segs@[k] == before@[k]);
            }
            assert(segs.deep_view() =~= all_segs.drop_last());
        }
    }
    proof {
        assert(all_segs.last() == all_segs[all_segs.len() - 1]);
        assert(segs.deep_view() == lines_of(text@));
    }
    let ghost lines = lines_of(text@);
    if segs.len() == 0 {
        return Err(PipelineError::ParseFailure(String::from_str("missing header row")));
    }
    let names = split_str(segs[0].as_str(), ',');
    let ghost nv = names.deep_view();
    proof {
        assert(segs@[0]@ == lines[0]);
        assert(nv == header_of(text@));
    }
    let mut a: usize = 0;
    while a < names.len()
        invariant
            a <= names@.len(),
            nv == names.deep_view(),
            nv.len() == names@.len(),
            nv == header_of(text@),
            forall|x: int, y: int| 0 <= x < y < nv.len() && x < a ==> nv[x] != nv[y],
        decreases names@.len() - a,
    {
        let mut b: usize = a + 1;
        while b < names.len()
            invariant
                a < b <= names@.len() || b == a + 1,
                a < names@.len(),
                nv == names.deep_view(),
                nv.len() == names@.len(),
                nv == header_of(text@),
                forall|x: int, y: int| 0 <= x < y < nv.len() && x < a ==> nv[x] != nv[y],
                forall|y: int| a < y < b ==> nv[a as int] != nv[y],
            decreases names@.len() - b,
        {
            if names[a] == names[b] {
                proof {
                    assert(nv[a as int] == nv[b as int]);
                    assert(!distinct_names(header_of(text@)));
                }
                return Err(PipelineError::ParseFailure(String::from_str("duplicate column name")));
            }
            b += 1;
        }
        a += 1;
    }
    proof {
        assert(distinct_names(nv));
    }
    let ncols = names.len();
    let ghost drows = data_rows_of(text@);
    let mut rows: Vec<Vec<String>> = Vec::new();
    proof {
        assert(rows.deep_view() =~= drows.take(0));
    }
    let mut i: usize = 1;
    while i < segs.len()
        invariant
            1 <= i <= segs@.len(),
            nv == names.deep_view(),
            nv.len() == ncols,
            ncols == names@.len(),
            segs.deep_view() == lines,
            lines == lines_of(text@),
            lines.len() == segs@.len(),
            drows == data_rows_of(text@),
            drows.len() == lines.len() - 1,
            nv == header_of(text@),
            distinct_names(nv),
            rows.deep_view() == drows.take(i - 1),
            forall|k: int| 0 <= k < i - 1 ==> (#[trigger] drows[k]).len() == nv.len(),
        decreases segs@.len() - i,
    {
        let row = split_str(segs[i].as_str(), ',');
        proof {
            assert(segs@[i as int]@ == lines[i as int]);
            assert(row.deep_view() == drows[i - 1]);
        }
        if row.len() != ncols {
            proof {
                assert(drows[i - 1].len() != header_of(text@).len());
            }
            return Err(PipelineError::ParseFailure(String::from_str("row has wrong cell count")));
        }
        let ghost prev = rows;
        rows.push(row);
        proof {
            crate::table::lemma_vec_push_deep_view(prev, rows, rows@[rows@.len() - 1]);
            assert(rows.deep_view() =~= drows.take(i as int));
        }
        i += 1;
    }
    proof {
        assert(drows.take(drows.len() as int) =~= drows);
    }
    let t = Table { names, rows };
    proof {
        assert forall|k: int| 0 <= k < t.rows_view().len() implies (#[trigger] t.rows_view()[k]).len()
            == t.names_view().len() by {}
    }
    Ok(t)
}

} // verus!
