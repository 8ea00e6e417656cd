//! Cross-cutting laws of the pipeline, stated over the spec functions
//! that the stage contracts use and proved once and for all.

use vstd::prelude::*;

use crate::reader::data_rows_of;
use crate::reader::header_of;
use crate::reader::lines_of;
use crate::reader::parse_ok;
use crate::table::distinct_names;
use crate::text::join_with;
use crate::text::lemma_join_with_no_char;
use crate::text::lemma_split_join;
use crate::text::lemma_terminate_as_join;
use crate::text::split_on;
use crate::text::terminate_lines;
use crate::transform::find_name;
use crate::transform::first_absent;
use crate::transform::lemma_find_name_bounds;
use crate::transform::lemma_first_absent_at;
use crate::transform::lemma_normalize_rows_noop;
use crate::transform::normalize_rows;
use crate::transform::project_rows;
use crate::writer::render_table;
use crate::writer::table_lines;

verus! {

/// Writing a table and reading the text back reproduces the table
/// exactly: the parse succeeds, the header names are the table's
/// column names, and the data rows are the table's rows.  Holds for
/// every well-formed table whose names and cells are free of the
/// delimiter and newline characters, which the serialized form cannot
/// carry inside a cell.
pub proof fn lemma_write_parse_round_trip(names: Seq<Seq<char>>, rows: Seq<Seq<Seq<char>>>)
    requires
        names.len() >= 1,
        distinct_names(names),
        forall|i: int| 0 <= i < rows.len() ==> (#[trigger] rows[i]).len() == names.len(),
        forall|p: int, k: int|
            0 <= p < names.len() && 0 <= k < names[p].len() ==> #[trigger] names[p][k] != ','
                && names[p][k] != '\n' && names[p][k] != '\r',
        forall|i: int, j: int, k: int|
            0 <= i < rows.len() && 0 <= j < rows[i].len() && 0 <= k < rows[i][j].len()
                ==> #[trigger] rows[i][j][k] != ',' && rows[i][j][k] != '\n' && rows[i][j][k]
                != '\r',
    ensures
        parse_ok(render_table(names, rows)),
        header_of(render_table(names, rows)) == names,
        data_rows_of(render_table(names, rows)) == rows,
{
    let ls = table_lines(names, rows);
    let text = render_table(names, rows);
    assert(ls.len() == rows.len() + 1);
    assert(ls[0] == join_with(names, ','));
    assert forall|m: int| 1 <= m < ls.len() implies ls[m] == join_with(rows[m - 1], ',') by {}

    // No line holds a newline character.
    assert forall|m: int, k: int|
        0 <= m < ls.len() && 0 <= k < ls[m].len() implies #[trigger] ls[m][k] != '\n' by {
        if m == 0 {
            lemma_join_with_no_char(names, ',', '\n');
        } else {
            lemma_join_with_no_char(rows[m - 1], ',', '\n');
        }
    }

    // No line ends with a carriage return either, so the reader's
    // CR-stripping is the identity on every line.
    assert forall|m: int, k: int|
        0 <= m < ls.len() && 0 <= k < ls[m].len() implies #[trigger] ls[m][k] != '\r' by {
        if m == 0 {
            lemma_join_with_no_char(names, ',', '\r');
        } else {
            lemma_join_with_no_char(rows[m - 1], ',', '\r');
        }
    }

    // The serialized text splits back into the lines plus one trailing
    // empty segment.
    lemma_terminate_as_join(ls);
    let lse = ls.push(Seq::<char>::empty());
    assert forall|p: int, k: int|
        0 <= p < lse.len() && 0 <= k < lse[p].len() implies #[trigger] lse[p][k] != '\n' by {
        assert(lse[p] == ls[p]);
    }
    lemma_split_join(lse, '\n');
    assert(split_on(text, '\n') == lse);
    assert forall|i: int| 0 <= i < lse.len() implies #[trigger] crate::reader::stripped_segs(
        lse,
    )[i] == lse[i] by {
        if i < lse.len() - 1 && ls[i].len() > 0 {
            assert(ls[i][ls[i].len() - 1] != '\r');
        }
    }
    assert(crate::reader::stripped_segs(lse) =~= lse);
    assert(lse.last().len() == 0);
    assert(lines_of(text) =~= ls);

    // The header line splits back into the column names.
    lemma_split_join(names, ',');
    assert(header_of(text) == names);

    // Every data line splits back into its row.
    assert forall|i: int| 0 <= i < rows.len() implies data_rows_of(text)[i] == rows[i] by {
        assert(lines_of(text)[i + 1] == join_with(rows[i], ','));
        lemma_split_join(rows[i], ',');
    }
    assert(data_rows_of(text) =~= rows);
}

/// The full round trip of the pipeline's data path: for a table that
/// holds every wanted column and whose target column is already free
/// of the banned characters, normalization changes nothing, and
/// serializing the projected table then parsing the text reproduces
/// the projected data exactly.  The names and the selected cells must
/// be free of the delimiter and newline characters, which the
/// serialized form cannot carry inside a cell.
pub proof fn lemma_pipeline_round_trip(
    names: Seq<Seq<char>>,
    rows: Seq<Seq<Seq<char>>>,
    wanted: Seq<Seq<char>>,
    target: Seq<char>,
    banned: Seq<char>,
)
    requires
        distinct_names(names),
        forall|i: int| 0 <= i < rows.len() ==> (#[trigger] rows[i]).len() == names.len(),
        wanted.len() >= 1,
        distinct_names(wanted),
        first_absent(names, wanted) == wanted.len(),
        wanted.contains(target),
        forall|p: int, k: int|
            0 <= p < wanted.len() && 0 <= k < wanted[p].len() ==> #[trigger] wanted[p][k] != ','
                && wanted[p][k] != '\n' && wanted[p][k] != '\r',
        forall|i: int, j: int, k: int|
            0 <= i < rows.len() && 0 <= j < wanted.len() && 0 <= k < rows[i][find_name(
                names,
                wanted[j],
            )].len() ==> #[trigger] rows[i][find_name(names, wanted[j])][k] != ','
                && rows[i][find_name(names, wanted[j])][k] != '\n' && rows[i][find_name(
                names,
                wanted[j],
            )][k] != '\r',
        forall|i: int, k: int|
            0 <= i < rows.len() && 0 <= k < rows[i][find_name(names, target)].len()
                ==> !banned.contains(#[trigger] rows[i][find_name(names, target)][k]),
    ensures
        ({
            let prows = project_rows(names, rows, wanted);
            &&& normalize_rows(wanted, prows, target, banned) == prows
            &&& parse_ok(render_table(wanted, prows))
            &&& header_of(render_table(wanted, prows)) == wanted
            &&& data_rows_of(render_table(wanted, prows)) == prows
        }),
{
    let prows = project_rows(names, rows, wanted);
    assert forall|j: int| 0 <= j < wanted.len() implies find_name(names, #[trigger] wanted[j])
        < names.len() by {
        lemma_first_absent_contains(names, wanted, j);
        lemma_find_name_bounds(names, wanted[j]);
    }

    // Normalization is a no-op: the target column of the projection is
    // the original column named `target`, and it is banned-free.
    let j0 = find_name(wanted, target);
    lemma_find_name_bounds(wanted, target);
    assert(wanted[j0] == target);
    assert forall|i: int, k: int|
        0 <= i < prows.len() && find_name(wanted, target) < prows[i].len() && 0 <= k
            < prows[i][find_name(wanted, target)].len() implies !banned.contains(
        #[trigger] prows[i][find_name(wanted, target)][k],
    ) by {
        assert(prows[i][j0] == rows[i][find_name(names, wanted[j0])]);
        assert(!banned.contains(rows[i][find_name(names, target)][k]));
    }
    lemma_normalize_rows_noop(wanted, prows, target, banned);

    // The projected table is well-formed and delimiter-free, so the
    // writer-reader round trip applies to it.
    assert forall|i: int| 0 <= i < prows.len() implies (#[trigger] prows[i]).len()
        == wanted.len() by {}
    assert forall|i: int, j: int, k: int|
        0 <= i < prows.len() && 0 <= j < prows[i].len() && 0 <= k
            < prows[i][j].len() implies #[trigger] prows[i][j][k] != ',' && prows[i][j][k]
        != '\n' && prows[i][j][k] != '\r' by {
        assert(prows[i][j] == rows[i][find_name(names, wanted[j])]);
        assert(rows[i][find_name(names, wanted[j])][k] != ',');
        assert(rows[i][find_name(names, wanted[j])][k] != '\n');
        assert(rows[i][find_name(names, wanted[j])][k] != '\r');
    }
    lemma_write_parse_round_trip(wanted, prows);
}

/// Every entry of `wanted` before `first_absent` is present in
/// `names`; when `first_absent` is the length, all of them are.
proof fn lemma_first_absent_contains(names: Seq<Seq<char>>, wanted: Seq<Seq<char>>, j: int)
    requires
        0 <= j < wanted.len(),
        j < first_absent(names, wanted),
    ensures
        names.contains(wanted[j]),
    decreases wanted.len(),
{
    if names.contains(wanted[0]) {
        if j > 0 {
            assert(wanted.drop_first()[j - 1] == wanted[j]);
            lemma_first_absent_contains(names, wanted.drop_first(), j - 1);
        }
    }
}

} // verus!
