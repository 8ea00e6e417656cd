//! The pipeline orchestrator: parse, project onto the required
//! columns, normalize the identity column, serialize.  Any stage
//! failure aborts the run and surfaces that stage's error unchanged.

use vstd::prelude::*;
use vstd::string::StringExecFns;

use crate::errors::PipelineError;
use crate::reader::data_rows_of;
use crate::reader::header_of;
use crate::reader::parse_ok;
use crate::reader::parse_table;
use crate::table::distinct_names;
use crate::table::Table;
use crate::transform::first_absent;
use crate::transform::normalize_rows;
use crate::transform::project_rows;
use crate::writer::render_table;

verus! {

/// The five required column names, in output order: the identity
/// column first, then the four usage-count columns.
pub open spec fn required_names() -> Seq<Seq<char>> {
    seq![
        "Name"@,
        "Total Prints"@,
        "Black & WhiteTotal(Printer)"@,
        "Black & WhiteTotal(Copier/Document Server)"@,
        "Black & White(Large size)(Printer)"@,
    ]
}

/// The required column names as runnable values, pairwise distinct.
pub fn selected_columns() -> (r: Vec<String>)
    ensures
        r.deep_view() == required_names(),
        distinct_names(required_names()),
{
    let mut r: Vec<String> = Vec::new();
    r.push(String::from_str("Name"));
    r.push(String::from_str("Total Prints"));
    r.push(String::from_str("Black & WhiteTotal(Printer)"));
    r.push(String::from_str("Black & WhiteTotal(Copier/Document Server)"));
    r.push(String::from_str("Black & White(Large size)(Printer)"));
    proof {
        reveal_strlit("Name");
        reveal_strlit("Total Prints");
        reveal_strlit("Black & WhiteTotal(Printer)");
        reveal_strlit("Black & WhiteTotal(Copier/Document Server)");
        reveal_strlit("Black & White(Large size)(Printer)");
        assert(r.deep_view() =~= required_names());
        assert(required_names()[0].len() == 4);
        assert(required_names()[1].len() == 12);
        assert(required_names()[2].len() == 27);
        assert(required_names()[3].len() == 42);
        assert(required_names()[4].len() == 34);
    }
    r
}

/// The identity column's name: the one column that is normalized.
pub fn identity_column() -> (r: String)
    ensures
        r@ == "Name"@,
        required_names().contains("Name"@),
{
    proof {
        assert(required_names()[0] == "Name"@);
    }
    String::from_str("Name")
}

/// The characters stripped from the identity column's cells.
pub fn bracket_chars() -> (r: Vec<char>)
    ensures
        r@ == seq!['[', ']'],
{
    let mut r: Vec<char> = Vec::new();
    r.push('[');
    r.push(']');
    proof {
        assert(r@ =~= seq!['[', ']']);
    }
    r
}

/// What a successful run yields: the final table, its serialized text
/// ready to be written out, and the row count.
#[derive(Debug)]
pub struct PipelineOutput {
    pub table: Table,
    pub output_text: String,
    pub row_count: usize,
}

/// Run the whole transformation on input text already read from the
/// input location: parse, project onto `wanted`, strip `banned`
/// characters from the `target` column, serialize.  Succeeds exactly
/// when the text parses and every wanted column is present; a parse
/// failure or the first missing column aborts the run.
pub fn run_pipeline(input_text: &str, wanted: &Vec<String>, target: &String, banned: &Vec<char>)
    -> (r: Result<PipelineOutput, PipelineError>)
    requires
        distinct_names(wanted.deep_view()),
        wanted.deep_view().contains(target@),
    ensures
        match r {
            Ok(out) => {
                &&& parse_ok(input_text@)
                &&& first_absent(header_of(input_text@), wanted.deep_view())
                    == wanted.deep_view().len()
                &&& out.table.wf()
                &&& out.table.names_view() == wanted.deep_view()
                &&& out.table.rows_view() == normalize_rows(
                    wanted.deep_view(),
                    project_rows(
                        header_of(input_text@),
                        data_rows_of(input_text@),
                        wanted.deep_view(),
                    ),
                    target@,
                    banned@,
                )
                &&& out.row_count == data_rows_of(input_text@).len()
                &&& out.output_text@ == render_table(out.table.names_view(), out.table.rows_view())
            },
            Err(e) => {
                ||| (e is ParseFailure && !parse_ok(input_text@))
                ||| (parse_ok(input_text@) && first_absent(
                    header_of(input_text@),
                    wanted.deep_view(),
                ) < wanted.deep_view().len() && (e matches PipelineError::MissingColumn(n) && n@
                    == wanted.deep_view()[first_absent(header_of(input_text@), wanted.deep_view())]))
            },
        },
{
    let parsed = match parse_table(input_text) {
        Ok(t) => t,
        Err(e) => {
            return Err(e);
        },
    };
    let mut projected = match parsed.project(wanted) {
        Ok(p) => p,
        Err(e) => {
            return Err(e);
        },
    };
    projected.normalize(target, banned);
    let output_text = projected.write_table();
    let row_count = projected.height();
    Ok(PipelineOutput { table: projected, output_text, row_count })
}

/// The fixed transformation of this tool: keep the five required
/// columns and strip square brackets from the identity column.
pub fn process_csv_text(input_text: &str) -> (r: Result<PipelineOutput, PipelineError>)
    ensures
        match r {
            Ok(out) => {
                &&& parse_ok(input_text@)
                &&& first_absent(header_of(input_text@), required_names())
                    == required_names().len()
                &&& out.table.wf()
                &&& out.table.names_view() == required_names()
                &&& out.table.rows_view() == normalize_rows(
                    required_names(),
                    project_rows(
                        header_of(input_text@),
                        data_rows_of(input_text@),
                        required_names(),
                    ),
                    "Name"@,
                    seq!['[', ']'],
                )
                &&& out.row_count == data_rows_of(input_text@).len()
                &&& out.output_text@ == render_table(out.table.names_view(), out.table.rows_view())
            },
            Err(e) => {
                ||| (e is ParseFailure && !parse_ok(input_text@))
                ||| (parse_ok(input_text@) && first_absent(
                    header_of(input_text@),
                    required_names(),
                ) < required_names().len() && (e matches PipelineError::MissingColumn(n) && n@
                    == required_names()[first_absent(header_of(input_text@), required_names())]))
            },
        },
{
    let wanted = selected_columns();
    let target = identity_column();
    let banned = bracket_chars();
    run_pipeline(input_text, &wanted, &target, &banned)
}

} // verus!
