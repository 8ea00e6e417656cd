use csv_processing_automation::errors::PipelineError;
use csv_processing_automation::pipeline::bracket_chars;
use csv_processing_automation::pipeline::process_csv_text;
use csv_processing_automation::pipeline::run_pipeline;
use csv_processing_automation::pipeline::selected_columns;

const FULL_HEADER: &str = "Name,Total Prints,Black & WhiteTotal(Printer),Black & WhiteTotal(Copier/Document Server),Black & White(Large size)(Printer)";

#[test]
fn drops_extra_column_and_strips_brackets() {
    let input = format!("{},Extra\n[Dev-1],10,5,3,2,ignored\n", FULL_HEADER);
    let out = process_csv_text(&input).unwrap();
    assert_eq!(out.row_count, 1);
    assert_eq!(out.output_text, format!("{}\nDev-1,10,5,3,2\n", FULL_HEADER));
}

#[test]
fn missing_total_prints_column_is_named() {
    let input = "Name,Black & WhiteTotal(Printer),Black & WhiteTotal(Copier/Document Server),Black & White(Large size)(Printer)\n[Dev-1],5,3,2\n";
    match process_csv_text(input) {
        Err(PipelineError::MissingColumn(name)) => assert_eq!(name, "Total Prints"),
        other => panic!("expected MissingColumn, got {:?}", other),
    }
}

#[test]
fn nested_brackets_are_all_removed() {
    let input = format!("{}\n[[A]],1,2,3,4\n", FULL_HEADER);
    let out = process_csv_text(&input).unwrap();
    assert_eq!(out.output_text, format!("{}\nA,1,2,3,4\n", FULL_HEADER));
}

#[test]
fn output_keeps_exactly_the_five_columns_in_order() {
    let input = format!("Extra,{}\nignored,[Dev-1],10,5,3,2\n", FULL_HEADER);
    let out = process_csv_text(&input).unwrap();
    let names: Vec<String> = out.table.names;
    let wanted = selected_columns();
    assert_eq!(names, wanted);
}

#[test]
fn row_count_is_preserved() {
    let input = format!("{}\n[a],1,1,1,1\n[b],2,2,2,2\n[c],3,3,3,3\n", FULL_HEADER);
    let out = process_csv_text(&input).unwrap();
    assert_eq!(out.row_count, 3);
    assert_eq!(out.table.rows.len(), 3);
}

#[test]
fn header_only_input_gives_zero_rows() {
    let input = format!("{}\n", FULL_HEADER);
    let out = process_csv_text(&input).unwrap();
    assert_eq!(out.row_count, 0);
    assert_eq!(out.output_text, format!("{}\n", FULL_HEADER));
}

#[test]
fn crlf_line_endings_parse_like_lf() {
    let input = format!("{}\r\n[Dev-1],10,5,3,2\r\n", FULL_HEADER);
    let out = process_csv_text(&input).unwrap();
    assert_eq!(out.row_count, 1);
    assert_eq!(out.output_text, format!("{}\nDev-1,10,5,3,2\n", FULL_HEADER));
}

#[test]
fn empty_input_is_a_parse_failure() {
    match process_csv_text("") {
        Err(PipelineError::ParseFailure(_)) => {}
        other => panic!("expected ParseFailure, got {:?}", other),
    }
}

#[test]
fn inconsistent_cell_count_is_a_parse_failure() {
    let input = format!("{}\n[a],1,1,1,1,too-many\n", FULL_HEADER);
    match process_csv_text(&input) {
        Err(PipelineError::ParseFailure(_)) => {}
        other => panic!("expected ParseFailure, got {:?}", other),
    }
}

#[test]
fn duplicate_header_names_are_a_parse_failure() {
    match process_csv_text("Name,Name\nx,y\n") {
        Err(PipelineError::ParseFailure(_)) => {}
        other => panic!("expected ParseFailure, got {:?}", other),
    }
}

#[test]
fn pipeline_accepts_custom_configuration() {
    let wanted = vec![String::from("b"), String::from("a")];
    let target = String::from("a");
    let banned = vec!['-'];
    let out = run_pipeline("a,b,c\nx-1,y,z\n", &wanted, &target, &banned).unwrap();
    assert_eq!(out.output_text, "b,a\ny,x1\n");
}

#[test]
fn normalizing_twice_changes_nothing_more() {
    let input = format!("{}\n[Dev-1],10,5,3,2\n", FULL_HEADER);
    let out = process_csv_text(&input).unwrap();
    let mut table = out.table;
    let once = table.write_table();
    let target = String::from("Name");
    table.normalize(&target, &bracket_chars());
    let twice = table.write_table();
    assert_eq!(once, twice);
}

#[test]
fn round_trip_reproduces_bracket_free_data() {
    let input = format!("{},Extra\nDev-1,10,5,3,2,ignored\nDev-2,0,0,0,7,ignored\n", FULL_HEADER);
    let first = process_csv_text(&input).unwrap();
    let second = process_csv_text(&first.output_text).unwrap();
    assert_eq!(first.output_text, second.output_text);
    assert_eq!(second.row_count, 2);
}

#[test]
fn preview_is_bounded_by_requested_rows() {
    let input = format!(
        "{}\n[a],1,1,1,1\n[b],2,2,2,2\n[c],3,3,3,3\n[d],4,4,4,4\n[e],5,5,5,5\n[f],6,6,6,6\n",
        FULL_HEADER
    );
    let out = process_csv_text(&input).unwrap();
    let head = out.table.head_rows(5);
    assert_eq!(head.len(), 5);
    assert_eq!(head[0][0], "a");
    assert_eq!(head[4][0], "e");
    let all = out.table.head_rows(100);
    assert_eq!(all.len(), 6);
}
