use csv_processing_automation::paths::generate_output_path;

#[test]
fn test_generate_output_path() {
    let input = "./data/IPA Busia Printer_usercounter_20260203.csv";
    let output = generate_output_path(input);
    assert!(output.contains("Analyzed_Output"));
}

#[test]
fn test_generate_output_path_different_input() {
    let input = "./data/Test_usercounter_20251203.csv";
    let output = generate_output_path(input);
    assert!(output.contains("Analyzed_Output"));
}

#[test]
fn derived_path_appends_suffix_to_stem() {
    let output = generate_output_path("./data/report_20251203.csv");
    assert_eq!(output, "./data/report_20251203_Analyzed_Output.csv");
}

#[test]
fn derived_path_without_directory() {
    assert_eq!(generate_output_path("report.csv"), "report_Analyzed_Output.csv");
}

#[test]
fn derived_path_without_extension() {
    assert_eq!(generate_output_path("./data/report"), "./data/report_Analyzed_Output.csv");
}

#[test]
fn derived_path_trailing_slash_names_the_directory() {
    // "./data/" has file stem "data" and parent ".", as std reads paths.
    assert_eq!(generate_output_path("./data/"), "./data_Analyzed_Output.csv");
}

#[test]
fn derived_path_empty_input_falls_back_twice() {
    // "" has neither a file stem nor a parent.
    assert_eq!(generate_output_path(""), "./data/output_Analyzed_Output.csv");
}

#[test]
fn derived_path_current_and_parent_dir_have_no_stem() {
    assert_eq!(generate_output_path("."), "output_Analyzed_Output.csv");
    assert_eq!(generate_output_path(".."), "output_Analyzed_Output.csv");
}

#[test]
fn derived_path_bare_root_falls_back() {
    assert_eq!(generate_output_path("/"), "./data/output_Analyzed_Output.csv");
}

#[test]
fn derived_path_dot_dot_file_name_falls_back_to_stand_in() {
    assert_eq!(generate_output_path("a/.."), "a/output_Analyzed_Output.csv");
}

#[test]
fn derived_path_under_absolute_root() {
    assert_eq!(generate_output_path("/x.csv"), "/x_Analyzed_Output.csv");
}

#[test]
fn derived_path_ignores_inner_dot_components() {
    assert_eq!(generate_output_path("x/./y.csv"), "x/y_Analyzed_Output.csv");
}

#[test]
fn derived_path_matches_std_path_semantics() {
    // The contract must agree with std's Path::parent / Path::file_stem
    // plus the two fall-backs, on ordinary and degenerate inputs alike.
    let inputs = [
        "./data/report_20251203.csv",
        "report.csv",
        "./data/report",
        "./data/",
        "",
        ".",
        "..",
        "/",
        "a/..",
        "/x.csv",
        "x/./y.csv",
        "a//b/c.txt",
        "dir.with.dots/file",
        ".hidden",
        "x.",
        "./",
    ];
    for input in inputs {
        let path = std::path::Path::new(input);
        let stem = path
            .file_stem()
            .and_then(|s| s.to_str())
            .unwrap_or("output");
        let dir = path.parent().unwrap_or(std::path::Path::new("./data"));
        let expected = dir.join(format!("{}_Analyzed_Output.csv", stem));
        assert_eq!(
            generate_output_path(input),
            expected.to_str().unwrap(),
            "diverges on input {:?}",
            input
        );
    }
}
