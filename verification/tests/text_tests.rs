use csv_processing_automation::text::join_strs;
use csv_processing_automation::text::split_str;
use csv_processing_automation::text::strip_chars;

#[test]
fn splitting_keeps_empty_segments() {
    let parts = split_str("a,,b,", ',');
    assert_eq!(parts, vec!["a", "", "b", ""]);
}

#[test]
fn splitting_without_delimiter_is_one_segment() {
    assert_eq!(split_str("plain", ','), vec!["plain"]);
}

#[test]
fn joining_undoes_splitting() {
    let parts = split_str("a,b,c", ',');
    assert_eq!(join_strs(&parts, ','), "a,b,c");
}

#[test]
fn stripping_removes_every_banned_character() {
    let banned = vec!['[', ']'];
    assert_eq!(strip_chars("[Device-12]", &banned), "Device-12");
    assert_eq!(strip_chars("[[A]]", &banned), "A");
}

#[test]
fn stripping_a_clean_string_returns_it_unchanged() {
    let banned = vec!['[', ']'];
    assert_eq!(strip_chars("Device-12", &banned), "Device-12");
}
