use markdown_pipeline::abbr::{apply_abbreviations, strip_abbreviations};
use markdown_pipeline::error::Error;

#[test]
fn definition_line_is_removed_and_collected() {
    let src = "*[HTML]: HyperText Markup Language\nI love HTML.";
    let (clean, table) = strip_abbreviations(src).unwrap();
    assert_eq!(clean, "\nI love HTML.");
    assert_eq!(table.len(), 1);
    assert_eq!(table[0].key, "HTML");
    assert_eq!(table[0].expansion, "HyperText Markup Language");
}

#[test]
fn abbreviation_round_trip() {
    let src = "*[HTML]: HyperText Markup Language\nI love HTML.";
    let (clean, table) = strip_abbreviations(src).unwrap();
    assert!(!clean.contains("*[HTML]"));
    let body = apply_abbreviations(&clean, &table);
    assert_eq!(
        body,
        "\nI love <abbr title=\"HyperText Markup Language\">HTML</abbr>."
    );
}

#[test]
fn reserved_separator_in_key_is_fatal() {
    let src = "*[a|b]: something\ntext";
    assert_eq!(strip_abbreviations(src).unwrap_err(), Error::ReservedAbbrKey);
}

#[test]
fn error_message_names_the_separator() {
    assert!(Error::ReservedAbbrKey.message().contains("|"));
}

#[test]
fn non_definition_lines_are_untouched() {
    let src = "plain first line\n*[K]: V\nlast";
    let (clean, table) = strip_abbreviations(src).unwrap();
    assert_eq!(clean, "plain first line\n\nlast");
    assert_eq!(table.len(), 1);
    assert_eq!(table[0].key, "K");
    assert_eq!(table[0].expansion, "V");
}

#[test]
fn malformed_definitions_stay_in_the_text() {
    // No `]`, empty key, missing space, and empty expansion, respectively.
    let src = "*[broken: x\n*[]: x\n*[K]:x\n*[K]: ";
    let (clean, table) = strip_abbreviations(src).unwrap();
    assert_eq!(clean, src);
    assert!(table.is_empty());
}

#[test]
fn first_matching_key_wins_at_each_position() {
    let src = "*[ab]: first\n*[abc]: second\nabc";
    let (clean, table) = strip_abbreviations(src).unwrap();
    assert_eq!(clean, "\n\nabc");
    let body = apply_abbreviations("abc", &table);
    assert_eq!(body, "<abbr title=\"first\">ab</abbr>c");
}

#[test]
fn substitution_restarts_after_a_match() {
    let (_, table) = strip_abbreviations("*[aa]: double\naaa").unwrap();
    let body = apply_abbreviations("aaa", &table);
    assert_eq!(body, "<abbr title=\"double\">aa</abbr>a");
}

#[test]
fn empty_table_leaves_text_unchanged() {
    let table = Vec::new();
    assert_eq!(apply_abbreviations("nothing here", &table), "nothing here");
}
