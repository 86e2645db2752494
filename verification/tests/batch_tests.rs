use apaciter::batch::{found_message, i64_to_decimal, parse_index, parse_input_lines, Batch};
use apaciter::json::Json;
use apaciter::panels::restore_input;
use apaciter::types::OutputFormat;

#[test]
fn input_lines() {
    let lines = parse_input_lines("10.1/a\n\n  # comment\n  https://x.org/10.1234/b  \r\n#x");
    assert_eq!(lines, vec!["10.1/a".to_string(), "https://x.org/10.1234/b".to_string()]);
    assert!(parse_input_lines("").is_empty());
    assert!(parse_input_lines("#only\n   \n").is_empty());
}

#[test]
fn opening_messages() {
    assert_eq!(found_message(1), "Found 1 entry. Resolving DOIs…\n");
    assert_eq!(found_message(2), "Found 2 entries. Resolving DOIs…\n");
    let b = Batch::start("  \n# nothing", OutputFormat::Latex);
    assert_eq!(b.status, vec!["No entries found.".to_string()]);
    assert!(!b.has_next());
}

#[test]
fn a_batch_run() {
    let mut b = Batch::start("a\n10.1/x\nb", OutputFormat::PlainText);
    assert_eq!(b.status, vec!["Found 3 entries. Resolving DOIs…\n".to_string()]);
    assert!(b.has_next());
    b.begin_line();
    assert_eq!(b.status.last().unwrap(), "[1/3] a …");
    b.resolve_failed("Unrecognized input: a");
    assert_eq!(b.status.last().unwrap(), "[1/3] a NO DOI: Unrecognized input: a");
    b.begin_line();
    assert_eq!(b.current_line(), "10.1/x");
    b.resolved("10.1/x");
    assert_eq!(b.status.last().unwrap(), "[2/3] 10.1/x …");
    let meta = Json::Object(vec![("title".to_string(), Json::Str("T".to_string()))]);
    b.fetched("10.1/x".to_string(), meta);
    assert_eq!(b.status.last().unwrap(), "[2/3] 10.1/x OK");
    assert_eq!(b.output, "T. https://doi.org/10.1/x");
    b.begin_line();
    b.resolved("10.2/y");
    assert_eq!(b.status.last().unwrap(), "[3/3] b → 10.2/y …");
    b.fetch_failed("All APIs failed:\n  x");
    assert_eq!(b.status.last().unwrap(), "[3/3] b FAILED: All APIs failed:\n  x");
    assert!(!b.has_next());
    b.finish();
    assert_eq!(b.status.last().unwrap(), "\nDone. Success: 1  Failed: 2");
    assert_eq!(b.status.len(), 5);
    assert!(b.worth_saving());
    let e = b.history_entry(1700000000000, "2024-01-01".to_string(), "10:00".to_string());
    assert_eq!(e.id, "1700000000000");
    assert_eq!(e.format_index, 2);
    assert_eq!(e.doi_inputs, vec!["a".to_string(), "10.1/x".to_string(), "b".to_string()]);
    assert_eq!(e.output, "T. https://doi.org/10.1/x");
    assert_eq!((e.success, e.failed), (1, 2));
}

#[test]
fn format_choice() {
    assert_eq!(parse_index("3"), 3);
    assert_eq!(parse_index("+4"), 4);
    assert_eq!(parse_index("x"), 0);
    assert_eq!(parse_index(""), 0);
    assert_eq!(parse_index("+"), 0);
    assert_eq!(parse_index("-1"), 0);
    assert_eq!(parse_index("99999999999999999999999"), 0);
    assert_eq!(parse_index("007"), 7);
}

#[test]
fn signed_decimal() {
    assert_eq!(i64_to_decimal(-42), "-42");
    assert_eq!(i64_to_decimal(0), "0");
    assert_eq!(i64_to_decimal(i64::MIN), "-9223372036854775808");
}

#[test]
fn restored_input_gives_the_same_lines() {
    let input = "  10.1/a  \n\n# note\n\thttps://x.org/10.1234/b\r\n  \n";
    let lines = parse_input_lines(input);
    let restored = restore_input(&lines);
    assert_eq!(restored, "10.1/a\nhttps://x.org/10.1234/b");
    assert_eq!(parse_input_lines(&restored), lines);
    let none = parse_input_lines("# only a comment");
    assert_eq!(parse_input_lines(&restore_input(&none)), none);
}
