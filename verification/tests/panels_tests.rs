use apaciter::history::HistoryEntry;
use apaciter::panels::{
    clipboard_script, entry_counts, group_by_date, history_badge, history_summary, next_page,
    page_after_removal, page_count, page_range, prev_page, restore_input, short_format_label,
};
use apaciter::types::OutputFormat;

fn entry(id: &str, date: &str) -> HistoryEntry {
    HistoryEntry {
        id: id.to_string(),
        timestamp_ms: 0,
        date_str: date.to_string(),
        time_str: "10:00".to_string(),
        doi_inputs: vec![],
        output: String::new(),
        format_index: 0,
        success: 1,
        failed: 0,
    }
}

#[test]
fn pages() {
    assert_eq!(page_count(0), 1);
    assert_eq!(page_count(5), 1);
    assert_eq!(page_count(6), 2);
    assert_eq!(page_count(10), 2);
    assert_eq!(page_count(11), 3);
    for total in 0..40usize {
        assert_eq!(page_count(total), total.saturating_sub(1) / 5 + 1);
    }
    assert_eq!(page_range(1, 7), (5, 7));
    assert_eq!(page_range(0, 3), (0, 3));
    assert_eq!(page_range(1, 10), (5, 10));
}

#[test]
fn paging() {
    assert_eq!(prev_page(0), 0);
    assert_eq!(prev_page(2), 1);
    assert_eq!(next_page(0, 6), 1);
    assert_eq!(next_page(1, 6), 1);
    assert_eq!(next_page(0, 0), 0);
    assert_eq!(page_after_removal(2, 6), 1);
    assert_eq!(page_after_removal(0, 0), 0);
    assert_eq!(page_after_removal(1, 6), 1);
}

#[test]
fn panel_texts() {
    assert_eq!(history_summary(0), "No history yet");
    assert_eq!(history_summary(1), "1 saved batch");
    assert_eq!(history_summary(3), "3 saved batches");
    assert_eq!(history_badge(0), None);
    assert_eq!(history_badge(12), Some("12".to_string()));
    assert_eq!(short_format_label(0), "LaTeX");
    assert_eq!(short_format_label(2), "Plain Text");
    assert_eq!(short_format_label(5), "Rich Text");
    assert_eq!(short_format_label(42), "Rich Text");
    assert_eq!(entry_counts(1, 1, 0), "1 DOI - 1 OK");
    assert_eq!(entry_counts(3, 2, 1), "3 DOIs - 2 OK, 1 failed");
    assert_eq!(restore_input(&["a".to_string(), "b".to_string()]), "a\nb");
}

#[test]
fn grouping_by_day() {
    let groups = group_by_date(vec![entry("0", "d1"), entry("1", "d1"), entry("2", "d2"), entry("3", "d1")]);
    let shape: Vec<(String, Vec<String>)> = groups
        .iter()
        .map(|(d, es)| (d.clone(), es.iter().map(|e| e.id.clone()).collect()))
        .collect();
    assert_eq!(
        shape,
        vec![
            ("d1".to_string(), vec!["0".to_string(), "1".to_string()]),
            ("d2".to_string(), vec!["2".to_string()]),
            ("d1".to_string(), vec!["3".to_string()]),
        ]
    );
    assert!(group_by_date(vec![]).is_empty());
}

#[test]
fn clipboard_scripts() {
    assert_eq!(
        clipboard_script("x`", OutputFormat::RichText),
        "const b = new Blob([`x\\``], {type:'text/html'});await navigator.clipboard.write([new ClipboardItem({'text/html':b})]);"
    );
    assert_eq!(clipboard_script("a${b}", OutputFormat::PlainText), "await navigator.clipboard.writeText(`a\\${b}`);");
}
