use apaciter::history::{
    cut_input_preview, escape_template, fmt_date, history_key, load_history_script,
    preview_is_safe, record_batch, remove_entry, save_history_script, HistoryEntry, MAX_HISTORY,
};

fn entry(id: &str, date: &str) -> HistoryEntry {
    HistoryEntry {
        id: id.to_string(),
        timestamp_ms: 0,
        date_str: date.to_string(),
        time_str: "10:00".to_string(),
        doi_inputs: vec!["10.1/x".to_string()],
        output: String::new(),
        format_index: 0,
        success: 1,
        failed: 0,
    }
}

#[test]
fn dates_for_people() {
    assert_eq!(fmt_date("2024-03-05"), "March 5, 2024");
    assert_eq!(fmt_date("2023-12-31"), "December 31, 2023");
    assert_eq!(fmt_date("2024-13-01"), "13 1, 2024");
    assert_eq!(fmt_date("2024-03-00"), "March , 2024");
    assert_eq!(fmt_date("bad"), "bad");
    assert_eq!(fmt_date("Unknown"), "Unknown");
    assert_eq!(fmt_date("1-2-3-4"), "1-2-3-4");
}

#[test]
fn previews() {
    assert_eq!(cut_input_preview(&["short".to_string()]), "short");
    assert_eq!(cut_input_preview(&["a".to_string(), "b".to_string(), "c".to_string()]), "a (+2 more)");
    assert_eq!(cut_input_preview(&[]), "");
    let long = "x".repeat(60);
    assert_eq!(cut_input_preview(&[long.clone()]), format!("{}…", "x".repeat(52)));
    assert_eq!(cut_input_preview(&[long, "y".to_string()]), format!("{}… (+1 more)", "x".repeat(52)));
    assert!(preview_is_safe(&["x".repeat(60)]));
    let cut_inside = format!("{}é", "x".repeat(51));
    assert!(!preview_is_safe(&[cut_inside]));
}

#[test]
fn template_escaping() {
    assert_eq!(escape_template("a`b\\c${d}"), "a\\`b\\\\c\\${d}");
    assert_eq!(escape_template("$ {x} $"), "$ {x} $");
    assert_eq!(escape_template(""), "");
}

#[test]
fn storage_scripts() {
    assert_eq!(history_key(), "apaciter_history");
    assert_eq!(load_history_script(), "return localStorage.getItem('apaciter_history') || '[]'");
    assert_eq!(save_history_script("[1]"), "localStorage.setItem('apaciter_history',`[1]`);");
    assert_eq!(save_history_script("`"), "localStorage.setItem('apaciter_history',`\\``);");
}

#[test]
fn history_keeps_newest_first() {
    let mut h: Vec<HistoryEntry> = Vec::new();
    for i in 0..(MAX_HISTORY + 1) {
        record_batch(&mut h, entry(&i.to_string(), "2024-01-01"));
    }
    assert_eq!(h.len(), MAX_HISTORY);
    assert_eq!(h[0].id, MAX_HISTORY.to_string());
    assert_eq!(h[MAX_HISTORY - 1].id, "1");
}

#[test]
fn delete_by_key() {
    let mut h = vec![entry("1", "d"), entry("2", "d"), entry("1", "d"), entry("3", "d")];
    remove_entry(&mut h, "1");
    let ids: Vec<&str> = h.iter().map(|e| e.id.as_str()).collect();
    assert_eq!(ids, vec!["2", "3"]);
    remove_entry(&mut h, "9");
    assert_eq!(h.len(), 2);
}

/// Reads the body of a JavaScript template literal that holds no
/// substitution and only the escapes `\\`, `` \` `` and `\$`.
fn read_template(t: &str) -> Option<String> {
    let cs: Vec<char> = t.chars().collect();
    let mut out = String::new();
    let mut i = 0;
    while i < cs.len() {
        match cs[i] {
            '\\' => {
                let next = *cs.get(i + 1)?;
                if next != '\\' && next != '`' && next != '$' {
                    return None;
                }
                out.push(next);
                i += 2;
            }
            '`' => return None,
            '$' if cs.get(i + 1) == Some(&'{') => return None,
            c => {
                out.push(c);
                i += 1;
            }
        }
    }
    Some(out)
}

#[test]
fn saved_text_reads_back() {
    for text in [
        "[{\"id\":\"1\",\"output\":\"\\\\bibitem{x} `code` ${y} $ {z} \\\\${w}\"}]",
        "\\${",
        "$",
        "`",
        "",
        "ünï ${}",
    ] {
        assert_eq!(read_template(&escape_template(text)), Some(text.to_string()));
    }
    assert_eq!(read_template("${x}"), None);
}
