use vstd::prelude::*;
use crate::formatting::{decimal, u64_to_decimal};
use crate::history::{escape_template, spec_escape_template, HistoryEntry};
use crate::json::str_eq;
use crate::text::{
    cat, cat3, cat4, chars_of, copy_str, join, lead_in, seq_join, string_of_range, take_lead,
    trim, trim_str, views, CharClass,
};
use crate::types::{spec_all_formats, spec_format_label, OutputFormat};

verus! {

// ---------------------------------------------------------------------------
// Pages of the history list
// ---------------------------------------------------------------------------

/// How many saved batches a page of the history shows.
pub const PAGE_SIZE: usize = 5;

/// The number of pages for `total` saved batches: at least one.
pub open spec fn spec_page_count(total: int) -> int {
    if total == 0 {
        1
    } else {
        (total + 4) / 5
    }
}

/// The number of pages for `total` saved batches.
pub fn page_count(total: usize) -> (r: usize)
    ensures
        r == spec_page_count(total as int),
        r >= 1,
{
    if total == 0 {
        1
    } else {
        (total - 1) / PAGE_SIZE + 1
    }
}

/// The positions `[start, end)` of the batches shown on page `page`.
pub fn page_range(page: usize, total: usize) -> (r: (usize, usize))
    requires
        page * 5 <= total,
    ensures
        r.0 == page * 5,
        r.1 == if page * 5 + 5 < total { page * 5 + 5 } else { total as int },
{
    let start = page * PAGE_SIZE;
    let end = if total - start > PAGE_SIZE { start + PAGE_SIZE } else { total };
    (start, end)
}

/// The page before `page`, staying on the first.
pub fn prev_page(page: usize) -> (r: usize)
    ensures
        r == if page > 0 { page - 1 } else { page as int },
{
    if page > 0 {
        page - 1
    } else {
        page
    }
}

/// The page after `page`, staying on the last.
pub fn next_page(page: usize, total: usize) -> (r: usize)
    ensures
        r == if page + 1 < spec_page_count(total as int) { page + 1 } else { page as int },
{
    let pages = page_count(total);
    if page < pages - 1 {
        page + 1
    } else {
        page
    }
}

/// The page shown after entries were deleted: the last page when the old
/// one no longer exists.
pub fn page_after_removal(page: usize, remaining: usize) -> (r: usize)
    ensures
        r == if page >= spec_page_count(remaining as int) {
            spec_page_count(remaining as int) - 1
        } else {
            page as int
        },
{
    let pages = page_count(remaining);
    if page >= pages {
        pages - 1
    } else {
        page
    }
}

// ---------------------------------------------------------------------------
// Texts of the history panel
// ---------------------------------------------------------------------------

/// The headline of the history panel.
pub open spec fn spec_history_summary(total: nat) -> Seq<char> {
    if total == 0 {
        "No history yet"@
    } else {
        decimal(total) + " saved batch"@ + if total == 1 {
            ""@
        } else {
            "es"@
        }
    }
}

/// The headline of the history panel.
pub fn history_summary(total: usize) -> (r: String)
    ensures
        r@ == spec_history_summary(total as nat),
{
    if total == 0 {
        copy_str("No history yet")
    } else {
        let n = u64_to_decimal(total as u64);
        cat3(n.as_str(), " saved batch", if total == 1 { "" } else { "es" })
    }
}

/// The count shown on the history button, when there is anything saved.
pub fn history_badge(total: usize) -> (r: Option<String>)
    ensures
        r matches Some(s) ==> total > 0 && s@ == decimal(total as nat),
        r is None <==> total == 0,
{
    if total > 0 {
        Some(u64_to_decimal(total as u64))
    } else {
        None
    }
}

/// The short name of a format: its label up to the first `(`, trimmed.
pub open spec fn spec_short_label(f: OutputFormat) -> Seq<char> {
    trim(take_lead(spec_format_label(f), CharClass::NotOpenParen))
}

/// The short name of the format saved with a batch.
pub fn short_format_label(format_index: usize) -> (r: String)
    ensures
        r@ == spec_short_label(spec_all_formats()[if format_index < 5 { format_index as int } else { 5 }]),
{
    let f = OutputFormat::from_index(format_index);
    let label = f.label();
    let cs = chars_of(label);
    let k = lead_in(&cs, 0, cs.len(), CharClass::NotOpenParen);
    assert(cs@.subrange(0, cs@.len() as int) =~= cs@);
    let head = string_of_range(&cs, 0, k);
    assert(head@ =~= take_lead(label@, CharClass::NotOpenParen));
    trim_str(head.as_str())
}

/// The counts line of a saved batch: `N DOI(s) - S OK`, and `, F failed` when
/// anything failed.
pub open spec fn spec_entry_counts(inputs: nat, success: nat, failed: nat) -> Seq<char> {
    decimal(inputs) + " "@ + (if inputs == 1 {
        "DOI"@
    } else {
        "DOIs"@
    }) + " - "@ + decimal(success) + " OK"@ + if failed > 0 {
        ", "@ + decimal(failed) + " failed"@
    } else {
        ""@
    }
}

/// The counts line of a saved batch.
pub fn entry_counts(inputs: usize, success: usize, failed: usize) -> (r: String)
    ensures
        r@ == spec_entry_counts(inputs as nat, success as nat, failed as nat),
{
    let n = u64_to_decimal(inputs as u64);
    let s = u64_to_decimal(success as u64);
    let word = if inputs == 1 { "DOI" } else { "DOIs" };
    let mut r = cat4(n.as_str(), " ", word, " - ");
    r.append(s.as_str());
    r.append(" OK");
    if failed > 0 {
        let f = u64_to_decimal(failed as u64);
        let tail = cat3(", ", f.as_str(), " failed");
        r.append(tail.as_str());
    } else {
        r.append("");
    }
    r
}

/// The input text restored from a saved batch: its lines joined by newlines.
pub fn restore_input(inputs: &[String]) -> (r: String)
    ensures
        r@ == seq_join(views(inputs@), "\n"@),
{
    join(inputs, "\n")
}

// ---------------------------------------------------------------------------
// Grouping the batches of a page by day
// ---------------------------------------------------------------------------

/// Runs of batches saved on the same day, in order: a batch joins the group
/// before it when their dates are equal.
pub open spec fn spec_groups(entries: Seq<HistoryEntry>) -> Seq<(Seq<char>, Seq<HistoryEntry>)>
    decreases entries.len(),
{
    if entries.len() == 0 {
        seq![]
    } else {
        let g = spec_groups(entries.drop_last());
        let e = entries.last();
        if g.len() > 0 && g.last().0 == e.date_str@ {
            g.update(g.len() - 1, (g.last().0, g.last().1.push(e)))
        } else {
            g.push((e.date_str@, seq![e]))
        }
    }
}

/// The values of a list of groups.
pub open spec fn group_views(groups: Seq<(String, Vec<HistoryEntry>)>) -> Seq<(Seq<char>, Seq<HistoryEntry>)> {
    groups.map_values(|g: (String, Vec<HistoryEntry>)| (g.0@, g.1@))
}

/// Groups the batches of a page by day.
pub fn group_by_date(entries: Vec<HistoryEntry>) -> (r: Vec<(String, Vec<HistoryEntry>)>)
    ensures
        group_views(r@) == spec_groups(entries@),
{
    let ghost orig = entries@;
    let mut rest = entries;
    let mut groups: Vec<(String, Vec<HistoryEntry>)> = Vec::new();
    let mut cur_key = String::new();
    let mut cur: Vec<HistoryEntry> = Vec::new();
    let ghost mut done: int = 0;
    assert(orig.take(0) =~= Seq::<HistoryEntry>::empty());
    assert(orig.skip(0) =~= orig);
    while rest.len() > 0
        invariant
            0 <= done <= orig.len(),
            rest@ == orig.skip(done),
            done == 0 ==> cur@.len() == 0 && groups@.len() == 0,
            done > 0 ==> cur@.len() > 0 && group_views(groups@).push((cur_key@, cur@)) == spec_groups(orig.take(done)),
        decreases rest@.len(),
    {
        let ghost before_rest = rest@;
        let e = rest.remove(0);
        assert(e == orig[done]);
        assert(rest@ =~= orig.skip(done + 1));
        let ghost t = orig.take(done + 1);
        assert(t.drop_last() =~= orig.take(done));
        assert(t.last() == e);
        if cur.len() > 0 && str_eq(cur_key.as_str(), e.date_str.as_str()) {
            let ghost gv = group_views(groups@);
            cur.push(e);
            assert(gv.push((cur_key@, cur@)) =~= spec_groups(t));
        } else {
            let ghost g = spec_groups(orig.take(done));
            let ghost ed = e.date_str@;
            let key = e.date_str.clone();
            let mut fresh: Vec<HistoryEntry> = Vec::new();
            fresh.push(e);
            assert(fresh@ =~= seq![e]);
            if cur.len() > 0 {
                let old_key = cur_key;
                let old_cur = cur;
                let ghost gv = group_views(groups@);
                let ghost pending = (old_key@, old_cur@);
                groups.push((old_key, old_cur));
                assert(group_views(groups@) =~= gv.push(pending));
                assert(group_views(groups@) == g);
                assert(g.last().0 != ed);
            } else {
                assert(group_views(groups@) =~= g);
            }
            assert(spec_groups(t) == g.push((ed, seq![e])));
            cur_key = key;
            cur = fresh;
            assert(group_views(groups@).push((cur_key@, cur@)) =~= spec_groups(t));
        }
        proof {
            done = done + 1;
        }
    }
    assert(orig.skip(done).len() == 0);
    assert(orig.take(done) =~= orig);
    if cur.len() > 0 {
        let ghost gv = group_views(groups@);
        let ghost pending = (cur_key@, cur@);
        groups.push((cur_key, cur));
        assert(group_views(groups@) =~= gv.push(pending));
    } else {
        assert(group_views(groups@) =~= spec_groups(orig));
    }
    groups
}

// ---------------------------------------------------------------------------
// Copying the output
// ---------------------------------------------------------------------------

/// The script that copies the output to the clipboard: as HTML for the rich
/// text format, as plain text otherwise.
pub open spec fn spec_clipboard_script(text: Seq<char>, fmt: OutputFormat) -> Seq<char> {
    let escaped = spec_escape_template(text);
    if fmt == OutputFormat::RichText {
        "const b = new Blob([`"@ + escaped
            + "`], {type:'text/html'});await navigator.clipboard.write([new ClipboardItem({'text/html':b})]);"@
    } else {
        "await navigator.clipboard.writeText(`"@ + escaped + "`);"@
    }
}

/// The script that copies the output to the clipboard.
pub fn clipboard_script(text: &str, fmt: OutputFormat) -> (r: String)
    ensures
        r@ == spec_clipboard_script(text@, fmt),
{
    let escaped = escape_template(text);
    if fmt == OutputFormat::RichText {
        cat3(
            "const b = new Blob([`",
            escaped.as_str(),
            "`], {type:'text/html'});await navigator.clipboard.write([new ClipboardItem({'text/html':b})]);",
        )
    } else {
        cat3("await navigator.clipboard.writeText(`", escaped.as_str(), "`);")
    }
}

/// The two ways the history panel counts its pages agree: `(n + 4) / 5`
/// (at least one) and `n.saturating_sub(1) / 5 + 1`.
pub proof fn law_page_count_forms(total: nat)
    ensures
        spec_page_count(total as int) == (if total == 0 { 0 } else { total - 1 as int }) / 5 + 1,
        spec_page_count(total as int) >= 1,
{
}

/// Paging and deleting keep the page shown among the pages that exist.
pub proof fn law_page_stays_in_range(page: nat, total: nat, remaining: nat)
    ensures
        page < spec_page_count(total as int) ==> (if page + 1 < spec_page_count(total as int) {
            page + 1 as int
        } else {
            page as int
        }) < spec_page_count(total as int),
        (if page >= spec_page_count(remaining as int) {
            spec_page_count(remaining as int) - 1
        } else {
            page as int
        }) < spec_page_count(remaining as int),
{
}

/// Every batch in all groups, in order.
pub open spec fn flatten_groups(g: Seq<(Seq<char>, Seq<HistoryEntry>)>) -> Seq<HistoryEntry>
    decreases g.len(),
{
    if g.len() == 0 {
        seq![]
    } else {
        flatten_groups(g.drop_last()) + g.last().1
    }
}

/// Grouping by day keeps every batch in its order; each group is a
/// non-empty run of batches of its day, and neighbouring groups are of
/// different days.
pub proof fn law_groups_partition(entries: Seq<HistoryEntry>)
    ensures
        flatten_groups(spec_groups(entries)) == entries,
        forall|k: int|
            0 <= k < spec_groups(entries).len() ==> {
                let g = #[trigger] spec_groups(entries)[k];
                &&& g.1.len() > 0
                &&& forall|i: int| 0 <= i < g.1.len() ==> (#[trigger] g.1[i]).date_str@ == g.0
            },
        forall|k: int|
            0 < k < spec_groups(entries).len() ==> (#[trigger] spec_groups(entries)[k]).0
                != spec_groups(entries)[k - 1].0,
    decreases entries.len(),
{
    if entries.len() > 0 {
        let prev = entries.drop_last();
        law_groups_partition(prev);
        let g = spec_groups(prev);
        let e = entries.last();
        let h = spec_groups(entries);
        if g.len() > 0 && g.last().0 == e.date_str@ {
            let n = g.len() - 1;
            assert(h == g.update(n, (g.last().0, g.last().1.push(e))));
            assert(h.drop_last() =~= g.drop_last());
            assert(g.drop_last().push(g.last()) =~= g);
            assert(flatten_groups(g) == flatten_groups(g.drop_last()) + g.last().1);
            assert(flatten_groups(h) =~= flatten_groups(g.drop_last()) + g.last().1.push(e));
            assert(flatten_groups(g.drop_last()) + g.last().1.push(e) =~= (flatten_groups(g.drop_last()) + g.last().1).push(e));
            assert(entries =~= prev.push(e));
            assert(flatten_groups(h) =~= entries);
            assert forall|k: int| 0 <= k < h.len() implies {
                let gg = #[trigger] h[k];
                &&& gg.1.len() > 0
                &&& forall|i: int| 0 <= i < gg.1.len() ==> (#[trigger] gg.1[i]).date_str@ == gg.0
            } by {
                if k < n {
                    assert(h[k] == g[k]);
                } else {
                    let gl = g.last().1;
                    assert(g[n] == g.last());
                    assert forall|i: int| 0 <= i < h[k].1.len() implies (#[trigger] h[k].1[i]).date_str@ == h[k].0 by {
                        if i < gl.len() {
                            assert(h[k].1[i] == gl[i]);
                        }
                    }
                }
            }
            assert forall|k: int| 0 < k < h.len() implies (#[trigger] h[k]).0 != h[k - 1].0 by {
                assert(h[k].0 == g[k].0);
                assert(h[k - 1].0 == g[k - 1].0);
            }
        } else {
            assert(h == g.push((e.date_str@, seq![e])));
            assert(h.drop_last() =~= g);
            assert(flatten_groups(h) =~= flatten_groups(g) + seq![e]);
            assert(flatten_groups(h) =~= entries);
            assert forall|k: int| 0 <= k < h.len() implies {
                let gg = #[trigger] h[k];
                &&& gg.1.len() > 0
                &&& forall|i: int| 0 <= i < gg.1.len() ==> (#[trigger] gg.1[i]).date_str@ == gg.0
            } by {
                if k < g.len() {
                    assert(h[k] == g[k]);
                }
            }
            assert forall|k: int| 0 < k < h.len() implies (#[trigger] h[k]).0 != h[k - 1].0 by {
                if k < g.len() {
                    assert(h[k] == g[k]);
                    assert(h[k - 1] == g[k - 1]);
                } else {
                    assert(h[k - 1] == g.last());
                }
            }
        }
    }
}

} // verus!
