use vstd::prelude::*;
use crate::formatting::{decimal, u64_to_decimal};
use crate::json::str_eq;
use crate::text::{
    byte_len, byte_prefix, byte_prefix_ok, byte_prefix_str, cat, cat3, cat4, chars_of, copy_str,
    drop_lead, drop_lead_str, lemma_replace_front, lemma_split_join, seq_join, push_char, replace_char, replace_char_str,
    split_on, split_str, utf8_len, views, CharClass,
};

verus! {

/// One saved batch: what was asked for, what came out, and when.
#[derive(Clone, Debug)]
pub struct HistoryEntry {
    /// The time stamp in milliseconds, as text: the key of the entry.
    pub id: String,
    pub timestamp_ms: i64,
    /// The local date as `YYYY-MM-DD`.
    pub date_str: String,
    /// The local time as `hh:mm`.
    pub time_str: String,
    pub doi_inputs: Vec<String>,
    pub output: String,
    pub format_index: usize,
    pub success: usize,
    pub failed: usize,
}

/// The number of batches the history keeps.
pub const MAX_HISTORY: usize = 200;

/// The `localStorage` key of the history.
pub fn history_key() -> (r: &'static str)
    ensures
        r@ == "apaciter_history"@,
{
    "apaciter_history"
}

// ---------------------------------------------------------------------------
// Dates
// ---------------------------------------------------------------------------

/// The English name of a two-digit month number; anything else stays as it is.
pub open spec fn month_name(m: Seq<char>) -> Seq<char> {
    if m == "01"@ {
        "January"@
    } else if m == "02"@ {
        "February"@
    } else if m == "03"@ {
        "March"@
    } else if m == "04"@ {
        "April"@
    } else if m == "05"@ {
        "May"@
    } else if m == "06"@ {
        "June"@
    } else if m == "07"@ {
        "July"@
    } else if m == "08"@ {
        "August"@
    } else if m == "09"@ {
        "September"@
    } else if m == "10"@ {
        "October"@
    } else if m == "11"@ {
        "November"@
    } else if m == "12"@ {
        "December"@
    } else {
        m
    }
}

/// A `YYYY-MM-DD` date as `Month D, YYYY` (leading zeros of the day
/// dropped); text that does not have exactly three `-`-separated parts stays
/// as it is.
pub open spec fn spec_fmt_date(s: Seq<char>) -> Seq<char> {
    let p = split_on(s, '-');
    if p.len() != 3 {
        s
    } else {
        month_name(p[1]) + " "@ + drop_lead(p[2], CharClass::Zero) + ", "@ + p[0]
    }
}

fn month_name_of(m: &str) -> (r: &str)
    ensures
        r@ == month_name(m@),
{
    if str_eq(m, "01") {
        "January"
    } else if str_eq(m, "02") {
        "February"
    } else if str_eq(m, "03") {
        "March"
    } else if str_eq(m, "04") {
        "April"
    } else if str_eq(m, "05") {
        "May"
    } else if str_eq(m, "06") {
        "June"
    } else if str_eq(m, "07") {
        "July"
    } else if str_eq(m, "08") {
        "August"
    } else if str_eq(m, "09") {
        "September"
    } else if str_eq(m, "10") {
        "October"
    } else if str_eq(m, "11") {
        "November"
    } else if str_eq(m, "12") {
        "December"
    } else {
        m
    }
}

/// Writes a `YYYY-MM-DD` date for people.
pub fn fmt_date(s: &str) -> (r: String)
    ensures
        r@ == spec_fmt_date(s@),
{
    let p = split_str(s, '-');
    if p.len() != 3 {
        return copy_str(s);
    }
    let month = month_name_of(p[1].as_str());
    let day = drop_lead_str(p[2].as_str(), CharClass::Zero);
    let mut r = cat4(month, " ", day.as_str(), ", ");
    r.append(p[0].as_str());
    r
}

// ---------------------------------------------------------------------------
// Previews
// ---------------------------------------------------------------------------

/// The first input line of a batch, cut after 52 bytes, with the number of
/// further lines.
pub open spec fn spec_preview(inputs: Seq<Seq<char>>) -> Seq<char> {
    let first0 = if inputs.len() > 0 {
        inputs[0]
    } else {
        seq![]
    };
    let first = if utf8_len(first0) > 52 {
        byte_prefix(first0, 52) + "…"@
    } else {
        first0
    };
    if inputs.len() > 1 {
        first + " (+"@ + decimal((inputs.len() - 1) as nat) + " more)"@
    } else {
        first
    }
}

/// Cutting the first line does not split a character.
pub open spec fn preview_ok(inputs: Seq<Seq<char>>) -> bool {
    inputs.len() > 0 && utf8_len(inputs[0]) > 52 ==> byte_prefix_ok(inputs[0], 52)
}

/// A one-line preview of the input lines of a batch.
pub fn cut_input_preview(inputs: &[String]) -> (r: String)
    requires
        preview_ok(views(inputs@)),
    ensures
        r@ == spec_preview(views(inputs@)),
{
    let first = if inputs.len() > 0 {
        let f = inputs[0].as_str();
        if byte_len(f) > 52 {
            let head = byte_prefix_str(f, 52);
            cat(head.as_str(), "…")
        } else {
            copy_str(f)
        }
    } else {
        String::new()
    };
    if inputs.len() > 1 {
        let more = u64_to_decimal((inputs.len() - 1) as u64);
        cat4(first.as_str(), " (+", more.as_str(), " more)")
    } else {
        first
    }
}

/// Whether the preview of these inputs can be made.
pub fn preview_is_safe(inputs: &[String]) -> (r: bool)
    ensures
        r == preview_ok(views(inputs@)),
{
    if inputs.len() > 0 {
        let f = inputs[0].as_str();
        if byte_len(f) > 52 {
            return crate::text::is_byte_boundary(f, 52);
        }
    }
    true
}

// ---------------------------------------------------------------------------
// Scripts that keep the history in the browser
// ---------------------------------------------------------------------------

/// `s` with every `${` written `\${`.
pub open spec fn escape_dollar_brace(s: Seq<char>) -> Seq<char>
    decreases s.len(),
{
    if s.len() == 0 {
        seq![]
    } else if s.len() >= 2 && s[0] == '$' && s[1] == '{' {
        "\\${"@ + escape_dollar_brace(s.skip(2))
    } else {
        seq![s[0]] + escape_dollar_brace(s.skip(1))
    }
}

/// Text made safe for a JavaScript template literal: backslashes doubled,
/// then backticks and `${` escaped.
pub open spec fn spec_escape_template(s: Seq<char>) -> Seq<char> {
    escape_dollar_brace(replace_char(replace_char(s, '\\', "\\\\"@), '`', "\\`"@))
}

/// Escapes text for a JavaScript template literal.
pub fn escape_template(s: &str) -> (r: String)
    ensures
        r@ == spec_escape_template(s@),
{
    let s1 = replace_char_str(s, '\\', "\\\\");
    let s2 = replace_char_str(s1.as_str(), '`', "\\`");
    let cs = chars_of(s2.as_str());
    let n = cs.len();
    let mut r = String::new();
    let mut i: usize = 0;
    assert(cs@.skip(0) =~= cs@);
    while i < n
        invariant
            n == cs@.len(),
            i <= n,
            r@ + escape_dollar_brace(cs@.skip(i as int)) == escape_dollar_brace(cs@),
        decreases n - i,
    {
        let ghost t = cs@.skip(i as int);
        if i + 1 < n && cs[i] == '$' && cs[i + 1] == '{' {
            assert(t[0] == '$' && t[1] == '{');
            assert(t.skip(2) =~= cs@.skip(i + 2));
            let ghost before = r@;
            r.append("\\${");
            assert(r@ + escape_dollar_brace(cs@.skip(i + 2)) =~= before + escape_dollar_brace(t));
            i = i + 2;
        } else {
            assert(t[0] == cs@[i as int]);
            assert(t.skip(1) =~= cs@.skip(i + 1));
            let ghost before = r@;
            push_char(&mut r, cs[i]);
            assert(r@ + escape_dollar_brace(cs@.skip(i + 1)) =~= before + escape_dollar_brace(t));
            i = i + 1;
        }
    }
    assert(cs@.skip(n as int) =~= Seq::<char>::empty());
    assert(r@ =~= r@ + escape_dollar_brace(cs@.skip(n as int)));
    r
}

/// The script that reads the saved history, `[]` when there is none.
pub fn load_history_script() -> (r: String)
    ensures
        r@ == "return localStorage.getItem('"@ + "apaciter_history"@ + "') || '[]'"@,
{
    cat3("return localStorage.getItem('", history_key(), "') || '[]'")
}

/// The script that saves the history, given as JSON text.
pub open spec fn spec_save_script(json: Seq<char>) -> Seq<char> {
    "localStorage.setItem('"@ + "apaciter_history"@ + "',`"@ + spec_escape_template(json) + "`);"@
}

/// The script that saves the history, given as JSON text.
pub fn save_history_script(json: &str) -> (r: String)
    ensures
        r@ == spec_save_script(json@),
{
    let e = escape_template(json);
    let mut r = cat4("localStorage.setItem('", history_key(), "',`", e.as_str());
    r.append("`);");
    r
}

// ---------------------------------------------------------------------------
// The list of saved batches
// ---------------------------------------------------------------------------

/// The list after a new batch: the batch first, at most `MAX_HISTORY` kept.
pub open spec fn spec_record(entries: Seq<HistoryEntry>, entry: HistoryEntry) -> Seq<HistoryEntry> {
    let all = seq![entry] + entries;
    if all.len() > MAX_HISTORY {
        all.take(MAX_HISTORY as int)
    } else {
        all
    }
}

/// Puts a new batch at the front of the history and drops the oldest beyond `MAX_HISTORY`.
pub fn record_batch(entries: &mut Vec<HistoryEntry>, entry: HistoryEntry)
    ensures
        final(entries)@ == spec_record(old(entries)@, entry),
{
    entries.insert(0, entry);
    entries.truncate(MAX_HISTORY);
    assert(final(entries)@ =~= spec_record(old(entries)@, entry));
}

/// The entries whose key is not `id`, in order.
pub open spec fn without_id(entries: Seq<HistoryEntry>, id: Seq<char>) -> Seq<HistoryEntry>
    decreases entries.len(),
{
    if entries.len() == 0 {
        seq![]
    } else if entries.last().id@ == id {
        without_id(entries.drop_last(), id)
    } else {
        without_id(entries.drop_last(), id).push(entries.last())
    }
}

/// Deletes the entries with key `id`.
pub fn remove_entry(entries: &mut Vec<HistoryEntry>, id: &str)
    ensures
        final(entries)@ == without_id(old(entries)@, id@),
{
    let ghost orig = entries@;
    let mut i: usize = 0;
    let ghost mut j: int = 0;
    while i < entries.len()
        invariant
            0 <= j <= orig.len(),
            i <= entries@.len(),
            entries@.take(i as int) == without_id(orig.take(j), id@),
            entries@.skip(i as int) == orig.skip(j),
            entries@.len() - i == orig.len() - j,
        decreases entries@.len() - i,
    {
        let ghost t = orig.take(j + 1);
        assert(t.drop_last() =~= orig.take(j));
        assert(orig.skip(j)[0] == entries@[i as int]);
        assert(t.last() == orig[j]);
        assert(orig.skip(j).drop_first() =~= orig.skip(j + 1));
        if str_eq(entries[i].id.as_str(), id) {
            let ghost before = entries@;
            let _gone = entries.remove(i);
            assert(entries@.take(i as int) =~= before.take(i as int));
            assert(entries@.skip(i as int) =~= before.skip(i + 1));
            assert(before.skip(i + 1) =~= before.skip(i as int).drop_first());
        } else {
            assert(entries@.take(i + 1) =~= entries@.take(i as int).push(entries@[i as int]));
            assert(entries@.skip(i + 1) =~= entries@.skip(i as int).drop_first());
            i = i + 1;
        }
        proof {
            j = j + 1;
        }
    }
    assert(entries@.skip(i as int) =~= Seq::<HistoryEntry>::empty());
    assert(orig.skip(j).len() == 0);
    assert(orig.take(j) =~= orig);
    assert(entries@ =~= entries@.take(i as int));
}

/// The history keeps at most `MAX_HISTORY` batches, newest first: a new
/// batch comes first, and the batches before it follow in their order.
pub proof fn law_history_newest_first(entries: Seq<HistoryEntry>, entry: HistoryEntry)
    ensures
        spec_record(entries, entry).len() <= MAX_HISTORY,
        spec_record(entries, entry)[0] == entry,
        forall|i: int|
            1 <= i < spec_record(entries, entry).len() ==> #[trigger] spec_record(entries, entry)[i]
                == entries[i - 1],
        entries.len() < MAX_HISTORY ==> spec_record(entries, entry).len() == entries.len() + 1,
{
}

/// Deleting by key leaves no batch with that key, and keeps every other
/// batch in its order.
pub proof fn law_remove_by_key(entries: Seq<HistoryEntry>, id: Seq<char>)
    ensures
        forall|i: int| 0 <= i < without_id(entries, id).len() ==> (#[trigger] without_id(entries, id)[i]).id@ != id,
        without_id(entries, id).len() <= entries.len(),
        (forall|i: int| 0 <= i < entries.len() ==> (#[trigger] entries[i]).id@ != id) ==> without_id(entries, id) == entries,
    decreases entries.len(),
{
    if entries.len() > 0 {
        law_remove_by_key(entries.drop_last(), id);
        let prev = without_id(entries.drop_last(), id);
        assert forall|i: int| 0 <= i < without_id(entries, id).len() implies (#[trigger] without_id(entries, id)[i]).id@ != id by {
            if i < prev.len() {
                assert(without_id(entries, id)[i] == prev[i]);
            }
        }
        if forall|i: int| 0 <= i < entries.len() ==> (#[trigger] entries[i]).id@ != id {
            assert forall|i: int| 0 <= i < entries.drop_last().len() implies (#[trigger] entries.drop_last()[i]).id@ != id by {
                assert(entries.drop_last()[i] == entries[i]);
            }
            assert(entries.last() == entries[entries.len() - 1]);
            assert(entries.drop_last().push(entries.last()) =~= entries);
        }
    }
}

// ---------------------------------------------------------------------------
// Reading a template literal back
// ---------------------------------------------------------------------------

/// The text that the body `t` of a JavaScript template literal stands for,
/// when it holds no substitution and no escapes but `\\`, `` \` `` and `\$`
/// (each standing for its second character); `None` for a body with an
/// unescaped backtick, a `${` or another escape.
pub open spec fn template_value(t: Seq<char>) -> Option<Seq<char>>
    decreases t.len(),
{
    if t.len() == 0 {
        Some(seq![])
    } else if t[0] == '\\' {
        if t.len() >= 2 && (t[1] == '\\' || t[1] == '`' || t[1] == '$') {
            match template_value(t.skip(2)) {
                Some(v) => Some(seq![t[1]] + v),
                None => None,
            }
        } else {
            None
        }
    } else if t[0] == '`' || (t[0] == '$' && t.len() >= 2 && t[1] == '{') {
        None
    } else {
        match template_value(t.skip(1)) {
            Some(v) => Some(seq![t[0]] + v),
            None => None,
        }
    }
}

/// Template escaping done in one pass from the front.
spec fn escaped_front(s: Seq<char>) -> Seq<char>
    decreases s.len(),
{
    if s.len() == 0 {
        seq![]
    } else if s[0] == '\\' {
        seq!['\\', '\\'] + escaped_front(s.skip(1))
    } else if s[0] == '`' {
        seq!['\\', '`'] + escaped_front(s.skip(1))
    } else if s[0] == '$' && s.len() >= 2 && s[1] == '{' {
        seq!['\\', '$', '{'] + escaped_front(s.skip(2))
    } else {
        seq![s[0]] + escaped_front(s.skip(1))
    }
}

/// Backslashes doubled and backticks escaped.
spec fn escape_quotes(s: Seq<char>) -> Seq<char> {
    replace_char(replace_char(s, '\\', "\\\\"@), '`', "\\`"@)
}

/// `escape_quotes`, read from the front.
proof fn lemma_escape_quotes_front(s: Seq<char>)
    requires
        s.len() > 0,
    ensures
        escape_quotes(s) == (if s[0] == '\\' {
            seq!['\\', '\\']
        } else if s[0] == '`' {
            seq!['\\', '`']
        } else {
            seq![s[0]]
        }) + escape_quotes(s.skip(1)),
{
    reveal_strlit("\\\\");
    reveal_strlit("\\`");
    let h1 = if s[0] == '\\' {
        "\\\\"@
    } else {
        seq![s[0]]
    };
    lemma_replace_front(s, '\\', "\\\\"@);
    let r1 = replace_char(s.skip(1), '\\', "\\\\"@);
    vstd::seq_lib::lemma_seq_skip_of_skip(s, 0, 1);
    crate::text::lemma_replace_concat(h1, r1, '`', "\\`"@);
    let h2 = replace_char(h1, '`', "\\`"@);
    if s[0] == '\\' {
        assert(h1 =~= seq!['\\', '\\']);
        lemma_replace_front(h1, '`', "\\`"@);
        lemma_replace_front(h1.skip(1), '`', "\\`"@);
        assert(h1.skip(1).skip(1) =~= Seq::<char>::empty());
        assert(h2 =~= seq!['\\', '\\']);
    } else {
        lemma_replace_front(h1, '`', "\\`"@);
        assert(h1.skip(1) =~= Seq::<char>::empty());
        if s[0] == '`' {
            assert(h2 =~= seq!['\\', '`']);
        } else {
            assert(h2 =~= seq![s[0]]);
        }
    }
}

/// `escape_dollar_brace` on text that does not start with `$`.
proof fn lemma_edb_plain(x: char, t: Seq<char>)
    requires
        x != '$' || t.len() == 0 || t[0] != '{',
    ensures
        escape_dollar_brace(seq![x] + t) == seq![x] + escape_dollar_brace(t),
{
    let u = seq![x] + t;
    assert(u[0] == x);
    assert(u.skip(1) =~= t);
    if u.len() >= 2 {
        assert(u[1] == t[0]);
    }
}

/// The whole template escaping is the one-pass escaping.
proof fn lemma_escape_template_front(s: Seq<char>)
    ensures
        spec_escape_template(s) == escaped_front(s),
    decreases s.len(),
{
    reveal_strlit("\\${");
    if s.len() == 0 {
        assert(escape_quotes(s) =~= Seq::<char>::empty());
    } else {
        let r = s.skip(1);
        lemma_escape_quotes_front(s);
        let e = escape_quotes(r);
        if s[0] == '\\' || s[0] == '`' {
            lemma_escape_template_front(r);
            let y = s[0];
            assert(escape_quotes(s) =~= seq!['\\', y] + e);
            assert(seq!['\\', y] + e =~= seq!['\\'] + (seq![y] + e));
            lemma_edb_plain(y, e);
            lemma_edb_plain('\\', seq![y] + e);
        } else if s[0] == '$' && s.len() >= 2 && s[1] == '{' {
            lemma_escape_quotes_front(r);
            assert(r[0] == '{');
            let r2 = s.skip(2);
            assert(r.skip(1) =~= r2);
            lemma_escape_template_front(r2);
            let e2 = escape_quotes(r2);
            let u = escape_quotes(s);
            assert(u =~= seq!['$', '{'] + e2);
            assert(u[0] == '$' && u[1] == '{');
            assert(u.skip(2) =~= e2);
            assert("\\${"@ =~= seq!['\\', '$', '{']);
        } else {
            lemma_escape_template_front(r);
            if r.len() > 0 {
                lemma_escape_quotes_front(r);
            } else {
                assert(e =~= Seq::<char>::empty());
            }
            lemma_edb_plain(s[0], e);
        }
    }
}

/// The one-pass escaping reads back as the text.
proof fn lemma_escaped_front_reads_back(s: Seq<char>)
    ensures
        template_value(escaped_front(s)) == Some(s),
    decreases s.len(),
{
    if s.len() > 0 {
        let t = escaped_front(s);
        if s[0] == '\\' || s[0] == '`' {
            let r = s.skip(1);
            lemma_escaped_front_reads_back(r);
            assert(t =~= seq!['\\', s[0]] + escaped_front(r));
            assert(t[0] == '\\' && t[1] == s[0]);
            assert(t.skip(2) =~= escaped_front(r));
            assert(seq![s[0]] + r =~= s);
        } else if s[0] == '$' && s.len() >= 2 && s[1] == '{' {
            let r2 = s.skip(2);
            lemma_escaped_front_reads_back(r2);
            let f = escaped_front(r2);
            assert(t =~= seq!['\\', '$', '{'] + f);
            assert(t[0] == '\\' && t[1] == '$');
            let u = t.skip(2);
            assert(u =~= seq!['{'] + f);
            assert(u[0] == '{');
            assert(u.skip(1) =~= f);
            assert(template_value(u) == Some(seq!['{'] + r2));
            assert(seq!['$'] + (seq!['{'] + r2) =~= s);
        } else {
            let r = s.skip(1);
            lemma_escaped_front_reads_back(r);
            let f = escaped_front(r);
            assert(t =~= seq![s[0]] + f);
            assert(t[0] == s[0]);
            assert(t.skip(1) =~= f);
            if r.len() > 0 {
                assert(r[0] == s[1]);
                if s[0] == '$' {
                    assert(r[0] != '{');
                    if r[0] == '\\' || r[0] == '`' || (r[0] == '$' && r.len() >= 2 && r[1] == '{') {
                        assert(f[0] == '\\');
                    } else {
                        assert(f =~= seq![r[0]] + escaped_front(r.skip(1)));
                    }
                    assert(f[0] != '{');
                }
                assert(t[1] == f[0]);
            } else {
                assert(f.len() == 0);
                assert(t.len() == 1);
            }
            assert(seq![s[0]] + r =~= s);
        }
    }
}

/// What the save script stores is the history text itself: the escaped text,
/// read as the JavaScript template literal that the script puts it in, is
/// the text that was escaped.
pub proof fn law_saved_text_reads_back(json: Seq<char>)
    ensures
        template_value(spec_escape_template(json)) == Some(json),
{
    lemma_escape_template_front(json);
    lemma_escaped_front_reads_back(json);
}

/// A date written `Y-M-D` (three parts without `-`) is written for people as
/// the month's name, the day without leading zeros, a comma and the year; a
/// text without any `-` is left as it is.
pub proof fn law_date_for_people(y: Seq<char>, m: Seq<char>, d: Seq<char>)
    requires
        !y.contains('-'),
        !m.contains('-'),
        !d.contains('-'),
    ensures
        spec_fmt_date(y + "-"@ + m + "-"@ + d) == month_name(m) + " "@ + drop_lead(d, CharClass::Zero) + ", "@ + y,
        spec_fmt_date(y) == y,
{
    reveal_strlit("-");
    let parts = seq![y, m, d];
    assert forall|i: int| 0 <= i < parts.len() implies !(#[trigger] parts[i]).contains('-') by {}
    lemma_split_join(parts, '-');
    assert(parts.drop_last() =~= seq![y, m]);
    assert(seq![y, m].drop_last() =~= seq![y]);
    assert("-"@ =~= seq!['-']);
    assert(parts.last() == d);
    assert(seq_join(seq![y], seq!['-']) == y);
    assert(seq_join(seq![y, m], seq!['-']) == y + seq!['-'] + m);
    assert(seq_join(parts, seq!['-']) == seq_join(seq![y, m], seq!['-']) + seq!['-'] + d);
    assert(seq_join(parts, seq!['-']) =~= y + "-"@ + m + "-"@ + d);
    lemma_split_join(seq![y], '-');
    assert(seq_join(seq![y], seq!['-']) == y);
}

} // verus!
