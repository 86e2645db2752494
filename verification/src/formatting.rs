use vstd::prelude::*;
use crate::json::{Json, JsonV, views_of, lemma_views_of, entry_views, lemma_entry_views};
use crate::types::OutputFormat;
use crate::text::{
    byte_len, byte_prefix, byte_prefix_ok, byte_prefix_str, char_is_alphanumeric, chars_of,
    copy_str, drop_lead, is_alphanumeric, is_byte_boundary, lead_in, push_char, replace_char,
    replace_char_str, string_of_range, strip_all, strip_all_from, trail_in, trim, utf8_len,
    CharClass, char_is_alphabetic, is_ws, ascii_upper, drop_trail, drop_trail_str, char_is_ws,
    is_alphabetic, to_ascii_upper, seq_join, views, join, join_first, cat, cat3, cat4, cat5,
    trim_str, lead,
};

verus! {

// ---------------------------------------------------------------------------
// Escaping
// ---------------------------------------------------------------------------

/// LaTeX escaping: each special character is replaced in turn, backslash
/// first (so the braces that its replacement brings in are escaped as well).
pub open spec fn spec_escape_latex(s: Seq<char>) -> Seq<char> {
    let s1 = replace_char(s, '\\', "\\textbackslash{}"@);
    let s2 = replace_char(s1, '&', "\\&"@);
    let s3 = replace_char(s2, '%', "\\%"@);
    let s4 = replace_char(s3, '$', "\\$"@);
    let s5 = replace_char(s4, '#', "\\#"@);
    let s6 = replace_char(s5, '_', "\\_"@);
    let s7 = replace_char(s6, '{', "\\{"@);
    let s8 = replace_char(s7, '}', "\\}"@);
    let s9 = replace_char(s8, '~', "\\textasciitilde{}"@);
    replace_char(s9, '^', "\\textasciicircum{}"@)
}

/// Escapes the characters that LaTeX treats specially.
pub fn escape_latex(s: &str) -> (r: String)
    ensures
        r@ == spec_escape_latex(s@),
{
    let s1 = replace_char_str(s, '\\', "\\textbackslash{}");
    let s2 = replace_char_str(s1.as_str(), '&', "\\&");
    let s3 = replace_char_str(s2.as_str(), '%', "\\%");
    let s4 = replace_char_str(s3.as_str(), '$', "\\$");
    let s5 = replace_char_str(s4.as_str(), '#', "\\#");
    let s6 = replace_char_str(s5.as_str(), '_', "\\_");
    let s7 = replace_char_str(s6.as_str(), '{', "\\{");
    let s8 = replace_char_str(s7.as_str(), '}', "\\}");
    let s9 = replace_char_str(s8.as_str(), '~', "\\textasciitilde{}");
    replace_char_str(s9.as_str(), '^', "\\textasciicircum{}")
}

/// HTML escaping of `&`, `<`, `>` and `"`, ampersand first.
pub open spec fn spec_html_escape(s: Seq<char>) -> Seq<char> {
    let s1 = replace_char(s, '&', "&amp;"@);
    let s2 = replace_char(s1, '<', "&lt;"@);
    let s3 = replace_char(s2, '>', "&gt;"@);
    replace_char(s3, '"', "&quot;"@)
}

/// Escapes text for inclusion in HTML.
pub fn html_escape(s: &str) -> (r: String)
    ensures
        r@ == spec_html_escape(s@),
{
    let s1 = replace_char_str(s, '&', "&amp;");
    let s2 = replace_char_str(s1.as_str(), '<', "&lt;");
    let s3 = replace_char_str(s2.as_str(), '>', "&gt;");
    replace_char_str(s3.as_str(), '"', "&quot;")
}

// ---------------------------------------------------------------------------
// DOIs as keys and links
// ---------------------------------------------------------------------------

/// A citation key made from a DOI: every character that is not alphanumeric becomes `_`.
pub open spec fn spec_doi_key(doi: Seq<char>) -> Seq<char> {
    doi.map_values(|c: char| if char_is_alphanumeric(c) { c } else { '_' })
}

/// Turns a DOI into a citation key.
pub fn doi_key(doi: &str) -> (r: String)
    ensures
        r@ == spec_doi_key(doi@),
{
    let cs = chars_of(doi);
    let mut r = String::new();
    let mut i: usize = 0;
    while i < cs.len()
        invariant
            cs@ == doi@,
            i <= cs@.len(),
            r@ == spec_doi_key(cs@.take(i as int)),
        decreases cs@.len() - i,
    {
        let c = cs[i];
        if is_alphanumeric(c) {
            push_char(&mut r, c);
        } else {
            push_char(&mut r, '_');
        }
        assert(r@ =~= spec_doi_key(cs@.take(i + 1)));
        i = i + 1;
    }
    assert(cs@.take(cs@.len() as int) =~= cs@);
    r
}

/// A DOI without the resolver prefixes `https://doi.org/`, `http://doi.org/`
/// and `doi:` (each removed as often as it repeats, in that order), trimmed.
pub open spec fn spec_clean_doi(doi: Seq<char>) -> Seq<char> {
    trim(strip_all(strip_all(strip_all(doi, "https://doi.org/"@), "http://doi.org/"@), "doi:"@))
}

/// The bare DOI of a DOI that may be written as a link or with a `doi:` prefix.
pub fn clean_doi(doi: &str) -> (r: &str)
    ensures
        r@ == spec_clean_doi(doi@),
{
    let cs = chars_of(doi);
    let n = cs.len();
    assert(cs@.skip(0) =~= cs@);
    let a1 = strip_all_from(&cs, 0, "https://doi.org/");
    let a2 = strip_all_from(&cs, a1, "http://doi.org/");
    let a3 = strip_all_from(&cs, a2, "doi:");
    let l = lead_in(&cs, a3, n, CharClass::Whitespace);
    let t = trail_in(&cs, a3 + l, n, CharClass::Whitespace);
    proof {
        let rest = cs@.skip(a3 as int);
        assert(rest =~= cs@.subrange(a3 as int, n as int));
        assert(drop_lead(rest, CharClass::Whitespace) =~= cs@.subrange(a3 + l, n as int));
        assert(trim(rest) =~= cs@.subrange(a3 + l, n - t));
    }
    doi.substring_char(a3 + l, n - t)
}

// ---------------------------------------------------------------------------
// Numbers
// ---------------------------------------------------------------------------

/// The decimal digit `d` as a character.
pub open spec fn digit_char(d: nat) -> char {
    if d == 0 { '0' }
    else if d == 1 { '1' }
    else if d == 2 { '2' }
    else if d == 3 { '3' }
    else if d == 4 { '4' }
    else if d == 5 { '5' }
    else if d == 6 { '6' }
    else if d == 7 { '7' }
    else if d == 8 { '8' }
    else { '9' }
}

/// The decimal notation of `n` (`u64::to_string`).
pub open spec fn decimal(n: nat) -> Seq<char>
    decreases n,
{
    if n < 10 {
        seq![digit_char(n)]
    } else {
        decimal(n / 10).push(digit_char(n % 10))
    }
}

fn digit(d: u64) -> (c: char)
    requires
        d < 10,
    ensures
        c == digit_char(d as nat),
{
    if d == 0 { '0' }
    else if d == 1 { '1' }
    else if d == 2 { '2' }
    else if d == 3 { '3' }
    else if d == 4 { '4' }
    else if d == 5 { '5' }
    else if d == 6 { '6' }
    else if d == 7 { '7' }
    else if d == 8 { '8' }
    else { '9' }
}

/// Writes `n` in decimal.
pub fn u64_to_decimal(n: u64) -> (r: String)
    ensures
        r@ == decimal(n as nat),
    decreases n,
{
    if n < 10 {
        let mut r = String::new();
        push_char(&mut r, digit(n));
        assert(r@ =~= decimal(n as nat));
        r
    } else {
        let mut r = u64_to_decimal(n / 10);
        push_char(&mut r, digit(n % 10));
        r
    }
}

/// A value that is written as text: a string as it is, a non-negative integer in decimal.
pub open spec fn str_or_num(v: JsonV) -> Option<Seq<char>> {
    match v.as_str() {
        Some(s) => Some(s),
        None => match v.as_u64() {
            Some(n) => Some(decimal(n as nat)),
            None => None,
        },
    }
}

/// `v.as_str().map(String::from).or_else(|| v.as_u64().map(|n| n.to_string()))`.
pub fn text_or_number(v: &Json) -> (r: Option<String>)
    ensures
        r matches Some(s) ==> str_or_num(v@) == Some(s@),
        r is None <==> str_or_num(v@) is None,
{
    match v.as_str() {
        Some(s) => Some(copy_str(s)),
        None => match v.as_u64() {
            Some(n) => Some(u64_to_decimal(n)),
            None => None,
        },
    }
}

// ---------------------------------------------------------------------------
// Reading metadata fields
// ---------------------------------------------------------------------------

/// A field that may be a string or a list of strings: the string, or the first
/// item of the list when that is a string; otherwise empty.
pub open spec fn spec_get_string(v: JsonV) -> Seq<char> {
    match v {
        JsonV::Array(a) => if a.len() > 0 { a[0].str_or_empty() } else { seq![] },
        JsonV::Str(s) => s,
        _ => seq![],
    }
}

/// Reads a string-valued field.
pub fn get_string(v: &Json) -> (r: String)
    ensures
        r@ == spec_get_string(v@),
{
    match v {
        Json::Array(a) => {
            proof {
                lemma_views_of(a@);
            }
            if a.len() > 0 {
                match a[0].as_str() {
                    Some(s) => copy_str(s),
                    None => String::new(),
                }
            } else {
                String::new()
            }
        },
        Json::Str(s) => copy_str(s.as_str()),
        _ => String::new(),
    }
}

/// The first entry of the first `date-parts` row of a date record, if any.
pub open spec fn first_date_part(date: JsonV) -> Option<JsonV> {
    match date.at("date-parts"@).as_array() {
        Some(rows) => if rows.len() > 0 {
            match rows[0].as_array() {
                Some(row) => if row.len() > 0 { Some(row[0]) } else { None },
                None => None,
            }
        } else {
            None
        },
        None => None,
    }
}

/// The first entry of the first `date-parts` row.
fn first_part(date: &Json) -> (r: Option<&Json>)
    ensures
        r matches Some(p) ==> first_date_part(date@) == Some(p@),
        r is None <==> first_date_part(date@) is None,
{
    match date.get("date-parts") {
        Some(d) => match d.as_array() {
            Some(rows) => {
                proof {
                    lemma_views_of(rows@);
                }
                if rows.len() > 0 {
                    match rows[0].as_array() {
                        Some(row) => {
                            proof {
                                lemma_views_of(row@);
                            }
                            if row.len() > 0 {
                                Some(&row[0])
                            } else {
                                None
                            }
                        },
                        None => None,
                    }
                } else {
                    None
                }
            },
            None => None,
        },
        None => None,
    }
}

/// Which source the year of a date record is read from.
pub enum YearSource {
    /// No year.
    Nothing,
    /// A number, written in decimal.
    Number(u64),
    /// A string from `date-parts`: its first four characters.
    PartText(Seq<char>),
    /// A `raw` or `date-time` string: its first four bytes.
    Leading(Seq<char>),
}

/// Where `extract_year` takes the year from.
pub open spec fn year_source(date: JsonV) -> YearSource {
    if date.is_null() {
        YearSource::Nothing
    } else {
        let part = first_date_part(date);
        if part matches Some(y) && y.as_u64() is Some {
            YearSource::Number(part->0.as_u64()->0)
        } else if part matches Some(y) && y.as_str() is Some {
            YearSource::PartText(part->0.as_str()->0)
        } else if date.at("raw"@).as_str() matches Some(r) && utf8_len(r) >= 4 {
            YearSource::Leading(date.at("raw"@).as_str()->0)
        } else if date.at("date-time"@).as_str() matches Some(d) && utf8_len(d) >= 4 {
            YearSource::Leading(date.at("date-time"@).as_str()->0)
        } else {
            YearSource::Nothing
        }
    }
}

/// Reading the year of `date` does not cut a character in two.
pub open spec fn year_ok(date: JsonV) -> bool {
    year_source(date) matches YearSource::Leading(t) ==> byte_prefix_ok(t, 4)
}

/// The year of a date record: the first `date-parts` entry (a number in
/// decimal, or the first four characters of a string), else the first four
/// bytes of `raw`, else of `date-time`, else nothing.
pub open spec fn spec_extract_year(date: JsonV) -> Seq<char> {
    match year_source(date) {
        YearSource::Nothing => seq![],
        YearSource::Number(n) => decimal(n as nat),
        YearSource::PartText(s) => s.take(if s.len() < 4 { s.len() as int } else { 4 }),
        YearSource::Leading(t) => byte_prefix(t, 4),
    }
}

/// The first `n` characters of `s` (`s.chars().take(n)`).
fn first_chars(s: &str, n: usize) -> (r: String)
    ensures
        r@ == s@.take(if s@.len() < n { s@.len() as int } else { n as int }),
{
    let cs = chars_of(s);
    let k = if cs.len() < n { cs.len() } else { n };
    string_of_range(&cs, 0, k)
}

/// Reads the year of a date record.
pub fn extract_year(date: &Json) -> (r: String)
    requires
        year_ok(date@),
    ensures
        r@ == spec_extract_year(date@),
{
    if date.is_null() {
        return String::new();
    }
    let part = first_part(date);
    if let Some(y) = part {
        if let Some(n) = y.as_u64() {
            return u64_to_decimal(n);
        }
        if let Some(s) = y.as_str() {
            return first_chars(s, 4);
        }
    }
    if let Some(r) = date.get_str("raw") {
        if byte_len(r) >= 4 {
            return byte_prefix_str(r, 4);
        }
    }
    if let Some(d) = date.get_str("date-time") {
        if byte_len(d) >= 4 {
            return byte_prefix_str(d, 4);
        }
    }
    String::new()
}

/// The date record a year is read from: the first of `issued`, `created`,
/// `published` that is not null.
pub open spec fn year_record(meta: JsonV) -> Option<JsonV> {
    if !meta.at("issued"@).is_null() {
        Some(meta.at("issued"@))
    } else if !meta.at("created"@).is_null() {
        Some(meta.at("created"@))
    } else if !meta.at("published"@).is_null() {
        Some(meta.at("published"@))
    } else {
        None
    }
}

/// Rendering `meta` does not cut a character in two.
pub open spec fn renderable(meta: JsonV) -> bool {
    year_record(meta) matches Some(d) ==> year_ok(d)
}

/// The year of a metadata record, or nothing.
pub open spec fn spec_get_year(meta: JsonV) -> Seq<char> {
    match year_record(meta) {
        Some(d) => spec_extract_year(d),
        None => seq![],
    }
}

/// Reads the year of a metadata record.
pub fn get_year(meta: &Json) -> (r: String)
    requires
        renderable(meta@),
    ensures
        r@ == spec_get_year(meta@),
{
    match meta.get("issued") {
        Some(d) if !d.is_null() => return extract_year(d),
        _ => {},
    }
    match meta.get("created") {
        Some(d) if !d.is_null() => return extract_year(d),
        _ => {},
    }
    match meta.get("published") {
        Some(d) if !d.is_null() => return extract_year(d),
        _ => {},
    }
    String::new()
}

/// Whether the year of `date` can be read without cutting a character in two.
pub fn is_year_readable(date: &Json) -> (r: bool)
    ensures
        r == year_ok(date@),
{
    if date.is_null() {
        return true;
    }
    if let Some(y) = first_part(date) {
        if y.as_u64().is_some() || y.as_str().is_some() {
            return true;
        }
    }
    if let Some(r) = date.get_str("raw") {
        if byte_len(r) >= 4 {
            return is_byte_boundary(r, 4);
        }
    }
    if let Some(d) = date.get_str("date-time") {
        if byte_len(d) >= 4 {
            return is_byte_boundary(d, 4);
        }
    }
    true
}

/// Whether a metadata record can be rendered without cutting a character in two.
pub fn is_renderable(meta: &Json) -> (r: bool)
    ensures
        r == renderable(meta@),
{
    match meta.get("issued") {
        Some(d) if !d.is_null() => return is_year_readable(d),
        _ => {},
    }
    match meta.get("created") {
        Some(d) if !d.is_null() => return is_year_readable(d),
        _ => {},
    }
    match meta.get("published") {
        Some(d) if !d.is_null() => return is_year_readable(d),
        _ => {},
    }
    true
}

// ---------------------------------------------------------------------------
// Authors
// ---------------------------------------------------------------------------

/// Whether position `i` of `s` starts a word (a run of non-white-space characters).
pub open spec fn word_start(s: Seq<char>, i: int) -> bool {
    !is_ws(s[i]) && (i == 0 || is_ws(s[i - 1]))
}

/// For each word of `s` that starts with a letter: that letter (ASCII letters
/// upper-cased), a full stop and a space.
pub open spec fn initials_raw(s: Seq<char>) -> Seq<char>
    decreases s.len(),
{
    if s.len() == 0 {
        seq![]
    } else {
        let i = s.len() - 1;
        initials_raw(s.drop_last()) + if word_start(s, i) && char_is_alphabetic(s[i]) {
            seq![ascii_upper(s[i]), '.', ' ']
        } else {
            seq![]
        }
    }
}

/// The initials of a given name, as in `J. R.`: white space at the end removed.
pub open spec fn spec_initials(given: Seq<char>) -> Seq<char> {
    drop_trail(initials_raw(given), CharClass::Whitespace)
}

/// The initials of the words of a given name.
pub fn initials_from(given: &str) -> (r: String)
    ensures
        r@ == spec_initials(given@),
{
    let cs = chars_of(given);
    let mut out = String::new();
    let mut i: usize = 0;
    while i < cs.len()
        invariant
            cs@ == given@,
            i <= cs@.len(),
            out@ == initials_raw(cs@.take(i as int)),
        decreases cs@.len() - i,
    {
        let c = cs[i];
        let start = !char_is_ws(c) && (i == 0 || char_is_ws(cs[i - 1]));
        let ghost t = cs@.take(i + 1);
        assert(t.drop_last() =~= cs@.take(i as int));
        assert(t[i as int] == c);
        assert(i > 0 ==> t[i - 1] == cs@[i - 1]);
        assert(start == word_start(t, i as int));
        if start && is_alphabetic(c) {
            push_char(&mut out, to_ascii_upper(c));
            push_char(&mut out, '.');
            push_char(&mut out, ' ');
            assert(out@ =~= initials_raw(t));
        } else {
            assert(out@ =~= initials_raw(t));
        }
        i = i + 1;
    }
    assert(cs@.take(cs@.len() as int) =~= cs@);
    drop_trail_str(out.as_str(), CharClass::Whitespace)
}

/// A list of author names in APA style: `A`, `A, & B`, `A, B, & C`, with
/// `amp` standing for the ampersand and the space after it.
pub open spec fn join_apa(v: Seq<Seq<char>>, amp: Seq<char>) -> Seq<char> {
    if v.len() == 0 {
        seq![]
    } else if v.len() == 1 {
        v[0]
    } else {
        seq_join(v.drop_last(), ", "@) + ", "@ + amp + v.last()
    }
}

/// Joins author names in APA style.
pub fn join_authors_apa(v: &[String], ampersand: &str) -> (r: String)
    ensures
        r@ == join_apa(views(v@), ampersand@),
{
    let n = v.len();
    if n == 0 {
        String::new()
    } else if n == 1 {
        copy_str(v[0].as_str())
    } else {
        let head = join_first(v, n - 1, ", ");
        assert(views(v@.take(n - 1)) =~= views(v@).drop_last());
        cat4(head.as_str(), ", ", ampersand, v[n - 1].as_str())
    }
}

/// One author as `Family, I. N.`; nothing when the family name is empty. In
/// LaTeX the family name is escaped.
pub open spec fn author_entry(a: JsonV, latex: bool) -> Option<Seq<char>> {
    let raw = a.at("family"@).str_or_empty();
    let family = if latex { spec_escape_latex(raw) } else { raw };
    let ini = spec_initials(a.at("given"@).str_or_empty());
    if family.len() == 0 {
        None
    } else if ini.len() == 0 {
        Some(family)
    } else {
        Some(family + ", "@ + ini)
    }
}

/// The named authors of a list, in order.
pub open spec fn author_entries(arr: Seq<JsonV>, latex: bool) -> Seq<Seq<char>>
    decreases arr.len(),
{
    if arr.len() == 0 {
        seq![]
    } else {
        match author_entry(arr.last(), latex) {
            Some(e) => author_entries(arr.drop_last(), latex).push(e),
            None => author_entries(arr.drop_last(), latex),
        }
    }
}

/// The author list of a record, APA style, with `\&` in LaTeX and `&` elsewhere.
pub open spec fn spec_format_authors(authors: JsonV, latex: bool) -> Seq<char> {
    match authors.as_array() {
        Some(arr) => join_apa(author_entries(arr, latex), if latex { "\\& "@ } else { "& "@ }),
        None => seq![],
    }
}

fn format_author_entries(arr: &Vec<Json>, latex: bool) -> (r: Vec<String>)
    ensures
        views(r@) == author_entries(views_of(arr@), latex),
{
    let ghost av = views_of(arr@);
    proof {
        lemma_views_of(arr@);
    }
    let mut out: Vec<String> = Vec::new();
    let mut i: usize = 0;
    while i < arr.len()
        invariant
            av == views_of(arr@),
            av.len() == arr@.len(),
            forall|j: int| 0 <= j < arr@.len() ==> #[trigger] av[j] == arr@[j]@,
            i <= arr@.len(),
            views(out@) == author_entries(av.take(i as int), latex),
        decreases arr@.len() - i,
    {
        let a = &arr[i];
        let raw = match a.get_str("family") {
            Some(f) => copy_str(f),
            None => String::new(),
        };
        let family = if latex { escape_latex(raw.as_str()) } else { raw };
        let ini = match a.get_str("given") {
            Some(g) => initials_from(g),
            None => {
                let empty = String::new();
                initials_from(empty.as_str())
            },
        };
        proof {
            assert(av.take(i + 1).drop_last() =~= av.take(i as int));
            assert(av.take(i + 1).last() == a@);
        }
        if family.as_str().is_empty() {
        } else {
            let e = if ini.as_str().is_empty() { family } else { cat3(family.as_str(), ", ", ini.as_str()) };
            out.push(e);
            assert(views(out@) =~= author_entries(av.take(i + 1), latex));
        }
        i = i + 1;
    }
    assert(av.take(arr@.len() as int) =~= av);
    out
}

/// The author list of a record for LaTeX output.
pub fn format_authors_latex(authors: &Json) -> (r: String)
    ensures
        r@ == spec_format_authors(authors@, true),
{
    match authors.as_array() {
        Some(arr) => {
            let names = format_author_entries(arr, true);
            join_authors_apa(names.as_slice(), "\\& ")
        },
        None => String::new(),
    }
}

/// The author list of a record for plain-text style outputs.
pub fn format_authors_plain(authors: &Json) -> (r: String)
    ensures
        r@ == spec_format_authors(authors@, false),
{
    match authors.as_array() {
        Some(arr) => {
            let names = format_author_entries(arr, false);
            join_authors_apa(names.as_slice(), "& ")
        },
        None => String::new(),
    }
}

// ---------------------------------------------------------------------------
// Field access on a record
// ---------------------------------------------------------------------------

/// `meta[key]` read as text or number (see `str_or_num`).
fn field_text_or_number(meta: &Json, key: &str) -> (r: Option<String>)
    ensures
        r matches Some(s) ==> str_or_num(meta@.at(key@)) == Some(s@),
        r is None <==> str_or_num(meta@.at(key@)) is None,
{
    match meta.get(key) {
        Some(v) => text_or_number(v),
        None => None,
    }
}

/// `get_string(&meta[key])`.
fn field_string(meta: &Json, key: &str) -> (r: String)
    ensures
        r@ == spec_get_string(meta@.at(key@)),
{
    match meta.get(key) {
        Some(v) => get_string(v),
        None => String::new(),
    }
}

/// `meta[key].as_str().unwrap_or("")`, copied.
fn field_str_or_empty(meta: &Json, key: &str) -> (r: String)
    ensures
        r@ == meta@.at(key@).str_or_empty(),
{
    match meta.get_str(key) {
        Some(s) => copy_str(s),
        None => String::new(),
    }
}

/// `[part]` when `cond` holds, else nothing.
pub open spec fn part_if(cond: bool, part: Seq<char>) -> Seq<Seq<char>> {
    if cond {
        seq![part]
    } else {
        seq![]
    }
}

/// `[f(x)]` for an optional `x`.
pub open spec fn part_of(x: Option<Seq<char>>, f: spec_fn(Seq<char>) -> Seq<char>) -> Seq<Seq<char>> {
    match x {
        Some(v) => seq![f(v)],
        None => seq![],
    }
}

/// The text of an optional field, or nothing.
pub open spec fn or_empty(x: Option<Seq<char>>) -> Seq<char> {
    match x {
        Some(v) => v,
        None => seq![],
    }
}

// ---------------------------------------------------------------------------
// LaTeX
// ---------------------------------------------------------------------------

/// Volume and issue in LaTeX: `\textit{V}(I)`, `\textit{V}`, or nothing without a volume.
pub open spec fn latex_volume_issue(meta: JsonV) -> Seq<char> {
    match str_or_num(meta.at("volume"@)) {
        Some(v) => match str_or_num(meta.at("issue"@)) {
            Some(i) => "\\textit{"@ + spec_escape_latex(v) + "}("@ + spec_escape_latex(i) + ")"@,
            None => "\\textit{"@ + spec_escape_latex(v) + "}"@,
        },
        None => seq![],
    }
}

/// Text that ends in a full stop: `s` itself when it already ends in one (as an
/// author list ending in an initial does), else `s` with one added.
pub open spec fn with_stop(s: Seq<char>) -> Seq<char> {
    if s.len() > 0 && s.last() == '.' {
        s
    } else {
        s + "."@
    }
}

/// Ends text with a full stop, adding one only when it is missing.
pub fn with_stop_str(s: &str) -> (r: String)
    ensures
        r@ == with_stop(s@),
{
    let cs = chars_of(s);
    let n = cs.len();
    if n > 0 && cs[n - 1] == '.' {
        copy_str(s)
    } else {
        cat(s, ".")
    }
}

/// The pieces of a LaTeX reference, in order; they are joined by spaces.
pub open spec fn latex_parts(meta: JsonV, doi: Seq<char>) -> Seq<Seq<char>> {
    let auth = spec_format_authors(meta.at("author"@), true);
    let title = drop_trail(spec_escape_latex(spec_get_string(meta.at("title"@))), CharClass::Dot);
    let container = spec_escape_latex(spec_get_string(meta.at("container-title"@)));
    let vi = latex_volume_issue(meta);
    part_if(auth.len() > 0, with_stop(auth))
        + year_part(meta)
        + part_if(title.len() > 0, "\\textit{"@ + title + "}."@)
        + part_if(container.len() > 0, if vi.len() == 0 {
            "\\textit{"@ + container + "}."@
        } else {
            "\\textit{"@ + container + "}, "@ + vi + "."@
        })
        + part_of(meta.at("page"@).as_str(), |pg: Seq<char>| replace_char(spec_escape_latex(pg), '-', "--"@) + "."@)
        + seq!["\\url{https://doi.org/"@ + spec_escape_latex(spec_clean_doi(doi)) + "}"@]
}

/// A LaTeX reference (without its `\bibitem` line).
pub open spec fn spec_generate_latex(meta: JsonV, doi: Seq<char>) -> Seq<char> {
    seq_join(latex_parts(meta, doi), " "@)
}

fn latex_volume_issue_of(meta: &Json) -> (r: String)
    ensures
        r@ == latex_volume_issue(meta@),
{
    match field_text_or_number(meta, "volume") {
        Some(v) => {
            let ev = escape_latex(v.as_str());
            match field_text_or_number(meta, "issue") {
                Some(i) => {
                    let ei = escape_latex(i.as_str());
                    cat5("\\textit{", ev.as_str(), "}(", ei.as_str(), ")")
                },
                None => cat3("\\textit{", ev.as_str(), "}"),
            }
        },
        None => String::new(),
    }
}

fn latex_author_piece(meta: &Json) -> (r: Option<String>)
    ensures
        opt_views(r) == ({
            let auth = spec_format_authors(meta@.at("author"@), true);
            part_if(auth.len() > 0, with_stop(auth))
        }),
{
    let auth = match meta.get("author") {
        Some(a) => format_authors_latex(a),
        None => String::new(),
    };
    if auth.as_str().is_empty() {
        None
    } else {
        Some(with_stop_str(auth.as_str()))
    }
}

fn latex_title_piece(meta: &Json) -> (r: Option<String>)
    ensures
        opt_views(r) == ({
            let title = drop_trail(spec_escape_latex(spec_get_string(meta@.at("title"@))), CharClass::Dot);
            part_if(title.len() > 0, "\\textit{"@ + title + "}."@)
        }),
{
    let t0 = field_string(meta, "title");
    let t1 = escape_latex(t0.as_str());
    let title = drop_trail_str(t1.as_str(), CharClass::Dot);
    field_line("\\textit{", title.as_str(), "}.")
}

fn latex_container_piece(meta: &Json) -> (r: Option<String>)
    ensures
        opt_views(r) == ({
            let container = spec_escape_latex(spec_get_string(meta@.at("container-title"@)));
            let vi = latex_volume_issue(meta@);
            part_if(container.len() > 0, if vi.len() == 0 {
                "\\textit{"@ + container + "}."@
            } else {
                "\\textit{"@ + container + "}, "@ + vi + "."@
            })
        }),
{
    let c0 = field_string(meta, "container-title");
    let container = escape_latex(c0.as_str());
    if container.as_str().is_empty() {
        return None;
    }
    let vi = latex_volume_issue_of(meta);
    if vi.as_str().is_empty() {
        Some(cat3("\\textit{", container.as_str(), "}."))
    } else {
        Some(cat5("\\textit{", container.as_str(), "}, ", vi.as_str(), "."))
    }
}

fn latex_page_piece(meta: &Json) -> (r: Option<String>)
    ensures
        opt_views(r) == part_of(meta@.at("page"@).as_str(), |pg: Seq<char>| replace_char(spec_escape_latex(pg), '-', "--"@) + "."@),
{
    match meta.get_str("page") {
        Some(pg) => {
            let e = escape_latex(pg);
            let d = replace_char_str(e.as_str(), '-', "--");
            Some(cat(d.as_str(), "."))
        },
        None => None,
    }
}

/// Renders a LaTeX reference (without its `\bibitem` line).
pub fn generate_latex(meta: &Json, doi: &str) -> (r: String)
    requires
        renderable(meta@),
    ensures
        r@ == spec_generate_latex(meta@, doi@),
{
    let mut p: Vec<String> = Vec::new();
    assert(views(p@) =~= Seq::<Seq<char>>::empty());
    push_opt(&mut p, latex_author_piece(meta));
    push_opt(&mut p, year_piece(meta));
    push_opt(&mut p, latex_title_piece(meta));
    push_opt(&mut p, latex_container_piece(meta));
    push_opt(&mut p, latex_page_piece(meta));
    let ghost before = views(p@);
    let cd = clean_doi(doi);
    let ed = escape_latex(cd);
    push_piece(&mut p, cat3("\\url{https://doi.org/", ed.as_str(), "}"));
    assert(views(p@) =~= latex_parts(meta@, doi@));
    join(p.as_slice(), " ")
}

// ---------------------------------------------------------------------------
// Building lists of pieces
// ---------------------------------------------------------------------------

/// The pieces held by an optional piece.
pub open spec fn opt_views(x: Option<String>) -> Seq<Seq<char>> {
    match x {
        Some(s) => seq![s@],
        None => seq![],
    }
}

/// Appends an optional piece.
fn push_opt(p: &mut Vec<String>, x: Option<String>)
    ensures
        views(final(p)@) == views(old(p)@) + opt_views(x),
{
    let ghost before = views(p@);
    match x {
        Some(s) => {
            p.push(s);
            assert(views(p@) =~= before + opt_views(Some(s)));
        },
        None => {
            assert(views(p@) =~= before + opt_views(None));
        },
    }
}

/// `prefix value`, when `value` is not empty.
fn labelled_line(prefix: &str, value: &str) -> (r: Option<String>)
    ensures
        opt_views(r) == part_if(value@.len() > 0, prefix@ + value@),
{
    if value.is_empty() {
        None
    } else {
        Some(cat(prefix, value))
    }
}

/// Appends a piece.
fn push_piece(p: &mut Vec<String>, x: String)
    ensures
        views(final(p)@) == views(old(p)@).push(x@),
{
    let ghost before = views(p@);
    p.push(x);
    assert(views(p@) =~= before.push(x@));
}

/// `prefix value suffix`, when `value` is not empty.
fn field_line(prefix: &str, value: &str, suffix: &str) -> (r: Option<String>)
    ensures
        opt_views(r) == part_if(value@.len() > 0, prefix@ + value@ + suffix@),
{
    if value.is_empty() {
        None
    } else {
        Some(cat3(prefix, value, suffix))
    }
}

// ---------------------------------------------------------------------------
// BibTeX
// ---------------------------------------------------------------------------

/// One author as BibTeX (and RIS) write it: `Family, Given`, or the family name alone.
pub open spec fn full_name(a: JsonV) -> Seq<char> {
    let f = a.at("family"@).str_or_empty();
    let g = a.at("given"@).str_or_empty();
    if g.len() == 0 {
        f
    } else {
        f + ", "@ + g
    }
}

/// The full names of a list of authors.
pub open spec fn full_names(arr: Seq<JsonV>) -> Seq<Seq<char>>
    decreases arr.len(),
{
    if arr.len() == 0 {
        seq![]
    } else {
        full_names(arr.drop_last()).push(full_name(arr.last()))
    }
}

/// The authors of a record joined with ` and `.
pub open spec fn bib_authors(meta: JsonV) -> Seq<char> {
    match meta.at("author"@).as_array() {
        Some(arr) => seq_join(full_names(arr), " and "@),
        None => seq![],
    }
}

/// The lines of a BibTeX entry.
pub open spec fn bibtex_lines(meta: JsonV, doi: Seq<char>) -> Seq<Seq<char>> {
    let authors = bib_authors(meta);
    let title = spec_get_string(meta.at("title"@));
    let journal = spec_get_string(meta.at("container-title"@));
    let year = spec_get_year(meta);
    let volume = or_empty(str_or_num(meta.at("volume"@)));
    let number = or_empty(str_or_num(meta.at("issue"@)));
    let pages = replace_char(meta.at("page"@).str_or_empty(), '-', "--"@);
    let d = spec_clean_doi(doi);
    seq!["@article{"@ + spec_doi_key(d) + ","@]
        + part_if(authors.len() > 0, "  author  = {"@ + authors + "},"@)
        + part_if(title.len() > 0, "  title   = {{"@ + title + "}},"@)
        + part_if(journal.len() > 0, "  journal = {"@ + journal + "},"@)
        + part_if(year.len() > 0, "  year    = {"@ + year + "},"@)
        + part_if(volume.len() > 0, "  volume  = {"@ + volume + "},"@)
        + part_if(number.len() > 0, "  number  = {"@ + number + "},"@)
        + part_if(pages.len() > 0, "  pages   = {"@ + pages + "},"@)
        + seq!["  doi     = {"@ + d + "},"@, "  url     = {https://doi.org/"@ + d + "},"@, "}"@]
}

/// A BibTeX `@article` entry.
pub open spec fn spec_generate_bibtex(meta: JsonV, doi: Seq<char>) -> Seq<char> {
    seq_join(bibtex_lines(meta, doi), "\n"@)
}

fn full_name_of(a: &Json) -> (r: String)
    ensures
        r@ == full_name(a@),
{
    let f = field_str_or_empty(a, "family");
    let g = field_str_or_empty(a, "given");
    if g.as_str().is_empty() {
        f
    } else {
        cat3(f.as_str(), ", ", g.as_str())
    }
}

fn bib_authors_of(meta: &Json) -> (r: String)
    ensures
        r@ == bib_authors(meta@),
{
    match meta.get("author") {
        Some(au) => match au.as_array() {
            Some(arr) => {
                let ghost av = views_of(arr@);
                proof {
                    lemma_views_of(arr@);
                }
                let mut names: Vec<String> = Vec::new();
                let mut i: usize = 0;
                while i < arr.len()
                    invariant
                        av == views_of(arr@),
                        av.len() == arr@.len(),
                        forall|j: int| 0 <= j < arr@.len() ==> #[trigger] av[j] == arr@[j]@,
                        i <= arr@.len(),
                        views(names@) == full_names(av.take(i as int)),
                    decreases arr@.len() - i,
                {
                    let n = full_name_of(&arr[i]);
                    names.push(n);
                    assert(av.take(i + 1).drop_last() =~= av.take(i as int));
                    assert(views(names@) =~= full_names(av.take(i + 1)));
                    i = i + 1;
                }
                assert(av.take(arr@.len() as int) =~= av);
                join(names.as_slice(), " and ")
            },
            None => String::new(),
        },
        None => String::new(),
    }
}

/// Renders a BibTeX entry.
pub fn generate_bibtex(meta: &Json, doi: &str) -> (r: String)
    requires
        renderable(meta@),
    ensures
        r@ == spec_generate_bibtex(meta@, doi@),
{
    let ghost mv = meta@;
    let authors = bib_authors_of(meta);
    let title = field_string(meta, "title");
    let journal = field_string(meta, "container-title");
    let year = get_year(meta);
    let volume = match field_text_or_number(meta, "volume") {
        Some(v) => v,
        None => String::new(),
    };
    let number = match field_text_or_number(meta, "issue") {
        Some(v) => v,
        None => String::new(),
    };
    let pg = field_str_or_empty(meta, "page");
    let pages = replace_char_str(pg.as_str(), '-', "--");
    let d = clean_doi(doi);
    let key = doi_key(d);
    let mut lines: Vec<String> = Vec::new();
    assert(views(lines@) =~= Seq::<Seq<char>>::empty());
    push_piece(&mut lines, cat3("@article{", key.as_str(), ","));
    push_opt(&mut lines, field_line("  author  = {", authors.as_str(), "},"));
    push_opt(&mut lines, field_line("  title   = {{", title.as_str(), "}},"));
    push_opt(&mut lines, field_line("  journal = {", journal.as_str(), "},"));
    push_opt(&mut lines, field_line("  year    = {", year.as_str(), "},"));
    push_opt(&mut lines, field_line("  volume  = {", volume.as_str(), "},"));
    push_opt(&mut lines, field_line("  number  = {", number.as_str(), "},"));
    push_opt(&mut lines, field_line("  pages   = {", pages.as_str(), "},"));
    let ghost mid = views(lines@);
    push_piece(&mut lines, cat3("  doi     = {", d, "},"));
    push_piece(&mut lines, cat3("  url     = {https://doi.org/", d, "},"));
    push_piece(&mut lines, copy_str("}"));
    assert(views(lines@) =~= mid + seq!["  doi     = {"@ + d@ + "},"@, "  url     = {https://doi.org/"@ + d@ + "},"@, "}"@]);
    assert(views(lines@) =~= bibtex_lines(mv, doi@));
    join(lines.as_slice(), "\n")
}

// ---------------------------------------------------------------------------
// Plain text, Markdown, rich text
// ---------------------------------------------------------------------------

/// The styles that share the layout of the plain-text reference.
#[derive(Clone, Copy, PartialEq, Eq, Structural, Debug)]
pub enum ProseStyle {
    Plain,
    Markdown,
    Html,
}

/// Emphasis in a prose style: `*x*` in Markdown, `<em>x</em>` in HTML, nothing in plain text.
pub open spec fn emph(style: ProseStyle, x: Seq<char>) -> Seq<char> {
    match style {
        ProseStyle::Plain => x,
        ProseStyle::Markdown => "*"@ + x + "*"@,
        ProseStyle::Html => "<em>"@ + x + "</em>"@,
    }
}

/// Text as it is written in a prose style: HTML-escaped in HTML, as it is elsewhere.
pub open spec fn esc(style: ProseStyle, x: Seq<char>) -> Seq<char> {
    match style {
        ProseStyle::Html => spec_html_escape(x),
        _ => x,
    }
}

/// Volume and issue: emphasised volume, then the issue in brackets; nothing without a volume.
pub open spec fn prose_volume_issue(style: ProseStyle, meta: JsonV) -> Seq<char> {
    match str_or_num(meta.at("volume"@)) {
        Some(v) => match str_or_num(meta.at("issue"@)) {
            Some(i) => emph(style, esc(style, v)) + "("@ + esc(style, i) + ")"@,
            None => emph(style, esc(style, v)),
        },
        None => seq![],
    }
}

/// The author piece: the author list ending in a full stop.
pub open spec fn prose_author_part(style: ProseStyle, meta: JsonV) -> Seq<Seq<char>> {
    let auth = spec_format_authors(meta.at("author"@), false);
    part_if(auth.len() > 0, with_stop(esc(style, auth)))
}

/// The year piece: `(YEAR).`.
pub open spec fn year_part(meta: JsonV) -> Seq<Seq<char>> {
    let yr = spec_get_year(meta);
    part_if(yr.len() > 0, "("@ + yr + ")."@)
}

/// The title piece: the title without trailing full stops, emphasised, with a
/// full stop (inside the emphasis in HTML).
pub open spec fn prose_title_part(style: ProseStyle, meta: JsonV) -> Seq<Seq<char>> {
    let title = drop_trail(spec_get_string(meta.at("title"@)), CharClass::Dot);
    part_if(title.len() > 0, match style {
        ProseStyle::Plain => title + "."@,
        ProseStyle::Markdown => "*"@ + title + "*."@,
        ProseStyle::Html => "<em>"@ + spec_html_escape(title) + ".</em>"@,
    })
}

/// The journal piece: the emphasised journal, then volume and issue.
pub open spec fn prose_container_part(style: ProseStyle, meta: JsonV) -> Seq<Seq<char>> {
    let container = spec_get_string(meta.at("container-title"@));
    let vi = prose_volume_issue(style, meta);
    part_if(container.len() > 0, if vi.len() == 0 {
        match style {
            ProseStyle::Plain => container + "."@,
            ProseStyle::Markdown => "*"@ + container + "*."@,
            ProseStyle::Html => "<em>"@ + spec_html_escape(container) + ".</em>"@,
        }
    } else {
        emph(style, esc(style, container)) + ", "@ + vi + "."@
    })
}

/// The page piece: the pages with a full stop.
pub open spec fn prose_page_part(style: ProseStyle, meta: JsonV) -> Seq<Seq<char>> {
    match meta.at("page"@).as_str() {
        Some(pg) => seq![esc(style, pg) + "."@],
        None => seq![],
    }
}

/// The link to the DOI.
pub open spec fn prose_link(style: ProseStyle, doi: Seq<char>) -> Seq<char> {
    let d = spec_clean_doi(doi);
    match style {
        ProseStyle::Plain => "https://doi.org/"@ + d,
        ProseStyle::Markdown => "[https://doi.org/"@ + d + "](https://doi.org/"@ + d + ")"@,
        ProseStyle::Html => "<a href=\"https://doi.org/"@ + d + "\">https://doi.org/"@ + d + "</a>"@,
    }
}

/// The pieces of a reference in one of the prose styles; they are joined by spaces.
pub open spec fn prose_parts(style: ProseStyle, meta: JsonV, doi: Seq<char>) -> Seq<Seq<char>> {
    prose_author_part(style, meta) + year_part(meta) + prose_title_part(style, meta)
        + prose_container_part(style, meta) + prose_page_part(style, meta) + seq![
        prose_link(style, doi),
    ]
}

/// A plain-text APA reference.
pub open spec fn spec_generate_plain(meta: JsonV, doi: Seq<char>) -> Seq<char> {
    seq_join(prose_parts(ProseStyle::Plain, meta, doi), " "@)
}

/// A Markdown APA reference.
pub open spec fn spec_generate_markdown(meta: JsonV, doi: Seq<char>) -> Seq<char> {
    seq_join(prose_parts(ProseStyle::Markdown, meta, doi), " "@)
}

/// An HTML APA reference.
pub open spec fn spec_generate_richtext(meta: JsonV, doi: Seq<char>) -> Seq<char> {
    seq_join(prose_parts(ProseStyle::Html, meta, doi), " "@)
}

fn esc_of(style: ProseStyle, x: &str) -> (r: String)
    ensures
        r@ == esc(style, x@),
{
    match style {
        ProseStyle::Html => html_escape(x),
        _ => copy_str(x),
    }
}

fn emph_of(style: ProseStyle, x: &str) -> (r: String)
    ensures
        r@ == emph(style, x@),
{
    match style {
        ProseStyle::Plain => copy_str(x),
        ProseStyle::Markdown => cat3("*", x, "*"),
        ProseStyle::Html => cat3("<em>", x, "</em>"),
    }
}

fn prose_volume_issue_of(style: ProseStyle, meta: &Json) -> (r: String)
    ensures
        r@ == prose_volume_issue(style, meta@),
{
    match field_text_or_number(meta, "volume") {
        Some(v) => {
            let ev = esc_of(style, v.as_str());
            let vv = emph_of(style, ev.as_str());
            match field_text_or_number(meta, "issue") {
                Some(i) => {
                    let ei = esc_of(style, i.as_str());
                    cat4(vv.as_str(), "(", ei.as_str(), ")")
                },
                None => vv,
            }
        },
        None => String::new(),
    }
}

fn prose_author_piece(style: ProseStyle, meta: &Json) -> (r: Option<String>)
    ensures
        opt_views(r) == prose_author_part(style, meta@),
{
    let auth = match meta.get("author") {
        Some(a) => format_authors_plain(a),
        None => String::new(),
    };
    if auth.as_str().is_empty() {
        None
    } else {
        let e = esc_of(style, auth.as_str());
        Some(with_stop_str(e.as_str()))
    }
}

fn year_piece(meta: &Json) -> (r: Option<String>)
    requires
        renderable(meta@),
    ensures
        opt_views(r) == year_part(meta@),
{
    let yr = get_year(meta);
    field_line("(", yr.as_str(), ").")
}

fn prose_title_piece(style: ProseStyle, meta: &Json) -> (r: Option<String>)
    ensures
        opt_views(r) == prose_title_part(style, meta@),
{
    let t0 = field_string(meta, "title");
    let title = drop_trail_str(t0.as_str(), CharClass::Dot);
    if title.as_str().is_empty() {
        None
    } else {
        match style {
            ProseStyle::Plain => Some(cat(title.as_str(), ".")),
            ProseStyle::Markdown => Some(cat3("*", title.as_str(), "*.")),
            ProseStyle::Html => {
                let e = html_escape(title.as_str());
                Some(cat3("<em>", e.as_str(), ".</em>"))
            },
        }
    }
}

fn prose_container_piece(style: ProseStyle, meta: &Json) -> (r: Option<String>)
    ensures
        opt_views(r) == prose_container_part(style, meta@),
{
    let container = field_string(meta, "container-title");
    if container.as_str().is_empty() {
        return None;
    }
    let vi = prose_volume_issue_of(style, meta);
    if vi.as_str().is_empty() {
        match style {
            ProseStyle::Plain => Some(cat(container.as_str(), ".")),
            ProseStyle::Markdown => Some(cat3("*", container.as_str(), "*.")),
            ProseStyle::Html => {
                let e = html_escape(container.as_str());
                Some(cat3("<em>", e.as_str(), ".</em>"))
            },
        }
    } else {
        let e = esc_of(style, container.as_str());
        let c = emph_of(style, e.as_str());
        Some(cat4(c.as_str(), ", ", vi.as_str(), "."))
    }
}

fn prose_page_piece(style: ProseStyle, meta: &Json) -> (r: Option<String>)
    ensures
        opt_views(r) == prose_page_part(style, meta@),
{
    match meta.get_str("page") {
        Some(pg) => {
            let e = esc_of(style, pg);
            Some(cat(e.as_str(), "."))
        },
        None => None,
    }
}

fn prose_link_of(style: ProseStyle, doi: &str) -> (r: String)
    ensures
        r@ == prose_link(style, doi@),
{
    let d = clean_doi(doi);
    match style {
        ProseStyle::Plain => cat("https://doi.org/", d),
        ProseStyle::Markdown => cat5("[https://doi.org/", d, "](https://doi.org/", d, ")"),
        ProseStyle::Html => cat5("<a href=\"https://doi.org/", d, "\">https://doi.org/", d, "</a>"),
    }
}

/// Renders a reference in one of the prose styles.
pub fn generate_prose(style: ProseStyle, meta: &Json, doi: &str) -> (r: String)
    requires
        renderable(meta@),
    ensures
        r@ == seq_join(prose_parts(style, meta@, doi@), " "@),
{
    let mut p: Vec<String> = Vec::new();
    assert(views(p@) =~= Seq::<Seq<char>>::empty());
    push_opt(&mut p, prose_author_piece(style, meta));
    push_opt(&mut p, year_piece(meta));
    push_opt(&mut p, prose_title_piece(style, meta));
    push_opt(&mut p, prose_container_piece(style, meta));
    push_opt(&mut p, prose_page_piece(style, meta));
    let ghost before = views(p@);
    p.push(prose_link_of(style, doi));
    assert(views(p@) =~= before.push(prose_link(style, doi@)));
    assert(views(p@) =~= prose_parts(style, meta@, doi@));
    join(p.as_slice(), " ")
}

/// Renders a plain-text reference.
pub fn generate_plain(meta: &Json, doi: &str) -> (r: String)
    requires
        renderable(meta@),
    ensures
        r@ == spec_generate_plain(meta@, doi@),
{
    generate_prose(ProseStyle::Plain, meta, doi)
}

/// Renders a Markdown reference.
pub fn generate_markdown(meta: &Json, doi: &str) -> (r: String)
    requires
        renderable(meta@),
    ensures
        r@ == spec_generate_markdown(meta@, doi@),
{
    generate_prose(ProseStyle::Markdown, meta, doi)
}

/// Renders an HTML reference.
pub fn generate_richtext(meta: &Json, doi: &str) -> (r: String)
    requires
        renderable(meta@),
    ensures
        r@ == spec_generate_richtext(meta@, doi@),
{
    generate_prose(ProseStyle::Html, meta, doi)
}

// ---------------------------------------------------------------------------
// RIS
// ---------------------------------------------------------------------------

/// An `AU` line for each author whose full name is not empty.
pub open spec fn ris_author_lines(arr: Seq<JsonV>) -> Seq<Seq<char>>
    decreases arr.len(),
{
    if arr.len() == 0 {
        seq![]
    } else {
        let e = full_name(arr.last());
        ris_author_lines(arr.drop_last()) + part_if(e.len() > 0, "AU  - "@ + e)
    }
}

/// The page lines: `SP` with the text before the first `-`, and `EP` with the
/// text after it when there is one, each trimmed.
pub open spec fn ris_page_lines(meta: JsonV) -> Seq<Seq<char>> {
    match meta.at("page"@).as_str() {
        Some(pg) => {
            let k = lead(pg, CharClass::NotDash);
            seq!["SP  - "@ + trim(pg.take(k as int))] + part_if(
                k < pg.len(),
                "EP  - "@ + trim(pg.skip(k as int + 1)),
            )
        },
        None => seq![],
    }
}

/// The lines of an RIS record.
pub open spec fn ris_lines(meta: JsonV, doi: Seq<char>) -> Seq<Seq<char>> {
    let title = spec_get_string(meta.at("title"@));
    let journal = spec_get_string(meta.at("container-title"@));
    let yr = spec_get_year(meta);
    let vol = or_empty(str_or_num(meta.at("volume"@)));
    let iss = or_empty(str_or_num(meta.at("issue"@)));
    let d = spec_clean_doi(doi);
    seq!["TY  - JOUR"@] + match meta.at("author"@).as_array() {
        Some(arr) => ris_author_lines(arr),
        None => seq![],
    } + part_if(title.len() > 0, "TI  - "@ + title) + part_if(journal.len() > 0, "JO  - "@ + journal)
        + part_if(yr.len() > 0, "PY  - "@ + yr) + part_if(vol.len() > 0, "VL  - "@ + vol)
        + part_if(iss.len() > 0, "IS  - "@ + iss) + ris_page_lines(meta) + seq![
        "DO  - "@ + d,
        "UR  - https://doi.org/"@ + d,
        "ER  -"@,
    ]
}

/// An RIS record.
pub open spec fn spec_generate_ris(meta: JsonV, doi: Seq<char>) -> Seq<char> {
    seq_join(ris_lines(meta, doi), "\n"@)
}

fn push_ris_authors(lines: &mut Vec<String>, meta: &Json)
    ensures
        views(final(lines)@) == views(old(lines)@) + match meta@.at("author"@).as_array() {
            Some(arr) => ris_author_lines(arr),
            None => seq![],
        },
{
    let ghost start = views(lines@);
    match meta.get("author") {
        Some(au) => match au.as_array() {
            Some(arr) => {
                let ghost av = views_of(arr@);
                proof {
                    lemma_views_of(arr@);
                }
                let mut i: usize = 0;
                while i < arr.len()
                    invariant
                        av == views_of(arr@),
                        av.len() == arr@.len(),
                        forall|j: int| 0 <= j < arr@.len() ==> #[trigger] av[j] == arr@[j]@,
                        i <= arr@.len(),
                        views(lines@) == start + ris_author_lines(av.take(i as int)),
                    decreases arr@.len() - i,
                {
                    let e = full_name_of(&arr[i]);
                    proof {
                        assert(av.take(i + 1).drop_last() =~= av.take(i as int));
                    }
                    push_opt(lines, labelled_line("AU  - ", e.as_str()));
                    assert(views(lines@) =~= start + ris_author_lines(av.take(i + 1)));
                    i = i + 1;
                }
                assert(av.take(arr@.len() as int) =~= av);
            },
            None => {
                assert(views(lines@) =~= start + Seq::<Seq<char>>::empty());
            },
        },
        None => {
            assert(views(lines@) =~= start + Seq::<Seq<char>>::empty());
        },
    }
}

fn push_ris_pages(lines: &mut Vec<String>, meta: &Json)
    ensures
        views(final(lines)@) == views(old(lines)@) + ris_page_lines(meta@),
{
    let ghost start = views(lines@);
    match meta.get_str("page") {
        Some(pg) => {
            let cs = chars_of(pg);
            let n = cs.len();
            let k = lead_in(&cs, 0, n, CharClass::NotDash);
            assert(cs@.subrange(0, n as int) =~= cs@);
            let sp = string_of_range(&cs, 0, k);
            let spt = trim_str(sp.as_str());
            assert(sp@ =~= pg@.take(k as int));
            push_piece(lines, cat("SP  - ", spt.as_str()));
            if k < n {
                let ep = string_of_range(&cs, k + 1, n);
                let ept = trim_str(ep.as_str());
                assert(ep@ =~= pg@.skip(k + 1));
                push_piece(lines, cat("EP  - ", ept.as_str()));
            }
            assert(views(lines@) =~= start + ris_page_lines(meta@));
        },
        None => {
            assert(views(lines@) =~= start + Seq::<Seq<char>>::empty());
        },
    }
}

/// Renders an RIS record.
pub fn generate_ris(meta: &Json, doi: &str) -> (r: String)
    requires
        renderable(meta@),
    ensures
        r@ == spec_generate_ris(meta@, doi@),
{
    let mut lines: Vec<String> = Vec::new();
    assert(views(lines@) =~= Seq::<Seq<char>>::empty());
    push_piece(&mut lines, copy_str("TY  - JOUR"));
    push_ris_authors(&mut lines, meta);
    let title = field_string(meta, "title");
    push_opt(&mut lines, labelled_line("TI  - ", title.as_str()));
    let journal = field_string(meta, "container-title");
    push_opt(&mut lines, labelled_line("JO  - ", journal.as_str()));
    let yr = get_year(meta);
    push_opt(&mut lines, labelled_line("PY  - ", yr.as_str()));
    let vol = match field_text_or_number(meta, "volume") {
        Some(v) => v,
        None => String::new(),
    };
    push_opt(&mut lines, labelled_line("VL  - ", vol.as_str()));
    let iss = match field_text_or_number(meta, "issue") {
        Some(v) => v,
        None => String::new(),
    };
    push_opt(&mut lines, labelled_line("IS  - ", iss.as_str()));
    push_ris_pages(&mut lines, meta);
    let ghost mid = views(lines@);
    let d = clean_doi(doi);
    push_piece(&mut lines, cat("DO  - ", d));
    push_piece(&mut lines, cat("UR  - https://doi.org/", d));
    push_piece(&mut lines, copy_str("ER  -"));
    assert(views(lines@) =~= mid + seq!["DO  - "@ + d@, "UR  - https://doi.org/"@ + d@, "ER  -"@]);
    assert(views(lines@) =~= ris_lines(meta@, doi@));
    join(lines.as_slice(), "\n")
}

// ---------------------------------------------------------------------------
// Entries and whole outputs
// ---------------------------------------------------------------------------

/// One reference in the given format. A LaTeX reference starts with its
/// `\bibitem` line, keyed by the DOI as given.
pub open spec fn spec_build_entry(meta: JsonV, doi: Seq<char>, fmt: OutputFormat) -> Seq<char> {
    match fmt {
        OutputFormat::Latex => "\\bibitem{"@ + spec_doi_key(doi) + "}\n"@ + spec_generate_latex(meta, doi),
        OutputFormat::BibTeX => spec_generate_bibtex(meta, doi),
        OutputFormat::PlainText => spec_generate_plain(meta, doi),
        OutputFormat::Markdown => spec_generate_markdown(meta, doi),
        OutputFormat::Ris => spec_generate_ris(meta, doi),
        OutputFormat::RichText => spec_generate_richtext(meta, doi),
    }
}

/// Renders one reference in the given format.
pub fn build_entry(meta: &Json, doi: &str, fmt: OutputFormat) -> (r: String)
    requires
        renderable(meta@),
    ensures
        r@ == spec_build_entry(meta@, doi@, fmt),
{
    match fmt {
        OutputFormat::Latex => {
            let key = doi_key(doi);
            let body = generate_latex(meta, doi);
            cat4("\\bibitem{", key.as_str(), "}\n", body.as_str())
        },
        OutputFormat::BibTeX => generate_bibtex(meta, doi),
        OutputFormat::PlainText => generate_plain(meta, doi),
        OutputFormat::Markdown => generate_markdown(meta, doi),
        OutputFormat::Ris => generate_ris(meta, doi),
        OutputFormat::RichText => generate_richtext(meta, doi),
    }
}

/// Each item with `pre` before it and `post` after it.
pub open spec fn surround(items: Seq<Seq<char>>, pre: Seq<char>, post: Seq<char>) -> Seq<Seq<char>>
    decreases items.len(),
{
    if items.len() == 0 {
        seq![]
    } else {
        surround(items.drop_last(), pre, post).push(pre + items.last() + post)
    }
}

/// Each item with `pre` before it.
pub open spec fn prefix_each(items: Seq<Seq<char>>, pre: Seq<char>) -> Seq<Seq<char>>
    decreases items.len(),
{
    if items.len() == 0 {
        seq![]
    } else {
        prefix_each(items.drop_last(), pre).push(pre + items.last())
    }
}

/// The document head of the HTML output.
pub open spec fn html_head() -> Seq<char> {
    "<!DOCTYPE html><html><body style=\"font-family: Times New Roman, serif; font-size: 12pt;\"><ol>\n"@
}

/// The whole output for a list of rendered references.
pub open spec fn spec_wrap_output(entries: Seq<Seq<char>>, fmt: OutputFormat) -> Seq<char> {
    match fmt {
        OutputFormat::Latex => "\\begin{thebibliography}{99}\n\n"@ + seq_join(entries, "\n"@)
            + "\n\\end{thebibliography}\n"@,
        OutputFormat::BibTeX => seq_join(entries, "\n\n"@) + "\n"@,
        OutputFormat::PlainText => seq_join(entries, "\n\n"@),
        OutputFormat::Markdown => seq_join(prefix_each(entries, "- "@), "\n"@),
        OutputFormat::Ris => seq_join(entries, "\n\n"@),
        OutputFormat::RichText => html_head() + seq_join(surround(entries, "  <li>"@, "</li>"@), "\n"@)
            + "\n</ol></body></html>"@,
    }
}

fn surround_all(entries: &[String], pre: &str, post: &str) -> (r: Vec<String>)
    ensures
        views(r@) == surround(views(entries@), pre@, post@),
{
    let ghost ev = views(entries@);
    let mut out: Vec<String> = Vec::new();
    let mut i: usize = 0;
    while i < entries.len()
        invariant
            ev == views(entries@),
            i <= entries@.len(),
            views(out@) == surround(ev.take(i as int), pre@, post@),
        decreases entries@.len() - i,
    {
        push_piece(&mut out, cat3(pre, entries[i].as_str(), post));
        assert(ev.take(i + 1).drop_last() =~= ev.take(i as int));
        assert(ev.take(i + 1).last() == entries@[i as int]@);
        i = i + 1;
    }
    assert(ev.take(entries@.len() as int) =~= ev);
    out
}

fn prefix_all(entries: &[String], pre: &str) -> (r: Vec<String>)
    ensures
        views(r@) == prefix_each(views(entries@), pre@),
{
    let ghost ev = views(entries@);
    let mut out: Vec<String> = Vec::new();
    let mut i: usize = 0;
    while i < entries.len()
        invariant
            ev == views(entries@),
            i <= entries@.len(),
            views(out@) == prefix_each(ev.take(i as int), pre@),
        decreases entries@.len() - i,
    {
        push_piece(&mut out, cat(pre, entries[i].as_str()));
        assert(ev.take(i + 1).drop_last() =~= ev.take(i as int));
        assert(ev.take(i + 1).last() == entries@[i as int]@);
        i = i + 1;
    }
    assert(ev.take(entries@.len() as int) =~= ev);
    out
}

/// Puts rendered references together into the whole output of a format.
pub fn wrap_output(entries: &[String], fmt: OutputFormat) -> (r: String)
    ensures
        r@ == spec_wrap_output(views(entries@), fmt),
{
    match fmt {
        OutputFormat::Latex => {
            let body = join(entries, "\n");
            cat3("\\begin{thebibliography}{99}\n\n", body.as_str(), "\n\\end{thebibliography}\n")
        },
        OutputFormat::BibTeX => {
            let body = join(entries, "\n\n");
            cat(body.as_str(), "\n")
        },
        OutputFormat::PlainText => join(entries, "\n\n"),
        OutputFormat::Markdown => {
            let items = prefix_all(entries, "- ");
            join(items.as_slice(), "\n")
        },
        OutputFormat::Ris => join(entries, "\n\n"),
        OutputFormat::RichText => {
            let items = surround_all(entries, "  <li>", "</li>");
            let body = join(items.as_slice(), "\n");
            cat3(
                "<!DOCTYPE html><html><body style=\"font-family: Times New Roman, serif; font-size: 12pt;\"><ol>\n",
                body.as_str(),
                "\n</ol></body></html>",
            )
        },
    }
}

/// The rendered references of a list of `(doi, metadata)` results, in order.
pub open spec fn rendered_entries(results: Seq<(Seq<char>, JsonV)>, fmt: OutputFormat) -> Seq<Seq<char>>
    decreases results.len(),
{
    if results.len() == 0 {
        seq![]
    } else {
        rendered_entries(results.drop_last(), fmt).push(
            spec_build_entry(results.last().1, results.last().0, fmt),
        )
    }
}

/// Every result of the list can be rendered.
pub open spec fn all_renderable(results: Seq<(Seq<char>, JsonV)>) -> bool {
    forall|i: int| 0 <= i < results.len() ==> renderable(#[trigger] results[i].1)
}

/// The whole output for a list of results: nothing for an empty list.
pub open spec fn spec_rerender(results: Seq<(Seq<char>, JsonV)>, fmt: OutputFormat) -> Seq<char> {
    if results.len() == 0 {
        seq![]
    } else {
        spec_wrap_output(rendered_entries(results, fmt), fmt)
    }
}

/// Renders the whole output for a list of `(doi, metadata)` results.
pub fn rerender(results: &[(String, Json)], fmt: OutputFormat) -> (r: String)
    requires
        all_renderable(entry_views(results@)),
    ensures
        r@ == spec_rerender(entry_views(results@), fmt),
{
    let ghost rv = entry_views(results@);
    proof {
        lemma_entry_views(results@);
    }
    if results.len() == 0 {
        return String::new();
    }
    let mut entries: Vec<String> = Vec::new();
    let mut i: usize = 0;
    while i < results.len()
        invariant
            rv == entry_views(results@),
            rv.len() == results@.len(),
            forall|j: int| 0 <= j < results@.len() ==> #[trigger] rv[j] == (results@[j].0@, results@[j].1@),
            all_renderable(rv),
            i <= results@.len(),
            views(entries@) == rendered_entries(rv.take(i as int), fmt),
        decreases results@.len() - i,
    {
        assert(renderable(rv[i as int].1));
        let e = build_entry(&results[i].1, results[i].0.as_str(), fmt);
        push_piece(&mut entries, e);
        assert(rv.take(i + 1).drop_last() =~= rv.take(i as int));
        i = i + 1;
    }
    assert(rv.take(results@.len() as int) =~= rv);
    wrap_output(entries.as_slice(), fmt)
}

/// Whether every result of the list can be rendered.
pub fn all_results_renderable(results: &[(String, Json)]) -> (r: bool)
    ensures
        r == all_renderable(entry_views(results@)),
{
    let ghost rv = entry_views(results@);
    proof {
        lemma_entry_views(results@);
    }
    let mut i: usize = 0;
    while i < results.len()
        invariant
            rv == entry_views(results@),
            rv.len() == results@.len(),
            forall|j: int| 0 <= j < results@.len() ==> #[trigger] rv[j] == (results@[j].0@, results@[j].1@),
            i <= results@.len(),
            forall|j: int| 0 <= j < i ==> renderable(#[trigger] rv[j].1),
        decreases results@.len() - i,
    {
        if !is_renderable(&results[i].1) {
            assert(!renderable(rv[i as int].1));
            return false;
        }
        i = i + 1;
    }
    true
}

// ---------------------------------------------------------------------------
// Laws
// ---------------------------------------------------------------------------

/// `x` does not occur in `s`.
pub open spec fn lacks(s: Seq<char>, x: char) -> bool {
    forall|i: int| 0 <= i < s.len() ==> #[trigger] s[i] != x
}

/// Replacing `c` removes `c`, and brings in nothing that the replacement lacks.
proof fn lemma_replace_lacks(s: Seq<char>, c: char, rep: Seq<char>, x: char)
    requires
        x == c || lacks(s, x),
        lacks(rep, x),
    ensures
        lacks(replace_char(s, c, rep), x),
    decreases s.len(),
{
    if s.len() > 0 {
        assert(x == c || lacks(s.drop_last(), x)) by {
            if x != c {
                assert forall|i: int| 0 <= i < s.drop_last().len() implies #[trigger] s.drop_last()[i] != x by {
                    assert(s.drop_last()[i] == s[i]);
                }
            }
        }
        lemma_replace_lacks(s.drop_last(), c, rep, x);
        let prev = replace_char(s.drop_last(), c, rep);
        let piece = if s.last() == c { rep } else { seq![s.last()] };
        if s.last() != c && x != c {
            assert(s.last() == s[s.len() - 1]);
        }
        assert forall|i: int| 0 <= i < prev.len() + piece.len() implies #[trigger] (prev + piece)[i] != x by {
            if i >= prev.len() {
                assert((prev + piece)[i] == piece[i - prev.len()]);
            }
        }
    }
}

/// HTML-escaped text holds no `<`, `>` or `"`: it cannot open a tag or end
/// an attribute value.
pub proof fn law_html_escape_is_inert(s: Seq<char>)
    ensures
        lacks(spec_html_escape(s), '<'),
        lacks(spec_html_escape(s), '>'),
        lacks(spec_html_escape(s), '"'),
{
    reveal_strlit("&amp;");
    reveal_strlit("&lt;");
    reveal_strlit("&gt;");
    reveal_strlit("&quot;");
    let s1 = replace_char(s, '&', "&amp;"@);
    let s2 = replace_char(s1, '<', "&lt;"@);
    let s3 = replace_char(s2, '>', "&gt;"@);
    lemma_replace_lacks(s1, '<', "&lt;"@, '<');
    lemma_replace_lacks(s2, '>', "&gt;"@, '<');
    lemma_replace_lacks(s3, '"', "&quot;"@, '<');
    lemma_replace_lacks(s2, '>', "&gt;"@, '>');
    lemma_replace_lacks(s3, '"', "&quot;"@, '>');
    lemma_replace_lacks(s3, '"', "&quot;"@, '"');
}

/// A citation key has one character for each character of the DOI, each a
/// letter or digit of the DOI, or `_`.
pub proof fn law_doi_key_shape(doi: Seq<char>)
    ensures
        spec_doi_key(doi).len() == doi.len(),
        forall|i: int|
            0 <= i < doi.len() ==> (#[trigger] spec_doi_key(doi)[i] == doi[i] && char_is_alphanumeric(doi[i]))
                || (spec_doi_key(doi)[i] == '_' && !char_is_alphanumeric(doi[i])),
{
}

/// With no results the output is empty; otherwise it holds one rendered
/// reference per result, in order.
pub proof fn law_output_follows_results(results: Seq<(Seq<char>, JsonV)>, fmt: OutputFormat)
    ensures
        results.len() == 0 ==> spec_rerender(results, fmt).len() == 0,
        rendered_entries(results, fmt).len() == results.len(),
        forall|i: int|
            0 <= i < results.len() ==> #[trigger] rendered_entries(results, fmt)[i] == spec_build_entry(
                results[i].1,
                results[i].0,
                fmt,
            ),
    decreases results.len(),
{
    if results.len() > 0 {
        law_output_follows_results(results.drop_last(), fmt);
        assert forall|i: int| 0 <= i < results.len() implies #[trigger] rendered_entries(results, fmt)[i] == spec_build_entry(
            results[i].1,
            results[i].0,
            fmt,
        ) by {
            if i < results.len() - 1 {
                assert(results.drop_last()[i] == results[i]);
            }
        }
    }
}

/// The total length of a list of texts.
pub open spec fn total_len(v: Seq<Seq<char>>) -> nat
    decreases v.len(),
{
    if v.len() == 0 {
        0
    } else {
        total_len(v.drop_last()) + v.last().len()
    }
}

/// Where the `i`-th name starts when names are separated by `, `.
pub open spec fn name_offset(v: Seq<Seq<char>>, i: int) -> int {
    total_len(v.take(i)) + 2 * i
}

/// The length of names joined by `, `.
proof fn lemma_comma_join_len(v: Seq<Seq<char>>)
    requires
        v.len() >= 1,
    ensures
        seq_join(v, ", "@).len() == total_len(v) + 2 * (v.len() - 1),
    decreases v.len(),
{
    reveal_strlit(", ");
    if v.len() == 1 {
        assert(v.drop_last() =~= Seq::<Seq<char>>::empty());
    } else {
        lemma_comma_join_len(v.drop_last());
    }
}

/// In names joined by `, `, the `i`-th name stands at its offset, followed
/// by `, ` unless it is the last.
proof fn lemma_comma_join_at(v: Seq<Seq<char>>, i: int)
    requires
        0 <= i < v.len(),
    ensures
        name_offset(v, i) + v[i].len() <= seq_join(v, ", "@).len(),
        seq_join(v, ", "@).subrange(name_offset(v, i), name_offset(v, i) + v[i].len()) == v[i],
        i < v.len() - 1 ==> name_offset(v, i) + v[i].len() + 2 <= seq_join(v, ", "@).len()
            && seq_join(v, ", "@).subrange(name_offset(v, i) + v[i].len(), name_offset(v, i) + v[i].len() + 2)
            == ", "@,
    decreases v.len(),
{
    reveal_strlit(", ");
    let n = v.len();
    let full = seq_join(v, ", "@);
    lemma_comma_join_len(v);
    if n == 1 {
        assert(v.take(0) =~= Seq::<Seq<char>>::empty());
        assert(full.subrange(0, v[0].len() as int) =~= v[0]);
    } else {
        let d = v.drop_last();
        let j = seq_join(d, ", "@);
        lemma_comma_join_len(d);
        assert(full == j + ", "@ + v.last());
        assert(v.take(n - 1) =~= d);
        assert(total_len(v) == total_len(d) + v.last().len());
        if i == n - 1 {
            assert(name_offset(v, i) == j.len() + 2);
            assert(full.subrange(name_offset(v, i), name_offset(v, i) + v[i].len()) =~= v.last());
        } else {
            lemma_comma_join_at(d, i);
            assert(v.take(i) =~= d.take(i));
            assert(name_offset(v, i) == name_offset(d, i));
            assert(d[i] == v[i]);
            let o = name_offset(v, i);
            let e = o + v[i].len();
            assert(full.subrange(o, e) =~= j.subrange(o, e));
            if i < n - 2 {
                assert(full.subrange(e, e + 2) =~= j.subrange(e, e + 2));
            } else {
                assert(d.take(i + 1) =~= d);
                assert(d.take(i + 1).drop_last() =~= d.take(i));
                assert(e == j.len());
                assert(full.subrange(e, e + 2) =~= ", "@);
            }
        }
    }
}

/// An APA author list of two or more names names every author, in order:
/// each name but the last stands at its place followed by `, `, then comes
/// the ampersand, then the last name, and nothing else is in the list (its
/// length is that of the names, the separators and the ampersand).
pub proof fn law_apa_list_names_everyone(v: Seq<Seq<char>>, amp: Seq<char>)
    requires
        v.len() >= 2,
    ensures
        join_apa(v, amp).len() == total_len(v) + 2 * (v.len() - 1) + amp.len(),
        forall|i: int|
            0 <= i < v.len() - 1 ==> join_apa(v, amp).subrange(name_offset(v, i), name_offset(v, i) + v[i].len())
                == #[trigger] v[i],
        forall|i: int|
            0 <= i < v.len() - 1 ==> join_apa(v, amp).subrange(
                name_offset(v, i) + (#[trigger] v[i]).len(),
                name_offset(v, i) + v[i].len() + 2,
            ) == ", "@,
        join_apa(v, amp).subrange(name_offset(v, v.len() - 1), name_offset(v, v.len() - 1) + amp.len()) == amp,
        join_apa(v, amp).subrange(join_apa(v, amp).len() - v.last().len(), join_apa(v, amp).len() as int)
            == v.last(),
{
    reveal_strlit(", ");
    let n = v.len();
    let d = v.drop_last();
    lemma_comma_join_len(d);
    let j = seq_join(d, ", "@);
    let r = join_apa(v, amp);
    assert(r == j + ", "@ + amp + v.last());
    assert(v.take(n - 1) =~= d);
    assert(total_len(v) == total_len(d) + v.last().len());
    assert(name_offset(v, n - 1) == j.len() + 2);
    assert forall|i: int|
        0 <= i < n - 1 implies r.subrange(name_offset(v, i), name_offset(v, i) + v[i].len()) == #[trigger] v[i]
        && r.subrange(name_offset(v, i) + v[i].len(), name_offset(v, i) + v[i].len() + 2) == ", "@ by {
        lemma_comma_join_at(d, i);
        assert(v.take(i) =~= d.take(i));
        assert(d[i] == v[i]);
        let o = name_offset(v, i);
        let e = o + v[i].len();
        assert(r.subrange(o, e) =~= j.subrange(o, e));
        if i < n - 2 {
            assert(r.subrange(e, e + 2) =~= j.subrange(e, e + 2));
        } else {
            assert(d.take(i + 1) =~= d);
            assert(d.take(i + 1).drop_last() =~= d.take(i));
            assert(e == j.len());
            assert(r.subrange(e, e + 2) =~= ", "@);
        }
    }
    assert(r.subrange(j.len() + 2int, j.len() + 2int + amp.len()) =~= amp);
    assert(r.subrange(r.len() - v.last().len(), r.len() as int) =~= v.last());
}

/// A LaTeX reference shows the volume: with a container title and a volume
/// (text or number), the container piece (the one before the page and the
/// link) is `\textit{container}, \textit{volume}` followed by the issue, if
/// any; the volume piece starts with the italic volume whether or not there
/// is an issue, and there is none without a volume.
pub proof fn law_latex_shows_volume(meta: JsonV, doi: Seq<char>)
    ensures
        str_or_num(meta.at("volume"@)) matches Some(v) ==> ("\\textit{"@ + spec_escape_latex(v) + "}"@).is_prefix_of(
            latex_volume_issue(meta),
        ),
        str_or_num(meta.at("volume"@)) is None ==> latex_volume_issue(meta).len() == 0,
        str_or_num(meta.at("volume"@)) is Some ==> (str_or_num(meta.at("issue"@)) matches Some(i)
            ==> ("("@ + spec_escape_latex(i) + ")"@).is_suffix_of(latex_volume_issue(meta))),
        str_or_num(meta.at("volume"@)) matches Some(v) ==> (str_or_num(meta.at("issue"@)) is None
            ==> latex_volume_issue(meta) == "\\textit{"@ + spec_escape_latex(v) + "}"@),
        ({
            let container = spec_escape_latex(spec_get_string(meta.at("container-title"@)));
            let parts = latex_parts(meta, doi);
            let k = parts.len() - (if meta.at("page"@).as_str() is Some { 3int } else { 2int });
            container.len() > 0 ==> (str_or_num(meta.at("volume"@)) matches Some(v) ==> 0 <= k && (
            "\\textit{"@ + container + "}, \\textit{"@ + spec_escape_latex(v) + "}"@).is_prefix_of(parts[k]))
        }),
{
    reveal_strlit("\\textit{");
    reveal_strlit("}");
    reveal_strlit("}(");
    reveal_strlit("}, ");
    reveal_strlit("}, \\textit{");
    let vi = latex_volume_issue(meta);
    if str_or_num(meta.at("volume"@)) is Some {
        let v = str_or_num(meta.at("volume"@))->0;
        let p = "\\textit{"@ + spec_escape_latex(v) + "}"@;
        match str_or_num(meta.at("issue"@)) {
            Some(i) => {
                assert(vi =~= p + ("("@ + spec_escape_latex(i) + ")"@)) by {
                    reveal_strlit("(");
                    reveal_strlit(")");
                }
                assert(vi.subrange(0, p.len() as int) =~= p);
                let q = "("@ + spec_escape_latex(i) + ")"@;
                assert(vi.subrange(vi.len() - q.len(), vi.len() as int) =~= q);
            },
            None => {
                assert(vi.subrange(0, p.len() as int) =~= p);
            },
        }
        let container = spec_escape_latex(spec_get_string(meta.at("container-title"@)));
        if container.len() > 0 {
            let auth = spec_format_authors(meta.at("author"@), true);
            let title = drop_trail(spec_escape_latex(spec_get_string(meta.at("title"@))), CharClass::Dot);
            let a = part_if(auth.len() > 0, with_stop(auth)) + year_part(meta) + part_if(
                title.len() > 0,
                "\\textit{"@ + title + "}."@,
            );
            let cp = "\\textit{"@ + container + "}, "@ + vi + "."@;
            let pg = part_of(meta.at("page"@).as_str(), |pg: Seq<char>| replace_char(spec_escape_latex(pg), '-', "--"@) + "."@);
            let u = seq!["\\url{https://doi.org/"@ + spec_escape_latex(spec_clean_doi(doi)) + "}"@];
            let parts = latex_parts(meta, doi);
            assert(vi.len() > 0);
            assert(parts =~= a + seq![cp] + pg + u);
            let k = parts.len() - (if meta.at("page"@).as_str() is Some { 3int } else { 2int });
            assert(k == a.len());
            assert(parts[k] == cp);
            let want = "\\textit{"@ + container + "}, \\textit{"@ + spec_escape_latex(v) + "}"@;
            assert(cp =~= ("\\textit{"@ + container) + "}, "@ + (p + vi.subrange(p.len() as int, vi.len() as int)) + "."@);
            assert(cp.subrange(0, want.len() as int) =~= want);
        }
    }
}

/// Lists of fewer than two authors: no author gives nothing, one author is
/// that author alone, with no comma and no ampersand.
pub proof fn law_apa_short_lists(v: Seq<Seq<char>>, amp: Seq<char>)
    ensures
        v.len() == 0 ==> join_apa(v, amp).len() == 0,
        v.len() == 1 ==> join_apa(v, amp) == v[0],
{
}

/// Where the `i`-th part starts in parts joined by `sep`.
pub open spec fn join_offset(v: Seq<Seq<char>>, sep: Seq<char>, i: int) -> int {
    total_len(v.take(i)) + i * sep.len()
}

/// In parts joined by `sep`, the `i`-th part stands at its offset.
proof fn lemma_join_at(v: Seq<Seq<char>>, sep: Seq<char>, i: int)
    requires
        0 <= i < v.len(),
    ensures
        0 <= join_offset(v, sep, i),
        join_offset(v, sep, i) + v[i].len() <= seq_join(v, sep).len(),
        seq_join(v, sep).subrange(join_offset(v, sep, i), join_offset(v, sep, i) + v[i].len()) == v[i],
    decreases v.len(),
{
    let n = v.len();
    let full = seq_join(v, sep);
    assert(0 <= i * sep.len()) by (nonlinear_arith)
        requires
            0 <= i,
    ;
    if n == 1 {
        assert(v.take(0) =~= Seq::<Seq<char>>::empty());
        assert(full.subrange(0, v[0].len() as int) =~= v[0]);
    } else {
        let d = v.drop_last();
        let j = seq_join(d, sep);
        assert(full == j + sep + v.last());
        if i == n - 1 {
            assert(v.take(i) =~= d);
            lemma_join_len(d, sep);
            assert((n - 1) * sep.len() == (n - 2) * sep.len() + sep.len()) by (nonlinear_arith);
            assert(join_offset(v, sep, i) == j.len() + sep.len());
            assert(full.subrange(join_offset(v, sep, i), join_offset(v, sep, i) + v[i].len()) =~= v.last());
        } else {
            lemma_join_at(d, sep, i);
            assert(v.take(i) =~= d.take(i));
            assert(d[i] == v[i]);
            let o = join_offset(v, sep, i);
            assert(full.subrange(o, o + v[i].len()) =~= j.subrange(o, o + v[i].len()));
        }
    }
}

/// The length of parts joined by `sep`.
proof fn lemma_join_len(v: Seq<Seq<char>>, sep: Seq<char>)
    requires
        v.len() >= 1,
    ensures
        seq_join(v, sep).len() == total_len(v) + (v.len() - 1) * sep.len(),
    decreases v.len(),
{
    if v.len() == 1 {
        assert(v.drop_last() =~= Seq::<Seq<char>>::empty());
    } else {
        lemma_join_len(v.drop_last(), sep);
        assert((v.len() - 1) * sep.len() == (v.len() - 2) * sep.len() + sep.len()) by (nonlinear_arith);
    }
}

/// Items with text around each: the `i`-th is the item with that text, and
/// the items before it grew by the text's length each.
proof fn lemma_surround_at(v: Seq<Seq<char>>, pre: Seq<char>, post: Seq<char>, i: int)
    requires
        0 <= i < v.len(),
    ensures
        surround(v, pre, post).len() == v.len(),
        surround(v, pre, post)[i] == pre + v[i] + post,
        total_len(surround(v, pre, post).take(i)) == total_len(v.take(i)) + i * (pre.len() + post.len()),
    decreases v.len(),
{
    let d = v.drop_last();
    let sv = surround(v, pre, post);
    if i < v.len() - 1 {
        lemma_surround_at(d, pre, post, i);
        assert(sv.take(i) =~= surround(d, pre, post).take(i));
        assert(v.take(i) =~= d.take(i));
    } else {
        lemma_surround_total(d, pre, post);
        assert(sv.take(i) =~= surround(d, pre, post));
        assert(v.take(i) =~= d);
    }
}

proof fn lemma_surround_total(v: Seq<Seq<char>>, pre: Seq<char>, post: Seq<char>)
    ensures
        surround(v, pre, post).len() == v.len(),
        total_len(surround(v, pre, post)) == total_len(v) + v.len() * (pre.len() + post.len()),
    decreases v.len(),
{
    if v.len() > 0 {
        lemma_surround_total(v.drop_last(), pre, post);
        let sv = surround(v, pre, post);
        assert(sv.drop_last() =~= surround(v.drop_last(), pre, post));
        assert(sv.last() == pre + v.last() + post);
        assert(total_len(sv) == total_len(sv.drop_last()) + sv.last().len());
        let k = pre.len() + post.len();
        assert(v.len() * k == (v.len() - 1) * k + k) by (nonlinear_arith);
    }
}

/// `prefix_each` is `surround` with nothing after.
proof fn lemma_prefix_each_is_surround(v: Seq<Seq<char>>, pre: Seq<char>)
    ensures
        prefix_each(v, pre) == surround(v, pre, seq![]),
    decreases v.len(),
{
    if v.len() > 0 {
        lemma_prefix_each_is_surround(v.drop_last(), pre);
        assert(pre + v.last() + seq![] =~= pre + v.last());
    }
}

/// Every reference is in the whole output, whole and in order: the `i`-th
/// stands right after the references before it (each with its separator
/// and, in Markdown and HTML, its list markup) and the format's head.
pub proof fn law_output_holds_every_entry(entries: Seq<Seq<char>>, fmt: OutputFormat, i: int)
    requires
        0 <= i < entries.len(),
    ensures
        ({
            let t = total_len(entries.take(i));
            let off = match fmt {
                OutputFormat::Latex => "\\begin{thebibliography}{99}\n\n"@.len() + t + i,
                OutputFormat::BibTeX => t + 2 * i,
                OutputFormat::PlainText => t + 2 * i,
                OutputFormat::Ris => t + 2 * i,
                OutputFormat::Markdown => t + 3 * i + 2,
                OutputFormat::RichText => html_head().len() + t + 12 * i + 6,
            };
            0 <= off && off + entries[i].len() <= spec_wrap_output(entries, fmt).len()
                && spec_wrap_output(entries, fmt).subrange(off, off + entries[i].len()) == entries[i]
        }),
{
    reveal_strlit("\n");
    reveal_strlit("\n\n");
    reveal_strlit("- ");
    reveal_strlit("  <li>");
    reveal_strlit("</li>");
    let e = entries[i];
    let t = total_len(entries.take(i));
    let out = spec_wrap_output(entries, fmt);
    match fmt {
        OutputFormat::Latex => {
            let h = "\\begin{thebibliography}{99}\n\n"@;
            let j = seq_join(entries, "\n"@);
            lemma_join_at(entries, "\n"@, i);
            assert(out == h + j + "\n\\end{thebibliography}\n"@);
            let o = t + i;
            assert(out.subrange(h.len() + o, h.len() + o + e.len()) =~= j.subrange(o, o + e.len()));
        },
        OutputFormat::BibTeX => {
            lemma_join_at(entries, "\n\n"@, i);
            let j = seq_join(entries, "\n\n"@);
            assert(out.subrange(t + 2 * i, t + 2 * i + e.len()) =~= j.subrange(t + 2 * i, t + 2 * i + e.len()));
        },
        OutputFormat::PlainText => {
            lemma_join_at(entries, "\n\n"@, i);
        },
        OutputFormat::Ris => {
            lemma_join_at(entries, "\n\n"@, i);
        },
        OutputFormat::Markdown => {
            let pe = prefix_each(entries, "- "@);
            lemma_prefix_each_is_surround(entries, "- "@);
            lemma_surround_at(entries, "- "@, seq![], i);
            lemma_join_at(pe, "\n"@, i);
            let j = seq_join(pe, "\n"@);
            let o = t + 2 * i + i;
            assert(j.subrange(o, o + pe[i].len()) == pe[i]);
            assert(pe[i] =~= "- "@ + e);
            assert(out.subrange(o + 2, o + 2 + e.len()) =~= pe[i].subrange(2, 2int + e.len()));
        },
        OutputFormat::RichText => {
            let sv = surround(entries, "  <li>"@, "</li>"@);
            lemma_surround_at(entries, "  <li>"@, "</li>"@, i);
            assert("  <li>"@.len() == 6 && "</li>"@.len() == 5);
            let k = "  <li>"@.len() + "</li>"@.len();
            assert(k == 11);
            assert(i * k == 11 * i) by (nonlinear_arith)
                requires
                    k == 11,
            ;
            assert("\n"@.len() == 1);
            lemma_join_at(sv, "\n"@, i);
            assert(join_offset(sv, "\n"@, i) == t + 11 * i + i);
            let j = seq_join(sv, "\n"@);
            let o = t + 11 * i + i;
            assert(j.subrange(o, o + sv[i].len()) == sv[i]);
            let h = html_head();
            assert(out == h + j + "\n</ol></body></html>"@);
            assert(out.subrange(h.len() + o + 6, h.len() + o + 6 + e.len()) =~= sv[i].subrange(6, 6int + e.len()));
        },
    }
}

} // verus!
