use vstd::prelude::*;
use crate::formatting::{clean_doi, spec_clean_doi};
use crate::json::{entry_views, lemma_entry_views, lemma_views_of, views_of, Json, JsonV};
use crate::text::{
    byte_len, byte_prefix, byte_prefix_ok, byte_prefix_str, cat, cat3, cat4, chars_of, join,
    seq_join, utf8_len, views, is_byte_boundary, copy_str, drop_trail, find_bytes_from, find_from, lead, lead_in,
    lemma_ascii_byte_boundaries, lemma_boundary_in_prefix, lemma_decode_bytes,
    lemma_find_from_bounds, lemma_rfind_before_bounds, rfind_before, rfind_byte_before,
    starts_with, str_lowercase, string_of_range, strip_all, strip_all_str, take_lead,
    to_lowercase, trail, trail_in, trim, trim_str, CharClass,
};
use vstd::utf8::{decode_utf8, encode_utf8, is_char_boundary};

verus! {

// ---------------------------------------------------------------------------
// DOIs in running text
// ---------------------------------------------------------------------------

/// Whether `10.` starts at position `j` of `s`.
pub open spec fn doi_prefix_at(s: Seq<char>, j: int) -> bool {
    0 <= j && j + 3 <= s.len() && s[j] == '1' && s[j + 1] == '0' && s[j + 2] == '.'
}

/// The DOI that starts at position `j` of `s`, where `10.` stands: `10.`, at
/// least four ASCII digits, `/`, then the characters up to the first white
/// space, quote, angle bracket, comma or closing bracket, without trailing
/// `.`, `;` and `:`; nothing when one of these parts is missing.
pub open spec fn doi_at(s: Seq<char>, j: int) -> Option<Seq<char>> {
    let rest = s.skip(j + 3);
    let nd = lead(rest, CharClass::AsciiDigit);
    let after = rest.skip(nd as int);
    if nd >= 4 && after.len() > 0 && after[0] == '/' {
        let suffix = drop_trail(take_lead(after.skip(1), CharClass::DoiSuffix), CharClass::DoiTrailer);
        if suffix.len() > 0 {
            Some("10."@ + rest.take(nd as int) + "/"@ + suffix)
        } else {
            None
        }
    } else {
        None
    }
}

/// The first DOI of `s` that starts at position `j` or later, where at least
/// one character follows its `10.`.
pub open spec fn first_doi_from(s: Seq<char>, j: int) -> Option<Seq<char>>
    decreases s.len() - j,
{
    if j < 0 || j + 3 >= s.len() {
        None
    } else if doi_prefix_at(s, j) && doi_at(s, j) is Some {
        doi_at(s, j)
    } else {
        first_doi_from(s, j + 1)
    }
}

/// The first DOI written in `s`.
pub open spec fn spec_extract_doi(s: Seq<char>) -> Option<Seq<char>> {
    first_doi_from(s, 0)
}

/// The DOI at position `j` of `cs`, where `10.` stands.
fn doi_candidate(cs: &Vec<char>, j: usize) -> (r: Option<String>)
    requires
        doi_prefix_at(cs@, j as int),
    ensures
        r matches Some(d) ==> doi_at(cs@, j as int) == Some(d@),
        r is None <==> doi_at(cs@, j as int) is None,
{
    let n = cs.len();
    let a = j + 3;
    let nd = lead_in(cs, a, n, CharClass::AsciiDigit);
    let ghost rest = cs@.skip(a as int);
    assert(rest =~= cs@.subrange(a as int, n as int));
    let b = a + nd;
    assert(rest.skip(nd as int) =~= cs@.subrange(b as int, n as int));
    if nd >= 4 && b < n && cs[b] == '/' {
        let c = b + 1;
        let ls = lead_in(cs, c, n, CharClass::DoiSuffix);
        let t = trail_in(cs, c, c + ls, CharClass::DoiTrailer);
        proof {
            let after = rest.skip(nd as int);
            assert(after.skip(1) =~= cs@.subrange(c as int, n as int));
            assert(take_lead(after.skip(1), CharClass::DoiSuffix) =~= cs@.subrange(c as int, c + ls));
            assert(drop_trail(cs@.subrange(c as int, c + ls), CharClass::DoiTrailer) =~= cs@.subrange(c as int, c + ls - t));
            assert(rest.take(nd as int) =~= cs@.subrange(a as int, b as int));
        }
        if ls - t > 0 {
            let digits = string_of_range(cs, a, b);
            let suffix = string_of_range(cs, c, c + ls - t);
            Some(cat4("10.", digits.as_str(), "/", suffix.as_str()))
        } else {
            None
        }
    } else {
        None
    }
}

/// Finds the first DOI written in a piece of text, such as a link.
pub fn extract_doi_from_string(s: &str) -> (r: Option<String>)
    ensures
        r matches Some(d) ==> spec_extract_doi(s@) == Some(d@),
        r is None <==> spec_extract_doi(s@) is None,
{
    let cs = chars_of(s);
    let n = cs.len();
    let mut j: usize = 0;
    while n > 3 && j < n - 3
        invariant
            cs@ == s@,
            n == cs@.len(),
            j <= n,
            spec_extract_doi(s@) == first_doi_from(s@, j as int),
        decreases n - j,
    {
        if cs[j] == '1' && cs[j + 1] == '0' && cs[j + 2] == '.' {
            match doi_candidate(&cs, j) {
                Some(d) => {
                    return Some(d);
                },
                None => {},
            }
        }
        j = j + 1;
    }
    None
}

/// A DOI in canonical form: trimmed, without resolver prefixes.
pub open spec fn spec_normalize_doi(doi: Seq<char>) -> Seq<char> {
    spec_clean_doi(trim(doi))
}

/// Brings a DOI written as a link or with a `doi:` prefix to its bare form.
pub fn normalize_doi(doi: &str) -> (r: String)
    ensures
        r@ == spec_normalize_doi(doi@),
{
    let t = trim_str(doi);
    copy_str(clean_doi(t.as_str()))
}

// ---------------------------------------------------------------------------
// DOIs in HTML meta tags
// ---------------------------------------------------------------------------

/// The outcome of looking for a DOI in a `<meta>` tag.
pub enum MetaScan {
    /// No tag, no usable `content`, or a content that is no DOI.
    NotFound,
    /// The DOI in the tag's `content`.
    Found(Seq<char>),
    /// The search slices the page inside a character: the lower-cased page
    /// and the page disagree on byte positions.
    Aborts,
}

/// The DOI in a quoted `content` value: `after` starts with the quote `q`.
pub open spec fn quoted_doi(after: Seq<u8>, q: u8) -> MetaScan {
    match find_from(after, seq![q], 1) {
        None => MetaScan::NotFound,
        Some(e) => {
            let inner = decode_utf8(after.subrange(1, e));
            let cand = trim(strip_all(inner, "doi:"@));
            if "10."@.is_prefix_of(cand) {
                MetaScan::Found(cand)
            } else {
                MetaScan::NotFound
            }
        },
    }
}

/// Looks for `<meta name="NAME" content="DOI">` (names compared without case,
/// quotes `"` or `'`), all offsets in UTF-8 bytes: the name is searched in
/// the lower-cased page and the position found is used in the page itself;
/// the tag runs from the last `<` before that position to the first `>` from
/// it; `content=` is searched in the lower-cased tag. The content may carry a
/// `doi:` prefix and white space, and must start with `10.`.
pub open spec fn spec_meta_scan(html: Seq<char>, name: Seq<char>) -> MetaScan {
    let lower = encode_utf8(str_lowercase(html));
    let h = encode_utf8(html);
    let lname = str_lowercase(name);
    let n1 = encode_utf8("name=\""@ + lname + "\""@);
    let n2 = encode_utf8("name='"@ + lname + "'"@);
    let start = match find_from(lower, n1, 0) {
        Some(p) => Some(p),
        None => find_from(lower, n2, 0),
    };
    match start {
        None => MetaScan::NotFound,
        Some(ts) => if !is_char_boundary(h, ts) {
            MetaScan::Aborts
        } else {
            let open = match rfind_before(h, '<' as u8, ts) {
                Some(o) => o,
                None => ts,
            };
            match find_from(h, seq!['>' as u8], ts) {
                None => MetaScan::NotFound,
                Some(close) => {
                    let tag = h.subrange(open, close + 1);
                    let tag_l = encode_utf8(str_lowercase(decode_utf8(tag)));
                    match find_from(tag_l, encode_utf8("content="@), 0) {
                        None => MetaScan::NotFound,
                        Some(p) => {
                            let ci = p + 8;
                            if !is_char_boundary(tag, ci) {
                                MetaScan::Aborts
                            } else {
                                let after = tag.subrange(ci, tag.len() as int);
                                if after.len() > 0 && after[0] == '"' as u8 {
                                    quoted_doi(after, '"' as u8)
                                } else if after.len() > 0 && after[0] == '\'' as u8 {
                                    quoted_doi(after, '\'' as u8)
                                } else {
                                    MetaScan::NotFound
                                }
                            }
                        },
                    }
                },
            }
        },
    }
}

/// The outcome of looking for a DOI in a `<meta>` tag, computed.
pub enum MetaDoi {
    NotFound,
    Found(String),
    Aborts,
}

impl MetaDoi {
    pub open spec fn view(self) -> MetaScan {
        match self {
            MetaDoi::NotFound => MetaScan::NotFound,
            MetaDoi::Found(d) => MetaScan::Found(d@),
            MetaDoi::Aborts => MetaScan::Aborts,
        }
    }
}

/// The DOI in a quoted `content` value.
fn quoted_doi_of(after: &str, q: u8) -> (r: MetaDoi)
    requires
        encode_utf8(after@).len() > 0,
        encode_utf8(after@)[0] == q,
        q < 0x80,
    ensures
        r@ == quoted_doi(encode_utf8(after@), q),
{
    let ab = after.as_bytes();
    let qs: [u8; 1] = [q];
    let qv = qs.as_slice();
    assert(qv@ =~= seq![q]);
    match find_bytes_from(ab, qv, 1) {
        None => MetaDoi::NotFound,
        Some(e) => {
            proof {
                lemma_find_from_bounds(ab@, seq![q], 1);
                assert(ab@[e as int] == ab@.subrange(e as int, e + 1)[0]);
                vstd::utf8::encode_utf8_valid_utf8(after@);
                lemma_ascii_byte_boundaries(ab@, 0);
                lemma_ascii_byte_boundaries(ab@, e as int);
                lemma_boundary_in_prefix(ab@, 1, e as int);
            }
            let (pre, _post) = after.split_at(e);
            proof {
                assert(encode_utf8(pre@) =~= ab@.subrange(0, e as int));
            }
            let (_q0, inner) = pre.split_at(1);
            proof {
                assert(encode_utf8(inner@) =~= ab@.subrange(1, e as int));
                lemma_decode_bytes(inner@, encode_utf8(inner@));
            }
            let stripped = strip_all_str(inner, "doi:");
            let cand = trim_str(stripped.as_str());
            if starts_with(cand.as_str(), "10.") {
                MetaDoi::Found(cand)
            } else {
                MetaDoi::NotFound
            }
        },
    }
}

/// Looks for a DOI in the `<meta>` tag named `meta_name` of a page, reporting
/// when the search would slice the page inside a character.
pub fn scan_meta_doi(html: &str, meta_name: &str) -> (r: MetaDoi)
    ensures
        r@ == spec_meta_scan(html@, meta_name@),
{
    let lower = to_lowercase(html);
    let lb = lower.as_str().as_bytes();
    let hb = html.as_bytes();
    let hn = hb.len();
    let lname = to_lowercase(meta_name);
    let n1 = cat3("name=\"", lname.as_str(), "\"");
    let n2 = cat3("name='", lname.as_str(), "'");
    let start = match find_bytes_from(lb, n1.as_str().as_bytes(), 0) {
        Some(p) => Some(p),
        None => find_bytes_from(lb, n2.as_str().as_bytes(), 0),
    };
    let ts = match start {
        None => return MetaDoi::NotFound,
        Some(ts) => ts,
    };
    if !html.is_char_boundary(ts) {
        return MetaDoi::Aborts;
    }
    proof {
        vstd::utf8::encode_utf8_valid_utf8(html@);
    }
    let open = match rfind_byte_before(hb, '<' as u8, ts) {
        Some(o) => o,
        None => ts,
    };
    let gt: [u8; 1] = ['>' as u8];
    let gtv = gt.as_slice();
    assert(gtv@ =~= seq!['>' as u8]);
    let close = match find_bytes_from(hb, gtv, ts) {
        None => return MetaDoi::NotFound,
        Some(c) => c,
    };
    proof {
        lemma_rfind_before_bounds(hb@, '<' as u8, ts as int);
        lemma_find_from_bounds(hb@, seq!['>' as u8], ts as int);
        assert(hb@[close as int] == hb@.subrange(close as int, close + 1)[0]);
        lemma_ascii_byte_boundaries(hb@, close as int);
        if open < ts {
            lemma_ascii_byte_boundaries(hb@, open as int);
        }
        lemma_boundary_in_prefix(hb@, open as int, close + 1);
        assert(close < hn);
    }
    let (pre, _rest) = html.split_at(close + 1);
    assert(encode_utf8(pre@) =~= hb@.subrange(0, close + 1));
    let (_before, tag) = pre.split_at(open);
    let ghost tb = hb@.subrange(open as int, close + 1);
    assert(encode_utf8(tag@) =~= tb);
    proof {
        lemma_decode_bytes(tag@, tb);
    }
    let tag_lower = to_lowercase(tag);
    let content = "content=";
    let cp = match find_bytes_from(tag_lower.as_str().as_bytes(), content.as_bytes(), 0) {
        None => return MetaDoi::NotFound,
        Some(p) => p,
    };
    if cp > usize::MAX - 8 {
        proof {
            vstd::utf8::encode_utf8_valid_utf8(tag@);
            assert(tb.len() <= hn);
            assert(!is_char_boundary(tb, cp + 8));
        }
        return MetaDoi::Aborts;
    }
    let ci = cp + 8;
    if !tag.is_char_boundary(ci) {
        return MetaDoi::Aborts;
    }
    let (_head, after) = tag.split_at(ci);
    let ghost afb = tb.subrange(ci as int, tb.len() as int);
    assert(encode_utf8(after@) =~= afb);
    let ab = after.as_bytes();
    if ab.len() > 0 && ab[0] == '"' as u8 {
        quoted_doi_of(after, '"' as u8)
    } else if ab.len() > 0 && ab[0] == '\'' as u8 {
        quoted_doi_of(after, '\'' as u8)
    } else {
        MetaDoi::NotFound
    }
}

/// Whether looking for the `<meta>` DOI named `meta_name` stays on character boundaries.
pub open spec fn meta_scan_safe(html: Seq<char>, name: Seq<char>) -> bool {
    !(spec_meta_scan(html, name) is Aborts)
}

/// The DOI in the `<meta>` tag named `meta_name` of a page, if there is one.
pub fn extract_meta_doi(html: &str, meta_name: &str) -> (r: Option<String>)
    requires
        meta_scan_safe(html@, meta_name@),
    ensures
        r matches Some(d) ==> spec_meta_scan(html@, meta_name@) == MetaScan::Found(d@),
        r is None <==> spec_meta_scan(html@, meta_name@) is NotFound,
{
    match scan_meta_doi(html, meta_name) {
        MetaDoi::Found(d) => Some(d),
        _ => None,
    }
}

// ---------------------------------------------------------------------------
// Resolving an input line to a DOI
// ---------------------------------------------------------------------------

/// Where resolving an input line leads.
pub enum Resolution {
    /// The DOI.
    Doi(Seq<char>),
    /// An error message.
    Error(Seq<char>),
    /// The page at this address has to be fetched first.
    FetchPage(Seq<char>),
    /// A slice of the page would split a character: resolving stops here.
    Aborts,
}

/// The first step of resolving an input line: a bare DOI is taken as it is,
/// a DOI with `doi:` or a `doi.org` link is normalised, another web address
/// gives the DOI written in it or else has to be fetched, and anything else
/// is refused.
pub open spec fn spec_resolve_step(input: Seq<char>) -> Resolution {
    let s = trim(input);
    if "10."@.is_prefix_of(s) {
        Resolution::Doi(s)
    } else if "doi:"@.is_prefix_of(s) || "https://doi.org/"@.is_prefix_of(s)
        || "http://doi.org/"@.is_prefix_of(s) {
        Resolution::Doi(spec_normalize_doi(s))
    } else if "http://"@.is_prefix_of(s) || "https://"@.is_prefix_of(s) {
        match spec_extract_doi(s) {
            Some(d) => Resolution::Doi(d),
            None => Resolution::FetchPage(s),
        }
    } else {
        Resolution::Error("Unrecognized input: "@ + s)
    }
}

/// The first step of resolving an input line, computed.
pub enum ResolveStep {
    Resolved(String),
    Failed(String),
    FetchPage(String),
}

impl ResolveStep {
    pub open spec fn view(self) -> Resolution {
        match self {
            ResolveStep::Resolved(d) => Resolution::Doi(d@),
            ResolveStep::Failed(e) => Resolution::Error(e@),
            ResolveStep::FetchPage(u) => Resolution::FetchPage(u@),
        }
    }
}

/// Decides what an input line stands for.
pub fn resolve_step(input: &str) -> (r: ResolveStep)
    ensures
        r@ == spec_resolve_step(input@),
{
    let s = trim_str(input);
    let t = s.as_str();
    if starts_with(t, "10.") {
        return ResolveStep::Resolved(s);
    }
    if starts_with(t, "doi:") || starts_with(t, "https://doi.org/") || starts_with(t, "http://doi.org/") {
        return ResolveStep::Resolved(normalize_doi(t));
    }
    if starts_with(t, "http://") || starts_with(t, "https://") {
        return match extract_doi_from_string(t) {
            Some(d) => ResolveStep::Resolved(d),
            None => ResolveStep::FetchPage(s),
        };
    }
    ResolveStep::Failed(cat("Unrecognized input: ", t))
}

/// The `<meta>` names that may carry a DOI, in the order they are tried.
pub open spec fn meta_names() -> Seq<Seq<char>> {
    seq![
        "citation_doi"@,
        "dc.identifier"@,
        "DC.identifier"@,
        "dc.Identifier"@,
        "bepress_citation_doi"@,
        "rft_id"@,
    ]
}

/// The first `<meta>` DOI of the page under the given names, tried in order.
pub open spec fn first_meta_doi(html: Seq<char>, names: Seq<Seq<char>>) -> MetaScan
    decreases names.len(),
{
    if names.len() == 0 {
        MetaScan::NotFound
    } else {
        match spec_meta_scan(html, names[0]) {
            MetaScan::NotFound => first_meta_doi(html, names.drop_first()),
            other => other,
        }
    }
}

/// What fetching a page gave.
pub enum PageFetch {
    /// The request failed; the error as text.
    SendFailed(String),
    /// The body could not be read; the error as text.
    ReadFailed(String),
    /// The page.
    Page(String),
}

/// The DOI of a fetched page: a `<meta>` DOI, else the first DOI written in
/// the page; failures are reported with what went wrong.
pub open spec fn spec_page_resolution(url: Seq<char>, fetch: PageFetch) -> Resolution {
    match fetch {
        PageFetch::SendFailed(e) => Resolution::Error("Fetch failed: "@ + e@),
        PageFetch::ReadFailed(e) => Resolution::Error("Read failed: "@ + e@),
        PageFetch::Page(html) => match first_meta_doi(html@, meta_names()) {
            MetaScan::Found(d) => Resolution::Doi(d),
            MetaScan::Aborts => Resolution::Aborts,
            MetaScan::NotFound => match spec_extract_doi(html@) {
                Some(d) => Resolution::Doi(d),
                None => Resolution::Error("No DOI found in page: "@ + url),
            },
        },
    }
}

/// Whether looking for the `<meta>` DOI named `meta_name` stays on character boundaries.
pub fn meta_scan_is_safe(html: &str, meta_name: &str) -> (r: bool)
    ensures
        r == meta_scan_safe(html@, meta_name@),
{
    match scan_meta_doi(html, meta_name) {
        MetaDoi::Aborts => false,
        _ => true,
    }
}

/// The `<meta>` name tried at position `i`.
fn meta_name(i: usize) -> (r: &'static str)
    requires
        i < 6,
    ensures
        r@ == meta_names()[i as int],
{
    if i == 0 {
        "citation_doi"
    } else if i == 1 {
        "dc.identifier"
    } else if i == 2 {
        "DC.identifier"
    } else if i == 3 {
        "dc.Identifier"
    } else if i == 4 {
        "bepress_citation_doi"
    } else {
        "rft_id"
    }
}

/// Finds the DOI of a fetched page. `None` where a slice of the page would
/// split a character, so that resolving cannot go on.
#[verifier::loop_isolation(false)]
pub fn resolve_from_page(url: &str, fetch: PageFetch) -> (r: Option<Result<String, String>>)
    ensures
        match spec_page_resolution(url@, fetch) {
            Resolution::Doi(d) => r matches Some(Ok(x)) && x@ == d,
            Resolution::Error(e) => r matches Some(Err(x)) && x@ == e,
            _ => r is None,
        },
{
    let html = match fetch {
        PageFetch::SendFailed(e) => return Some(Err(cat("Fetch failed: ", e.as_str()))),
        PageFetch::ReadFailed(e) => return Some(Err(cat("Read failed: ", e.as_str()))),
        PageFetch::Page(h) => h,
    };
    let ghost ns = meta_names();
    assert(ns.skip(0) =~= ns);
    let mut i: usize = 0;
    while i < 6
        invariant
            i <= 6,
            ns == meta_names(),
            first_meta_doi(html@, meta_names()) == first_meta_doi(html@, ns.skip(i as int)),
        decreases 6 - i,
    {
        let name = meta_name(i);
        assert(ns.skip(i as int)[0] == name@);
        assert(ns.skip(i as int).drop_first() =~= ns.skip(i + 1));
        if !meta_scan_is_safe(html.as_str(), name) {
            return None;
        }
        match extract_meta_doi(html.as_str(), name) {
            Some(d) => return Some(Ok(d)),
            None => {},
        }
        i = i + 1;
    }
    assert(ns.skip(6) =~= Seq::<Seq<char>>::empty());
    match extract_doi_from_string(html.as_str()) {
        Some(d) => Some(Ok(d)),
        None => Some(Err(cat("No DOI found in page: ", url))),
    }
}

// ---------------------------------------------------------------------------
// Fetching metadata: the services and what their replies mean
// ---------------------------------------------------------------------------

/// The services asked for the metadata of a DOI, in the order they are asked.
#[derive(Clone, Copy, PartialEq, Eq, Structural, Debug)]
pub enum Source {
    DoiOrg,
    CrossRef,
    DataCite,
}

/// The services in the order they are asked.
pub open spec fn spec_sources() -> Seq<Source> {
    seq![Source::DoiOrg, Source::CrossRef, Source::DataCite]
}

/// The services in the order they are asked.
pub fn sources() -> (r: &'static [Source])
    ensures
        r@ == spec_sources(),
{
    let r: &'static [Source] = &[Source::DoiOrg, Source::CrossRef, Source::DataCite];
    assert(r@ =~= spec_sources());
    r
}

/// The address asked for the metadata of `doi`.
pub open spec fn spec_metadata_url(source: Source, doi: Seq<char>) -> Seq<char> {
    match source {
        Source::DoiOrg => "https://doi.org/"@ + doi,
        Source::CrossRef => "https://api.crossref.org/works/"@ + doi,
        Source::DataCite => "https://api.datacite.org/dois/"@ + doi,
    }
}

/// The address asked for the metadata of `doi`.
pub fn metadata_url(source: Source, doi: &str) -> (r: String)
    ensures
        r@ == spec_metadata_url(source, doi@),
{
    match source {
        Source::DoiOrg => cat("https://doi.org/", doi),
        Source::CrossRef => cat("https://api.crossref.org/works/", doi),
        Source::DataCite => cat("https://api.datacite.org/dois/", doi),
    }
}

/// The `Accept` header sent to a service.
pub fn accept_header(source: Source) -> (r: &'static str)
    ensures
        r@ == match source {
            Source::DoiOrg => "application/vnd.citationstyles.csl+json"@,
            _ => "application/json"@,
        },
{
    match source {
        Source::DoiOrg => "application/vnd.citationstyles.csl+json",
        _ => "application/json",
    }
}

/// Whether the `User-Agent` header is sent to a service (only doi.org gets it).
pub fn sends_user_agent(source: Source) -> (r: bool)
    ensures
        r == (source == Source::DoiOrg),
{
    match source {
        Source::DoiOrg => true,
        _ => false,
    }
}

/// The `User-Agent` sent with page and doi.org requests.
pub fn user_agent() -> (r: &'static str)
    ensures
        r@ == "DOI-APA-Generator/2.0"@,
{
    "DOI-APA-Generator/2.0"
}

/// HTTP success: a status from 200 to 299.
pub fn is_success_status(code: u16) -> (r: bool)
    ensures
        r == (200 <= code <= 299),
{
    200 <= code && code <= 299
}

/// What a service answered.
pub enum Reply {
    /// No answer; the error as text.
    Unreachable(String),
    /// An answer with a status other than success; the status as text.
    Status(String),
    /// A successful answer whose body is no JSON; the error as text.
    Unparsable(String),
    /// A successful answer with a JSON body.
    Body(Json),
}

/// What a reply means: metadata, an error message, or `Aborts` where the
/// DataCite year would be cut inside a character, so that no record can be made.
pub enum Verdict {
    Accepted(JsonV),
    Rejected(Seq<char>),
    Aborts,
}

/// The name of a service in error messages.
pub open spec fn source_label(source: Source) -> Seq<char> {
    match source {
        Source::DoiOrg => "doi.org"@,
        Source::CrossRef => "CrossRef"@,
        Source::DataCite => "DataCite"@,
    }
}

/// The author record made from a DataCite creator.
pub open spec fn datacite_author(c: JsonV) -> JsonV {
    let family = match c.at("familyName"@).as_str() {
        Some(f) => f,
        None => c.at("name"@).str_or_empty(),
    };
    JsonV::Object(seq![("family"@, JsonV::Str(family)), ("given"@, JsonV::Str(c.at("givenName"@).str_or_empty()))])
}

/// The author records made from a list of DataCite creators.
pub open spec fn datacite_authors(cs: Seq<JsonV>) -> Seq<JsonV>
    decreases cs.len(),
{
    if cs.len() == 0 {
        seq![]
    } else {
        datacite_authors(cs.drop_last()).push(datacite_author(cs.last()))
    }
}

/// The title of a DataCite record: that of its first `titles` entry.
pub open spec fn datacite_title(attrs: JsonV) -> Seq<char> {
    match attrs.at("titles"@).as_array() {
        Some(a) => if a.len() > 0 { a[0].at("title"@).str_or_empty() } else { seq![] },
        None => seq![],
    }
}

/// The year of a `published` text: its first four bytes, or all of it when shorter.
pub open spec fn published_year(p: Seq<char>) -> Seq<char> {
    if utf8_len(p) < 4 { p } else { byte_prefix(p, 4) }
}

/// A DataCite reply as a CSL record: `DOI`, authors from the creators, the
/// first title, the container title, volume, issue and page as given, and
/// `issued` from the year of `published` when that is a string. Members in
/// key order.
pub open spec fn spec_datacite(doi: Seq<char>, data: JsonV) -> Verdict {
    let attrs = data.at("data"@).at("attributes"@);
    if !(attrs is Object) {
        Verdict::Rejected("DataCite: Invalid response"@)
    } else {
        let authors = match attrs.at("creators"@).as_array() {
            Some(cs) => datacite_authors(cs),
            None => seq![],
        };
        let head = seq![
            ("DOI"@, JsonV::Str(doi)),
            ("author"@, JsonV::Array(authors)),
            ("container-title"@, JsonV::Str(attrs.at("container"@).at("title"@).str_or_empty())),
            ("issue"@, attrs.at("issue"@)),
        ];
        let tail = seq![
            ("page"@, attrs.at("page"@)),
            ("title"@, JsonV::Str(datacite_title(attrs))),
            ("volume"@, attrs.at("volume"@)),
        ];
        match attrs.at("published"@).as_str() {
            Some(p) => if utf8_len(p) >= 4 && !byte_prefix_ok(p, 4) {
                Verdict::Aborts
            } else {
                let issued = JsonV::Object(seq![
                    ("date-parts"@, JsonV::Array(seq![JsonV::Array(seq![JsonV::Str(published_year(p))])])),
                ]);
                Verdict::Accepted(JsonV::Object(head + seq![("issued"@, issued)] + tail))
            },
            None => Verdict::Accepted(JsonV::Object(head + tail)),
        }
    }
}

/// What a reply from a service means. doi.org must send a record whose `DOI`
/// is a string; CrossRef a `message` that is not null (the record); DataCite a
/// record with `data.attributes`, which is turned into a CSL record.
pub open spec fn spec_judge_reply(source: Source, doi: Seq<char>, reply: Reply) -> Verdict {
    let label = source_label(source);
    match reply {
        Reply::Unreachable(e) => Verdict::Rejected(label + ": "@ + e@),
        Reply::Status(t) => Verdict::Rejected(label + ": HTTP "@ + t@),
        Reply::Unparsable(e) => Verdict::Rejected(label + ": parse error: "@ + e@),
        Reply::Body(d) => match source {
            Source::DoiOrg => if d@.at("DOI"@).as_str() is Some {
                Verdict::Accepted(d@)
            } else {
                Verdict::Rejected("doi.org: Invalid CSL-JSON"@)
            },
            Source::CrossRef => if !d@.at("message"@).is_null() {
                Verdict::Accepted(d@.at("message"@))
            } else {
                Verdict::Rejected("CrossRef: Invalid response"@)
            },
            Source::DataCite => spec_datacite(doi, d@),
        },
    }
}

/// What a reply means, computed: metadata, an error message, or `Aborts`.
pub enum Judgement {
    Accepted(Json),
    Rejected(String),
    Aborts,
}

impl Judgement {
    pub open spec fn view(self) -> Verdict {
        match self {
            Judgement::Accepted(j) => Verdict::Accepted(j@),
            Judgement::Rejected(e) => Verdict::Rejected(e@),
            Judgement::Aborts => Verdict::Aborts,
        }
    }
}

/// `value[key]`, copied.
fn at_copy(v: &Json, key: &str) -> (r: Json)
    ensures
        r@ == v@.at(key@),
{
    match v.get(key) {
        Some(x) => x.clone(),
        None => Json::Null,
    }
}

/// `value[key].as_str().unwrap_or("")`, copied.
fn str_at(v: &Json, key: &str) -> (r: String)
    ensures
        r@ == v@.at(key@).str_or_empty(),
{
    match v.get_str(key) {
        Some(s) => copy_str(s),
        None => String::new(),
    }
}

/// The JSON string holding `s`.
fn json_str(s: String) -> (r: Json)
    ensures
        r@ == JsonV::Str(s@),
{
    Json::Str(s)
}

/// A JSON object with the given members.
fn json_object(m: Vec<(String, Json)>, Ghost(expected): Ghost<Seq<(Seq<char>, JsonV)>>) -> (r: Json)
    requires
        m@.len() == expected.len(),
        forall|i: int| 0 <= i < m@.len() ==> (#[trigger] m@[i]).0@ == expected[i].0 && m@[i].1@ == expected[i].1,
    ensures
        r@ == JsonV::Object(expected),
{
    proof {
        lemma_entry_views(m@);
        assert(entry_views(m@) =~= expected);
    }
    Json::Object(m)
}

fn datacite_author_of(c: &Json) -> (r: Json)
    ensures
        r@ == datacite_author(c@),
{
    let family = match c.get_str("familyName") {
        Some(f) => copy_str(f),
        None => str_at(c, "name"),
    };
    let given = str_at(c, "givenName");
    let ghost expected = seq![("family"@, JsonV::Str(family@)), ("given"@, JsonV::Str(given@))];
    let mut m: Vec<(String, Json)> = Vec::new();
    m.push((copy_str("family"), json_str(family)));
    m.push((copy_str("given"), json_str(given)));
    json_object(m, Ghost(expected))
}

fn datacite_authors_of(attrs: &Json) -> (r: Json)
    ensures
        r@ == JsonV::Array(match attrs@.at("creators"@).as_array() {
            Some(cs) => datacite_authors(cs),
            None => seq![],
        }),
{
    let mut out: Vec<Json> = Vec::new();
    match attrs.get("creators") {
        Some(cr) => match cr.as_array() {
            Some(cs) => {
                let ghost cv = views_of(cs@);
                proof {
                    lemma_views_of(cs@);
                }
                let mut i: usize = 0;
                while i < cs.len()
                    invariant
                        cv == views_of(cs@),
                        cv.len() == cs@.len(),
                        forall|j: int| 0 <= j < cs@.len() ==> #[trigger] cv[j] == cs@[j]@,
                        i <= cs@.len(),
                        out@.len() == i,
                        forall|j: int| 0 <= j < i ==> (#[trigger] out@[j])@ == datacite_authors(cv.take(i as int))[j],
                        datacite_authors(cv.take(i as int)).len() == i,
                    decreases cs@.len() - i,
                {
                    let a = datacite_author_of(&cs[i]);
                    out.push(a);
                    assert(cv.take(i + 1).drop_last() =~= cv.take(i as int));
                    i = i + 1;
                }
                assert(cv.take(cs@.len() as int) =~= cv);
            },
            None => {},
        },
        None => {},
    }
    proof {
        lemma_views_of(out@);
        assert(views_of(out@) =~= match attrs@.at("creators"@).as_array() {
            Some(cs) => datacite_authors(cs),
            None => seq![],
        });
    }
    Json::Array(out)
}

fn datacite_title_of(attrs: &Json) -> (r: String)
    ensures
        r@ == datacite_title(attrs@),
{
    match attrs.get("titles") {
        Some(t) => match t.as_array() {
            Some(a) => {
                proof {
                    lemma_views_of(a@);
                }
                if a.len() > 0 {
                    str_at(&a[0], "title")
                } else {
                    String::new()
                }
            },
            None => String::new(),
        },
        None => String::new(),
    }
}

/// Turns a DataCite reply into a CSL record.
pub fn normalize_datacite(doi: &str, data: &Json) -> (r: Judgement)
    ensures
        r@ == spec_datacite(doi@, data@),
{
    let attrs = match data.get("data") {
        Some(d) => match d.get("attributes") {
            Some(a) => a,
            None => return Judgement::Rejected(copy_str("DataCite: Invalid response")),
        },
        None => return Judgement::Rejected(copy_str("DataCite: Invalid response")),
    };
    match attrs {
        Json::Object(_) => {},
        _ => return Judgement::Rejected(copy_str("DataCite: Invalid response")),
    }
    let ghost av = attrs@;
    let authors = datacite_authors_of(attrs);
    let container = match attrs.get("container") {
        Some(c) => str_at(c, "title"),
        None => String::new(),
    };
    let issue = at_copy(attrs, "issue");
    let page = at_copy(attrs, "page");
    let title = datacite_title_of(attrs);
    let volume = at_copy(attrs, "volume");
    let ghost head = seq![
        ("DOI"@, JsonV::Str(doi@)),
        ("author"@, authors@),
        ("container-title"@, JsonV::Str(container@)),
        ("issue"@, issue@),
    ];
    let ghost tail = seq![("page"@, page@), ("title"@, JsonV::Str(title@)), ("volume"@, volume@)];
    let mut m: Vec<(String, Json)> = Vec::new();
    m.push((copy_str("DOI"), json_str(copy_str(doi))));
    m.push((copy_str("author"), authors));
    m.push((copy_str("container-title"), json_str(container)));
    m.push((copy_str("issue"), issue));
    let ghost with_issued: bool = false;
    match attrs.get_str("published") {
        Some(p) => {
            let n = byte_len(p);
            let year = if n < 4 {
                copy_str(p)
            } else if is_byte_boundary(p, 4) {
                byte_prefix_str(p, 4)
            } else {
                return Judgement::Aborts;
            };
            let ghost issued_members = seq![
                ("date-parts"@, JsonV::Array(seq![JsonV::Array(seq![JsonV::Str(year@)])])),
            ];
            let ghost issued_v = JsonV::Object(issued_members);
            let ghost yv = year@;
            assert(yv == published_year(p@));
            let mut row: Vec<Json> = Vec::new();
            row.push(json_str(year));
            let mut rows: Vec<Json> = Vec::new();
            proof {
                lemma_views_of(row@);
                assert(views_of(row@) =~= seq![JsonV::Str(yv)]);
            }
            let row_json = Json::Array(row);
            assert(row_json@ == JsonV::Array(seq![JsonV::Str(yv)]));
            rows.push(row_json);
            proof {
                lemma_views_of(rows@);
                assert(views_of(rows@) =~= seq![JsonV::Array(seq![JsonV::Str(yv)])]);
            }
            let mut dp: Vec<(String, Json)> = Vec::new();
            dp.push((copy_str("date-parts"), Json::Array(rows)));
            let issued = json_object(dp, Ghost(issued_members));
            m.push((copy_str("issued"), issued));
            m.push((copy_str("page"), page));
            m.push((copy_str("title"), json_str(title)));
            m.push((copy_str("volume"), volume));
            Judgement::Accepted(json_object(m, Ghost(head + seq![("issued"@, issued_v)] + tail)))
        },
        None => {
            m.push((copy_str("page"), page));
            m.push((copy_str("title"), json_str(title)));
            m.push((copy_str("volume"), volume));
            Judgement::Accepted(json_object(m, Ghost(head + tail)))
        },
    }
}

/// Decides what a reply from a service means.
pub fn judge_reply(source: Source, doi: &str, reply: Reply) -> (r: Judgement)
    ensures
        r@ == spec_judge_reply(source, doi@, reply),
{
    let label = match source {
        Source::DoiOrg => "doi.org",
        Source::CrossRef => "CrossRef",
        Source::DataCite => "DataCite",
    };
    match reply {
        Reply::Unreachable(e) => Judgement::Rejected(cat3(label, ": ", e.as_str())),
        Reply::Status(t) => Judgement::Rejected(cat3(label, ": HTTP ", t.as_str())),
        Reply::Unparsable(e) => Judgement::Rejected(cat3(label, ": parse error: ", e.as_str())),
        Reply::Body(d) => match source {
            Source::DoiOrg => {
                if d.get_str("DOI").is_some() {
                    Judgement::Accepted(d)
                } else {
                    Judgement::Rejected(copy_str("doi.org: Invalid CSL-JSON"))
                }
            },
            Source::CrossRef => {
                match d.get("message") {
                    Some(msg) => {
                        if !msg.is_null() {
                            Judgement::Accepted(msg.clone())
                        } else {
                            Judgement::Rejected(copy_str("CrossRef: Invalid response"))
                        }
                    },
                    None => Judgement::Rejected(copy_str("CrossRef: Invalid response")),
                }
            },
            Source::DataCite => normalize_datacite(doi, &d),
        },
    }
}

/// The message when no service gave metadata: each error on its own indented line.
pub open spec fn spec_all_failed(errors: Seq<Seq<char>>) -> Seq<char> {
    "All APIs failed:\n  "@ + seq_join(errors, "\n  "@)
}

/// The message when no service gave metadata.
pub fn all_failed_message(errors: &[String]) -> (r: String)
    ensures
        r@ == spec_all_failed(views(errors@)),
{
    let body = join(errors, "\n  ");
    cat("All APIs failed:\n  ", body.as_str())
}

// ---------------------------------------------------------------------------
// The search for metadata, one service after another
// ---------------------------------------------------------------------------

/// A search for the metadata of a DOI: the services are asked in order, the
/// first that gives a record ends the search, and the errors of those that
/// did not are collected.
pub struct MetadataSearch {
    /// The DOI, normalised.
    pub doi: String,
    /// How many services have answered with an error so far.
    pub asked: usize,
    /// Their error messages, in order.
    pub errors: Vec<String>,
}

/// What the search does after a reply.
pub enum SearchStep {
    /// Ask this service next.
    Ask(Source),
    /// The metadata found.
    Found(Json),
    /// No service gave metadata: the message listing their errors.
    AllFailed(String),
    /// The DataCite year would be cut inside a character: no record can be made.
    Aborts,
}

impl MetadataSearch {
    /// A service is still to answer, and one error is kept per service asked.
    pub open spec fn wf(self) -> bool {
        &&& self.asked < spec_sources().len()
        &&& self.errors@.len() == self.asked
    }

    /// Starts the search for the metadata of `doi`.
    pub fn start(doi: &str) -> (r: MetadataSearch)
        ensures
            r.wf(),
            r.doi@ == spec_normalize_doi(doi@),
            r.asked == 0,
    {
        MetadataSearch { doi: normalize_doi(doi), asked: 0, errors: Vec::new() }
    }

    /// The service to ask now.
    pub fn source(&self) -> (r: Source)
        requires
            self.wf(),
        ensures
            r == spec_sources()[self.asked as int],
    {
        sources()[self.asked]
    }

    /// Takes the reply of the service asked now, and says what comes next.
    pub fn answer(&mut self, reply: Reply) -> (r: SearchStep)
        requires
            old(self).wf(),
        ensures
            final(self).doi == old(self).doi,
            match spec_judge_reply(spec_sources()[old(self).asked as int], old(self).doi@, reply) {
                Verdict::Accepted(m) => r matches SearchStep::Found(j) && j@ == m,
                Verdict::Aborts => r is Aborts,
                Verdict::Rejected(e) => {
                    &&& views(final(self).errors@) == views(old(self).errors@).push(e)
                    &&& final(self).asked == old(self).asked + 1
                    &&& if final(self).asked < spec_sources().len() {
                        &&& final(self).wf()
                        &&& r == SearchStep::Ask(spec_sources()[final(self).asked as int])
                    } else {
                        r matches SearchStep::AllFailed(msg) && msg@ == spec_all_failed(views(final(self).errors@))
                    }
                },
            },
    {
        let source = self.source();
        match judge_reply(source, self.doi.as_str(), reply) {
            Judgement::Accepted(m) => SearchStep::Found(m),
            Judgement::Aborts => SearchStep::Aborts,
            Judgement::Rejected(e) => {
                let ghost before = views(self.errors@);
                let ghost ev = e@;
                self.errors.push(e);
                assert(views(self.errors@) =~= before.push(ev));
                self.asked = self.asked + 1;
                if self.asked < sources().len() {
                    SearchStep::Ask(sources()[self.asked])
                } else {
                    SearchStep::AllFailed(all_failed_message(self.errors.as_slice()))
                }
            },
        }
    }
}

// ---------------------------------------------------------------------------
// Laws
// ---------------------------------------------------------------------------

/// Text that starts and ends with a character that is not white space is its own trim.
proof fn lemma_trim_fixed(x: Seq<char>)
    requires
        x.len() > 0,
        !crate::text::is_ws(x[0]),
        !crate::text::is_ws(x.last()),
    ensures
        trim(x) == x,
{
    assert(lead(x, CharClass::Whitespace) == 0);
    assert(x.skip(0) =~= x);
    assert(crate::text::trail(x, CharClass::Whitespace) == 0);
    assert(x.take(x.len() as int) =~= x);
}

/// Stripping a prefix that is not there changes nothing.
proof fn lemma_strip_absent(x: Seq<char>, p: Seq<char>)
    requires
        p.len() > 0,
        x.len() > 0,
        p[0] != x[0],
    ensures
        strip_all(x, p) == x,
{
    if p.is_prefix_of(x) {
        assert(p[0] == x[0]);
    }
}

/// A bare DOI is its own normal form, and no resolver prefix stands before it.
proof fn lemma_bare_doi(d: Seq<char>)
    requires
        "10."@.is_prefix_of(d),
        !crate::text::is_ws(d.last()),
    ensures
        d[0] == '1',
        trim(d) == d,
        strip_all(d, "https://doi.org/"@) == d,
        strip_all(d, "http://doi.org/"@) == d,
        strip_all(d, "doi:"@) == d,
{
    reveal_strlit("10.");
    reveal_strlit("doi:");
    reveal_strlit("https://doi.org/");
    reveal_strlit("http://doi.org/");
    assert(d.subrange(0, 3)[0] == d[0]);
    lemma_trim_fixed(d);
    lemma_strip_absent(d, "https://doi.org/"@);
    lemma_strip_absent(d, "http://doi.org/"@);
    lemma_strip_absent(d, "doi:"@);
}

/// `p + d` starts with `p`, and dropping `p` gives `d` back.
proof fn lemma_prefix_of_concat(p: Seq<char>, d: Seq<char>)
    ensures
        p.is_prefix_of(p + d),
        (p + d).skip(p.len() as int) == d,
{
    assert((p + d).subrange(0, p.len() as int) =~= p);
    assert((p + d).skip(p.len() as int) =~= d);
}

/// `doi:` before a bare DOI normalises to the DOI.
proof fn lemma_doi_colon_form(d: Seq<char>)
    requires
        "10."@.is_prefix_of(d),
        !crate::text::is_ws(d.last()),
    ensures
        spec_resolve_step("doi:"@ + d) == Resolution::Doi(d),
{
    reveal_strlit("doi:");
    reveal_strlit("10.");
    reveal_strlit("https://doi.org/");
    reveal_strlit("http://doi.org/");
    lemma_bare_doi(d);
    let x = "doi:"@ + d;
    assert(x[0] == 'd');
    assert(x.last() == d.last());
    lemma_trim_fixed(x);
    lemma_prefix_of_concat("doi:"@, d);
    lemma_strip_absent(x, "https://doi.org/"@);
    lemma_strip_absent(x, "http://doi.org/"@);
    assert(strip_all(x, "doi:"@) == strip_all(d, "doi:"@));
    if "10."@.is_prefix_of(x) {
        assert(x.subrange(0, 3)[0] == x[0]);
    }
}

/// `https://doi.org/` before a bare DOI normalises to the DOI.
proof fn lemma_https_form(d: Seq<char>)
    requires
        "10."@.is_prefix_of(d),
        !crate::text::is_ws(d.last()),
    ensures
        spec_resolve_step("https://doi.org/"@ + d) == Resolution::Doi(d),
{
    reveal_strlit("doi:");
    reveal_strlit("10.");
    reveal_strlit("https://doi.org/");
    reveal_strlit("http://doi.org/");
    lemma_bare_doi(d);
    let x = "https://doi.org/"@ + d;
    assert(x[0] == 'h');
    assert(x.last() == d.last());
    lemma_trim_fixed(x);
    lemma_prefix_of_concat("https://doi.org/"@, d);
    assert(strip_all(x, "https://doi.org/"@) == strip_all(d, "https://doi.org/"@));
    if "10."@.is_prefix_of(x) {
        assert(x.subrange(0, 3)[0] == x[0]);
    }
    if "doi:"@.is_prefix_of(x) {
        assert(x.subrange(0, 4)[0] == x[0]);
    }
}

/// `http://doi.org/` before a bare DOI normalises to the DOI.
proof fn lemma_http_form(d: Seq<char>)
    requires
        "10."@.is_prefix_of(d),
        !crate::text::is_ws(d.last()),
    ensures
        spec_resolve_step("http://doi.org/"@ + d) == Resolution::Doi(d),
{
    reveal_strlit("doi:");
    reveal_strlit("10.");
    reveal_strlit("https://doi.org/");
    reveal_strlit("http://doi.org/");
    lemma_bare_doi(d);
    let x = "http://doi.org/"@ + d;
    assert(x[0] == 'h');
    assert(x.last() == d.last());
    lemma_trim_fixed(x);
    lemma_prefix_of_concat("http://doi.org/"@, d);
    assert(!"https://doi.org/"@.is_prefix_of(x)) by {
        if "https://doi.org/"@.is_prefix_of(x) {
            assert(x.subrange(0, 16)[4] == x[4]);
        }
    }
    assert(strip_all(x, "https://doi.org/"@) == x);
    assert(strip_all(x, "http://doi.org/"@) == strip_all(d, "http://doi.org/"@));
    if "10."@.is_prefix_of(x) {
        assert(x.subrange(0, 3)[0] == x[0]);
    }
    if "doi:"@.is_prefix_of(x) {
        assert(x.subrange(0, 4)[0] == x[0]);
    }
}

/// The input forms the tool accepts for one DOI, `10.…`, `doi:10.…`,
/// `https://doi.org/10.…` and `http://doi.org/10.…`, all resolve to the bare
/// DOI without fetching anything (for a DOI that does not end in white space).
pub proof fn law_accepted_doi_forms(d: Seq<char>)
    requires
        "10."@.is_prefix_of(d),
        !crate::text::is_ws(d.last()),
    ensures
        spec_resolve_step(d) == Resolution::Doi(d),
        spec_resolve_step("doi:"@ + d) == Resolution::Doi(d),
        spec_resolve_step("https://doi.org/"@ + d) == Resolution::Doi(d),
        spec_resolve_step("http://doi.org/"@ + d) == Resolution::Doi(d),
{
    lemma_bare_doi(d);
    lemma_doi_colon_form(d);
    lemma_https_form(d);
    lemma_http_form(d);
}

/// The DOI found at a position is the text found there.
proof fn lemma_doi_at_is_text(s: Seq<char>, j: int)
    requires
        doi_prefix_at(s, j),
        doi_at(s, j) is Some,
    ensures
        j + doi_at(s, j)->0.len() <= s.len(),
        s.subrange(j, j + doi_at(s, j)->0.len()) == doi_at(s, j)->0,
{
    reveal_strlit("10.");
    reveal_strlit("/");
    let rest = s.skip(j + 3);
    let nd = lead(rest, CharClass::AsciiDigit);
    crate::text::lemma_lead_bound(rest, CharClass::AsciiDigit);
    let after = rest.skip(nd as int);
    let tail = after.skip(1);
    let ls = lead(tail, CharClass::DoiSuffix);
    crate::text::lemma_lead_bound(tail, CharClass::DoiSuffix);
    let full = take_lead(tail, CharClass::DoiSuffix);
    crate::text::lemma_trail_bound(full, CharClass::DoiTrailer);
    let suffix = drop_trail(full, CharClass::DoiTrailer);
    let d = "10."@ + rest.take(nd as int) + "/"@ + suffix;
    assert(doi_at(s, j)->0 == d);
    let e = j + 3 + nd + 1 + suffix.len();
    assert(e <= s.len());
    assert(s.subrange(j, e) =~= d) by {
        assert forall|k: int| 0 <= k < d.len() implies #[trigger] s.subrange(j, e)[k] == d[k] by {
            if k < 3 {
            } else if k < 3 + nd {
                assert(d[k] == rest[k - 3]);
            } else if k == 3 + nd {
                assert(after[0] == '/');
                assert(rest[nd as int] == after[0]);
            } else {
                assert(d[k] == suffix[k - 4 - nd]);
                assert(suffix[k - 4 - nd] == tail[k - 4 - nd]);
                assert(tail[k - 4 - nd] == s[k + j]);
            }
        }
    }
}

/// A DOI found in a text starts with `10.` and is a piece of the text, word for word.
pub proof fn law_found_doi_is_in_text(s: Seq<char>, j: int)
    requires
        0 <= j,
    ensures
        first_doi_from(s, j) matches Some(d) ==> "10."@.is_prefix_of(d) && exists|i: int|
            j <= i && i + d.len() <= s.len() && #[trigger] s.subrange(i, i + d.len()) == d,
    decreases s.len() - j,
{
    reveal_strlit("10.");
    if j + 3 < s.len() {
        if doi_prefix_at(s, j) && doi_at(s, j) is Some {
            lemma_doi_at_is_text(s, j);
            let d = doi_at(s, j)->0;
            assert(d.subrange(0, 3) =~= "10."@) by {
                assert(d[0] == s[j]);
                assert(d[1] == s[j + 1]);
                assert(d[2] == s[j + 2]);
            }
            assert(s.subrange(j, j + d.len()) == d);
        } else {
            law_found_doi_is_in_text(s, j + 1);
        }
    }
}

/// Every text of the form `10.` + digits + `/` + suffix is a DOI, found whole:
/// the registrant code may have any number of digits from four up, and the
/// suffix is any non-empty run of characters allowed in a DOI suffix that
/// does not end in `.`, `;` or `:`. Such punctuation right after it (`t`) is
/// left out, and the DOI stops at the first character that cannot be in a
/// suffix (`e` starts with one, or is empty).
pub proof fn law_doi_shape_is_found(d: Seq<char>, x: Seq<char>, t: Seq<char>, e: Seq<char>)
    requires
        d.len() >= 4,
        forall|i: int| 0 <= i < d.len() ==> '0' <= #[trigger] d[i] <= '9',
        x.len() > 0,
        forall|i: int| 0 <= i < x.len() ==> crate::text::is_doi_suffix_char(#[trigger] x[i]),
        !crate::text::is_doi_trailer(x.last()),
        forall|i: int| 0 <= i < t.len() ==> crate::text::is_doi_trailer(#[trigger] t[i]),
        e.len() == 0 || !crate::text::is_doi_suffix_char(e[0]),
    ensures
        spec_extract_doi("10."@ + d + "/"@ + x + t + e) == Some("10."@ + d + "/"@ + x),
{
    reveal_strlit("10.");
    reveal_strlit("/");
    let s = "10."@ + d + "/"@ + x + t + e;
    assert(s[0] == '1' && s[1] == '0' && s[2] == '.');
    let rest = s.skip(3);
    assert(rest =~= d + "/"@ + (x + t + e));
    assert forall|j: int| 0 <= j < d.len() implies crate::text::in_class(CharClass::AsciiDigit, #[trigger] rest[j]) by {
        assert(rest[j] == d[j]);
    }
    assert(rest[d.len() as int] == '/');
    crate::text::lemma_lead_is(rest, CharClass::AsciiDigit, d.len() as int);
    let after = rest.skip(d.len() as int);
    assert(after =~= "/"@ + (x + t + e));
    let y = x + t + e;
    assert(after.skip(1) =~= y);
    let xt = x + t;
    assert forall|j: int| 0 <= j < xt.len() implies crate::text::in_class(CharClass::DoiSuffix, #[trigger] y[j]) by {
        if j < x.len() {
            assert(y[j] == x[j]);
        } else {
            assert(y[j] == t[j - x.len()]);
        }
    }
    if e.len() > 0 {
        assert(y[xt.len() as int] == e[0]);
    }
    crate::text::lemma_lead_is(y, CharClass::DoiSuffix, xt.len() as int);
    assert(take_lead(y, CharClass::DoiSuffix) =~= xt);
    assert forall|j: int| x.len() <= j < xt.len() implies crate::text::in_class(CharClass::DoiTrailer, #[trigger] xt[j]) by {
        assert(xt[j] == t[j - x.len()]);
    }
    assert(xt[x.len() - 1] == x.last());
    crate::text::lemma_trail_is(xt, CharClass::DoiTrailer, x.len() as int);
    assert(drop_trail(xt, CharClass::DoiTrailer) =~= x);
    assert(rest.take(d.len() as int) =~= d);
    assert(doi_prefix_at(s, 0));
    assert(doi_at(s, 0) == Some("10."@ + d + "/"@ + x));
}

/// Whatever DOI is found in a text has the shape of one: `10.`, four or
/// more ASCII digits, `/`, and a non-empty suffix of characters allowed in a
/// suffix, not ending in `.`, `;` or `:`.
pub proof fn law_found_doi_has_doi_shape(s: Seq<char>, j: int)
    requires
        0 <= j,
    ensures
        first_doi_from(s, j) matches Some(r) ==> exists|d: Seq<char>, x: Seq<char>|
            {
                &&& r == "10."@ + d + "/"@ + x
                &&& d.len() >= 4
                &&& (forall|i: int| 0 <= i < d.len() ==> '0' <= #[trigger] d[i] <= '9')
                &&& x.len() > 0
                &&& (forall|i: int| 0 <= i < x.len() ==> crate::text::is_doi_suffix_char(#[trigger] x[i]))
                &&& !crate::text::is_doi_trailer(x.last())
            },
    decreases s.len() - j,
{
    if j + 3 < s.len() {
        if doi_prefix_at(s, j) && doi_at(s, j) is Some {
            let rest = s.skip(j + 3);
            let nd = lead(rest, CharClass::AsciiDigit);
            crate::text::lemma_lead_bound(rest, CharClass::AsciiDigit);
            let after = rest.skip(nd as int);
            let tl = take_lead(after.skip(1), CharClass::DoiSuffix);
            crate::text::lemma_lead_bound(after.skip(1), CharClass::DoiSuffix);
            let x = drop_trail(tl, CharClass::DoiTrailer);
            crate::text::lemma_trail_props(tl, CharClass::DoiTrailer);
            let d = rest.take(nd as int);
            lemma_lead_run(rest, CharClass::AsciiDigit);
            lemma_lead_run(after.skip(1), CharClass::DoiSuffix);
            assert forall|i: int| 0 <= i < d.len() implies '0' <= #[trigger] d[i] <= '9' by {
                assert(d[i] == rest[i]);
            }
            assert forall|i: int| 0 <= i < x.len() implies crate::text::is_doi_suffix_char(#[trigger] x[i]) by {
                assert(x[i] == after.skip(1)[i]);
            }
            assert(x.last() == tl[tl.len() - trail(tl, CharClass::DoiTrailer) - 1]);
            assert(doi_at(s, j) == Some("10."@ + d + "/"@ + x));
        } else {
            law_found_doi_has_doi_shape(s, j + 1);
        }
    }
}

/// The characters before `lead` are all of the class.
proof fn lemma_lead_run(s: Seq<char>, k: CharClass)
    ensures
        forall|i: int| 0 <= i < lead(s, k) ==> crate::text::in_class(k, #[trigger] s[i]),
    decreases s.len(),
{
    if s.len() > 0 && crate::text::in_class(k, s[0]) {
        let t = s.drop_first();
        lemma_lead_run(t, k);
        crate::text::lemma_lead_bound(t, k);
        assert forall|i: int| 0 <= i < lead(s, k) implies crate::text::in_class(k, #[trigger] s[i]) by {
            if i > 0 {
                assert(s[i] == t[i - 1]);
            }
        }
    }
}

/// Text that is neither a DOI (bare or with `doi:`), nor a `doi.org` link,
/// nor a web address is refused with `Unrecognized input: ` and the trimmed line.
pub proof fn law_other_input_refused(input: Seq<char>)
    requires
        !"10."@.is_prefix_of(trim(input)),
        !"doi:"@.is_prefix_of(trim(input)),
        !"http://"@.is_prefix_of(trim(input)),
        !"https://"@.is_prefix_of(trim(input)),
    ensures
        spec_resolve_step(input) == Resolution::Error("Unrecognized input: "@ + trim(input)),
{
    reveal_strlit("http://");
    reveal_strlit("https://");
    reveal_strlit("http://doi.org/");
    reveal_strlit("https://doi.org/");
    let t = trim(input);
    if "https://doi.org/"@.is_prefix_of(t) {
        assert(t.subrange(0, 8) =~= "https://"@);
    }
    if "http://doi.org/"@.is_prefix_of(t) {
        assert(t.subrange(0, 7) =~= "http://"@);
    }
}

/// A web address is never refused: a link that is no `doi.org` link resolves
/// to the first DOI written in it, or, when it holds none, to fetching the
/// page it names. Both `http://` and `https://` links are taken.
pub proof fn law_links_resolve(input: Seq<char>)
    requires
        "http://"@.is_prefix_of(trim(input)) || "https://"@.is_prefix_of(trim(input)),
        !"http://doi.org/"@.is_prefix_of(trim(input)),
        !"https://doi.org/"@.is_prefix_of(trim(input)),
    ensures
        spec_resolve_step(input) == match spec_extract_doi(trim(input)) {
            Some(d) => Resolution::Doi(d),
            None => Resolution::FetchPage(trim(input)),
        },
        !(spec_resolve_step(input) is Error),
{
    reveal_strlit("http://");
    reveal_strlit("https://");
    reveal_strlit("10.");
    reveal_strlit("doi:");
    let t = trim(input);
    assert(t[0] == 'h') by {
        if "http://"@.is_prefix_of(t) {
            assert(t.subrange(0, 7)[0] == t[0]);
        } else {
            assert(t.subrange(0, 8)[0] == t[0]);
        }
    }
    if "10."@.is_prefix_of(t) {
        assert(t.subrange(0, 3)[0] == t[0]);
    }
    if "doi:"@.is_prefix_of(t) {
        assert(t.subrange(0, 4)[0] == t[0]);
    }
}

/// A member is found under its key when no member before it has that key.
proof fn lemma_lookup_after(pre: Seq<(Seq<char>, JsonV)>, key: Seq<char>, v: JsonV, post: Seq<(Seq<char>, JsonV)>)
    requires
        forall|i: int| 0 <= i < pre.len() ==> (#[trigger] pre[i]).0 != key,
    ensures
        crate::json::lookup(pre + seq![(key, v)] + post, key) == Some(v),
    decreases pre.len(),
{
    let all = pre + seq![(key, v)] + post;
    if pre.len() == 0 {
        assert(all[0] == (key, v));
    } else {
        let p1 = pre.drop_first();
        assert forall|i: int| 0 <= i < p1.len() implies (#[trigger] p1[i]).0 != key by {
            assert(p1[i] == pre[i + 1]);
        }
        lemma_lookup_after(p1, key, v, post);
        assert(all[0] == pre[0]);
        assert(all.drop_first() =~= p1 + seq![(key, v)] + post);
    }
}

/// A member stands at its place when no member before it has its key.
proof fn lemma_member_at(r: Seq<(Seq<char>, JsonV)>, m: int)
    requires
        0 <= m < r.len(),
        forall|i: int| 0 <= i < m ==> (#[trigger] r[i]).0 != r[m].0,
    ensures
        crate::json::lookup(r, r[m].0) == Some(r[m].1),
{
    let pre = r.take(m);
    let post = r.skip(m + 1);
    assert forall|i: int| 0 <= i < pre.len() implies (#[trigger] pre[i]).0 != r[m].0 by {
        assert(pre[i] == r[i]);
    }
    lemma_lookup_after(pre, r[m].0, r[m].1, post);
    assert(pre + seq![(r[m].0, r[m].1)] + post =~= r);
}

/// Two texts differ when their lengths or first characters differ.
proof fn lemma_keys_differ(a: Seq<char>, b: Seq<char>)
    requires
        a.len() != b.len() || (a.len() > 0 && b.len() > 0 && a[0] != b[0]),
    ensures
        a != b,
{
}

/// The record made from a DataCite reply: its `DOI` is the DOI asked for;
/// its `title` is the `title` of the first entry of `attributes.titles`
/// (empty when that is no string), whatever the later entries say; its
/// `container-title` is `attributes.container.title` (or empty); `volume`,
/// `issue` and `page` are those of the attributes as given; it has as many
/// authors as the attributes have creators; and it has an `issued` date
/// exactly when `attributes.published` is a string.
pub proof fn law_datacite_record(doi: Seq<char>, data: JsonV)
    ensures
        spec_datacite(doi, data) matches Verdict::Accepted(r) ==> {
            let attrs = data.at("data"@).at("attributes"@);
            &&& r.at("title"@) == JsonV::Str(
                match attrs.at("titles"@) {
                    JsonV::Array(a) => if a.len() > 0 {
                        a[0].at("title"@).str_or_empty()
                    } else {
                        seq![]
                    },
                    _ => seq![],
                },
            )
            &&& r.at("DOI"@) == JsonV::Str(doi)
            &&& r.at("container-title"@) == JsonV::Str(attrs.at("container"@).at("title"@).str_or_empty())
            &&& r.at("volume"@) == attrs.at("volume"@)
            &&& r.at("issue"@) == attrs.at("issue"@)
            &&& r.at("page"@) == attrs.at("page"@)
            &&& r.at("author"@).as_array() matches Some(au) && au.len() == match attrs.at("creators"@) {
                JsonV::Array(cs) => cs.len(),
                _ => 0,
            }
            &&& (r.get("issued"@) is Some <==> attrs.at("published"@) is Str)
        },
{
    reveal_strlit("DOI");
    reveal_strlit("author");
    reveal_strlit("container-title");
    reveal_strlit("issue");
    reveal_strlit("issued");
    reveal_strlit("page");
    reveal_strlit("title");
    reveal_strlit("volume");
    let attrs = data.at("data"@).at("attributes"@);
    if spec_datacite(doi, data) is Accepted {
        let r = spec_datacite(doi, data)->Accepted_0;
        let authors = match attrs.at("creators"@).as_array() {
            Some(cs) => datacite_authors(cs),
            None => seq![],
        };
        lemma_datacite_authors_len(attrs.at("creators"@));
        let head = seq![
            ("DOI"@, JsonV::Str(doi)),
            ("author"@, JsonV::Array(authors)),
            ("container-title"@, JsonV::Str(attrs.at("container"@).at("title"@).str_or_empty())),
            ("issue"@, attrs.at("issue"@)),
        ];
        let tail = seq![
            ("page"@, attrs.at("page"@)),
            ("title"@, JsonV::Str(datacite_title(attrs))),
            ("volume"@, attrs.at("volume"@)),
        ];
        let mid = match attrs.at("published"@).as_str() {
            Some(p) => seq![("issued"@, JsonV::Object(seq![
                ("date-parts"@, JsonV::Array(seq![JsonV::Array(seq![JsonV::Str(published_year(p))])])),
            ]))],
            None => seq![],
        };
        let m = head + mid + tail;
        assert(r == JsonV::Object(m));
        let h = mid.len() as int;
        assert(m[0] == head[0] && m[1] == head[1] && m[2] == head[2] && m[3] == head[3]);
        assert(m[4 + h] == tail[0] && m[5 + h] == tail[1] && m[6 + h] == tail[2]);
        assert(m.len() == 7 + h);
        assert(forall|i: int| 4 <= i < 4 + h ==> #[trigger] m[i] == mid[i - 4]);
        lemma_member_at(m, 0);
        assert forall|i: int| 0 <= i < 1 implies (#[trigger] m[i]).0 != "author"@ by {
            let a = m[i].0;
            assert(a == "DOI"@);
            lemma_keys_differ(a, "author"@);
        }
        lemma_member_at(m, 1);
        assert forall|i: int| 0 <= i < 2 implies (#[trigger] m[i]).0 != "container-title"@ by {
            let a = m[i].0;
            assert(a == "DOI"@ || a == "author"@);
            lemma_keys_differ(a, "container-title"@);
        }
        lemma_member_at(m, 2);
        assert forall|i: int| 0 <= i < 3 implies (#[trigger] m[i]).0 != "issue"@ by {
            let a = m[i].0;
            assert(a == "DOI"@ || a == "author"@ || a == "container-title"@);
            lemma_keys_differ(a, "issue"@);
        }
        lemma_member_at(m, 3);
        assert forall|i: int| 0 <= i < 4 + h implies (#[trigger] m[i]).0 != "page"@ by {
            let a = m[i].0;
            assert(a == "DOI"@ || a == "author"@ || a == "container-title"@ || a == "issue"@ || a == "issued"@);
            lemma_keys_differ(a, "page"@);
        }
        lemma_member_at(m, 4 + h);
        assert forall|i: int| 0 <= i < 5 + h implies (#[trigger] m[i]).0 != "title"@ by {
            let a = m[i].0;
            assert(a == "DOI"@ || a == "author"@ || a == "container-title"@ || a == "issue"@ || a == "issued"@ || a == "page"@);
            lemma_keys_differ(a, "title"@);
        }
        lemma_member_at(m, 5 + h);
        assert forall|i: int| 0 <= i < 6 + h implies (#[trigger] m[i]).0 != "volume"@ by {
            let a = m[i].0;
            assert(a == "DOI"@ || a == "author"@ || a == "container-title"@ || a == "issue"@ || a == "issued"@ || a == "page"@ || a == "title"@);
            lemma_keys_differ(a, "volume"@);
        }
        lemma_member_at(m, 6 + h);
        if h == 1 {
            assert forall|i: int| 0 <= i < 4 implies (#[trigger] m[i]).0 != "issued"@ by {
                let a = m[i].0;
                assert(a == "DOI"@ || a == "author"@ || a == "container-title"@ || a == "issue"@);
                lemma_keys_differ(a, "issued"@);
            }
            lemma_member_at(m, 4);
        } else {
            assert forall|i: int| 0 <= i < m.len() implies (#[trigger] m[i]).0 != "issued"@ by {
                let a = m[i].0;
                assert(a == "DOI"@ || a == "author"@ || a == "container-title"@ || a == "issue"@ || a == "page"@
                    || a == "title"@ || a == "volume"@);
                lemma_keys_differ(a, "issued"@);
            }
            lemma_lookup_absent(m, "issued"@);
        }
    }
}

/// No member is found under a key that no member has.
proof fn lemma_lookup_absent(r: Seq<(Seq<char>, JsonV)>, key: Seq<char>)
    requires
        forall|i: int| 0 <= i < r.len() ==> (#[trigger] r[i]).0 != key,
    ensures
        crate::json::lookup(r, key) is None,
    decreases r.len(),
{
    if r.len() > 0 {
        let t = r.drop_first();
        assert forall|i: int| 0 <= i < t.len() implies (#[trigger] t[i]).0 != key by {
            assert(t[i] == r[i + 1]);
        }
        assert(r[0].0 != key);
        lemma_lookup_absent(t, key);
    }
}

/// One author record per DataCite creator.
proof fn lemma_datacite_authors_len(creators: JsonV)
    ensures
        match creators {
            JsonV::Array(cs) => datacite_authors(cs).len() == cs.len(),
            _ => true,
        },
{
    if let JsonV::Array(cs) = creators {
        lemma_datacite_authors_count(cs);
    }
}

proof fn lemma_datacite_authors_count(cs: Seq<JsonV>)
    ensures
        datacite_authors(cs).len() == cs.len(),
    decreases cs.len(),
{
    if cs.len() > 0 {
        lemma_datacite_authors_count(cs.drop_last());
    }
}

} // verus!
