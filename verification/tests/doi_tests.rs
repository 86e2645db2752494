use apaciter::doi::{
    all_failed_message, extract_doi_from_string, extract_meta_doi, is_success_status,
    judge_reply, metadata_url, meta_scan_is_safe, normalize_datacite, normalize_doi,
    resolve_from_page, resolve_step, scan_meta_doi, sources, accept_header, sends_user_agent,
    user_agent, Judgement, MetaDoi, MetadataSearch, PageFetch, Reply, ResolveStep, SearchStep,
    Source,
};
use apaciter::json::{Json, JsonNumber};

fn s(x: &str) -> Json {
    Json::Str(x.to_string())
}

fn obj(members: Vec<(&str, Json)>) -> Json {
    Json::Object(members.into_iter().map(|(k, v)| (k.to_string(), v)).collect())
}

#[test]
fn finds_doi_in_link() {
    assert_eq!(
        extract_doi_from_string("https://link.springer.com/article/10.1007/s11051-025-06365-4"),
        Some("10.1007/s11051-025-06365-4".to_string())
    );
}

#[test]
fn doi_in_text_drops_trailing_punctuation() {
    assert_eq!(extract_doi_from_string("see doi 10.1000/xyz123."), Some("10.1000/xyz123".to_string()));
    assert_eq!(extract_doi_from_string("(10.1000/abc;)"), Some("10.1000/abc".to_string()));
}

#[test]
fn doi_in_text_stops_at_quotes() {
    assert_eq!(
        extract_doi_from_string("<a href=\"https://doi.org/10.5555/abc\">x</a>"),
        Some("10.5555/abc".to_string())
    );
}

#[test]
fn doi_in_text_needs_four_digits_and_slash() {
    assert_eq!(extract_doi_from_string("10.123/abc"), None);
    assert_eq!(extract_doi_from_string("10.1234"), None);
    assert_eq!(extract_doi_from_string("10.1234/"), None);
    assert_eq!(extract_doi_from_string("10.1234/..."), None);
    assert_eq!(extract_doi_from_string("10."), None);
    assert_eq!(extract_doi_from_string(""), None);
}

#[test]
fn doi_in_text_takes_first_valid() {
    assert_eq!(extract_doi_from_string("10.12/x 10.1234/yy 10.5678/zz"), Some("10.1234/yy".to_string()));
    assert_eq!(extract_doi_from_string("x10.1234/a"), Some("10.1234/a".to_string()));
    assert_eq!(extract_doi_from_string("é 10.1234/ü"), Some("10.1234/ü".to_string()));
}

#[test]
fn normalize_strips_prefixes() {
    assert_eq!(normalize_doi("  https://doi.org/10.1/x "), "10.1/x");
    assert_eq!(normalize_doi("doi:10.1/x"), "10.1/x");
    assert_eq!(normalize_doi("http://doi.org/doi:10.1/x"), "10.1/x");
    assert_eq!(normalize_doi("10.1/x"), "10.1/x");
}

#[test]
fn resolve_accepted_forms() {
    for input in ["10.1/x", " doi:10.1/x ", "https://doi.org/10.1/x", "http://doi.org/10.1/x"] {
        match resolve_step(input) {
            ResolveStep::Resolved(d) => assert_eq!(d, "10.1/x"),
            _ => panic!("not resolved: {}", input),
        }
    }
}

#[test]
fn resolve_link_with_doi_inside() {
    match resolve_step("https://example.com/article/10.1234/abc") {
        ResolveStep::Resolved(d) => assert_eq!(d, "10.1234/abc"),
        _ => panic!("expected a DOI"),
    }
}

#[test]
fn resolve_link_needs_fetch() {
    match resolve_step(" https://example.com/page ") {
        ResolveStep::FetchPage(u) => assert_eq!(u, "https://example.com/page"),
        _ => panic!("expected a fetch"),
    }
}

#[test]
fn resolve_refuses_other_text() {
    match resolve_step("hello") {
        ResolveStep::Failed(e) => assert_eq!(e, "Unrecognized input: hello"),
        _ => panic!("expected a failure"),
    }
}

#[test]
fn page_fetch_errors() {
    assert_eq!(
        resolve_from_page("u", PageFetch::SendFailed("timeout".to_string())),
        Some(Err("Fetch failed: timeout".to_string()))
    );
    assert_eq!(
        resolve_from_page("u", PageFetch::ReadFailed("eof".to_string())),
        Some(Err("Read failed: eof".to_string()))
    );
}

#[test]
fn page_meta_doi() {
    let html = "<html><head><meta name=\"citation_doi\" content=\"10.1000/meta1\"></head></html>";
    assert_eq!(
        resolve_from_page("u", PageFetch::Page(html.to_string())),
        Some(Ok("10.1000/meta1".to_string()))
    );
}

#[test]
fn page_meta_doi_any_case_single_quotes() {
    let html = "<META NAME='DC.Identifier' CONTENT='doi: 10.2000/abc'>";
    assert_eq!(extract_meta_doi(html, "dc.identifier"), Some("10.2000/abc".to_string()));
    assert_eq!(extract_meta_doi(html, "citation_doi"), None);
    assert_eq!(
        resolve_from_page("u", PageFetch::Page(html.to_string())),
        Some(Ok("10.2000/abc".to_string()))
    );
}

#[test]
fn page_meta_not_a_doi_falls_back_to_text() {
    let html = "<meta name=\"citation_doi\" content=\"none\"> see 10.3000/body";
    assert_eq!(extract_meta_doi(html, "citation_doi"), None);
    assert_eq!(
        resolve_from_page("u", PageFetch::Page(html.to_string())),
        Some(Ok("10.3000/body".to_string()))
    );
}

#[test]
fn page_without_doi() {
    assert_eq!(
        resolve_from_page("https://x.org/p", PageFetch::Page("<p>nothing</p>".to_string())),
        Some(Err("No DOI found in page: https://x.org/p".to_string()))
    );
}

#[test]
fn meta_scan_that_would_cut_a_character() {
    // The ohm sign lower-cases to a shorter omega, so the position found in
    // the lower-cased page falls inside the `é` of the page.
    let html = "\u{2126}<meta\u{e9}name=\"citation_doi\" content=\"10.1/x\">";
    assert!(matches!(scan_meta_doi(html, "citation_doi"), MetaDoi::Aborts));
    assert!(!meta_scan_is_safe(html, "citation_doi"));
    assert_eq!(resolve_from_page("u", PageFetch::Page(html.to_string())), None);
    assert!(meta_scan_is_safe("<meta name=\"x\">", "citation_doi"));
}

#[test]
fn services_and_requests() {
    assert_eq!(sources(), &[Source::DoiOrg, Source::CrossRef, Source::DataCite]);
    assert_eq!(metadata_url(Source::DoiOrg, "10.1/x"), "https://doi.org/10.1/x");
    assert_eq!(metadata_url(Source::CrossRef, "10.1/x"), "https://api.crossref.org/works/10.1/x");
    assert_eq!(metadata_url(Source::DataCite, "10.1/x"), "https://api.datacite.org/dois/10.1/x");
    assert_eq!(accept_header(Source::DoiOrg), "application/vnd.citationstyles.csl+json");
    assert_eq!(accept_header(Source::CrossRef), "application/json");
    assert!(sends_user_agent(Source::DoiOrg));
    assert!(!sends_user_agent(Source::DataCite));
    assert_eq!(user_agent(), "DOI-APA-Generator/2.0");
    assert!(is_success_status(200));
    assert!(is_success_status(299));
    assert!(!is_success_status(199));
    assert!(!is_success_status(300));
    assert!(!is_success_status(404));
}

#[test]
fn doi_org_replies() {
    let rec = obj(vec![("DOI", s("10.1/x")), ("title", s("T"))]);
    assert!(matches!(judge_reply(Source::DoiOrg, "10.1/x", Reply::Body(rec.clone())), Judgement::Accepted(j) if j == rec));
    let bad = obj(vec![("title", s("T"))]);
    assert!(matches!(judge_reply(Source::DoiOrg, "10.1/x", Reply::Body(bad)), Judgement::Rejected(e) if e == "doi.org: Invalid CSL-JSON"));
    assert!(matches!(judge_reply(Source::DoiOrg, "d", Reply::Status("404 Not Found".to_string())), Judgement::Rejected(e) if e == "doi.org: HTTP 404 Not Found"));
    assert!(matches!(judge_reply(Source::DoiOrg, "d", Reply::Unreachable("dns error".to_string())), Judgement::Rejected(e) if e == "doi.org: dns error"));
    assert!(matches!(judge_reply(Source::DoiOrg, "d", Reply::Unparsable("eof".to_string())), Judgement::Rejected(e) if e == "doi.org: parse error: eof"));
}

#[test]
fn crossref_replies() {
    let msg = obj(vec![("title", Json::Array(vec![s("T")]))]);
    let reply = obj(vec![("status", s("ok")), ("message", msg.clone())]);
    assert!(matches!(judge_reply(Source::CrossRef, "d", Reply::Body(reply)), Judgement::Accepted(j) if j == msg));
    let missing = obj(vec![("status", s("ok"))]);
    assert!(matches!(judge_reply(Source::CrossRef, "d", Reply::Body(missing)), Judgement::Rejected(e) if e == "CrossRef: Invalid response"));
    let null = obj(vec![("message", Json::Null)]);
    assert!(matches!(judge_reply(Source::CrossRef, "d", Reply::Body(null)), Judgement::Rejected(e) if e == "CrossRef: Invalid response"));
    assert!(matches!(judge_reply(Source::CrossRef, "d", Reply::Status("500 Internal Server Error".to_string())), Judgement::Rejected(e) if e == "CrossRef: HTTP 500 Internal Server Error"));
}

#[test]
fn datacite_record_becomes_csl() {
    let attrs = obj(vec![
        ("titles", Json::Array(vec![obj(vec![("title", s("A Title"))])])),
        ("container", obj(vec![("title", s("J"))])),
        (
            "creators",
            Json::Array(vec![
                obj(vec![("familyName", s("Doe")), ("givenName", s("Jane"))]),
                obj(vec![("name", s("ACME"))]),
            ]),
        ),
        ("volume", s("3")),
        ("page", Json::Number(JsonNumber::PosInt(7))),
        ("published", s("2021-05-01")),
    ]);
    let data = obj(vec![("data", obj(vec![("attributes", attrs)]))]);
    let expected = obj(vec![
        ("DOI", s("10.9/dc")),
        (
            "author",
            Json::Array(vec![
                obj(vec![("family", s("Doe")), ("given", s("Jane"))]),
                obj(vec![("family", s("ACME")), ("given", s(""))]),
            ]),
        ),
        ("container-title", s("J")),
        ("issue", Json::Null),
        ("issued", obj(vec![("date-parts", Json::Array(vec![Json::Array(vec![s("2021")])]))])),
        ("page", Json::Number(JsonNumber::PosInt(7))),
        ("title", s("A Title")),
        ("volume", s("3")),
    ]);
    assert!(matches!(normalize_datacite("10.9/dc", &data), Judgement::Accepted(j) if j == expected));
    assert!(matches!(judge_reply(Source::DataCite, "10.9/dc", Reply::Body(data)), Judgement::Accepted(j) if j == expected));
}

#[test]
fn datacite_short_published_and_invalid() {
    let attrs = obj(vec![("published", s("99"))]);
    let data = obj(vec![("data", obj(vec![("attributes", attrs)]))]);
    match normalize_datacite("d", &data) {
        Judgement::Accepted(j) => {
            assert_eq!(j.get("issued").and_then(|i| i.get("date-parts")), Some(&Json::Array(vec![Json::Array(vec![s("99")])])));
            assert_eq!(j.get("title"), Some(&s("")));
            assert_eq!(j.get("author"), Some(&Json::Array(vec![])));
        },
        _ => panic!("expected a record"),
    }
    let bad = obj(vec![("data", obj(vec![("attributes", Json::Array(vec![]))]))]);
    assert!(matches!(normalize_datacite("d", &bad), Judgement::Rejected(e) if e == "DataCite: Invalid response"));
    assert!(matches!(normalize_datacite("d", &Json::Null), Judgement::Rejected(e) if e == "DataCite: Invalid response"));
}

#[test]
fn datacite_year_inside_a_character() {
    let attrs = obj(vec![("published", s("20\u{20ac}1"))]);
    let data = obj(vec![("data", obj(vec![("attributes", attrs)]))]);
    assert!(matches!(normalize_datacite("d", &data), Judgement::Aborts));
}

#[test]
fn all_services_failed() {
    let errors = vec!["doi.org: HTTP 404 Not Found".to_string(), "CrossRef: x".to_string()];
    assert_eq!(all_failed_message(&errors), "All APIs failed:\n  doi.org: HTTP 404 Not Found\n  CrossRef: x");
    assert_eq!(all_failed_message(&[]), "All APIs failed:\n  ");
}

#[test]
fn search_asks_services_in_turn() {
    let mut search = MetadataSearch::start("  doi:10.1/x ");
    assert_eq!(search.doi, "10.1/x");
    assert_eq!(search.source(), Source::DoiOrg);
    let step = search.answer(Reply::Status("404 Not Found".to_string()));
    assert!(matches!(step, SearchStep::Ask(Source::CrossRef)));
    let record = obj(vec![("title", s("T"))]);
    let step = search.answer(Reply::Body(obj(vec![("message", record.clone())])));
    match step {
        SearchStep::Found(m) => assert_eq!(m, record),
        _ => panic!("CrossRef's record was not taken"),
    }
    assert_eq!(search.errors, vec!["doi.org: HTTP 404 Not Found".to_string()]);
}

#[test]
fn search_fails_when_every_service_fails() {
    let mut search = MetadataSearch::start("10.1/x");
    assert!(matches!(search.answer(Reply::Unreachable("timeout".to_string())), SearchStep::Ask(Source::CrossRef)));
    assert!(matches!(search.answer(Reply::Body(obj(vec![("message", Json::Null)]))), SearchStep::Ask(Source::DataCite)));
    match search.answer(Reply::Unparsable("eof".to_string())) {
        SearchStep::AllFailed(msg) => assert_eq!(
            msg,
            "All APIs failed:\n  doi.org: timeout\n  CrossRef: Invalid response\n  DataCite: parse error: eof"
        ),
        _ => panic!("the search should have failed"),
    }
}

#[test]
fn search_stops_where_the_datacite_year_cannot_be_cut() {
    let mut search = MetadataSearch::start("10.1/x");
    search.answer(Reply::Status("500".to_string()));
    search.answer(Reply::Status("500".to_string()));
    let attrs = obj(vec![("published", s("20\u{20ac}1"))]);
    let data = obj(vec![("data", obj(vec![("attributes", attrs)]))]);
    assert!(matches!(search.answer(Reply::Body(data)), SearchStep::Aborts));
}
