use apaciter::formatting::{
    build_entry, clean_doi, doi_key, escape_latex, extract_year, format_authors_latex,
    format_authors_plain, generate_bibtex, generate_latex, generate_markdown, generate_plain,
    generate_richtext, generate_ris, get_string, get_year, html_escape, initials_from,
    is_renderable, join_authors_apa, rerender, u64_to_decimal, with_stop_str, wrap_output,
};
use apaciter::json::{Json, JsonNumber};
use apaciter::types::OutputFormat;

fn s(x: &str) -> Json {
    Json::Str(x.to_string())
}

fn n(x: u64) -> Json {
    Json::Number(JsonNumber::PosInt(x))
}

fn obj(members: Vec<(&str, Json)>) -> Json {
    Json::Object(members.into_iter().map(|(k, v)| (k.to_string(), v)).collect())
}

fn sample() -> Json {
    obj(vec![
        (
            "author",
            Json::Array(vec![
                obj(vec![("family", s("Doe")), ("given", s("Jane Q"))]),
                obj(vec![("family", s("Smith")), ("given", s("Al"))]),
            ]),
        ),
        ("issued", obj(vec![("date-parts", Json::Array(vec![Json::Array(vec![n(2020)])]))])),
        ("title", s("A study of things.")),
        ("container-title", s("Journal of Stuff")),
        ("volume", s("12")),
        ("issue", n(3)),
        ("page", s("100-110")),
    ])
}

const DOI: &str = "https://doi.org/10.1000/xyz_1";

#[test]
fn latex_escaping() {
    assert_eq!(escape_latex("a&b_c"), "a\\&b\\_c");
    assert_eq!(escape_latex("50% of $5 #1"), "50\\% of \\$5 \\#1");
    assert_eq!(escape_latex("{x}"), "\\{x\\}");
    assert_eq!(escape_latex("\\"), "\\textbackslash\\{\\}");
    assert_eq!(escape_latex("~^"), "\\textasciitilde{}\\textasciicircum{}");
    assert_eq!(escape_latex("plain"), "plain");
}

#[test]
fn html_escaping() {
    assert_eq!(html_escape("<a href=\"x\">&</a>"), "&lt;a href=&quot;x&quot;&gt;&amp;&lt;/a&gt;");
    assert_eq!(html_escape("&lt;"), "&amp;lt;");
    let escaped = html_escape("<<\">>");
    assert!(!escaped.contains('<') && !escaped.contains('>') && !escaped.contains('"'));
}

#[test]
fn citation_keys() {
    assert_eq!(doi_key("10.1007/s12220-025-02063-8"), "10_1007_s12220_025_02063_8");
    assert_eq!(doi_key("10.1/Ünï"), "10_1_Ünï");
    assert_eq!(doi_key(""), "");
}

#[test]
fn clean_doi_forms() {
    assert_eq!(clean_doi("https://doi.org/10.1/x"), "10.1/x");
    assert_eq!(clean_doi("http://doi.org/10.1/x "), "10.1/x");
    assert_eq!(clean_doi("doi:doi:10.1/x"), "10.1/x");
    assert_eq!(clean_doi("doi:https://doi.org/10.1/x"), "https://doi.org/10.1/x");
}

#[test]
fn decimal_numbers() {
    assert_eq!(u64_to_decimal(0), "0");
    assert_eq!(u64_to_decimal(2020), "2020");
    assert_eq!(u64_to_decimal(u64::MAX), "18446744073709551615");
}

#[test]
fn initials() {
    assert_eq!(initials_from("John Ronald reuel"), "J. R. R.");
    assert_eq!(initials_from("  jean-luc  "), "J.");
    assert_eq!(initials_from(""), "");
    assert_eq!(initials_from("123 abc"), "A.");
    assert_eq!(initials_from("\u{e9}lodie"), "\u{e9}.");
}

#[test]
fn apa_author_lists() {
    let v = |xs: &[&str]| xs.iter().map(|x| x.to_string()).collect::<Vec<String>>();
    assert_eq!(join_authors_apa(&v(&[]), "& "), "");
    assert_eq!(join_authors_apa(&v(&["A"]), "& "), "A");
    assert_eq!(join_authors_apa(&v(&["A", "B"]), "& "), "A, & B");
    assert_eq!(join_authors_apa(&v(&["A", "B", "C"]), "& "), "A, B, & C");
    assert_eq!(join_authors_apa(&v(&["A", "B"]), "\\& "), "A, \\& B");
}

#[test]
fn authors_of_a_record() {
    let authors = Json::Array(vec![
        obj(vec![("family", s("Doe")), ("given", s("Jane"))]),
        obj(vec![("given", s("Nobody"))]),
        obj(vec![("family", s("O_Neil"))]),
    ]);
    assert_eq!(format_authors_plain(&authors), "Doe, J., & O_Neil");
    assert_eq!(format_authors_latex(&authors), "Doe, J., \\& O\\_Neil");
    assert_eq!(format_authors_plain(&Json::Array(vec![])), "");
    assert_eq!(format_authors_plain(&s("x")), "");
}

#[test]
fn years() {
    let dp = |y: Json| obj(vec![("date-parts", Json::Array(vec![Json::Array(vec![y])]))]);
    assert_eq!(extract_year(&dp(n(2020))), "2020");
    assert_eq!(extract_year(&dp(s("2019-05"))), "2019");
    assert_eq!(extract_year(&dp(s("99"))), "99");
    assert_eq!(extract_year(&obj(vec![("raw", s("1999 spring"))])), "1999");
    assert_eq!(extract_year(&obj(vec![("raw", s("99")), ("date-time", s("2001-01-01T00"))])), "2001");
    assert_eq!(extract_year(&obj(vec![("raw", s("99"))])), "");
    assert_eq!(extract_year(&Json::Null), "");
    assert_eq!(get_year(&obj(vec![("created", dp(n(2018)))])), "2018");
    assert_eq!(get_year(&obj(vec![("issued", Json::Null), ("published", dp(n(2017)))])), "2017");
    assert_eq!(get_year(&obj(vec![])), "");
}

#[test]
fn year_inside_a_character_is_not_renderable() {
    let bad = obj(vec![("issued", obj(vec![("raw", s("20\u{20ac}1"))]))]);
    assert!(!is_renderable(&bad));
    assert!(is_renderable(&sample()));
    assert!(is_renderable(&obj(vec![("issued", obj(vec![("raw", s("2020\u{20ac}"))]))])));
}

#[test]
fn strings_of_fields() {
    assert_eq!(get_string(&Json::Array(vec![s("A"), s("B")])), "A");
    assert_eq!(get_string(&s("x")), "x");
    assert_eq!(get_string(&n(5)), "");
    assert_eq!(get_string(&Json::Array(vec![])), "");
}

#[test]
fn plain_reference() {
    assert_eq!(
        generate_plain(&sample(), DOI),
        "Doe, J. Q., & Smith, A. (2020). A study of things. Journal of Stuff, 12(3). 100-110. https://doi.org/10.1000/xyz_1"
    );
    assert_eq!(generate_plain(&obj(vec![]), "10.1/x"), "https://doi.org/10.1/x");
}

#[test]
fn latex_reference() {
    let expected = "Doe, J. Q., \\& Smith, A. (2020). \\textit{A study of things}. \\textit{Journal of Stuff}, \\textit{12}(3). 100--110. \\url{https://doi.org/10.1000/xyz\\_1}";
    assert_eq!(generate_latex(&sample(), DOI), expected);
    assert_eq!(
        build_entry(&sample(), DOI, OutputFormat::Latex),
        format!("\\bibitem{{https___doi_org_10_1000_xyz_1}}\n{}", expected)
    );
}

#[test]
fn bibtex_entry() {
    let expected = [
        "@article{10_1000_xyz_1,",
        "  author  = {Doe, Jane Q and Smith, Al},",
        "  title   = {{A study of things.}},",
        "  journal = {Journal of Stuff},",
        "  year    = {2020},",
        "  volume  = {12},",
        "  number  = {3},",
        "  pages   = {100--110},",
        "  doi     = {10.1000/xyz_1},",
        "  url     = {https://doi.org/10.1000/xyz_1},",
        "}",
    ]
    .join("\n");
    assert_eq!(generate_bibtex(&sample(), DOI), expected);
    assert_eq!(build_entry(&sample(), DOI, OutputFormat::BibTeX), expected);
}

#[test]
fn markdown_reference() {
    assert_eq!(
        generate_markdown(&sample(), DOI),
        "Doe, J. Q., & Smith, A. (2020). *A study of things*. *Journal of Stuff*, *12*(3). 100-110. [https://doi.org/10.1000/xyz_1](https://doi.org/10.1000/xyz_1)"
    );
}

#[test]
fn ris_record() {
    let expected = [
        "TY  - JOUR",
        "AU  - Doe, Jane Q",
        "AU  - Smith, Al",
        "TI  - A study of things.",
        "JO  - Journal of Stuff",
        "PY  - 2020",
        "VL  - 12",
        "IS  - 3",
        "SP  - 100",
        "EP  - 110",
        "DO  - 10.1000/xyz_1",
        "UR  - https://doi.org/10.1000/xyz_1",
        "ER  -",
    ]
    .join("\n");
    assert_eq!(generate_ris(&sample(), DOI), expected);
    let single_page = obj(vec![("page", s(" e123 "))]);
    assert_eq!(
        generate_ris(&single_page, "10.1/x"),
        "TY  - JOUR\nSP  - e123\nDO  - 10.1/x\nUR  - https://doi.org/10.1/x\nER  -"
    );
}

#[test]
fn html_reference() {
    assert_eq!(
        generate_richtext(&sample(), DOI),
        "Doe, J. Q., &amp; Smith, A. (2020). <em>A study of things.</em> <em>Journal of Stuff</em>, <em>12</em>(3). 100-110. <a href=\"https://doi.org/10.1000/xyz_1\">https://doi.org/10.1000/xyz_1</a>"
    );
    let no_volume = obj(vec![("container-title", s("J & K"))]);
    assert_eq!(
        generate_richtext(&no_volume, "10.1/x"),
        "<em>J &amp; K.</em> <a href=\"https://doi.org/10.1/x\">https://doi.org/10.1/x</a>"
    );
}

#[test]
fn whole_outputs() {
    let e = vec!["A".to_string(), "B".to_string()];
    assert_eq!(wrap_output(&e, OutputFormat::Latex), "\\begin{thebibliography}{99}\n\nA\nB\n\\end{thebibliography}\n");
    assert_eq!(wrap_output(&e, OutputFormat::BibTeX), "A\n\nB\n");
    assert_eq!(wrap_output(&e, OutputFormat::PlainText), "A\n\nB");
    assert_eq!(wrap_output(&e, OutputFormat::Markdown), "- A\n- B");
    assert_eq!(wrap_output(&e, OutputFormat::Ris), "A\n\nB");
    assert_eq!(
        wrap_output(&e, OutputFormat::RichText),
        "<!DOCTYPE html><html><body style=\"font-family: Times New Roman, serif; font-size: 12pt;\"><ol>\n  <li>A</li>\n  <li>B</li>\n</ol></body></html>"
    );
}

#[test]
fn rerender_results() {
    assert_eq!(rerender(&[], OutputFormat::Latex), "");
    let results = vec![
        ("10.1/a".to_string(), obj(vec![("title", s("First"))])),
        ("10.1/b".to_string(), obj(vec![("title", s("Second"))])),
    ];
    assert_eq!(
        rerender(&results, OutputFormat::Markdown),
        "- *First*. [https://doi.org/10.1/a](https://doi.org/10.1/a)\n- *Second*. [https://doi.org/10.1/b](https://doi.org/10.1/b)"
    );
}

#[test]
fn apa_two_authors() {
    let meta = obj(vec![
        (
            "author",
            Json::Array(vec![
                obj(vec![("family", s("Smith")), ("given", s("John"))]),
                obj(vec![("family", s("Doe")), ("given", s("Jane"))]),
            ]),
        ),
        ("issued", obj(vec![("date-parts", Json::Array(vec![Json::Array(vec![n(2020)])]))])),
        ("title", s("Title")),
    ]);
    assert_eq!(generate_plain(&meta, "10.1/x"), "Smith, J., & Doe, J. (2020). Title. https://doi.org/10.1/x");
    assert_eq!(
        generate_latex(&meta, "10.1/x"),
        "Smith, J., \\& Doe, J. (2020). \\textit{Title}. \\url{https://doi.org/10.1/x}"
    );
    let no_initials = obj(vec![(
        "author",
        Json::Array(vec![obj(vec![("family", s("Smith"))]), obj(vec![("family", s("Doe"))])]),
    )]);
    assert_eq!(generate_plain(&no_initials, "10.1/x"), "Smith, & Doe. https://doi.org/10.1/x");
}

#[test]
fn full_stops() {
    assert_eq!(with_stop_str("Doe, J."), "Doe, J.");
    assert_eq!(with_stop_str("Doe"), "Doe.");
    assert_eq!(with_stop_str(""), ".");
}
