use apaciter::types::OutputFormat;

#[test]
fn labels_and_extensions() {
    assert_eq!(OutputFormat::Latex.label(), "LaTeX (.tex) - Overleaf / TeXStudio");
    assert_eq!(OutputFormat::BibTeX.label(), "BibTeX (.bib) - Overleaf / TeXStudio");
    assert_eq!(OutputFormat::PlainText.label(), "Plain Text (.txt) - Notepad / Notepad++");
    assert_eq!(OutputFormat::Markdown.label(), "Markdown (.md) - README / Obsidian");
    assert_eq!(OutputFormat::Ris.label(), "RIS (.ris) - Zotero / EndNote");
    assert_eq!(OutputFormat::RichText.label(), "Rich Text (.rtf) - Word / Google Docs");
    assert_eq!(OutputFormat::Latex.extension(), "references.tex");
    assert_eq!(OutputFormat::RichText.extension(), "references.html");
    assert_eq!(OutputFormat::Ris.extension(), "references.ris");
}

#[test]
fn all_formats_in_order() {
    let all = OutputFormat::all();
    assert_eq!(all.len(), 6);
    assert_eq!(all[0], OutputFormat::Latex);
    assert_eq!(all[5], OutputFormat::RichText);
}

#[test]
fn from_index_clamps_to_last() {
    assert_eq!(OutputFormat::from_index(0), OutputFormat::Latex);
    assert_eq!(OutputFormat::from_index(2), OutputFormat::PlainText);
    assert_eq!(OutputFormat::from_index(5), OutputFormat::RichText);
    assert_eq!(OutputFormat::from_index(99), OutputFormat::RichText);
}

#[test]
fn index_round_trip() {
    for f in OutputFormat::all() {
        assert_eq!(OutputFormat::from_index(f.to_index()), *f);
    }
    assert_eq!(OutputFormat::Ris.to_index(), 4);
    assert_eq!(OutputFormat::from_index(7).to_index(), 5);
}
