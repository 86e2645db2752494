use vstd::prelude::*;

verus! {

/// The output formats a batch of citations can be rendered in.
#[derive(Clone, Copy, PartialEq, Eq, Structural, Debug)]
pub enum OutputFormat {
    Latex,
    BibTeX,
    PlainText,
    Markdown,
    Ris,
    RichText,
}

/// The formats in the order in which they are offered.
pub open spec fn spec_all_formats() -> Seq<OutputFormat> {
    seq![
        OutputFormat::Latex,
        OutputFormat::BibTeX,
        OutputFormat::PlainText,
        OutputFormat::Markdown,
        OutputFormat::Ris,
        OutputFormat::RichText,
    ]
}

/// The position of a format in `spec_all_formats`.
pub open spec fn spec_format_index(f: OutputFormat) -> usize {
    match f {
        OutputFormat::Latex => 0,
        OutputFormat::BibTeX => 1,
        OutputFormat::PlainText => 2,
        OutputFormat::Markdown => 3,
        OutputFormat::Ris => 4,
        OutputFormat::RichText => 5,
    }
}

impl OutputFormat {
    pub fn all() -> (r: &'static [OutputFormat])
        ensures
            r@ == spec_all_formats(),
    {
        let r: &'static [OutputFormat] = &[
            OutputFormat::Latex,
            OutputFormat::BibTeX,
            OutputFormat::PlainText,
            OutputFormat::Markdown,
            OutputFormat::Ris,
            OutputFormat::RichText,
        ];
        assert(r@ =~= spec_all_formats());
        r
    }

    /// The human-readable name of the format, as shown in the format picker.
    pub fn label(self) -> (r: &'static str)
        ensures
            r@ == spec_format_label(self),
    {
        match self {
            OutputFormat::Latex => "LaTeX (.tex) - Overleaf / TeXStudio",
            OutputFormat::BibTeX => "BibTeX (.bib) - Overleaf / TeXStudio",
            OutputFormat::PlainText => "Plain Text (.txt) - Notepad / Notepad++",
            OutputFormat::Markdown => "Markdown (.md) - README / Obsidian",
            OutputFormat::Ris => "RIS (.ris) - Zotero / EndNote",
            OutputFormat::RichText => "Rich Text (.rtf) - Word / Google Docs",
        }
    }

    /// The file name suggested for output in this format.
    pub fn extension(self) -> (r: &'static str)
        ensures
            r@ == spec_format_extension(self),
    {
        match self {
            OutputFormat::Latex => "references.tex",
            OutputFormat::BibTeX => "references.bib",
            OutputFormat::PlainText => "references.txt",
            OutputFormat::Markdown => "references.md",
            OutputFormat::Ris => "references.ris",
            OutputFormat::RichText => "references.html",
        }
    }

    /// The format at position `i` of `all()`; an index past the end picks the last one.
    pub fn from_index(i: usize) -> (r: OutputFormat)
        ensures
            r == spec_all_formats()[if i < 5 { i as int } else { 5 }],
    {
        let formats = Self::all();
        let last = formats.len() - 1;
        let k = if i < last { i } else { last };
        formats[k]
    }

    /// The position of this format in `all()`.
    pub fn to_index(self) -> (r: usize)
        ensures
            r == spec_format_index(self),
            spec_all_formats()[r as int] == self,
    {
        let formats = Self::all();
        let mut k: usize = 0;
        while k < formats.len()
            invariant
                formats@ == spec_all_formats(),
                k <= formats@.len(),
                forall|j: int| 0 <= j < k ==> formats@[j] != self,
            decreases formats@.len() - k,
        {
            if formats[k] == self {
                return k;
            }
            k = k + 1;
        }
        assert(formats@[spec_format_index(self) as int] == self);
        0
    }
}

/// The label of each format.
pub open spec fn spec_format_label(f: OutputFormat) -> Seq<char> {
    match f {
        OutputFormat::Latex => "LaTeX (.tex) - Overleaf / TeXStudio"@,
        OutputFormat::BibTeX => "BibTeX (.bib) - Overleaf / TeXStudio"@,
        OutputFormat::PlainText => "Plain Text (.txt) - Notepad / Notepad++"@,
        OutputFormat::Markdown => "Markdown (.md) - README / Obsidian"@,
        OutputFormat::Ris => "RIS (.ris) - Zotero / EndNote"@,
        OutputFormat::RichText => "Rich Text (.rtf) - Word / Google Docs"@,
    }
}

/// The suggested file name of each format.
pub open spec fn spec_format_extension(f: OutputFormat) -> Seq<char> {
    match f {
        OutputFormat::Latex => "references.tex"@,
        OutputFormat::BibTeX => "references.bib"@,
        OutputFormat::PlainText => "references.txt"@,
        OutputFormat::Markdown => "references.md"@,
        OutputFormat::Ris => "references.ris"@,
        OutputFormat::RichText => "references.html"@,
    }
}

/// Picking a format by its own index gives the format back.
pub proof fn law_index_roundtrip(f: OutputFormat)
    ensures
        spec_all_formats()[spec_format_index(f) as int] == f,
        spec_format_index(spec_all_formats()[spec_format_index(f) as int]) == spec_format_index(f),
{
}

/// The index of the format picked at `i` is `i`, clamped to the last position.
pub proof fn law_from_index_to_index(i: usize)
    ensures
        spec_format_index(spec_all_formats()[if i < 5 { i as int } else { 5 }]) == if i < 5 { i } else { 5 },
{
}

} // verus!
