//! The checked entry points of the renderer: input validation, and a
//! second attempt on markup that was cleaned up.

use vstd::prelude::*;
use crate::errors::{CrawlerError, HtmlConversionError};
use crate::dom::{sample_markup, unclosed_markup};
use crate::html_to_markdown::{
    lemma_sample_body, lemma_unclosed_body, markdown_body, markdown_document, render_body,
    render_document,
};
use crate::text::{
    blank, count_char, count_of, from_chars, is_blank, lemma_count_char_at, lemma_skip_ws_is,
    replace_all, replaced_str, slice_of, to_chars,
};

verus! {

/// Why markup is refused.
#[derive(Debug, Clone, Copy, PartialEq, Eq, Structural)]
pub enum MarkupFault {
    /// It is empty or holds whitespace only.
    Empty,
    /// It holds more `<` than `>` or the other way round.
    Unbalanced,
}

/// The fault for which markup is refused, if it is.
pub open spec fn markup_fault(html: Seq<char>) -> Option<MarkupFault> {
    if is_blank(html) {
        Some(MarkupFault::Empty)
    } else if count_char(html, '<') != count_char(html, '>') {
        Some(MarkupFault::Unbalanced)
    } else {
        None
    }
}

/// `e` is the error that reports the fault `f`.
pub open spec fn reports(e: HtmlConversionError, f: MarkupFault) -> bool {
    match f {
        MarkupFault::Empty => e is EmptyContent,
        MarkupFault::Unbalanced => e matches HtmlConversionError::InvalidHtml(m) && m@
            == "Malformed HTML structure"@,
    }
}

/// `s` without the characters `c` at its end.
pub open spec fn strip_trailing(s: Seq<char>, c: char) -> Seq<char>
    decreases s.len(),
{
    if s.len() > 0 && s.last() == c {
        strip_trailing(s.drop_last(), c)
    } else {
        s
    }
}

/// `s` without the characters `c` at its start.
pub open spec fn strip_leading(s: Seq<char>, c: char) -> Seq<char>
    decreases s.len(),
{
    if s.len() > 0 && s[0] == c {
        strip_leading(s.drop_first(), c)
    } else {
        s
    }
}

/// Markup cleaned up for a second attempt: without `<` at its end and `>`
/// at its start, then with each `<<` made `<`, each `>>` made `>`, and each
/// `<>` taken out, in one pass each.
pub open spec fn clean_markup(html: Seq<char>) -> Seq<char> {
    replace_all(
        replace_all(
            replace_all(strip_leading(strip_trailing(html, '<'), '>'), "<<"@, "<"@),
            ">>"@,
            ">"@,
        ),
        "<>"@,
        ""@,
    )
}

/// What converting `html` gives: its Markdown, or the fault it is refused for.
pub open spec fn conversion(html: Seq<char>) -> Result<Seq<char>, MarkupFault> {
    match markup_fault(html) {
        Some(f) => Err(f),
        None => Ok(markdown_body(html)),
    }
}

/// What converting `html` with a second attempt gives: where the markup is
/// refused, the cleaned markup is tried once, and if that is refused too,
/// the first fault stands.
pub open spec fn recovered_conversion(html: Seq<char>) -> Result<Seq<char>, MarkupFault> {
    match conversion(html) {
        Ok(m) => Ok(m),
        Err(f) => match conversion(clean_markup(html)) {
            Ok(m) => Ok(m),
            Err(_) => Err(f),
        },
    }
}

/// What rendering `html` as a document gives.
pub open spec fn rendering(html: Seq<char>, label: Seq<char>) -> Result<Seq<char>, MarkupFault> {
    match markup_fault(html) {
        Some(f) => Err(f),
        None => Ok(markdown_document(label, html)),
    }
}

/// What rendering `html` as a document with a second attempt gives.
pub open spec fn recovered_rendering(html: Seq<char>, label: Seq<char>) -> Result<
    Seq<char>,
    MarkupFault,
> {
    match rendering(html, label) {
        Ok(m) => Ok(m),
        Err(f) => match rendering(clean_markup(html), label) {
            Ok(m) => Ok(m),
            Err(_) => Err(f),
        },
    }
}

/// The result `r` of an entry point is what `expected` says: the same
/// text, or an error of the rendering stage that reports the same fault.
pub open spec fn agrees(r: Result<String, CrawlerError>, expected: Result<Seq<char>, MarkupFault>)
    -> bool {
    match expected {
        Ok(m) => r matches Ok(s) && s@ == m,
        Err(f) => r matches Err(CrawlerError::HtmlConversion(e)) && reports(e, f),
    }
}

/// Markup whose tags are never closed is no fault: the heading and the
/// paragraph that are opened and never closed are rendered, with or
/// without a second attempt, as one heading that holds both texts.
pub proof fn lemma_unclosed_tags_are_rendered(label: Seq<char>)
    ensures
        conversion(unclosed_markup()) == Ok::<Seq<char>, MarkupFault>("# Title Body"@),
        recovered_conversion(unclosed_markup()) == Ok::<Seq<char>, MarkupFault>("# Title Body"@),
        rendering(unclosed_markup(), label) == Ok::<Seq<char>, MarkupFault>("# Title Body\n"@),
        recovered_rendering(unclosed_markup(), label) == Ok::<Seq<char>, MarkupFault>(
            "# Title Body\n"@,
        ),
{
    lemma_unclosed_body();
    reveal_strlit("<h1>Title<p>Body");
    reveal_strlit("# Title Body");
    reveal_strlit("# Title Body\n");
    reveal_strlit("\n");
    let s = unclosed_markup();
    lemma_skip_ws_is(s, 0, 0);
    assert(!is_blank(s));
    lemma_count_char_at(s, '<', seq![0int, 9]);
    lemma_count_char_at(s, '>', seq![3int, 11]);
    assert(markup_fault(s) is None);
    assert("# Title Body"@ + "\n"@ =~= "# Title Body\n"@);
}

/// The sample markup is converted to the heading, a blank line and the
/// paragraph with its strong text, and rendered as that text closed by one
/// line feed, whatever the label.
pub proof fn lemma_sample_is_rendered(label: Seq<char>)
    ensures
        conversion(sample_markup()) == Ok::<Seq<char>, MarkupFault>("# A\n\nB **C**"@),
        rendering(sample_markup(), label) == Ok::<Seq<char>, MarkupFault>("# A\n\nB **C**\n"@),
        recovered_rendering(sample_markup(), label) == Ok::<Seq<char>, MarkupFault>(
            "# A\n\nB **C**\n"@,
        ),
{
    lemma_sample_body();
    reveal_strlit("<h1>A</h1><p>B <strong>C</strong></p>");
    reveal_strlit("# A\n\nB **C**");
    reveal_strlit("# A\n\nB **C**\n");
    reveal_strlit("\n");
    let s = sample_markup();
    lemma_skip_ws_is(s, 0, 0);
    assert(!is_blank(s));
    lemma_count_char_at(s, '<', seq![0int, 5, 10, 15, 24, 33]);
    lemma_count_char_at(s, '>', seq![3int, 9, 12, 22, 32, 36]);
    assert(markup_fault(s) is None);
    assert("# A\n\nB **C**"@ + "\n"@ =~= "# A\n\nB **C**\n"@);
}

/// Checks `html` and says why it is refused, if it is.
fn check_markup(html: &Vec<char>) -> (r: Option<HtmlConversionError>)
    ensures
        r is Some <==> markup_fault(html@) is Some,
        r matches Some(e) ==> reports(e, markup_fault(html@)->0),
{
    if blank(html) {
        Some(HtmlConversionError::EmptyContent)
    } else if count_of(html, '<') != count_of(html, '>') {
        Some(HtmlConversionError::InvalidHtml(String::from_str("Malformed HTML structure")))
    } else {
        None
    }
}

/// Markup cleaned up for a second attempt.
pub fn cleaned(html: &Vec<char>) -> (r: Vec<char>)
    ensures
        r@ == clean_markup(html@),
{
    let mut b: usize = html.len();
    assert(html@.take(html.len() as int) =~= html@);
    while b > 0 && html[b - 1] == '<'
        invariant
            b <= html.len(),
            strip_trailing(html@, '<') == strip_trailing(html@.take(b as int), '<'),
        decreases b,
    {
        assert(html@.take(b as int).drop_last() =~= html@.take(b - 1));
        b -= 1;
    }
    assert(html@.take(html.len() as int) =~= html@);
    let ghost kept = html@.take(b as int);
    let mut a: usize = 0;
    assert(kept.skip(0) =~= kept);
    while a < b && html[a] == '>'
        invariant
            a <= b <= html.len(),
            kept == html@.take(b as int),
            strip_leading(kept, '>') == strip_leading(kept.skip(a as int), '>'),
        decreases b - a,
    {
        assert(kept.skip(a as int).drop_first() =~= kept.skip(a + 1));
        a += 1;
    }
    let core = slice_of(html, a, b);
    assert(core@ =~= kept.skip(a as int));
    let x = replaced_str(&core, "<<", "<");
    let y = replaced_str(&x, ">>", ">");
    replaced_str(&y, "<>", "")
}

/// The earlier error type of the converter, kept for callers that still name it.
#[derive(Debug)]
pub enum ConversionError {
    ParseError(String),
    ProcessingError(String),
}

impl ConversionError {
    /// The text of this error.
    pub open spec fn message(self) -> Seq<char> {
        match self {
            ConversionError::ParseError(m) => "Parse error: "@ + m@,
            ConversionError::ProcessingError(m) => "Processing error: "@ + m@,
        }
    }

    /// The text of this error.
    pub fn to_string(&self) -> (r: String)
        ensures
            r@ == self.message(),
    {
        match self {
            ConversionError::ParseError(m) => {
                let mut r = String::from_str("Parse error: ");
                r.append(m.as_str());
                r
            },
            ConversionError::ProcessingError(m) => {
                let mut r = String::from_str("Processing error: ");
                r.append(m.as_str());
                r
            },
        }
    }
}

impl From<ConversionError> for HtmlConversionError {
    fn from(err: ConversionError) -> (r: Self) {
        match err {
            ConversionError::ParseError(msg) => HtmlConversionError::ParseError(msg),
            ConversionError::ProcessingError(msg) => HtmlConversionError::ProcessingError(msg),
        }
    }
}

impl vstd::std_specs::convert::FromSpecImpl<ConversionError> for HtmlConversionError {
    open spec fn obeys_from_spec() -> bool {
        true
    }

    open spec fn from_spec(err: ConversionError) -> Self {
        match err {
            ConversionError::ParseError(msg) => HtmlConversionError::ParseError(msg),
            ConversionError::ProcessingError(msg) => HtmlConversionError::ProcessingError(msg),
        }
    }
}

/// Converts HTML to Markdown.
#[derive(Debug, Clone, Copy)]
pub struct HtmlConverter;

impl HtmlConverter {
    /// A converter.
    pub fn new() -> (r: Self) {
        HtmlConverter
    }

    /// The Markdown of `html`: the rendered text, trimmed at both ends as
    /// the last step of tidying, so that it ends without a line feed and is
    /// empty where the markup holds nothing to render. `render` gives the
    /// same text as a document, closed by one line feed. Markup that is
    /// blank, or whose `<` and `>` do not balance, is refused.
    pub fn convert_to_markdown(&self, html: &str) -> (r: Result<String, CrawlerError>)
        ensures
            agrees(r, conversion(html@)),
    {
        let source = to_chars(html);
        match check_markup(&source) {
            Some(e) => Err(CrawlerError::HtmlConversion(e)),
            None => {
                let body = render_body(&source);
                Ok(from_chars(&body))
            },
        }
    }

    /// As `convert_to_markdown`; markup that is refused is cleaned up and
    /// tried once more, and if that fails too, the first error is returned.
    pub fn convert_to_markdown_with_recovery(&self, html: &str) -> (r: Result<String, CrawlerError>)
        ensures
            agrees(r, recovered_conversion(html@)),
    {
        let source = to_chars(html);
        match check_markup(&source) {
            None => {
                let body = render_body(&source);
                Ok(from_chars(&body))
            },
            Some(e) => {
                let repaired = cleaned(&source);
                match check_markup(&repaired) {
                    None => {
                        let body = render_body(&repaired);
                        Ok(from_chars(&body))
                    },
                    Some(_) => Err(CrawlerError::HtmlConversion(e)),
                }
            },
        }
    }

    /// The Markdown document of `html`: the text that `convert_to_markdown`
    /// gives, closed by one line feed as a document is, or the heading `# `
    /// followed by `fallback_label` and a line feed where the markup holds
    /// nothing to render. Markup that is blank, or whose `<` and `>` do not
    /// balance, is refused.
    pub fn render(&self, html: &str, fallback_label: &str) -> (r: Result<String, CrawlerError>)
        ensures
            agrees(r, rendering(html@, fallback_label@)),
    {
        let source = to_chars(html);
        match check_markup(&source) {
            Some(e) => Err(CrawlerError::HtmlConversion(e)),
            None => {
                let label = to_chars(fallback_label);
                let document = render_document(&label, &source);
                Ok(from_chars(&document))
            },
        }
    }

    /// As `render`; markup that is refused is cleaned up and tried once
    /// more, and if that fails too, the first error is returned.
    pub fn render_with_recovery(&self, html: &str, fallback_label: &str) -> (r: Result<
        String,
        CrawlerError,
    >)
        ensures
            agrees(r, recovered_rendering(html@, fallback_label@)),
    {
        let source = to_chars(html);
        let label = to_chars(fallback_label);
        match check_markup(&source) {
            None => {
                let document = render_document(&label, &source);
                Ok(from_chars(&document))
            },
            Some(e) => {
                let repaired = cleaned(&source);
                match check_markup(&repaired) {
                    None => {
                        let document = render_document(&label, &repaired);
                        Ok(from_chars(&document))
                    },
                    Some(_) => Err(CrawlerError::HtmlConversion(e)),
                }
            },
        }
    }
}

impl Default for HtmlConverter {
    fn default() -> (r: Self) {
        HtmlConverter
    }
}

} // verus!
