//! From markup to a Markdown document: parse, walk the tree, tidy the text.

use vstd::prelude::*;
use crate::dom::{
    lemma_sample_tree, lemma_unclosed_tree, parse, parse_chars, sample_markup, unclosed_markup,
};
use crate::markdown::{
    block_list, lemma_sample_rendered, lemma_unclosed_rendered, render_block_list,
};
use crate::text::{
    blank_run_at, collapse_blank_lines, collapse_newlines, from_chars, is_whitespace_char,
    lemma_collapse_newlines_leaves_no_run, lemma_collapse_newlines_plain,
    lemma_replace_without_first, lemma_skip_ws_back_is, lemma_skip_ws_is, lemma_trim_is_tight,
    lemma_trim_keeps_no_run, push_all, push_str, replace_all, replaced_str, to_chars, trim,
    trimmed,
};

verus! {

/// `s` with the character references `&nbsp;`, `&amp;`, `&lt;`, `&gt;` and
/// `&quot;` replaced by what they stand for, one after the other in that
/// order, so that what one replacement leaves is seen by the next.
pub open spec fn decode_entities(s: Seq<char>) -> Seq<char> {
    replace_all(
        replace_all(
            replace_all(
                replace_all(replace_all(s, "&nbsp;"@, " "@), "&amp;"@, "&"@),
                "&lt;"@,
                "<"@,
            ),
            "&gt;"@,
            ">"@,
        ),
        "&quot;"@,
        "\""@,
    )
}

/// The rendered text tidied: character references decoded, runs of three
/// or more line feeds cut down to two, and the whole trimmed.
pub open spec fn postprocess(s: Seq<char>) -> Seq<char> {
    trim(collapse_newlines(decode_entities(s)))
}

/// The Markdown that the markup `html` renders to; empty where it holds
/// nothing to render.
pub open spec fn markdown_body(html: Seq<char>) -> Seq<char> {
    postprocess(block_list(parse(html)))
}

/// The Markdown document for the markup `html`: its Markdown and a final
/// line feed, or a heading made of `label` where there is nothing to render.
pub open spec fn markdown_document(label: Seq<char>, html: Seq<char>) -> Seq<char> {
    if markdown_body(html).len() == 0 {
        "# "@ + label + "\n"@
    } else {
        markdown_body(html) + "\n"@
    }
}

/// The Markdown of a page is tidy: it neither starts nor ends with
/// whitespace, and it holds no three line feeds in a row, so that blocks
/// are one blank line apart at most.
pub proof fn lemma_body_is_tidy(html: Seq<char>)
    ensures
        markdown_body(html).len() > 0 ==> !is_whitespace_char(markdown_body(html)[0])
            && !is_whitespace_char(markdown_body(html).last()),
        forall|i: int| !blank_run_at(markdown_body(html), i),
{
    let decoded = decode_entities(block_list(parse(html)));
    lemma_collapse_newlines_leaves_no_run(decoded);
    lemma_trim_keeps_no_run(collapse_newlines(decoded));
    lemma_trim_is_tight(collapse_newlines(decoded));
}

/// A Markdown document is never empty and ends with a line feed.
pub proof fn lemma_document_ends_with_line_feed(label: Seq<char>, html: Seq<char>)
    ensures
        markdown_document(label, html).len() > 0,
        markdown_document(label, html).last() == '\n',
{
    reveal_strlit("\n");
    reveal_strlit("# ");
}

/// The Markdown of the heading and the paragraph that are never closed
/// holds both texts, under one heading.
pub proof fn lemma_unclosed_body()
    ensures
        markdown_body(unclosed_markup()) == "# Title Body"@,
{
    lemma_unclosed_tree();
    lemma_unclosed_rendered();
    reveal_strlit("# Title Body\n\n");
    reveal_strlit("# Title Body");
    reveal_strlit("&nbsp;");
    reveal_strlit("&amp;");
    reveal_strlit("&lt;");
    reveal_strlit("&gt;");
    reveal_strlit("&quot;");
    let raw = "# Title Body\n\n"@;
    lemma_replace_without_first(raw, "&nbsp;"@, " "@);
    lemma_replace_without_first(raw, "&amp;"@, "&"@);
    lemma_replace_without_first(raw, "&lt;"@, "<"@);
    lemma_replace_without_first(raw, "&gt;"@, ">"@);
    lemma_replace_without_first(raw, "&quot;"@, "\""@);
    assert(decode_entities(raw) == raw);
    assert forall|i: int| !blank_run_at(raw, i) by {
        if blank_run_at(raw, i) {
            assert(raw[i] == '\n');
        }
    }
    lemma_collapse_newlines_plain(raw);
    lemma_skip_ws_is(raw, 0, 0);
    lemma_skip_ws_back_is(raw, 12, 14);
    assert(raw.subrange(0, 12) =~= "# Title Body"@);
}

/// The Markdown of the sample markup: the heading, a blank line, and the
/// paragraph, with nothing after it.
pub proof fn lemma_sample_body()
    ensures
        markdown_body(sample_markup()) == "# A\n\nB **C**"@,
{
    lemma_sample_tree();
    lemma_sample_rendered();
    reveal_strlit("# A\n\nB **C**\n\n");
    reveal_strlit("# A\n\nB **C**");
    reveal_strlit("&nbsp;");
    reveal_strlit("&amp;");
    reveal_strlit("&lt;");
    reveal_strlit("&gt;");
    reveal_strlit("&quot;");
    let raw = "# A\n\nB **C**\n\n"@;
    lemma_replace_without_first(raw, "&nbsp;"@, " "@);
    lemma_replace_without_first(raw, "&amp;"@, "&"@);
    lemma_replace_without_first(raw, "&lt;"@, "<"@);
    lemma_replace_without_first(raw, "&gt;"@, ">"@);
    lemma_replace_without_first(raw, "&quot;"@, "\""@);
    assert(decode_entities(raw) == raw);
    assert forall|i: int| !blank_run_at(raw, i) by {
        if blank_run_at(raw, i) {
            assert(raw[i] == '\n' && raw[i + 1] == '\n' && raw[i + 2] == '\n');
            assert(i == 3 || i == 4 || i == 12 || i == 13);
        }
    }
    lemma_collapse_newlines_plain(raw);
    lemma_skip_ws_is(raw, 0, 0);
    lemma_skip_ws_back_is(raw, 12, 14);
    assert(raw.subrange(0, 12) =~= "# A\n\nB **C**"@);
}

/// `s` with the five character references decoded.
pub fn decoded(s: &Vec<char>) -> (r: Vec<char>)
    ensures
        r@ == decode_entities(s@),
{
    let a = replaced_str(s, "&nbsp;", " ");
    let b = replaced_str(&a, "&amp;", "&");
    let c = replaced_str(&b, "&lt;", "<");
    let d = replaced_str(&c, "&gt;", ">");
    replaced_str(&d, "&quot;", "\"")
}

/// The Markdown that the markup `html` renders to.
pub fn render_body(html: &Vec<char>) -> (r: Vec<char>)
    ensures
        r@ == markdown_body(html@),
{
    let nodes = parse_chars(html);
    let raw = render_block_list(&nodes);
    let text = decoded(&raw);
    let lines = collapse_blank_lines(&text);
    trimmed(&lines)
}

/// The Markdown document for the markup `html`, with `label` as heading
/// where there is nothing to render.
pub fn render_document(label: &Vec<char>, html: &Vec<char>) -> (r: Vec<char>)
    ensures
        r@ == markdown_document(label@, html@),
{
    let mut body = render_body(html);
    if body.len() == 0 {
        let mut r = to_chars("# ");
        push_all(&mut r, label);
        push_str(&mut r, "\n");
        r
    } else {
        push_str(&mut body, "\n");
        body
    }
}

/// Renders the page `html`, fetched from `url`, as a Markdown document:
/// the trimmed Markdown of the page closed by one line feed. Any text is
/// accepted; a page with nothing to render gives a heading made of `url`.
pub fn html_to_markdown(url: &str, html: &str) -> (r: String)
    ensures
        r@ == markdown_document(url@, html@),
{
    let label = to_chars(url);
    let source = to_chars(html);
    let document = render_document(&label, &source);
    from_chars(&document)
}

} // verus!
