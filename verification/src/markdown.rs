//! The walk that turns a document tree into Markdown. Flow content is
//! rendered in blocks, each followed by a blank line; what lies inside a
//! block is rendered inline, as fragments joined by single spaces.

use vstd::prelude::*;
use crate::dom::{
    attr_views, lemma_node_views, node_views, sample_tree, unclosed_tree, Dom, DomNode,
};
use crate::text::{
    collapse_whitespace, collapse_ws, decimal, decimal_of, is_str, lemma_collapse_ws_plain,
    lemma_skip_ws_back_is, lemma_skip_ws_is, lemma_trim_plain, push_all, push_str, replace_all,
    replaced_str, same_chars, to_chars, trim, trimmed,
};

verus! {

/// What the renderer makes of a tag name.
#[derive(Debug, Clone, Copy, PartialEq, Eq, Structural)]
pub enum TagKind {
    Heading1,
    Heading2,
    Paragraph,
    Strong,
    Emphasis,
    Anchor,
    Image,
    UnorderedList,
    OrderedList,
    ListItem,
    LineBreak,
    Blockquote,
    /// `script`, `style` and `noscript`: left out with all they hold.
    Stripped,
    /// Any other tag: rendered as what it holds.
    Other,
}

/// What the renderer makes of the tag name `tag`. Names are compared as
/// written, without folding case.
pub open spec fn tag_kind(tag: Seq<char>) -> TagKind {
    if tag == "h1"@ {
        TagKind::Heading1
    } else if tag == "h2"@ {
        TagKind::Heading2
    } else if tag == "p"@ {
        TagKind::Paragraph
    } else if tag == "strong"@ || tag == "b"@ {
        TagKind::Strong
    } else if tag == "em"@ || tag == "i"@ {
        TagKind::Emphasis
    } else if tag == "a"@ {
        TagKind::Anchor
    } else if tag == "img"@ {
        TagKind::Image
    } else if tag == "ul"@ {
        TagKind::UnorderedList
    } else if tag == "ol"@ {
        TagKind::OrderedList
    } else if tag == "li"@ {
        TagKind::ListItem
    } else if tag == "br"@ {
        TagKind::LineBreak
    } else if tag == "blockquote"@ {
        TagKind::Blockquote
    } else if tag == "script"@ || tag == "style"@ || tag == "noscript"@ {
        TagKind::Stripped
    } else {
        TagKind::Other
    }
}

/// What the renderer makes of the tag name `tag`.
pub fn kind_of(tag: &Vec<char>) -> (k: TagKind)
    ensures
        k == tag_kind(tag@),
{
    if is_str(tag, "h1") {
        TagKind::Heading1
    } else if is_str(tag, "h2") {
        TagKind::Heading2
    } else if is_str(tag, "p") {
        TagKind::Paragraph
    } else if is_str(tag, "strong") || is_str(tag, "b") {
        TagKind::Strong
    } else if is_str(tag, "em") || is_str(tag, "i") {
        TagKind::Emphasis
    } else if is_str(tag, "a") {
        TagKind::Anchor
    } else if is_str(tag, "img") {
        TagKind::Image
    } else if is_str(tag, "ul") {
        TagKind::UnorderedList
    } else if is_str(tag, "ol") {
        TagKind::OrderedList
    } else if is_str(tag, "li") {
        TagKind::ListItem
    } else if is_str(tag, "br") {
        TagKind::LineBreak
    } else if is_str(tag, "blockquote") {
        TagKind::Blockquote
    } else if is_str(tag, "script") || is_str(tag, "style") || is_str(tag, "noscript") {
        TagKind::Stripped
    } else {
        TagKind::Other
    }
}

/// The value of the first attribute named `name`, if there is one.
pub open spec fn attr_value(attrs: Seq<(Seq<char>, Seq<char>)>, name: Seq<char>) -> Option<
    Seq<char>,
>
    decreases attrs.len(),
{
    if attrs.len() == 0 {
        None
    } else if attrs[0].0 == name {
        Some(attrs[0].1)
    } else {
        attr_value(attrs.drop_first(), name)
    }
}

/// The value of the first attribute named `name`, if there is one.
pub fn attribute(attrs: &Vec<(Vec<char>, Vec<char>)>, name: &str) -> (r: Option<Vec<char>>)
    ensures
        match r {
            Some(v) => attr_value(attr_views(attrs@), name@) == Some(v@),
            None => attr_value(attr_views(attrs@), name@) is None,
        },
{
    let wanted = to_chars(name);
    let mut i: usize = 0;
    assert(attr_views(attrs@).skip(0) =~= attr_views(attrs@));
    while i < attrs.len()
        invariant
            i <= attrs.len(),
            wanted@ == name@,
            attr_value(attr_views(attrs@), name@) == attr_value(
                attr_views(attrs@).skip(i as int),
                name@,
            ),
        decreases attrs.len() - i,
    {
        proof {
            let rest = attr_views(attrs@).skip(i as int);
            assert(rest[0] == (attrs@[i as int].0@, attrs@[i as int].1@));
            assert(rest.drop_first() =~= attr_views(attrs@).skip(i + 1));
        }
        if same_chars(&attrs[i].0, &wanted) {
            return Some(attrs[i].1.clone());
        }
        i += 1;
    }
    None
}

/// A hard line break: two spaces and a line feed.
pub open spec fn line_break() -> Seq<char> {
    "  \n"@
}

/// `acc` with the fragment `frag` joined to it: by a single space, or by
/// nothing where a line break ends `acc` or is what is joined. An empty
/// fragment leaves `acc` as it is.
pub open spec fn inline_join(acc: Seq<char>, frag: Seq<char>) -> Seq<char> {
    if frag.len() == 0 {
        acc
    } else if acc.len() == 0 {
        frag
    } else if acc.last() == '\n' || frag == line_break() {
        acc + frag
    } else {
        acc + " "@ + frag
    }
}

/// The link target of an anchor: its `href`, or `#` where it has none.
pub open spec fn link_target(attrs: Seq<(Seq<char>, Seq<char>)>) -> Seq<char> {
    match attr_value(attrs, "href"@) {
        Some(h) => h,
        None => "#"@,
    }
}

/// The text that stands for an image: nothing without `src`, otherwise
/// `![alt](src)` with an empty `alt` where there is none.
pub open spec fn image_text(attrs: Seq<(Seq<char>, Seq<char>)>) -> Seq<char> {
    match attr_value(attrs, "src"@) {
        Some(src) => "!["@ + (match attr_value(attrs, "alt"@) {
            Some(alt) => alt,
            None => Seq::empty(),
        }) + "]("@ + src + ")"@,
        None => Seq::empty(),
    }
}

/// A node rendered inline.
pub open spec fn inline_node(d: Dom) -> Seq<char>
    decreases d, 0nat,
{
    match d {
        Dom::Text { content } => trim(collapse_ws(content)),
        Dom::Element { tag, attrs, children } => match tag_kind(tag) {
            TagKind::Strong => "**"@ + inline_list(children) + "**"@,
            TagKind::Emphasis => "*"@ + inline_list(children) + "*"@,
            TagKind::Anchor => if inline_list(children).len() == 0 {
                Seq::empty()
            } else {
                "["@ + inline_list(children) + "]("@ + link_target(attrs) + ")"@
            },
            TagKind::Image => image_text(attrs),
            TagKind::LineBreak => line_break(),
            TagKind::Stripped => Seq::empty(),
            _ => inline_list(children),
        },
    }
}

/// The fragments of a list of nodes, joined.
pub open spec fn inline_fold(nodes: Seq<Dom>) -> Seq<char>
    decreases nodes, 0nat,
{
    if nodes.len() == 0 {
        Seq::empty()
    } else {
        inline_join(inline_fold(nodes.drop_last()), inline_node(nodes.last()))
    }
}

/// A list of nodes rendered inline: the fragments joined, and the whole trimmed.
pub open spec fn inline_list(nodes: Seq<Dom>) -> Seq<char>
    decreases nodes, 1nat,
{
    trim(inline_fold(nodes))
}

/// A unit of flow content: the text, trimmed, and a blank line; nothing
/// for a text that trims to nothing.
pub open spec fn paragraph(text: Seq<char>) -> Seq<char> {
    if trim(text).len() == 0 {
        Seq::empty()
    } else {
        trim(text) + "\n\n"@
    }
}

/// Whether a node takes part in a run of inline content when it stands
/// among flow content: text, emphasis, links, images and line breaks do.
pub open spec fn is_phrasing(d: Dom) -> bool {
    match d {
        Dom::Text { .. } => true,
        Dom::Element { tag, .. } => tag_kind(tag) == TagKind::Strong || tag_kind(tag)
            == TagKind::Emphasis || tag_kind(tag) == TagKind::Anchor || tag_kind(tag)
            == TagKind::Image || tag_kind(tag) == TagKind::LineBreak,
    }
}

/// The marker of list item number `k` (from 1).
pub open spec fn item_marker(ordered: bool, k: nat) -> Seq<char> {
    if ordered {
        decimal(k) + ". "@
    } else {
        "- "@
    }
}

/// The lines of the `li` children among `nodes`, one line each, and how
/// many there are. Other children of a list are left out.
pub open spec fn list_fold(nodes: Seq<Dom>, ordered: bool) -> (Seq<char>, nat)
    decreases nodes, 0nat,
{
    if nodes.len() == 0 {
        (Seq::empty(), 0)
    } else {
        let before = list_fold(nodes.drop_last(), ordered);
        match nodes.last() {
            Dom::Element { tag, attrs, children } => if tag_kind(tag) == TagKind::ListItem {
                (
                    before.0 + item_marker(ordered, before.1 + 1) + inline_list(children) + "\n"@,
                    before.1 + 1,
                )
            } else {
                before
            },
            Dom::Text { .. } => before,
        }
    }
}

/// `text` with `> ` in front of each of its lines.
pub open spec fn quoted(text: Seq<char>) -> Seq<char> {
    "> "@ + replace_all(text, "\n"@, "\n> "@)
}

/// A node rendered as flow content.
pub open spec fn block_node(d: Dom) -> Seq<char>
    decreases d, 0nat,
{
    match d {
        Dom::Text { content } => paragraph(inline_node(d)),
        Dom::Element { tag, attrs, children } => match tag_kind(tag) {
            TagKind::Heading1 => "# "@ + inline_list(children) + "\n\n"@,
            TagKind::Heading2 => "## "@ + inline_list(children) + "\n\n"@,
            TagKind::Paragraph => paragraph(inline_list(children)),
            TagKind::UnorderedList => list_fold(children, false).0 + "\n"@,
            TagKind::OrderedList => list_fold(children, true).0 + "\n"@,
            TagKind::ListItem => if inline_list(children).len() == 0 {
                Seq::empty()
            } else {
                "- "@ + inline_list(children) + "\n"@
            },
            TagKind::Blockquote => if inline_list(children).len() == 0 {
                Seq::empty()
            } else {
                quoted(inline_list(children)) + "\n\n"@
            },
            TagKind::Stripped => Seq::empty(),
            TagKind::Other => block_list(children),
            _ => paragraph(inline_node(d)),
        },
    }
}

/// What a list of nodes has rendered as flow content so far, and the run
/// of inline content that is still open at its end.
pub open spec fn block_fold(nodes: Seq<Dom>) -> (Seq<char>, Seq<char>)
    decreases nodes, 0nat,
{
    if nodes.len() == 0 {
        (Seq::empty(), Seq::empty())
    } else {
        let before = block_fold(nodes.drop_last());
        if is_phrasing(nodes.last()) {
            (before.0, inline_join(before.1, inline_node(nodes.last())))
        } else {
            (before.0 + paragraph(before.1) + block_node(nodes.last()), Seq::empty())
        }
    }
}

/// A list of nodes rendered as flow content: runs of inline content become
/// paragraphs, every other node is rendered as a block of its own.
pub open spec fn block_list(nodes: Seq<Dom>) -> Seq<char>
    decreases nodes, 1nat,
{
    block_fold(nodes).0 + paragraph(block_fold(nodes).1)
}

/// A heading whose tag is never closed takes in what follows it: the tree
/// of the unclosed heading and paragraph is rendered as one heading made
/// of both texts.
pub proof fn lemma_unclosed_rendered()
    ensures
        block_list(unclosed_tree()) == "# Title Body\n\n"@,
{
    reveal_strlit("h1");
    reveal_strlit("h2");
    reveal_strlit("p");
    reveal_strlit("Title");
    reveal_strlit("Body");
    reveal_strlit("Title Body");
    reveal_strlit("# Title Body\n\n");
    reveal_strlit("# ");
    reveal_strlit("\n\n");
    reveal_strlit(" ");
    reveal_strlit("  \n");
    let none = Seq::<Dom>::empty();
    let nothing = Seq::<char>::empty();
    let no_attrs = Seq::<(Seq<char>, Seq<char>)>::empty();
    let title = Dom::Text { content: "Title"@ };
    let body = Dom::Text { content: "Body"@ };
    let inner = seq![body];
    let para = Dom::Element { tag: "p"@, attrs: no_attrs, children: inner };
    let outer = seq![title, para];
    let heading = Dom::Element { tag: "h1"@, attrs: no_attrs, children: outer };
    let tree = seq![heading];
    assert(tree =~= unclosed_tree());
    // the two texts
    lemma_collapse_ws_plain("Title"@);
    lemma_trim_plain("Title"@);
    lemma_collapse_ws_plain("Body"@);
    lemma_trim_plain("Body"@);
    assert(inline_node(title) == "Title"@);
    assert(inline_node(body) == "Body"@);
    // the paragraph, inline
    assert(inner.drop_last() =~= none);
    assert(inline_fold(none) == nothing);
    assert(inline_fold(inner) == "Body"@);
    assert(inline_list(inner) == "Body"@);
    assert("p"@.len() == 1 && "h1"@.len() == 2 && "h2"@.len() == 2);
    assert(tag_kind("p"@) == TagKind::Paragraph);
    assert(inline_node(para) == "Body"@);
    // the heading
    assert(outer.drop_last() =~= seq![title]);
    assert(seq![title].drop_last() =~= none);
    assert(inline_fold(seq![title]) == "Title"@);
    assert("Body"@ != line_break());
    assert(inline_fold(outer) == "Title"@ + " "@ + "Body"@);
    assert("Title"@ + " "@ + "Body"@ =~= "Title Body"@);
    lemma_trim_plain("Title Body"@);
    assert(inline_list(outer) == "Title Body"@);
    assert(tag_kind("h1"@) == TagKind::Heading1);
    assert(block_node(heading) =~= "# Title Body\n\n"@);
    // the document
    assert(tree.drop_last() =~= none);
    assert(block_fold(none) == (nothing, nothing));
    assert(trim(nothing) =~= nothing);
    assert(paragraph(nothing) == nothing);
    assert(!is_phrasing(heading));
    assert(block_fold(tree).1 == nothing);
    assert(block_fold(tree).0 =~= "# Title Body\n\n"@);
    assert(block_list(tree) =~= "# Title Body\n\n"@);
}

/// The tree of the sample markup is rendered as a heading, a blank line,
/// and the paragraph with its strong text set between asterisks.
pub proof fn lemma_sample_rendered()
    ensures
        block_list(sample_tree()) == "# A\n\nB **C**\n\n"@,
{
    reveal_strlit("h1");
    reveal_strlit("h2");
    reveal_strlit("p");
    reveal_strlit("strong");
    reveal_strlit("A");
    reveal_strlit("B ");
    reveal_strlit("B");
    reveal_strlit("C");
    reveal_strlit("**");
    reveal_strlit("**C**");
    reveal_strlit("B **C**");
    reveal_strlit("B **C**\n\n");
    reveal_strlit("# A\n\n");
    reveal_strlit("# A\n\nB **C**\n\n");
    reveal_strlit("# ");
    reveal_strlit("\n\n");
    reveal_strlit(" ");
    reveal_strlit("  \n");
    let none = Seq::<Dom>::empty();
    let nothing = Seq::<char>::empty();
    let no_attrs = Seq::<(Seq<char>, Seq<char>)>::empty();
    let a = Dom::Text { content: "A"@ };
    let b = Dom::Text { content: "B "@ };
    let c = Dom::Text { content: "C"@ };
    let strong = Dom::Element { tag: "strong"@, attrs: no_attrs, children: seq![c] };
    let heading = Dom::Element { tag: "h1"@, attrs: no_attrs, children: seq![a] };
    let para = Dom::Element { tag: "p"@, attrs: no_attrs, children: seq![b, strong] };
    let tree = seq![heading, para];
    assert(tree =~= sample_tree());
    assert("p"@.len() == 1 && "h1"@.len() == 2 && "h2"@.len() == 2 && "strong"@.len() == 6);
    assert(tag_kind("h1"@) == TagKind::Heading1);
    assert(tag_kind("p"@) == TagKind::Paragraph);
    assert(tag_kind("strong"@) == TagKind::Strong);
    assert(inline_fold(none) == nothing);
    // the texts
    lemma_collapse_ws_plain("A"@);
    lemma_trim_plain("A"@);
    lemma_collapse_ws_plain("C"@);
    lemma_trim_plain("C"@);
    assert(inline_node(a) == "A"@);
    assert(inline_node(c) == "C"@);
    assert(collapse_ws("B "@) =~= "B "@) by {
        let one = "B "@.drop_last();
        assert(one.drop_last() =~= nothing);
        assert(collapse_ws(nothing) == nothing);
        assert(collapse_ws(one) =~= one);
    }
    lemma_skip_ws_is("B "@, 0, 0);
    lemma_skip_ws_back_is("B "@, 1, 2);
    assert("B "@.subrange(0, 1) =~= "B"@);
    assert(inline_node(b) == "B"@);
    // the heading
    assert(seq![a].drop_last() =~= none);
    assert(inline_fold(seq![a]) == "A"@);
    assert(inline_list(seq![a]) == "A"@);
    assert(block_node(heading) =~= "# A\n\n"@);
    // the strong text
    assert(seq![c].drop_last() =~= none);
    assert(inline_fold(seq![c]) == "C"@);
    assert(inline_list(seq![c]) == "C"@);
    assert(inline_node(strong) =~= "**C**"@);
    // the paragraph
    let inner = seq![b, strong];
    assert(inner.drop_last() =~= seq![b]);
    assert(seq![b].drop_last() =~= none);
    assert(inline_fold(seq![b]) == "B"@);
    assert("**C**"@ != line_break());
    assert(inline_fold(inner) == "B"@ + " "@ + "**C**"@);
    assert("B"@ + " "@ + "**C**"@ =~= "B **C**"@);
    lemma_trim_plain("B **C**"@);
    assert(inline_list(inner) == "B **C**"@);
    assert(paragraph("B **C**"@) =~= "B **C**\n\n"@);
    assert(block_node(para) == "B **C**\n\n"@);
    // the document
    assert(trim(nothing) =~= nothing);
    assert(paragraph(nothing) == nothing);
    assert(block_fold(none) == (nothing, nothing));
    assert(!is_phrasing(heading));
    assert(!is_phrasing(para));
    assert(tree.drop_last() =~= seq![heading]);
    assert(seq![heading].drop_last() =~= none);
    assert(block_fold(seq![heading]).1 == nothing);
    assert(block_fold(seq![heading]).0 =~= "# A\n\n"@);
    assert(block_fold(tree).1 == nothing);
    assert(block_fold(tree).0 =~= "# A\n\nB **C**\n\n"@);
    assert(block_list(tree) =~= "# A\n\nB **C**\n\n"@);
}

/// Joins the fragment `frag` to `acc`.
fn join_fragment(acc: &mut Vec<char>, frag: &Vec<char>)
    ensures
        final(acc)@ == inline_join(old(acc)@, frag@),
{
    if frag.len() == 0 {
    } else if acc.len() == 0 {
        push_all(acc, frag);
        assert(Seq::<char>::empty() + frag@ =~= frag@);
    } else if acc[acc.len() - 1] == '\n' || is_str(frag, "  \n") {
        push_all(acc, frag);
    } else {
        push_str(acc, " ");
        push_all(acc, frag);
    }
}

/// A unit of flow content made of `text`.
fn paragraph_of(text: &Vec<char>) -> (r: Vec<char>)
    ensures
        r@ == paragraph(text@),
{
    let mut t = trimmed(text);
    if t.len() == 0 {
        Vec::new()
    } else {
        push_str(&mut t, "\n\n");
        t
    }
}

/// Whether a node takes part in a run of inline content among flow content.
fn phrasing(n: &DomNode) -> (r: bool)
    ensures
        r == is_phrasing(n@),
{
    match n {
        DomNode::Text { .. } => true,
        DomNode::Element { tag, .. } => {
            let k = kind_of(tag);
            k == TagKind::Strong || k == TagKind::Emphasis || k == TagKind::Anchor || k
                == TagKind::Image || k == TagKind::LineBreak
        },
    }
}

/// The text that stands for an image with the attributes `attrs`.
fn render_image(attrs: &Vec<(Vec<char>, Vec<char>)>) -> (r: Vec<char>)
    ensures
        r@ == image_text(attr_views(attrs@)),
{
    match attribute(attrs, "src") {
        None => Vec::new(),
        Some(src) => {
            let mut r = to_chars("![");
            match attribute(attrs, "alt") {
                Some(alt) => {
                    push_all(&mut r, &alt);
                },
                None => {
                    assert(r@ + Seq::<char>::empty() =~= r@);
                },
            }
            push_str(&mut r, "](");
            push_all(&mut r, &src);
            push_str(&mut r, ")");
            r
        },
    }
}

/// A node rendered inline.
pub fn render_inline_node(n: &DomNode) -> (r: Vec<char>)
    ensures
        r@ == inline_node(n@),
    decreases n, 0nat,
{
    match n {
        DomNode::Text { content } => {
            let c = collapse_whitespace(content);
            trimmed(&c)
        },
        DomNode::Element { tag, attrs, children } => {
            match kind_of(tag) {
                TagKind::Strong => {
                    let inner = render_inline_list(children);
                    let mut r = to_chars("**");
                    push_all(&mut r, &inner);
                    push_str(&mut r, "**");
                    r
                },
                TagKind::Emphasis => {
                    let inner = render_inline_list(children);
                    let mut r = to_chars("*");
                    push_all(&mut r, &inner);
                    push_str(&mut r, "*");
                    r
                },
                TagKind::Anchor => {
                    let inner = render_inline_list(children);
                    if inner.len() == 0 {
                        Vec::new()
                    } else {
                        let mut r = to_chars("[");
                        push_all(&mut r, &inner);
                        push_str(&mut r, "](");
                        match attribute(attrs, "href") {
                            Some(h) => {
                                push_all(&mut r, &h);
                            },
                            None => {
                                push_str(&mut r, "#");
                            },
                        }
                        push_str(&mut r, ")");
                        r
                    }
                },
                TagKind::Image => render_image(attrs),
                TagKind::LineBreak => to_chars("  \n"),
                TagKind::Stripped => Vec::new(),
                _ => render_inline_list(children),
            }
        },
    }
}

/// The fragments of a list of nodes, joined.
fn render_inline_fold(nodes: &Vec<DomNode>) -> (r: Vec<char>)
    ensures
        r@ == inline_fold(node_views(nodes@)),
    decreases nodes, 0nat,
{
    let mut acc: Vec<char> = Vec::new();
    let mut i: usize = 0;
    let ghost all = node_views(nodes@);
    proof {
        lemma_node_views(nodes@);
        assert(all.take(0) =~= Seq::<Dom>::empty());
    }
    while i < nodes.len()
        invariant
            i <= nodes.len(),
            all == node_views(nodes@),
            all.len() == nodes.len(),
            forall|k: int| 0 <= k < nodes.len() ==> (#[trigger] all[k]) == nodes@[k]@,
            acc@ == inline_fold(all.take(i as int)),
        decreases nodes.len() - i,
    {
        let frag = render_inline_node(&nodes[i]);
        proof {
            assert(all.take(i + 1).drop_last() =~= all.take(i as int));
            assert(all.take(i + 1).last() == all[i as int]);
        }
        join_fragment(&mut acc, &frag);
        i += 1;
    }
    assert(all.take(nodes.len() as int) =~= all);
    acc
}

/// A list of nodes rendered inline.
pub fn render_inline_list(nodes: &Vec<DomNode>) -> (r: Vec<char>)
    ensures
        r@ == inline_list(node_views(nodes@)),
    decreases nodes, 1nat,
{
    let joined = render_inline_fold(nodes);
    trimmed(&joined)
}

/// The lines of the `li` children among `nodes`.
fn render_list_items(nodes: &Vec<DomNode>, ordered: bool) -> (r: Vec<char>)
    ensures
        r@ == list_fold(node_views(nodes@), ordered).0,
    decreases nodes, 0nat,
{
    let mut out: Vec<char> = Vec::new();
    let mut count: usize = 0;
    let mut i: usize = 0;
    let ghost all = node_views(nodes@);
    proof {
        lemma_node_views(nodes@);
        assert(all.take(0) =~= Seq::<Dom>::empty());
    }
    while i < nodes.len()
        invariant
            i <= nodes.len(),
            count <= i,
            all == node_views(nodes@),
            all.len() == nodes.len(),
            forall|k: int| 0 <= k < nodes.len() ==> (#[trigger] all[k]) == nodes@[k]@,
            (out@, count as nat) == list_fold(all.take(i as int), ordered),
        decreases nodes.len() - i,
    {
        proof {
            assert(all.take(i + 1).drop_last() =~= all.take(i as int));
            assert(all.take(i + 1).last() == all[i as int]);
        }
        match &nodes[i] {
            DomNode::Element { tag, attrs, children } => {
                if kind_of(tag) == TagKind::ListItem {
                    count += 1;
                    if ordered {
                        let number = decimal_of(count);
                        push_all(&mut out, &number);
                        push_str(&mut out, ". ");
                        assert(out@ =~= list_fold(all.take(i as int), ordered).0 + item_marker(
                            ordered,
                            count as nat,
                        ));
                    } else {
                        push_str(&mut out, "- ");
                    }
                    let inner = render_inline_list(children);
                    push_all(&mut out, &inner);
                    push_str(&mut out, "\n");
                }
            },
            DomNode::Text { .. } => {},
        }
        i += 1;
    }
    assert(all.take(nodes.len() as int) =~= all);
    out
}

/// A node rendered as flow content.
pub fn render_block_node(n: &DomNode) -> (r: Vec<char>)
    ensures
        r@ == block_node(n@),
    decreases n, 0nat,
{
    match n {
        DomNode::Text { .. } => {
            let t = render_inline_node(n);
            paragraph_of(&t)
        },
        DomNode::Element { tag, attrs, children } => {
            match kind_of(tag) {
                TagKind::Heading1 => {
                    let inner = render_inline_list(children);
                    let mut r = to_chars("# ");
                    push_all(&mut r, &inner);
                    push_str(&mut r, "\n\n");
                    r
                },
                TagKind::Heading2 => {
                    let inner = render_inline_list(children);
                    let mut r = to_chars("## ");
                    push_all(&mut r, &inner);
                    push_str(&mut r, "\n\n");
                    r
                },
                TagKind::Paragraph => {
                    let inner = render_inline_list(children);
                    paragraph_of(&inner)
                },
                TagKind::UnorderedList => {
                    let mut r = render_list_items(children, false);
                    push_str(&mut r, "\n");
                    r
                },
                TagKind::OrderedList => {
                    let mut r = render_list_items(children, true);
                    push_str(&mut r, "\n");
                    r
                },
                TagKind::ListItem => {
                    let inner = render_inline_list(children);
                    if inner.len() == 0 {
                        Vec::new()
                    } else {
                        let mut r = to_chars("- ");
                        push_all(&mut r, &inner);
                        push_str(&mut r, "\n");
                        r
                    }
                },
                TagKind::Blockquote => {
                    let inner = render_inline_list(children);
                    if inner.len() == 0 {
                        Vec::new()
                    } else {
                        let lines = replaced_str(&inner, "\n", "\n> ");
                        let mut r = to_chars("> ");
                        push_all(&mut r, &lines);
                        push_str(&mut r, "\n\n");
                        r
                    }
                },
                TagKind::Stripped => Vec::new(),
                TagKind::Other => render_block_list(children),
                _ => {
                    let t = render_inline_node(n);
                    paragraph_of(&t)
                },
            }
        },
    }
}

/// A list of nodes rendered as flow content.
pub fn render_block_list(nodes: &Vec<DomNode>) -> (r: Vec<char>)
    ensures
        r@ == block_list(node_views(nodes@)),
    decreases nodes, 0nat,
{
    let mut out: Vec<char> = Vec::new();
    let mut run: Vec<char> = Vec::new();
    let mut i: usize = 0;
    let ghost all = node_views(nodes@);
    proof {
        lemma_node_views(nodes@);
        assert(all.take(0) =~= Seq::<Dom>::empty());
    }
    while i < nodes.len()
        invariant
            i <= nodes.len(),
            all == node_views(nodes@),
            all.len() == nodes.len(),
            forall|k: int| 0 <= k < nodes.len() ==> (#[trigger] all[k]) == nodes@[k]@,
            (out@, run@) == block_fold(all.take(i as int)),
        decreases nodes.len() - i,
    {
        proof {
            assert(all.take(i + 1).drop_last() =~= all.take(i as int));
            assert(all.take(i + 1).last() == all[i as int]);
        }
        if phrasing(&nodes[i]) {
            let frag = render_inline_node(&nodes[i]);
            join_fragment(&mut run, &frag);
        } else {
            let pending = paragraph_of(&run);
            push_all(&mut out, &pending);
            let block = render_block_node(&nodes[i]);
            push_all(&mut out, &block);
            run = Vec::new();
        }
        i += 1;
    }
    assert(all.take(nodes.len() as int) =~= all);
    let pending = paragraph_of(&run);
    push_all(&mut out, &pending);
    out
}

} // verus!
