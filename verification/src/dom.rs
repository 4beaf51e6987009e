//! The document tree that the renderer reads, and the parser that builds it
//! from markup. The parser recognizes tags, attributes, comments and
//! declarations and nothing more; it accepts any text.

use vstd::prelude::*;
use crate::text::{
    char_is_whitespace, find, find_char, find_char_from, find_from, has_prefix_at, is_str,
    is_whitespace_char, lemma_find_char_from, lemma_find_char_is, lemma_find_from, lemma_skip_ws,
    same_chars, skip_ws, skip_whitespace, slice_of, starts_with_at, to_chars,
};

verus! {

/// A node of a document, as mathematics has it.
pub enum Dom {
    /// A run of text.
    Text { content: Seq<char> },
    /// An element with its attributes and what it holds.
    Element { tag: Seq<char>, attrs: Seq<(Seq<char>, Seq<char>)>, children: Seq<Dom> },
}

/// A node of a document. The renderer reads it and never changes it.
#[derive(Debug)]
pub enum DomNode {
    /// A run of text.
    Text { content: Vec<char> },
    /// An element with its attributes and what it holds.
    Element { tag: Vec<char>, attrs: Vec<(Vec<char>, Vec<char>)>, children: Vec<DomNode> },
}

/// Attributes as pairs of character sequences.
pub open spec fn attr_views(attrs: Seq<(Vec<char>, Vec<char>)>) -> Seq<(Seq<char>, Seq<char>)> {
    attrs.map_values(|a: (Vec<char>, Vec<char>)| (a.0@, a.1@))
}

impl DomNode {
    /// The node as mathematics has it.
    pub open spec fn view(self) -> Dom
        decreases self,
    {
        match self {
            DomNode::Text { content } => Dom::Text { content: content@ },
            DomNode::Element { tag, attrs, children } => Dom::Element {
                tag: tag@,
                attrs: attr_views(attrs@),
                children: node_views(children@),
            },
        }
    }
}

/// The nodes of a list as mathematics has them.
pub open spec fn node_views(nodes: Seq<DomNode>) -> Seq<Dom>
    decreases nodes,
{
    if nodes.len() == 0 {
        Seq::empty()
    } else {
        node_views(nodes.drop_last()).push(nodes.last().view())
    }
}

/// `node_views` keeps length and order.
pub proof fn lemma_node_views(nodes: Seq<DomNode>)
    ensures
        node_views(nodes).len() == nodes.len(),
        forall|i: int| 0 <= i < nodes.len() ==> (#[trigger] node_views(nodes)[i]) == nodes[i]@,
    decreases nodes.len(),
{
    if nodes.len() > 0 {
        lemma_node_views(nodes.drop_last());
    }
}

/// What the scanner hands to the tree builder.
pub enum TokenModel {
    /// Text between tags.
    Text { content: Seq<char> },
    /// An opening tag.
    Open { tag: Seq<char>, attrs: Seq<(Seq<char>, Seq<char>)>, self_closing: bool },
    /// A closing tag.
    Close { tag: Seq<char> },
}

/// What the scanner hands to the tree builder.
#[derive(Debug)]
pub enum Token {
    /// Text between tags.
    Text { content: Vec<char> },
    /// An opening tag.
    Open { tag: Vec<char>, attrs: Vec<(Vec<char>, Vec<char>)>, self_closing: bool },
    /// A closing tag.
    Close { tag: Vec<char> },
}

impl Token {
    pub open spec fn view(self) -> TokenModel {
        match self {
            Token::Text { content } => TokenModel::Text { content: content@ },
            Token::Open { tag, attrs, self_closing } => TokenModel::Open {
                tag: tag@,
                attrs: attr_views(attrs@),
                self_closing,
            },
            Token::Close { tag } => TokenModel::Close { tag: tag@ },
        }
    }
}

/// The view of a token that may be absent.
pub open spec fn token_view(t: Option<Token>) -> Option<TokenModel> {
    match t {
        Some(t) => Some(t@),
        None => None,
    }
}

/// A character that ends a tag name or an attribute name.
pub open spec fn ends_name(c: char) -> bool {
    is_whitespace_char(c) || c == '/' || c == '='
}

/// A character that stands between attributes.
pub open spec fn is_separator(c: char) -> bool {
    is_whitespace_char(c) || c == '/'
}

/// The index at or after `k` where a name ends, or `x.len()`.
pub open spec fn name_end(x: Seq<char>, k: int) -> int
    decreases x.len() - k,
{
    if 0 <= k < x.len() && !ends_name(x[k]) {
        name_end(x, k + 1)
    } else {
        k
    }
}

/// The index at or after `k` of the first character that is no separator, or `x.len()`.
pub open spec fn skip_separators(x: Seq<char>, k: int) -> int
    decreases x.len() - k,
{
    if 0 <= k < x.len() && is_separator(x[k]) {
        skip_separators(x, k + 1)
    } else {
        k
    }
}

/// The index at or after `k` where an unquoted attribute value ends, or `x.len()`.
pub open spec fn value_end(x: Seq<char>, k: int) -> int
    decreases x.len() - k,
{
    if 0 <= k < x.len() && !is_whitespace_char(x[k]) {
        value_end(x, k + 1)
    } else {
        k
    }
}

/// The three scans move forward only and stay within bounds.
pub proof fn lemma_scans(x: Seq<char>, k: int)
    requires
        0 <= k <= x.len(),
    ensures
        k <= name_end(x, k) <= x.len(),
        k <= skip_separators(x, k) <= x.len(),
        k <= value_end(x, k) <= x.len(),
        name_end(x, k) == k && k < x.len() ==> ends_name(x[k]),
        skip_separators(x, k) < x.len() ==> !is_separator(x[skip_separators(x, k)]),
    decreases x.len() - k,
{
    if k < x.len() {
        lemma_scans(x, k + 1);
    }
}

/// The attributes written in `x` from index `k` on: names up to
/// whitespace, `/` or `=`, each with the value that follows its `=`, in
/// double quotes, in single quotes or bare up to the next whitespace. A
/// name without `=` has the empty value.
pub open spec fn attrs_from(x: Seq<char>, k: int) -> Seq<(Seq<char>, Seq<char>)>
    decreases x.len() - k,
{
    if k < 0 || k >= x.len() {
        Seq::empty()
    } else {
        let a = skip_separators(x, k);
        let ne = name_end(x, a);
        let b = skip_ws(x, ne);
        let c = skip_ws(x, b + 1);
        proof {
            lemma_scans(x, k);
            lemma_scans(x, a);
            lemma_skip_ws(x, ne);
            if b < x.len() {
                lemma_skip_ws(x, b + 1);
            }
            if c <= x.len() && b < x.len() {
                lemma_scans(x, c);
                if c < x.len() {
                    lemma_find_char_from(x, x[c], c + 1);
                }
            }
        }
        if a >= x.len() {
            Seq::empty()
        } else if ne == a {
            attrs_from(x, a + 1)
        } else if b < x.len() && x[b] == '=' {
            if c < x.len() && (x[c] == '"' || x[c] == '\'') {
                let e = find_char_from(x, x[c], c + 1);
                seq![(x.subrange(a, ne), x.subrange(c + 1, e))] + attrs_from(
                    x,
                    if e < x.len() {
                        e + 1
                    } else {
                        e
                    },
                )
            } else {
                let e = value_end(x, c);
                seq![(x.subrange(a, ne), x.subrange(c, e))] + attrs_from(x, e)
            }
        } else {
            seq![(x.subrange(a, ne), Seq::<char>::empty())] + attrs_from(x, ne)
        }
    }
}

/// What the text between `<` and `>` stands for: nothing if it is empty,
/// a declaration (`!`, `?`) or has no name; a closing tag if it starts with
/// `/`; an opening tag otherwise, self-closing if it ends with `/`.
pub open spec fn tag_token(inner: Seq<char>) -> Option<TokenModel> {
    if inner.len() == 0 || inner[0] == '!' || inner[0] == '?' {
        None
    } else if inner[0] == '/' {
        let e = name_end(inner, 1);
        if e <= 1 {
            None
        } else {
            Some(TokenModel::Close { tag: inner.subrange(1, e) })
        }
    } else {
        let e = name_end(inner, 0);
        if e <= 0 {
            None
        } else {
            Some(
                TokenModel::Open {
                    tag: inner.subrange(0, e),
                    attrs: attrs_from(inner, e),
                    self_closing: inner.last() == '/',
                },
            )
        }
    }
}

/// The token that starts at index `i` of `s`, if what starts there is one,
/// and the index at which the scan goes on. Text runs up to the next `<`; a
/// comment runs up to `-->`, or to the end if it is not closed; a tag runs
/// up to the next `>`; a `<` with no `>` after it begins text that runs to
/// the end.
pub open spec fn token_at(s: Seq<char>, i: int) -> (Option<TokenModel>, int) {
    if s[i] != '<' {
        let j = find_char_from(s, '<', i);
        (Some(TokenModel::Text { content: s.subrange(i, j) }), j)
    } else if has_prefix_at(s, i, "<!--"@) {
        let e = find_from(s, "-->"@, i + "<!--"@.len());
        (
            None,
            if e < s.len() {
                e + "-->"@.len()
            } else {
                s.len() as int
            },
        )
    } else {
        let gt = find_char_from(s, '>', i + 1);
        if gt >= s.len() {
            (Some(TokenModel::Text { content: s.subrange(i, s.len() as int) }), s.len() as int)
        } else {
            (tag_token(s.subrange(i + 1, gt)), gt + 1)
        }
    }
}

/// The scan goes forward and stays within bounds.
pub proof fn lemma_token_at(s: Seq<char>, i: int)
    requires
        0 <= i < s.len(),
    ensures
        i < token_at(s, i).1 <= s.len(),
{
    if s[i] != '<' {
        lemma_find_char_from(s, '<', i);
    } else if has_prefix_at(s, i, "<!--"@) {
        reveal_strlit("<!--");
        reveal_strlit("-->");
        lemma_find_from(s, "-->"@, i + "<!--"@.len());
        let e = find_from(s, "-->"@, i + "<!--"@.len());
        if e < s.len() {
            assert(has_prefix_at(s, e, "-->"@));
        }
    } else {
        lemma_find_char_from(s, '>', i + 1);
    }
}

/// The tokens of `s` from index `i` on.
pub open spec fn tokens_from(s: Seq<char>, i: int) -> Seq<TokenModel>
    decreases s.len() - i,
{
    if i < 0 || i >= s.len() {
        Seq::empty()
    } else {
        proof {
            lemma_token_at(s, i);
        }
        let rest = tokens_from(s, token_at(s, i).1);
        match token_at(s, i).0 {
            Some(t) => seq![t] + rest,
            None => rest,
        }
    }
}

/// How many elements can be open at a time. An element that would be
/// opened inside that many is taken to hold nothing, so that what follows
/// it stands beside it. This keeps the tree shallow whatever the markup.
pub const MAX_NESTING: usize = 256;

/// An element that is open while the tree is built.
pub struct Frame {
    pub tag: Seq<char>,
    pub attrs: Seq<(Seq<char>, Seq<char>)>,
    pub children: Seq<Dom>,
}

/// Elements that never hold anything.
pub open spec fn is_void_tag(tag: Seq<char>) -> bool {
    tag == "area"@ || tag == "base"@ || tag == "br"@ || tag == "col"@ || tag == "embed"@ || tag
        == "hr"@ || tag == "img"@ || tag == "input"@ || tag == "link"@ || tag == "meta"@ || tag
        == "source"@ || tag == "track"@ || tag == "wbr"@
}

/// The stack with `node` added to what the innermost open element holds.
pub open spec fn append_child(stack: Seq<Frame>, node: Dom) -> Seq<Frame> {
    if stack.len() == 0 {
        stack
    } else {
        stack.update(
            stack.len() - 1,
            Frame { children: stack.last().children.push(node), ..stack.last() },
        )
    }
}

/// The stack with its innermost open element closed and added to the one
/// around it. The outermost frame, which stands for the document, stays.
pub open spec fn close_top(stack: Seq<Frame>) -> Seq<Frame> {
    if stack.len() < 2 {
        stack
    } else {
        append_child(
            stack.drop_last(),
            Dom::Element {
                tag: stack.last().tag,
                attrs: stack.last().attrs,
                children: stack.last().children,
            },
        )
    }
}

/// The stack with its `n` innermost open elements closed.
pub open spec fn close_n(stack: Seq<Frame>, n: nat) -> Seq<Frame>
    decreases n,
{
    if n == 0 {
        stack
    } else {
        close_n(close_top(stack), (n - 1) as nat)
    }
}

/// How many elements a closing tag `tag` closes, looking at the frames
/// from index `k` outward: all down to the innermost open element of that
/// name, or none if no such element is open.
pub open spec fn open_depth_from(stack: Seq<Frame>, tag: Seq<char>, k: int) -> nat
    decreases k,
{
    if k < 1 || k >= stack.len() {
        0
    } else if stack[k].tag == tag {
        (stack.len() - k) as nat
    } else {
        open_depth_from(stack, tag, k - 1)
    }
}

/// How many elements a closing tag `tag` closes.
pub open spec fn open_depth(stack: Seq<Frame>, tag: Seq<char>) -> nat {
    open_depth_from(stack, tag, stack.len() - 1)
}

/// The stack after one more token: text and elements that hold nothing
/// are added to the innermost open element, an opening tag opens an
/// element unless too many are open, and a closing tag closes the
/// innermost open element of its name together with all that were opened
/// inside it.
pub open spec fn build_step(stack: Seq<Frame>, token: TokenModel) -> Seq<Frame> {
    match token {
        TokenModel::Text { content } => append_child(stack, Dom::Text { content }),
        TokenModel::Open { tag, attrs, self_closing } => if self_closing || is_void_tag(tag)
            || stack.len() > MAX_NESTING {
            append_child(stack, Dom::Element { tag, attrs, children: Seq::empty() })
        } else {
            stack.push(Frame { tag, attrs, children: Seq::empty() })
        },
        TokenModel::Close { tag } => close_n(stack, open_depth(stack, tag)),
    }
}

/// The top-level nodes once every token was taken in: what is still open
/// is closed at the end of the document.
pub open spec fn build_from(stack: Seq<Frame>, tokens: Seq<TokenModel>) -> Seq<Dom>
    decreases tokens.len(),
{
    if tokens.len() == 0 {
        if stack.len() == 0 {
            Seq::empty()
        } else {
            close_n(stack, (stack.len() - 1) as nat)[0].children
        }
    } else {
        build_from(build_step(stack, tokens[0]), tokens.drop_first())
    }
}

/// The stack of an empty document.
pub open spec fn document_frame() -> Seq<Frame> {
    seq![Frame { tag: Seq::empty(), attrs: Seq::empty(), children: Seq::empty() }]
}

/// The top-level nodes of the document that the markup `s` stands for.
pub open spec fn parse(s: Seq<char>) -> Seq<Dom> {
    build_from(document_frame(), tokens_from(s, 0))
}

/// How many elements lie one inside the other at most, from `d` down.
pub open spec fn height(d: Dom) -> nat
    decreases d, 0nat,
{
    match d {
        Dom::Text { .. } => 0,
        Dom::Element { children, .. } => 1 + max_height(children),
    }
}

/// The greatest height among `nodes`.
pub open spec fn max_height(nodes: Seq<Dom>) -> nat
    decreases nodes, 0nat,
{
    if nodes.len() == 0 {
        0
    } else if max_height(nodes.drop_last()) >= height(nodes.last()) {
        max_height(nodes.drop_last())
    } else {
        height(nodes.last())
    }
}

/// The tree under construction is shallow: no more elements are open
/// than may be, and what an open element holds is the lower the deeper
/// the element lies.
pub open spec fn shallow(stack: Seq<Frame>) -> bool {
    &&& 1 <= stack.len() <= MAX_NESTING + 1
    &&& forall|k: int|
        0 <= k < stack.len() ==> max_height((#[trigger] stack[k]).children) + k <= MAX_NESTING + 1
}

/// Adding a node that is low enough keeps the tree shallow.
pub proof fn lemma_append_child_shallow(stack: Seq<Frame>, node: Dom)
    requires
        shallow(stack),
        height(node) + stack.len() - 1 <= MAX_NESTING + 1,
    ensures
        shallow(append_child(stack, node)),
{
    let top = stack.last();
    assert(top.children.push(node).drop_last() =~= top.children);
    let after = append_child(stack, node);
    assert forall|k: int| 0 <= k < after.len() implies max_height((#[trigger] after[k]).children)
        + k <= MAX_NESTING + 1 by {
        if k < stack.len() - 1 {
            assert(after[k] == stack[k]);
        }
    }
}

/// Closing elements keeps the tree shallow.
pub proof fn lemma_close_n_shallow(stack: Seq<Frame>, n: nat)
    requires
        shallow(stack),
    ensures
        shallow(close_n(stack, n)),
        close_n(stack, n).len() >= 1,
        n < stack.len() ==> close_n(stack, n).len() == stack.len() - n,
    decreases n,
{
    if n > 0 {
        if stack.len() >= 2 {
            let top = stack.last();
            let below = stack.drop_last();
            let node = Dom::Element { tag: top.tag, attrs: top.attrs, children: top.children };
            assert(shallow(below)) by {
                assert forall|k: int| 0 <= k < below.len() implies max_height(
                    (#[trigger] below[k]).children,
                ) + k <= MAX_NESTING + 1 by {
                    assert(below[k] == stack[k]);
                }
            }
            assert(max_height(stack[stack.len() - 1].children) + (stack.len() - 1) <= MAX_NESTING
                + 1);
            lemma_append_child_shallow(below, node);
        }
        lemma_close_n_shallow(close_top(stack), (n - 1) as nat);
    }
}

/// Taking in a token keeps the tree shallow.
pub proof fn lemma_build_step_shallow(stack: Seq<Frame>, token: TokenModel)
    requires
        shallow(stack),
    ensures
        shallow(build_step(stack, token)),
{
    match token {
        TokenModel::Text { content } => {
            lemma_append_child_shallow(stack, Dom::Text { content });
        },
        TokenModel::Open { tag, attrs, self_closing } => {
            if self_closing || is_void_tag(tag) || stack.len() > MAX_NESTING {
                let node = Dom::Element { tag, attrs, children: Seq::empty() };
                lemma_append_child_shallow(stack, node);
            } else {
                let after = stack.push(Frame { tag, attrs, children: Seq::empty() });
                assert forall|k: int| 0 <= k < after.len() implies max_height(
                    (#[trigger] after[k]).children,
                ) + k <= MAX_NESTING + 1 by {
                    if k < stack.len() {
                        assert(after[k] == stack[k]);
                    }
                }
            }
        },
        TokenModel::Close { tag } => {
            lemma_close_n_shallow(stack, open_depth(stack, tag));
        },
    }
}

/// What is built from a shallow tree under construction is shallow.
pub proof fn lemma_build_from_shallow(stack: Seq<Frame>, tokens: Seq<TokenModel>)
    requires
        shallow(stack),
    ensures
        max_height(build_from(stack, tokens)) <= MAX_NESTING + 1,
    decreases tokens.len(),
{
    if tokens.len() == 0 {
        lemma_close_n_shallow(stack, (stack.len() - 1) as nat);
        let closed = close_n(stack, (stack.len() - 1) as nat);
        assert(max_height(closed[0].children) + 0 <= MAX_NESTING + 1);
    } else {
        lemma_build_step_shallow(stack, tokens[0]);
        lemma_build_from_shallow(build_step(stack, tokens[0]), tokens.drop_first());
    }
}

/// Whatever the markup, no more than `MAX_NESTING + 1` elements lie one
/// inside the other in the tree that it stands for, so that the tree can
/// be walked in bounded depth.
pub proof fn lemma_parse_is_shallow(s: Seq<char>)
    ensures
        max_height(parse(s)) <= MAX_NESTING + 1,
{
    let start = document_frame();
    assert(start[0].children =~= Seq::<Dom>::empty());
    lemma_build_from_shallow(start, tokens_from(s, 0));
}

/// Where no character of `x[k..j]` ends a name, and `j` is the end of `x`
/// or holds one that does, the name that starts at `k` ends at `j`.
pub proof fn lemma_name_end_is(x: Seq<char>, k: int, j: int)
    requires
        0 <= k <= j <= x.len(),
        forall|i: int| k <= i < j ==> !ends_name(x[i]),
        j < x.len() ==> ends_name(x[j]),
    ensures
        name_end(x, k) == j,
    decreases j - k,
{
    if k < j {
        lemma_name_end_is(x, k + 1, j);
    }
}

/// A tag that holds a name and nothing else opens an element of that
/// name, without attributes.
pub proof fn lemma_plain_tag(name: Seq<char>)
    requires
        name.len() > 0,
        forall|i: int| 0 <= i < name.len() ==> !ends_name(name[i]),
        name[0] != '!',
        name[0] != '?',
    ensures
        tag_token(name) == Some(
            TokenModel::Open { tag: name, attrs: Seq::empty(), self_closing: false },
        ),
{
    lemma_name_end_is(name, 0, name.len() as int);
    assert(name.subrange(0, name.len() as int) =~= name);
    assert(!ends_name(name[name.len() - 1]));
}

/// The markup of a heading and a paragraph that are opened and never closed.
pub open spec fn unclosed_markup() -> Seq<char> {
    "<h1>Title<p>Body"@
}

/// The tokens of the markup with the unclosed heading and paragraph.
pub open spec fn unclosed_tokens() -> Seq<TokenModel> {
    seq![
        TokenModel::Open { tag: "h1"@, attrs: Seq::empty(), self_closing: false },
        TokenModel::Text { content: "Title"@ },
        TokenModel::Open { tag: "p"@, attrs: Seq::empty(), self_closing: false },
        TokenModel::Text { content: "Body"@ },
    ]
}

/// The tree of the markup with the unclosed heading and paragraph: the
/// heading holds its text and the paragraph, and the paragraph holds its text.
pub open spec fn unclosed_tree() -> Seq<Dom> {
    seq![
        Dom::Element {
            tag: "h1"@,
            attrs: Seq::empty(),
            children: seq![
                Dom::Text { content: "Title"@ },
                Dom::Element {
                    tag: "p"@,
                    attrs: Seq::empty(),
                    children: seq![Dom::Text { content: "Body"@ }],
                },
            ],
        },
    ]
}

/// The scanner reads the unclosed markup as two opening tags, each
/// followed by its text.
pub proof fn lemma_unclosed_tokens()
    ensures
        tokens_from(unclosed_markup(), 0) == unclosed_tokens(),
{
    reveal_strlit("<h1>Title<p>Body");
    reveal_strlit("<!--");
    reveal_strlit("-->");
    reveal_strlit("h1");
    reveal_strlit("Title");
    reveal_strlit("p");
    reveal_strlit("Body");
    let s = unclosed_markup();
    let none = Seq::<TokenModel>::empty();
    let t1 = TokenModel::Open { tag: "h1"@, attrs: Seq::empty(), self_closing: false };
    let t2 = TokenModel::Text { content: "Title"@ };
    let t3 = TokenModel::Open { tag: "p"@, attrs: Seq::empty(), self_closing: false };
    let t4 = TokenModel::Text { content: "Body"@ };
    // the text at the end
    lemma_token_at(s, 12);
    lemma_find_char_is(s, '<', 12, 16);
    assert(s.subrange(12, 16) =~= "Body"@);
    assert(token_at(s, 12) == (Some(t4), 16int));
    assert(tokens_from(s, 16) == none);
    assert(tokens_from(s, 12) =~= seq![t4]);
    // the tag of the paragraph
    lemma_token_at(s, 9);
    assert(!has_prefix_at(s, 9, "<!--"@)) by {
        if has_prefix_at(s, 9, "<!--"@) {
            assert(s.subrange(9, 13)[1] == "<!--"@[1]);
        }
    }
    lemma_find_char_is(s, '>', 10, 11);
    assert(s.subrange(10, 11) =~= "p"@);
    lemma_plain_tag("p"@);
    assert(token_at(s, 9) == (Some(t3), 12int));
    assert(tokens_from(s, 9) =~= seq![t3, t4]);
    // the text of the heading
    lemma_token_at(s, 4);
    lemma_find_char_is(s, '<', 4, 9);
    assert(s.subrange(4, 9) =~= "Title"@);
    assert(token_at(s, 4) == (Some(t2), 9int));
    assert(tokens_from(s, 4) =~= seq![t2, t3, t4]);
    // the tag of the heading
    lemma_token_at(s, 0);
    assert(!has_prefix_at(s, 0, "<!--"@)) by {
        if has_prefix_at(s, 0, "<!--"@) {
            assert(s.subrange(0, 4)[1] == "<!--"@[1]);
        }
    }
    lemma_find_char_is(s, '>', 1, 3);
    assert(s.subrange(1, 3) =~= "h1"@);
    lemma_plain_tag("h1"@);
    assert(token_at(s, 0) == (Some(t1), 4int));
    assert(tokens_from(s, 0) =~= seq![t1, t2, t3, t4]);
}

/// Neither `h1` nor `p` names an element that never holds anything.
pub proof fn lemma_heading_and_paragraph_hold_content()
    ensures
        !is_void_tag("h1"@),
        !is_void_tag("p"@),
{
    reveal_strlit("h1");
    reveal_strlit("p");
    reveal_strlit("area");
    reveal_strlit("base");
    reveal_strlit("br");
    reveal_strlit("col");
    reveal_strlit("embed");
    reveal_strlit("hr");
    reveal_strlit("img");
    reveal_strlit("input");
    reveal_strlit("link");
    reveal_strlit("meta");
    reveal_strlit("source");
    reveal_strlit("track");
    reveal_strlit("wbr");
    assert("h1"@[1] != "br"@[1]);
    assert("h1"@[1] != "hr"@[1]);
    assert("p"@.len() == 1);
    assert("area"@.len() == 4 && "base"@.len() == 4 && "br"@.len() == 2 && "col"@.len() == 3);
    assert("embed"@.len() == 5 && "hr"@.len() == 2 && "img"@.len() == 3 && "input"@.len() == 5);
    assert("link"@.len() == 4 && "meta"@.len() == 4 && "source"@.len() == 6);
    assert("track"@.len() == 5 && "wbr"@.len() == 3);
}

/// An element that is open at the end of the markup is closed there: the
/// tree of the unclosed markup holds the paragraph inside the heading.
pub proof fn lemma_unclosed_tree()
    ensures
        parse(unclosed_markup()) == unclosed_tree(),
{
    lemma_unclosed_tokens();
    lemma_heading_and_paragraph_hold_content();
    let none = Seq::<Dom>::empty();
    let no_attrs = Seq::<(Seq<char>, Seq<char>)>::empty();
    let title = Dom::Text { content: "Title"@ };
    let body = Dom::Text { content: "Body"@ };
    let paragraph = Dom::Element { tag: "p"@, attrs: no_attrs, children: seq![body] };
    let heading = Dom::Element { tag: "h1"@, attrs: no_attrs, children: seq![title, paragraph] };
    let root = Frame { tag: Seq::empty(), attrs: no_attrs, children: none };
    let tokens = unclosed_tokens();
    let s0 = document_frame();
    let s1 = seq![root, Frame { tag: "h1"@, attrs: no_attrs, children: none }];
    let s2 = seq![root, Frame { tag: "h1"@, attrs: no_attrs, children: seq![title] }];
    let s3 = seq![
        root,
        Frame { tag: "h1"@, attrs: no_attrs, children: seq![title] },
        Frame { tag: "p"@, attrs: no_attrs, children: none },
    ];
    let s4 = seq![
        root,
        Frame { tag: "h1"@, attrs: no_attrs, children: seq![title] },
        Frame { tag: "p"@, attrs: no_attrs, children: seq![body] },
    ];
    let s5 = seq![root, Frame { tag: "h1"@, attrs: no_attrs, children: seq![title, paragraph] }];
    let s6 = seq![Frame { tag: Seq::empty(), attrs: no_attrs, children: seq![heading] }];
    assert(build_step(s0, tokens[0]) =~= s1);
    assert(build_step(s1, tokens[1]) =~= s2) by {
        assert(none.push(title) =~= seq![title]);
    }
    assert(build_step(s2, tokens[2]) =~= s3);
    assert(build_step(s3, tokens[3]) =~= s4) by {
        assert(none.push(body) =~= seq![body]);
    }
    assert(close_top(s4) =~= s5) by {
        assert(s4.drop_last() =~= s2);
        assert(seq![title].push(paragraph) =~= seq![title, paragraph]);
    }
    assert(close_top(s5) =~= s6) by {
        assert(s5.drop_last() =~= s0);
        assert(none.push(heading) =~= seq![heading]);
    }
    assert(close_n(s4, 2) == s6) by {
        assert(close_n(s6, 0) == s6);
        assert(close_n(s5, 1) == close_n(close_top(s5), 0));
        assert(close_n(s4, 2) == close_n(close_top(s4), 1));
    }
    let r1 = tokens.drop_first();
    let r2 = r1.drop_first();
    let r3 = r2.drop_first();
    let r4 = r3.drop_first();
    assert(r4.len() == 0);
    assert(r1[0] == tokens[1] && r2[0] == tokens[2] && r3[0] == tokens[3]);
    assert(build_from(s4, r4) == s6[0].children);
    assert(build_from(s3, r3) == build_from(s4, r4));
    assert(build_from(s2, r2) == build_from(s3, r3));
    assert(build_from(s1, r1) == build_from(s2, r2));
    assert(build_from(s0, tokens) == build_from(s1, r1));
    assert(s6[0].children =~= unclosed_tree());
}

/// A tag that holds `/` and a name closes the element of that name.
pub proof fn lemma_closing_tag(name: Seq<char>)
    requires
        name.len() > 0,
        forall|i: int| 0 <= i < name.len() ==> !ends_name(name[i]),
    ensures
        tag_token(seq!['/'] + name) == Some(TokenModel::Close { tag: name }),
{
    let inner = seq!['/'] + name;
    assert forall|i: int| 1 <= i < inner.len() implies !ends_name(inner[i]) by {
        assert(inner[i] == name[i - 1]);
    }
    lemma_name_end_is(inner, 1, inner.len() as int);
    assert(inner.subrange(1, inner.len() as int) =~= name);
}

/// The markup of a heading followed by a paragraph that holds strong text.
pub open spec fn sample_markup() -> Seq<char> {
    "<h1>A</h1><p>B <strong>C</strong></p>"@
}

/// The tokens of the sample markup.
pub open spec fn sample_tokens() -> Seq<TokenModel> {
    seq![
        TokenModel::Open { tag: "h1"@, attrs: Seq::empty(), self_closing: false },
        TokenModel::Text { content: "A"@ },
        TokenModel::Close { tag: "h1"@ },
        TokenModel::Open { tag: "p"@, attrs: Seq::empty(), self_closing: false },
        TokenModel::Text { content: "B "@ },
        TokenModel::Open { tag: "strong"@, attrs: Seq::empty(), self_closing: false },
        TokenModel::Text { content: "C"@ },
        TokenModel::Close { tag: "strong"@ },
        TokenModel::Close { tag: "p"@ },
    ]
}

/// The tree of the sample markup: a heading, and a paragraph that holds
/// text and a strong element.
pub open spec fn sample_tree() -> Seq<Dom> {
    seq![
        Dom::Element {
            tag: "h1"@,
            attrs: Seq::empty(),
            children: seq![Dom::Text { content: "A"@ }],
        },
        Dom::Element {
            tag: "p"@,
            attrs: Seq::empty(),
            children: seq![
                Dom::Text { content: "B "@ },
                Dom::Element {
                    tag: "strong"@,
                    attrs: Seq::empty(),
                    children: seq![Dom::Text { content: "C"@ }],
                },
            ],
        },
    ]
}

/// The scanner reads the sample markup as its tags and the texts between them.
pub proof fn lemma_sample_tokens()
    ensures
        tokens_from(sample_markup(), 0) == sample_tokens(),
{
    reveal_strlit("<h1>A</h1><p>B <strong>C</strong></p>");
    reveal_strlit("<!--");
    reveal_strlit("-->");
    reveal_strlit("h1");
    reveal_strlit("A");
    reveal_strlit("p");
    reveal_strlit("B ");
    reveal_strlit("strong");
    reveal_strlit("C");
    let s = sample_markup();
    let none = Seq::<TokenModel>::empty();
    let t = sample_tokens();
    lemma_plain_tag("h1"@);
    lemma_plain_tag("p"@);
    lemma_plain_tag("strong"@);
    lemma_closing_tag("h1"@);
    lemma_closing_tag("p"@);
    lemma_closing_tag("strong"@);
    assert(tokens_from(s, 37) == none);
    // </p>
    lemma_token_at(s, 33);
    assert(!has_prefix_at(s, 33, "<!--"@)) by {
        if has_prefix_at(s, 33, "<!--"@) {
            assert(s.subrange(33, 37)[1] == "<!--"@[1]);
        }
    }
    lemma_find_char_is(s, '>', 34, 36);
    assert(s.subrange(34, 36) =~= seq!['/'] + "p"@);
    assert(token_at(s, 33) == (Some(t[8]), 37int));
    assert(tokens_from(s, 33) =~= t.subrange(8, 9));
    // </strong>
    lemma_token_at(s, 24);
    assert(!has_prefix_at(s, 24, "<!--"@)) by {
        if has_prefix_at(s, 24, "<!--"@) {
            assert(s.subrange(24, 28)[1] == "<!--"@[1]);
        }
    }
    lemma_find_char_is(s, '>', 25, 32);
    assert(s.subrange(25, 32) =~= seq!['/'] + "strong"@);
    assert(token_at(s, 24) == (Some(t[7]), 33int));
    assert(tokens_from(s, 24) =~= t.subrange(7, 9));
    // C
    lemma_token_at(s, 23);
    lemma_find_char_is(s, '<', 23, 24);
    assert(s.subrange(23, 24) =~= "C"@);
    assert(token_at(s, 23) == (Some(t[6]), 24int));
    assert(tokens_from(s, 23) =~= t.subrange(6, 9));
    // <strong>
    lemma_token_at(s, 15);
    assert(!has_prefix_at(s, 15, "<!--"@)) by {
        if has_prefix_at(s, 15, "<!--"@) {
            assert(s.subrange(15, 19)[1] == "<!--"@[1]);
        }
    }
    lemma_find_char_is(s, '>', 16, 22);
    assert(s.subrange(16, 22) =~= "strong"@);
    assert(token_at(s, 15) == (Some(t[5]), 23int));
    assert(tokens_from(s, 15) =~= t.subrange(5, 9));
    // B and a space
    lemma_token_at(s, 13);
    lemma_find_char_is(s, '<', 13, 15);
    assert(s.subrange(13, 15) =~= "B "@);
    assert(token_at(s, 13) == (Some(t[4]), 15int));
    assert(tokens_from(s, 13) =~= t.subrange(4, 9));
    // <p>
    lemma_token_at(s, 10);
    assert(!has_prefix_at(s, 10, "<!--"@)) by {
        if has_prefix_at(s, 10, "<!--"@) {
            assert(s.subrange(10, 14)[1] == "<!--"@[1]);
        }
    }
    lemma_find_char_is(s, '>', 11, 12);
    assert(s.subrange(11, 12) =~= "p"@);
    assert(token_at(s, 10) == (Some(t[3]), 13int));
    assert(tokens_from(s, 10) =~= t.subrange(3, 9));
    // </h1>
    lemma_token_at(s, 5);
    assert(!has_prefix_at(s, 5, "<!--"@)) by {
        if has_prefix_at(s, 5, "<!--"@) {
            assert(s.subrange(5, 9)[1] == "<!--"@[1]);
        }
    }
    lemma_find_char_is(s, '>', 6, 9);
    assert(s.subrange(6, 9) =~= seq!['/'] + "h1"@);
    assert(token_at(s, 5) == (Some(t[2]), 10int));
    assert(tokens_from(s, 5) =~= t.subrange(2, 9));
    // A
    lemma_token_at(s, 4);
    lemma_find_char_is(s, '<', 4, 5);
    assert(s.subrange(4, 5) =~= "A"@);
    assert(token_at(s, 4) == (Some(t[1]), 5int));
    assert(tokens_from(s, 4) =~= t.subrange(1, 9));
    // <h1>
    lemma_token_at(s, 0);
    assert(!has_prefix_at(s, 0, "<!--"@)) by {
        if has_prefix_at(s, 0, "<!--"@) {
            assert(s.subrange(0, 4)[1] == "<!--"@[1]);
        }
    }
    lemma_find_char_is(s, '>', 1, 3);
    assert(s.subrange(1, 3) =~= "h1"@);
    assert(token_at(s, 0) == (Some(t[0]), 4int));
    assert(tokens_from(s, 0) =~= t);
}

/// `strong` names no element that never holds anything.
pub proof fn lemma_strong_holds_content()
    ensures
        !is_void_tag("strong"@),
{
    reveal_strlit("strong");
    reveal_strlit("area");
    reveal_strlit("base");
    reveal_strlit("br");
    reveal_strlit("col");
    reveal_strlit("embed");
    reveal_strlit("hr");
    reveal_strlit("img");
    reveal_strlit("input");
    reveal_strlit("link");
    reveal_strlit("meta");
    reveal_strlit("source");
    reveal_strlit("track");
    reveal_strlit("wbr");
    assert("strong"@.len() == 6);
    assert("area"@.len() == 4 && "base"@.len() == 4 && "br"@.len() == 2 && "col"@.len() == 3);
    assert("embed"@.len() == 5 && "hr"@.len() == 2 && "img"@.len() == 3 && "input"@.len() == 5);
    assert("link"@.len() == 4 && "meta"@.len() == 4 && "track"@.len() == 5 && "wbr"@.len() == 3);
    assert("strong"@[1] != "source"@[1]);
}

/// The tree of the sample markup is the heading and the paragraph side by
/// side, each closed by its own closing tag.
pub proof fn lemma_sample_tree()
    ensures
        parse(sample_markup()) == sample_tree(),
{
    lemma_sample_tokens();
    lemma_heading_and_paragraph_hold_content();
    lemma_strong_holds_content();
    reveal_strlit("h1");
    reveal_strlit("p");
    reveal_strlit("strong");
    assert("h1"@.len() == 2 && "p"@.len() == 1 && "strong"@.len() == 6);
    let none = Seq::<Dom>::empty();
    let no_attrs = Seq::<(Seq<char>, Seq<char>)>::empty();
    let a = Dom::Text { content: "A"@ };
    let b = Dom::Text { content: "B "@ };
    let c = Dom::Text { content: "C"@ };
    let strong = Dom::Element { tag: "strong"@, attrs: no_attrs, children: seq![c] };
    let heading = Dom::Element { tag: "h1"@, attrs: no_attrs, children: seq![a] };
    let para = Dom::Element { tag: "p"@, attrs: no_attrs, children: seq![b, strong] };
    let root = Frame { tag: Seq::empty(), attrs: no_attrs, children: none };
    let root1 = Frame { tag: Seq::empty(), attrs: no_attrs, children: seq![heading] };
    let root2 = Frame { tag: Seq::empty(), attrs: no_attrs, children: seq![heading, para] };
    let t = sample_tokens();
    let s0 = document_frame();
    let s1 = seq![root, Frame { tag: "h1"@, attrs: no_attrs, children: none }];
    let s2 = seq![root, Frame { tag: "h1"@, attrs: no_attrs, children: seq![a] }];
    let s3 = seq![root1];
    let s4 = seq![root1, Frame { tag: "p"@, attrs: no_attrs, children: none }];
    let s5 = seq![root1, Frame { tag: "p"@, attrs: no_attrs, children: seq![b] }];
    let s6 = seq![
        root1,
        Frame { tag: "p"@, attrs: no_attrs, children: seq![b] },
        Frame { tag: "strong"@, attrs: no_attrs, children: none },
    ];
    let s7 = seq![
        root1,
        Frame { tag: "p"@, attrs: no_attrs, children: seq![b] },
        Frame { tag: "strong"@, attrs: no_attrs, children: seq![c] },
    ];
    let s8 = seq![root1, Frame { tag: "p"@, attrs: no_attrs, children: seq![b, strong] }];
    let s9 = seq![root2];
    assert(build_step(s0, t[0]) =~= s1);
    assert(build_step(s1, t[1]) =~= s2) by {
        assert(none.push(a) =~= seq![a]);
    }
    assert(build_step(s2, t[2]) =~= s3) by {
        assert(open_depth(s2, "h1"@) == 1);
        assert(s2.drop_last() =~= s0);
        assert(none.push(heading) =~= seq![heading]);
        assert(close_top(s2) =~= s3);
        assert(close_n(s3, 0) == s3);
        assert(close_n(s2, 1) == close_n(close_top(s2), 0));
    }
    assert(build_step(s3, t[3]) =~= s4);
    assert(build_step(s4, t[4]) =~= s5) by {
        assert(none.push(b) =~= seq![b]);
    }
    assert(build_step(s5, t[5]) =~= s6);
    assert(build_step(s6, t[6]) =~= s7) by {
        assert(none.push(c) =~= seq![c]);
    }
    assert(build_step(s7, t[7]) =~= s8) by {
        assert(open_depth(s7, "strong"@) == 1);
        assert(s7.drop_last() =~= s5);
        assert(seq![b].push(strong) =~= seq![b, strong]);
        assert(close_top(s7) =~= s8);
        assert(close_n(s8, 0) == s8);
        assert(close_n(s7, 1) == close_n(close_top(s7), 0));
    }
    assert(build_step(s8, t[8]) =~= s9) by {
        assert(open_depth(s8, "p"@) == 1);
        assert(s8.drop_last() =~= s3);
        assert(seq![heading].push(para) =~= seq![heading, para]);
        assert(close_top(s8) =~= s9);
        assert(close_n(s9, 0) == s9);
        assert(close_n(s8, 1) == close_n(close_top(s8), 0));
    }
    let r1 = t.drop_first();
    let r2 = r1.drop_first();
    let r3 = r2.drop_first();
    let r4 = r3.drop_first();
    let r5 = r4.drop_first();
    let r6 = r5.drop_first();
    let r7 = r6.drop_first();
    let r8 = r7.drop_first();
    let r9 = r8.drop_first();
    assert(r9.len() == 0);
    assert(r1[0] == t[1] && r2[0] == t[2] && r3[0] == t[3] && r4[0] == t[4]);
    assert(r5[0] == t[5] && r6[0] == t[6] && r7[0] == t[7] && r8[0] == t[8]);
    assert(close_n(s9, 0) == s9);
    assert(build_from(s9, r9) == s9[0].children);
    assert(build_from(s8, r8) == build_from(s9, r9));
    assert(build_from(s7, r7) == build_from(s8, r8));
    assert(build_from(s6, r6) == build_from(s7, r7));
    assert(build_from(s5, r5) == build_from(s6, r6));
    assert(build_from(s4, r4) == build_from(s5, r5));
    assert(build_from(s3, r3) == build_from(s4, r4));
    assert(build_from(s2, r2) == build_from(s3, r3));
    assert(build_from(s1, r1) == build_from(s2, r2));
    assert(build_from(s0, t) == build_from(s1, r1));
    assert(s9[0].children =~= sample_tree());
}

/// The index at or after `k` where a name ends, or `x.len()`.
fn scan_name_end(x: &Vec<char>, k: usize) -> (r: usize)
    requires
        k <= x.len(),
    ensures
        r == name_end(x@, k as int),
        k <= r <= x.len(),
{
    let mut j: usize = k;
    while j < x.len() && !(char_is_whitespace(x[j]) || x[j] == '/' || x[j] == '=')
        invariant
            k <= j <= x.len(),
            name_end(x@, k as int) == name_end(x@, j as int),
        decreases x.len() - j,
    {
        j += 1;
    }
    j
}

/// The index at or after `k` of the first character that is no separator, or `x.len()`.
fn scan_separators(x: &Vec<char>, k: usize) -> (r: usize)
    requires
        k <= x.len(),
    ensures
        r == skip_separators(x@, k as int),
        k <= r <= x.len(),
{
    let mut j: usize = k;
    while j < x.len() && (char_is_whitespace(x[j]) || x[j] == '/')
        invariant
            k <= j <= x.len(),
            skip_separators(x@, k as int) == skip_separators(x@, j as int),
        decreases x.len() - j,
    {
        j += 1;
    }
    j
}

/// The index at or after `k` where an unquoted attribute value ends, or `x.len()`.
fn scan_value_end(x: &Vec<char>, k: usize) -> (r: usize)
    requires
        k <= x.len(),
    ensures
        r == value_end(x@, k as int),
        k <= r <= x.len(),
{
    let mut j: usize = k;
    while j < x.len() && !char_is_whitespace(x[j])
        invariant
            k <= j <= x.len(),
            value_end(x@, k as int) == value_end(x@, j as int),
        decreases x.len() - j,
    {
        j += 1;
    }
    j
}

/// The attributes written in `x` from index `k` on.
pub fn parse_attrs(x: &Vec<char>, k: usize) -> (r: Vec<(Vec<char>, Vec<char>)>)
    requires
        k <= x.len(),
    ensures
        attr_views(r@) == attrs_from(x@, k as int),
{
    let mut r: Vec<(Vec<char>, Vec<char>)> = Vec::new();
    let mut i: usize = k;
    assert(attr_views(r@) =~= Seq::<(Seq<char>, Seq<char>)>::empty());
    assert(attr_views(r@) + attrs_from(x@, k as int) =~= attrs_from(x@, k as int));
    while i < x.len()
        invariant
            k <= i <= x.len(),
            attrs_from(x@, k as int) == attr_views(r@) + attrs_from(x@, i as int),
        decreases x.len() - i,
    {
        let ghost done = attr_views(r@);
        let a = scan_separators(x, i);
        if a >= x.len() {
            assert(attrs_from(x@, x@.len() as int) =~= Seq::<(Seq<char>, Seq<char>)>::empty());
            i = x.len();
        } else {
            let ne = scan_name_end(x, a);
            if ne == a {
                i = a + 1;
            } else {
                let name = slice_of(x, a, ne);
                let b = skip_whitespace(x, ne);
                if b < x.len() && x[b] == '=' {
                    let c = skip_whitespace(x, b + 1);
                    if c < x.len() && (x[c] == '"' || x[c] == '\'') {
                        let e = find_char(x, x[c], c + 1);
                        let value = slice_of(x, c + 1, e);
                        r.push((name, value));
                        let next = if e < x.len() {
                            e + 1
                        } else {
                            e
                        };
                        proof {
                            let pair = (
                                x@.subrange(a as int, ne as int),
                                x@.subrange(c + 1, e as int),
                            );
                            assert(attr_views(r@) =~= done.push(pair));
                            assert(done.push(pair) + attrs_from(x@, next as int) =~= done + (
                            seq![pair] + attrs_from(x@, next as int)));
                        }
                        i = next;
                    } else {
                        let e = scan_value_end(x, c);
                        let value = slice_of(x, c, e);
                        r.push((name, value));
                        proof {
                            let pair = (
                                x@.subrange(a as int, ne as int),
                                x@.subrange(c as int, e as int),
                            );
                            assert(attr_views(r@) =~= done.push(pair));
                            assert(done.push(pair) + attrs_from(x@, e as int) =~= done + (seq![pair]
                                + attrs_from(x@, e as int)));
                        }
                        i = e;
                    }
                } else {
                    r.push((name, Vec::new()));
                    proof {
                        let pair = (x@.subrange(a as int, ne as int), Seq::<char>::empty());
                        assert(attr_views(r@) =~= done.push(pair));
                        assert(done.push(pair) + attrs_from(x@, ne as int) =~= done + (seq![pair]
                            + attrs_from(x@, ne as int)));
                    }
                    i = ne;
                }
            }
        }
    }
    assert(attrs_from(x@, x@.len() as int) =~= Seq::<(Seq<char>, Seq<char>)>::empty());
    assert(attr_views(r@) + Seq::<(Seq<char>, Seq<char>)>::empty() =~= attr_views(r@));
    r
}

/// What the text between `<` and `>` stands for.
pub fn read_tag(inner: &Vec<char>) -> (r: Option<Token>)
    ensures
        token_view(r) == tag_token(inner@),
{
    if inner.len() == 0 || inner[0] == '!' || inner[0] == '?' {
        None
    } else if inner[0] == '/' {
        let e = scan_name_end(inner, 1);
        if e <= 1 {
            None
        } else {
            Some(Token::Close { tag: slice_of(inner, 1, e) })
        }
    } else {
        let e = scan_name_end(inner, 0);
        if e == 0 {
            None
        } else {
            let attrs = parse_attrs(inner, e);
            let self_closing = inner[inner.len() - 1] == '/';
            Some(Token::Open { tag: slice_of(inner, 0, e), attrs, self_closing })
        }
    }
}

/// The token that starts at index `i` of `s`, if what starts there is one,
/// and the index at which the scan goes on.
pub fn read_token(s: &Vec<char>, i: usize) -> (r: (Option<Token>, usize))
    requires
        i < s.len(),
    ensures
        (token_view(r.0), r.1 as int) == token_at(s@, i as int),
        i < r.1 <= s.len(),
{
    proof {
        lemma_token_at(s@, i as int);
    }
    if s[i] != '<' {
        let j = find_char(s, '<', i);
        (Some(Token::Text { content: slice_of(s, i, j) }), j)
    } else {
        let comment_open = to_chars("<!--");
        if starts_with_at(s, i, &comment_open) {
            let comment_close = to_chars("-->");
            let e = find(s, &comment_close, i + comment_open.len());
            if e < s.len() {
                (None, e + comment_close.len())
            } else {
                (None, s.len())
            }
        } else {
            let gt = find_char(s, '>', i + 1);
            if gt >= s.len() {
                (Some(Token::Text { content: slice_of(s, i, s.len()) }), s.len())
            } else {
                let inner = slice_of(s, i + 1, gt);
                (read_tag(&inner), gt + 1)
            }
        }
    }
}

/// An element that is open while the tree is built.
pub struct FrameNode {
    pub tag: Vec<char>,
    pub attrs: Vec<(Vec<char>, Vec<char>)>,
    pub children: Vec<DomNode>,
}

impl FrameNode {
    pub open spec fn view(self) -> Frame {
        Frame { tag: self.tag@, attrs: attr_views(self.attrs@), children: node_views(self.children@) }
    }
}

/// The frames of a stack as mathematics has them.
pub open spec fn frame_views(stack: Seq<FrameNode>) -> Seq<Frame> {
    stack.map_values(|f: FrameNode| f@)
}

/// Whether `tag` names an element that never holds anything.
pub fn is_void(tag: &Vec<char>) -> (r: bool)
    ensures
        r == is_void_tag(tag@),
{
    is_str(tag, "area") || is_str(tag, "base") || is_str(tag, "br") || is_str(tag, "col") || is_str(
        tag,
        "embed",
    ) || is_str(tag, "hr") || is_str(tag, "img") || is_str(tag, "input") || is_str(tag, "link")
        || is_str(tag, "meta") || is_str(tag, "source") || is_str(tag, "track") || is_str(
        tag,
        "wbr",
    )
}

/// Adds `node` to what the innermost open element holds.
fn push_child(stack: &mut Vec<FrameNode>, node: DomNode)
    requires
        old(stack).len() >= 1,
    ensures
        final(stack).len() == old(stack).len(),
        frame_views(final(stack)@) == append_child(frame_views(old(stack)@), node@),
{
    let ghost before = frame_views(stack@);
    let mut top = stack.pop().unwrap();
    let ghost kept = top.children@;
    top.children.push(node);
    assert(top.children@.drop_last() =~= kept);
    stack.push(top);
    assert(frame_views(stack@) =~= append_child(before, node@));
}

/// Closes the innermost open element and adds it to the one around it.
fn close_one(stack: &mut Vec<FrameNode>)
    requires
        old(stack).len() >= 2,
    ensures
        final(stack).len() == old(stack).len() - 1,
        frame_views(final(stack)@) == close_top(frame_views(old(stack)@)),
{
    let ghost before = frame_views(stack@);
    let top = stack.pop().unwrap();
    assert(frame_views(stack@) =~= before.drop_last());
    let node = DomNode::Element { tag: top.tag, attrs: top.attrs, children: top.children };
    push_child(stack, node);
}

/// Closes the `n` innermost open elements.
fn close_many(stack: &mut Vec<FrameNode>, n: usize)
    requires
        old(stack).len() >= 1,
        n < old(stack).len(),
    ensures
        final(stack).len() == old(stack).len() - n,
        frame_views(final(stack)@) == close_n(frame_views(old(stack)@), n as nat),
{
    let mut left: usize = n;
    while left > 0
        invariant
            left <= n,
            stack.len() == old(stack).len() - (n - left),
            left < stack.len(),
            close_n(frame_views(stack@), left as nat) == close_n(
                frame_views(old(stack)@),
                n as nat,
            ),
        decreases left,
    {
        close_one(stack);
        left -= 1;
    }
}

/// How many elements a closing tag `tag` closes.
fn depth_of(stack: &Vec<FrameNode>, tag: &Vec<char>) -> (r: usize)
    requires
        stack.len() >= 1,
    ensures
        r == open_depth(frame_views(stack@), tag@),
        r < stack.len(),
{
    let mut k: usize = stack.len() - 1;
    while k >= 1
        invariant
            k < stack.len(),
            open_depth(frame_views(stack@), tag@) == open_depth_from(
                frame_views(stack@),
                tag@,
                k as int,
            ),
        decreases k,
    {
        if same_chars(&stack[k].tag, tag) {
            return stack.len() - k;
        }
        k -= 1;
    }
    0
}

/// Takes one more token into the tree that is being built.
pub fn apply_token(stack: &mut Vec<FrameNode>, token: Token)
    requires
        old(stack).len() >= 1,
    ensures
        final(stack).len() >= 1,
        frame_views(final(stack)@) == build_step(frame_views(old(stack)@), token@),
{
    match token {
        Token::Text { content } => {
            push_child(stack, DomNode::Text { content });
        },
        Token::Open { tag, attrs, self_closing } => {
            if self_closing || is_void(&tag) || stack.len() > MAX_NESTING {
                let node = DomNode::Element { tag, attrs, children: Vec::new() };
                assert(node_views(Seq::<DomNode>::empty()) =~= Seq::<Dom>::empty());
                push_child(stack, node);
            } else {
                let ghost before = frame_views(stack@);
                let frame = FrameNode { tag, attrs, children: Vec::new() };
                assert(node_views(frame.children@) =~= Seq::<Dom>::empty());
                stack.push(frame);
                assert(frame_views(stack@) =~= before.push(frame@));
            }
        },
        Token::Close { tag } => {
            let n = depth_of(stack, &tag);
            close_many(stack, n);
        },
    }
}

/// The top-level nodes of the document that the markup `s` stands for.
pub fn parse_chars(s: &Vec<char>) -> (r: Vec<DomNode>)
    ensures
        node_views(r@) == parse(s@),
{
    let mut stack: Vec<FrameNode> = Vec::new();
    stack.push(FrameNode { tag: Vec::new(), attrs: Vec::new(), children: Vec::new() });
    proof {
        assert(node_views(Seq::<DomNode>::empty()) =~= Seq::<Dom>::empty());
        assert(attr_views(Seq::<(Vec<char>, Vec<char>)>::empty()) =~= Seq::<
            (Seq<char>, Seq<char>),
        >::empty());
        assert(frame_views(stack@) =~= document_frame());
    }
    let mut i: usize = 0;
    while i < s.len()
        invariant
            i <= s.len(),
            stack.len() >= 1,
            parse(s@) == build_from(frame_views(stack@), tokens_from(s@, i as int)),
        decreases s.len() - i,
    {
        let ghost before = frame_views(stack@);
        let (token, next) = read_token(s, i);
        let ghost rest = tokens_from(s@, next as int);
        match token {
            Some(t) => {
                proof {
                    assert((seq![t@] + rest).drop_first() =~= rest);
                }
                apply_token(&mut stack, t);
            },
            None => {},
        }
        i = next;
    }
    let n = stack.len() - 1;
    close_many(&mut stack, n);
    let root = stack.pop().unwrap();
    root.children
}

/// The top-level nodes of the document that the markup `html` stands for.
pub fn parse_html(html: &str) -> (r: Vec<DomNode>)
    ensures
        node_views(r@) == parse(html@),
{
    let s = to_chars(html);
    parse_chars(&s)
}

} // verus!
