//! Flattening a chapter: the document is walked for its blocks, and each
//! heading, paragraph and quote is flattened into one text with the runs
//! of style over it.

use vstd::prelude::*;
use crate::content::Content;
use crate::css::{node_style, tag_name, tag_of, update_style, CssAttribute};
use crate::position::Len;
use crate::style::{
    extends, lemma_position_of_prefix, lemma_runs_in_longer, lemma_runs_in_text, runs_in, runs_style_at,
    styling_fits, Align, Builder, Run, Style, Styling,
};
use crate::text::{
    byte_count, byte_len, char_is_ascii_whitespace, chars_of, is_ascii_whitespace, is_position,
    lemma_positions_agree, lemma_trim_end, push_replaced, replacement, trim_end, trim_end_in_place,
};
use crate::xml::{lemma_view, str_eq, NodeKind, XmlNode, XmlTree};

verus! {

/// The text of a text node as it enters the buffer: what is not ASCII
/// whitespace stays, with em dashes and ellipses replaced; whitespace
/// that follows something else becomes one space; any other whitespace
/// goes.
pub open spec fn collapse(s: Seq<char>) -> Seq<char>
    decreases s.len(),
{
    if s.len() == 0 {
        s
    } else {
        let before = collapse(s.drop_last());
        if !is_ascii_whitespace(s.last()) {
            before + replacement(s.last())
        } else if s.len() >= 2 && !is_ascii_whitespace(s[s.len() - 2]) {
            before.push(' ')
        } else {
            before
        }
    }
}

/// Whether a space parts the buffer `buf` from the text `s` that is
/// added: `s` starts with whitespace and the buffer ends in something
/// else.
pub open spec fn needs_space(buf: Seq<char>, s: Seq<char>) -> bool {
    s.len() > 0 && is_ascii_whitespace(s[0]) && buf.len() > 0 && !is_ascii_whitespace(buf.last())
}

/// The buffer `buf` after the text `s` of a text node was added.
pub open spec fn append_text(buf: Seq<char>, s: Seq<char>) -> Seq<char> {
    if needs_space(buf, s) {
        buf.push(' ') + collapse(s)
    } else {
        buf + collapse(s)
    }
}

/// The offset of the end of `t`.
pub open spec fn end_of(t: Seq<char>) -> Len {
    Len { bytes: byte_len(t) as usize, chars: t.len() as usize }
}

/// The text of a block as it grows, with the runs recorded over it.
pub struct Inline {
    pub text: Seq<char>,
    pub runs: Seq<Run>,
}

/// The rules of a chapter's style sheets and the table that says which
/// rule matches which node.
pub struct Cascade {
    pub rules: Seq<(usize, CssAttribute)>,
    pub matched: Seq<Vec<bool>>,
}

/// `st` after a text node with the text `s` under `style`: the text is
/// added, and one run of `style` is recorded over what was added. An
/// empty text node changes nothing.
pub open spec fn text_step(st: Inline, s: Seq<char>, style: u8) -> Inline {
    if s.len() == 0 {
        st
    } else {
        let text = append_text(st.text, s);
        Inline {
            text,
            runs: st.runs.push(Run { style: Style { bits: style }, start: end_of(st.text), end: end_of(text) }),
        }
    }
}

/// `st` after `node` itself and its first `k` children were walked, depth
/// first, under the inherited `style` and `align`. A text node adds its
/// text. Any other node takes its own style, a `br` adds a line feed that
/// no run covers, and the children follow under the node's style.
pub open spec fn inline_walk(node: XmlTree, k: int, c: Cascade, style: u8, align: Option<Align>, st: Inline) -> Inline
    decreases node, k,
{
    if node.kind == NodeKind::Text {
        match node.text {
            Some(t) => text_step(st, t, style),
            None => st,
        }
    } else if k <= 0 || k > node.children.len() {
        if tag_of(node) == "br"@ {
            Inline { text: st.text.push('\n'), runs: st.runs }
        } else {
            st
        }
    } else {
        let own = node_style(c.rules, c.matched, node, style, align);
        let before = inline_walk(node, k - 1, c, style, align, st);
        let child = node.children[k - 1];
        inline_walk(child, child.children.len() as int, c, own.0, own.1, before)
    }
}

/// What kind of block a node starts, by its tag.
#[derive(Debug)]
pub enum BlockKind {
    Header,
    Paragraph,
    Quote,
    Image,
}

/// The block that `node` starts, if any: a heading for `h1` to `h6`, a
/// paragraph for `p`, a quote for `blockquote`, an image for `image` and
/// for an `img` with a source.
pub open spec fn block_kind(node: XmlTree) -> Option<BlockKind> {
    let tag = tag_of(node);
    if tag == "h1"@ || tag == "h2"@ || tag == "h3"@ || tag == "h4"@ || tag == "h5"@ || tag == "h6"@ {
        Some(BlockKind::Header)
    } else if tag == "p"@ {
        Some(BlockKind::Paragraph)
    } else if tag == "blockquote"@ {
        Some(BlockKind::Quote)
    } else if tag == "image"@ || (tag == "img"@ && node.attr("src"@) is Some) {
        Some(BlockKind::Image)
    } else {
        None
    }
}

/// One block of a flattened chapter, as plain values.
pub struct BlockView {
    pub kind: BlockKind,
    pub text: Seq<char>,
    pub runs: Seq<Run>,
    pub align: Option<Align>,
}

/// The text and runs of the block that `node` starts, under the node's
/// own `style` and `align`: the node is walked with an empty buffer, and
/// the whitespace at the end of the text is cut.
pub open spec fn block_text(node: XmlTree, c: Cascade, style: u8, align: Option<Align>) -> Inline {
    let walked = inline_walk(
        node,
        node.children.len() as int,
        c,
        style,
        align,
        Inline { text: Seq::empty(), runs: Seq::empty() },
    );
    Inline { text: trim_end(walked.text), runs: walked.runs }
}

/// The blocks `acc` after `node` itself and its first `k` children were
/// walked. A node that starts a block adds it, unless its text is empty,
/// and is not walked further; an image adds itself; under any other node
/// the children follow.
pub open spec fn body_walk(
    node: XmlTree,
    k: int,
    c: Cascade,
    style: u8,
    align: Option<Align>,
    acc: Seq<BlockView>,
) -> Seq<BlockView>
    decreases node, k,
{
    let own = node_style(c.rules, c.matched, node, style, align);
    match block_kind(node) {
        Some(BlockKind::Image) => acc.push(
            BlockView { kind: BlockKind::Image, text: Seq::empty(), runs: Seq::empty(), align: own.1 },
        ),
        Some(kind) => {
            let block = block_text(node, c, own.0, own.1);
            if block.text.len() > 0 {
                acc.push(BlockView { kind, text: block.text, runs: block.runs, align: own.1 })
            } else {
                acc
            }
        },
        None => if k <= 0 || k > node.children.len() {
            acc
        } else {
            let before = body_walk(node, k - 1, c, style, align, acc);
            let child = node.children[k - 1];
            body_walk(child, child.children.len() as int, c, own.0, own.1, before)
        },
    }
}

/// Adds the text of a text node to the buffer.
pub fn push_text(text: &mut String, s: &str)
    ensures
        final(text)@ == append_text(old(text)@, s@),
{
    let chars = chars_of(s);
    let ghost buf = text@;
    if chars.len() == 0 {
        proof {
            assert(buf + collapse(s@) == buf);
        }
        return ;
    }
    match text.pop() {
        Some(last) => {
            text.push(last);
            proof {
                assert(text@ == buf);
            }
            if char_is_ascii_whitespace(chars[0]) && !char_is_ascii_whitespace(last) {
                text.push(' ');
            }
        },
        None => {},
    }
    let ghost lead = text@;
    let mut i: usize = 0;
    while i < chars.len()
        invariant
            i <= chars.len(),
            text@ == lead + collapse(chars@.take(i as int)),
        decreases chars.len() - i,
    {
        let c = chars[i];
        let ghost before = text@;
        proof {
            assert(chars@.take(i + 1).drop_last() == chars@.take(i as int));
            assert(chars@.take(i + 1).last() == c);
            if i > 0 {
                assert(chars@.take(i + 1)[i - 1] == chars@[i - 1]);
            }
        }
        if !char_is_ascii_whitespace(c) {
            push_replaced(text, c);
            proof {
                assert(text@ == lead + (collapse(chars@.take(i as int)) + replacement(c)));
            }
        } else if i > 0 && !char_is_ascii_whitespace(chars[i - 1]) {
            text.push(' ');
            proof {
                assert(text@ == lead + collapse(chars@.take(i as int)).push(' '));
            }
        }
        i += 1;
    }
    proof {
        assert(chars@.take(chars.len() as int) == chars@);
    }
}

/// A text node leaves a buffer that starts with the one before.
pub proof fn lemma_append_text_extends(buf: Seq<char>, s: Seq<char>)
    ensures
        extends(buf, append_text(buf, s)),
{
    if needs_space(buf, s) {
        assert((buf.push(' ') + collapse(s)).take(buf.len() as int) == buf);
    } else {
        assert((buf + collapse(s)).take(buf.len() as int) == buf);
    }
}

/// The offset of the end of the text.
fn end_position(text: &String) -> (r: Len)
    ensures
        r == end_of(text@),
        is_position(text@, r),
{
    let bytes = byte_count(text.as_str());
    let chars = text.as_str().unicode_len();
    proof {
        assert(text@.take(text@.len() as int) == text@);
    }
    Len::new(bytes, chars)
}

/// Flattens `node` and what is below it into `text`, recording the runs
/// of style in `styling`.
pub fn traverse_block(
    node: &XmlNode,
    rules: &Vec<(usize, CssAttribute)>,
    matched: &Vec<Vec<bool>>,
    style: Style,
    align: Option<Align>,
    text: &mut String,
    styling: &mut Builder,
)
    requires
        runs_in(old(text)@, old(styling)@),
    ensures
        (Inline { text: final(text)@, runs: final(styling)@ }) == inline_walk(
            node@,
            node@.children.len() as int,
            Cascade { rules: rules@, matched: matched@ },
            style.bits,
            align,
            Inline { text: old(text)@, runs: old(styling)@ },
        ),
        runs_in(final(text)@, final(styling)@),
        extends(old(text)@, final(text)@),
    decreases node,
{
    let ghost c = Cascade { rules: rules@, matched: matched@ };
    let ghost st0 = Inline { text: text@, runs: styling@ };
    proof {
        assert(st0.text.take(st0.text.len() as int) == st0.text);
    }
    if node.is_text() {
        match node.text() {
            Some(s) => {
                if s.unicode_len() > 0 {
                    let start = end_position(text);
                    push_text(text, s);
                    let end = end_position(text);
                    proof {
                        lemma_append_text_extends(st0.text, s@);
                        lemma_runs_in_longer(st0.text, text@, st0.runs);
                        lemma_position_of_prefix(st0.text, text@, start);
                        lemma_runs_in_text(text@, st0.runs);
                        lemma_positions_agree(text@, start, end);
                    }
                    styling.add(style, start..end);
                }
            },
            None => {},
        }
        return ;
    }
    let own = update_style(rules, matched, node, style, align);
    if str_eq(tag_name(node), "br") {
        text.push('\n');
        proof {
            assert(text@.take(st0.text.len() as int) == st0.text);
            lemma_runs_in_longer(st0.text, text@, st0.runs);
        }
    }
    let n = node.children.len();
    let mut k: usize = 0;
    while k < n
        invariant
            k <= n == node@.children.len(),
            n == node.children@.len(),
            node@.kind != NodeKind::Text,
            c == (Cascade { rules: rules@, matched: matched@ }),
            (own.0.bits, own.1) == node_style(c.rules, c.matched, node@, style.bits, align),
            (Inline { text: text@, runs: styling@ }) == inline_walk(node@, k as int, c, style.bits, align, st0),
            runs_in(text@, styling@),
            extends(st0.text, text@),
        decreases n - k,
    {
        let ghost before = text@;
        proof {
            lemma_view(*node);
        }
        traverse_block(&node.children[k], rules, matched, own.0, own.1, text, styling);
        proof {
            assert(text@.take(st0.text.len() as int) == before.take(st0.text.len() as int));
        }
        k += 1;
    }
}

/// The block `block` with its alignment is what `view` says: of that
/// kind and with that alignment, and where it carries text, with that
/// text and with an index that fits the text and gives every byte the
/// style that the runs give it.
pub open spec fn block_is(block: (Content, Option<Align>), view: BlockView) -> bool {
    &&& block.1 == view.align
    &&& match view.kind {
        BlockKind::Header => block.0 is Header,
        BlockKind::Paragraph => block.0 is Paragraph,
        BlockKind::Quote => block.0 is Quote,
        BlockKind::Image => block.0 is Image,
    }
    &&& block.0.has_text() ==> {
        &&& block.0.text() == view.text
        &&& block.0.wf()
        &&& forall|b: int| #[trigger] block.0.styling().style_at(b) == runs_style_at(view.runs, b)
    }
}

/// The blocks are what `views` say, one by one.
pub open spec fn blocks_are(blocks: Seq<(Content, Option<Align>)>, views: Seq<BlockView>) -> bool {
    &&& blocks.len() == views.len()
    &&& forall|i: int| 0 <= i < blocks.len() ==> block_is(#[trigger] blocks[i], views[i])
}

/// Flattens the block that `node` starts into its text and the index
/// over it.
fn accumulate_text(
    node: &XmlNode,
    rules: &Vec<(usize, CssAttribute)>,
    matched: &Vec<Vec<bool>>,
    style: Style,
    align: Option<Align>,
) -> (r: (String, Styling))
    ensures
        r.0@ == block_text(node@, Cascade { rules: rules@, matched: matched@ }, style.bits, align).text,
        styling_fits(r.0@, r.1),
        forall|b: int| #[trigger]
            r.1.style_at(b) == runs_style_at(
                block_text(node@, Cascade { rules: rules@, matched: matched@ }, style.bits, align).runs,
                b,
            ),
{
    let mut text = String::new();
    let mut styling = Styling::builder();
    traverse_block(node, rules, matched, style, align, &mut text, &mut styling);
    let ghost full = text@;
    let ghost runs = styling@;
    trim_end_in_place(&mut text);
    proof {
        lemma_runs_in_text(full, runs);
        lemma_trim_end(full);
    }
    let index = styling.build();
    proof {
        assert forall|p: Len| is_position(text@, p) implies #[trigger] index.admits(p) by {
            lemma_position_of_prefix(text@, full, p);
            assert forall|w: int| 0 <= w < index.points().len() implies p.agrees(#[trigger] index.points()[w]) by {
                let q = index.points()[w];
                assert(index.is_boundary(q));
                let r = choose|r: int|
                    0 <= r < runs.len() && #[trigger] runs[r].nonempty() && (runs[r].start == q || runs[r].end == q);
                lemma_positions_agree(full, p, q);
            }
        }
    }
    (text, index)
}

/// Walks `node` and what is below it for blocks and adds them to `out`.
fn traverse_body(
    node: &XmlNode,
    rules: &Vec<(usize, CssAttribute)>,
    matched: &Vec<Vec<bool>>,
    style: Style,
    align: Option<Align>,
    out: &mut Vec<(Content, Option<Align>)>,
    Ghost(acc): Ghost<Seq<BlockView>>,
)
    requires
        blocks_are(old(out)@, acc),
    ensures
        blocks_are(
            final(out)@,
            body_walk(
                node@,
                node@.children.len() as int,
                Cascade { rules: rules@, matched: matched@ },
                style.bits,
                align,
                acc,
            ),
        ),
    decreases node,
{
    let ghost c = Cascade { rules: rules@, matched: matched@ };
    let own = update_style(rules, matched, node, style, align);
    let tag = tag_name(node);
    if str_eq(tag, "h1") || str_eq(tag, "h2") || str_eq(tag, "h3") || str_eq(tag, "h4") || str_eq(tag, "h5")
        || str_eq(tag, "h6") {
        let (text, styling) = accumulate_text(node, rules, matched, own.0, own.1);
        if text.as_str().unicode_len() > 0 {
            out.push((Content::Header(text, styling), own.1));
        }
    } else if str_eq(tag, "p") {
        let (text, styling) = accumulate_text(node, rules, matched, own.0, own.1);
        if text.as_str().unicode_len() > 0 {
            out.push((Content::Paragraph(text, styling), own.1));
        }
    } else if str_eq(tag, "blockquote") {
        let (text, styling) = accumulate_text(node, rules, matched, own.0, own.1);
        if text.as_str().unicode_len() > 0 {
            out.push((Content::Quote(text, styling), own.1));
        }
    } else if str_eq(tag, "image") || (str_eq(tag, "img") && node.attribute("src").is_some()) {
        out.push((Content::Image, own.1));
    } else {
        let n = node.children.len();
        let mut k: usize = 0;
        let ghost mut now = acc;
        while k < n
            invariant
                k <= n == node@.children.len(),
                n == node.children@.len(),
                c == (Cascade { rules: rules@, matched: matched@ }),
                block_kind(node@) is None,
                (own.0.bits, own.1) == node_style(c.rules, c.matched, node@, style.bits, align),
                now == body_walk(node@, k as int, c, style.bits, align, acc),
                blocks_are(out@, now),
            decreases n - k,
        {
            proof {
                lemma_view(*node);
            }
            traverse_body(&node.children[k], rules, matched, own.0, own.1, out, Ghost(now));
            proof {
                now = body_walk(node@, k + 1, c, style.bits, align, acc);
            }
            k += 1;
        }
    }
}

/// The blocks of the chapter whose body is `body`, in document order,
/// each with its alignment. `rules` are the reduced rules of the
/// chapter's style sheets, and `matched[n][r]` says whether the selector
/// of rule `r` matches node `n`.
pub fn flatten(body: &XmlNode, rules: &Vec<(usize, CssAttribute)>, matched: &Vec<Vec<bool>>) -> (r: Vec<
    (Content, Option<Align>),
>)
    ensures
        blocks_are(
            r@,
            body_walk(
                body@,
                body@.children.len() as int,
                Cascade { rules: rules@, matched: matched@ },
                0,
                None,
                Seq::empty(),
            ),
        ),
{
    let mut out: Vec<(Content, Option<Align>)> = Vec::new();
    traverse_body(body, rules, matched, Style::empty(), None, &mut out, Ghost(Seq::empty()));
    out
}

} // verus!
