use vstd::prelude::*;

use crate::output::{
    lemma_record_slices, lemma_records_faithful, lemma_records_ordered, lit, mapped_text, models,
    record_slices, records_of, records_ordered, text_of, Piece, Transpilation,
};
use crate::syntax::{find_named, lemma_next_named, next_named, NodeKind, Span, SyntaxNode};
use crate::void_elements::{is_void_name, is_void_spec};

verus! {



/// Why a tree cannot be rendered: it breaks the shape that the grammar promises.
#[derive(Clone, Copy, Debug, PartialEq, Eq, Structural)]
pub enum StructureError {
    /// A tag has no named child to be its name.
    MissingTagName,
    /// An attribute has no named child to be its name.
    MissingAttributeName,
    /// A node's byte range does not lie within the source.
    SpanOutOfSource,
}

pub open spec fn in_source(n: SyntaxNode, src: Seq<u8>) -> bool {
    n.start <= n.end <= src.len()
}

/// The source text of a node.
pub open spec fn slice_of(n: SyntaxNode, src: Seq<u8>) -> Seq<u8> {
    src.subrange(n.start as int, n.end as int)
}

/// A node's source text, mapped back to the node.
pub open spec fn sourced(n: SyntaxNode, src: Seq<u8>) -> Piece {
    Piece { text: slice_of(n, src), source: Some(n.span()) }
}

/// A node's source text, appended as synthesized text.
pub open spec fn copied(n: SyntaxNode, src: Seq<u8>) -> Piece {
    Piece { text: slice_of(n, src), source: None }
}

/// `a`, and after it `b`; the first error wins.
pub open spec fn followed_by(
    a: Result<Seq<Piece>, StructureError>,
    b: Result<Seq<Piece>, StructureError>,
) -> Result<Seq<Piece>, StructureError> {
    match a {
        Ok(x) => match b {
            Ok(y) => Ok(x + y),
            Err(e) => Err(e),
        },
        Err(e) => Err(e),
    }
}

/// The node's own text, mapped back to it.
pub open spec fn verbatim(n: SyntaxNode, src: Seq<u8>) -> Result<Seq<Piece>, StructureError> {
    if in_source(n, src) {
        Ok(seq![sourced(n, src)])
    } else {
        Err(StructureError::SpanOutOfSource)
    }
}

/// The inert script marker that carries an expression's text into the output.
pub open spec fn marker(n: SyntaxNode, src: Seq<u8>) -> Result<Seq<Piece>, StructureError> {
    if in_source(n, src) {
        Ok(seq![lit("<script>return "), sourced(n, src), lit(";</script>")])
    } else {
        Err(StructureError::SpanOutOfSource)
    }
}

/// The output of a node and everything below it.
pub open spec fn render(n: SyntaxNode, src: Seq<u8>) -> Result<Seq<Piece>, StructureError>
    decreases n, n.children@.len() + 2,
{
    let cs = n.children@;
    if !n.named {
        Ok(Seq::empty())
    } else {
        match n.kind {
            NodeKind::SourceFile | NodeKind::Children => render_named(n, 0, src),
            NodeKind::EscapedStringInterpolation => {
                let k = next_named(cs, 0);
                if k < cs.len() {
                    marker(cs[k], src)
                } else {
                    Ok(Seq::empty())
                }
            },
            NodeKind::TagInterpolation => render_markers(n, 1, src),
            NodeKind::Pipe => render_named(n, 1, src),
            NodeKind::Conditional => render_conditional(n, src),
            NodeKind::Tag => render_tag(n, src),
            NodeKind::Attributes => render_attributes(n, 0, src),
            NodeKind::Content => followed_by(render_named(n, 0, src), verbatim(n, src)),
            _ => Ok(Seq::empty()),
        }
    }
}

/// The named children of `n` from index `i` on, each rendered, in order.
pub open spec fn render_named(n: SyntaxNode, i: int, src: Seq<u8>) -> Result<
    Seq<Piece>,
    StructureError,
>
    decreases n, n.children@.len() + 1 - i,
{
    let cs = n.children@;
    if i < 0 || i >= cs.len() {
        Ok(Seq::empty())
    } else if !cs[i].named {
        render_named(n, i + 1, src)
    } else {
        followed_by(render(cs[i], src), render_named(n, i + 1, src))
    }
}

/// The named children of `n` from index `i` on, each wrapped in a marker.
pub open spec fn render_markers(n: SyntaxNode, i: int, src: Seq<u8>) -> Result<
    Seq<Piece>,
    StructureError,
>
    decreases n.children@.len() - i,
{
    let cs = n.children@;
    if i < 0 || i >= cs.len() {
        Ok(Seq::empty())
    } else if !cs[i].named {
        render_markers(n, i + 1, src)
    } else {
        followed_by(marker(cs[i], src), render_markers(n, i + 1, src))
    }
}

/// Index of a conditional's body: after the keyword, the optional condition
/// and the statement keyword.
pub open spec fn body_index(cs: Seq<SyntaxNode>) -> int {
    if has_condition(cs) {
        3
    } else {
        2
    }
}

pub open spec fn has_condition(cs: Seq<SyntaxNode>) -> bool {
    cs.len() > 1 && cs[1].kind == NodeKind::Javascript
}

/// A conditional: the marker of its condition, then its body, unconditionally.
pub open spec fn render_conditional(n: SyntaxNode, src: Seq<u8>) -> Result<
    Seq<Piece>,
    StructureError,
>
    decreases n, n.children@.len() + 1,
{
    let cs = n.children@;
    let b = body_index(cs);
    followed_by(
        if has_condition(cs) {
            marker(cs[1], src)
        } else {
            Ok(Seq::empty())
        },
        if b < cs.len() {
            render_named(cs[b], 0, src)
        } else {
            Ok(Seq::empty())
        },
    )
}

/// How a tag ends once its children from `i` on have been rendered.
pub open spec fn tag_end(void: bool, closed: bool, name: Piece) -> Seq<Piece> {
    if void {
        seq![lit("/>")]
    } else if closed {
        seq![lit("</"), name, lit(">")]
    } else {
        seq![lit(">"), lit("</"), name, lit(">")]
    }
}

#[via_fn]
proof fn render_tag_decreases(n: SyntaxNode, src: Seq<u8>) {
    lemma_next_named(n.children@, 0);
}

/// A tag: `<`, its name, then its children from after the name on.
pub open spec fn render_tag(n: SyntaxNode, src: Seq<u8>) -> Result<Seq<Piece>, StructureError>
    decreases n, n.children@.len() + 1 via render_tag_decreases
{
    let cs = n.children@;
    let k = next_named(cs, 0);
    if k >= cs.len() {
        Err(StructureError::MissingTagName)
    } else if !in_source(cs[k], src) {
        Err(StructureError::SpanOutOfSource)
    } else {
        let void = is_void_spec(slice_of(cs[k], src));
        followed_by(
            Ok(seq![lit("<"), sourced(cs[k], src)]),
            render_tag_items(n, k + 1, void, false, copied(cs[k], src), src),
        )
    }
}

/// The children of a tag from index `i` on; `closed` tells whether `>` has
/// been written.
pub open spec fn render_tag_items(
    n: SyntaxNode,
    i: int,
    void: bool,
    closed: bool,
    name: Piece,
    src: Seq<u8>,
) -> Result<Seq<Piece>, StructureError>
    decreases n, n.children@.len() + 1 - i,
{
    let cs = n.children@;
    if i < 0 || i >= cs.len() {
        Ok(tag_end(void, closed, name))
    } else if !cs[i].named {
        render_tag_items(n, i + 1, void, closed, name, src)
    } else if cs[i].kind != NodeKind::Attributes && void {
        Ok(seq![lit("/>")])
    } else {
        followed_by(
            render_tag_child(n, i, closed, src),
            render_tag_items(n, i + 1, void, closed || cs[i].kind != NodeKind::Attributes, name, src),
        )
    }
}

/// One named child of a tag that does not end it: an attributes block after
/// a space, or, once `>` is written, a content or children block.
pub open spec fn render_tag_child(n: SyntaxNode, i: int, closed: bool, src: Seq<u8>) -> Result<
    Seq<Piece>,
    StructureError,
>
    decreases n, 0nat,
{
    let cs = n.children@;
    if i < 0 || i >= cs.len() {
        Ok(Seq::empty())
    } else if cs[i].kind == NodeKind::Attributes {
        followed_by(Ok(seq![lit(" ")]), render(cs[i], src))
    } else {
        let open = if closed {
            Seq::empty()
        } else {
            seq![lit(">")]
        };
        if cs[i].kind == NodeKind::Content || cs[i].kind == NodeKind::Children {
            followed_by(Ok(open), render(cs[i], src))
        } else {
            Ok(open)
        }
    }
}

/// The attributes of an attributes block from index `i` on, joined by `, `.
pub open spec fn render_attributes(n: SyntaxNode, i: int, src: Seq<u8>) -> Result<
    Seq<Piece>,
    StructureError,
>
    decreases n.children@.len() - i,
{
    let cs = n.children@;
    if i < 0 || i >= cs.len() {
        Ok(Seq::empty())
    } else if !cs[i].named {
        render_attributes(n, i + 1, src)
    } else {
        let sep = if next_named(cs, 0) == i {
            Seq::empty()
        } else {
            seq![lit(", ")]
        };
        followed_by(
            followed_by(Ok(sep), render_attribute(cs[i], src)),
            render_attributes(n, i + 1, src),
        )
    }
}

/// The value part of an attribute, after its name and `=`.
pub open spec fn attribute_value(name: SyntaxNode, value: Option<SyntaxNode>, src: Seq<u8>) -> Result<
    Seq<Piece>,
    StructureError,
> {
    match value {
        None => Ok(seq![lit("'"), copied(name, src), lit("'")]),
        Some(v) => if v.kind == NodeKind::Javascript {
            if in_source(v, src) {
                Ok(seq![lit("'"), sourced(v, src), lit("'")])
            } else {
                Err(StructureError::SpanOutOfSource)
            }
        } else if v.kind == NodeKind::QuotedAttributeValue {
            verbatim(v, src)
        } else {
            Ok(Seq::empty())
        },
    }
}

/// One attribute: its name, `=`, and its value.
pub open spec fn render_attribute(a: SyntaxNode, src: Seq<u8>) -> Result<Seq<Piece>, StructureError> {
    let cs = a.children@;
    let k = next_named(cs, 0);
    if k >= cs.len() {
        Err(StructureError::MissingAttributeName)
    } else if !in_source(cs[k], src) {
        Err(StructureError::SpanOutOfSource)
    } else {
        let j = next_named(cs, k + 1);
        let value = if j < cs.len() {
            Some(cs[j])
        } else {
            None
        };
        followed_by(Ok(seq![sourced(cs[k], src), lit("=")]), attribute_value(cs[k], value, src))
    }
}


/// `after` is `before` with the pieces of `expect` appended, or `r` is its error.
pub open spec fn appended(
    before: Transpilation,
    after: Transpilation,
    r: Result<(), StructureError>,
    expect: Result<Seq<Piece>, StructureError>,
) -> bool {
    match expect {
        Ok(ps) => r is Ok && after.wf() && after.source@ == before.source@ && after.pieces@
            == before.pieces@ + ps,
        Err(e) => r == Err::<(), StructureError>(e),
    }
}

pub proof fn lemma_followed_by_ok(acc: Seq<Piece>, ps: Seq<Piece>, rest: Result<Seq<Piece>, StructureError>)
    ensures
        followed_by(Ok(acc), followed_by(Ok(ps), rest)) == followed_by(Ok(acc + ps), rest),
{
    if let Ok(y) = rest {
        assert(acc + (ps + y) =~= (acc + ps) + y);
    }
}

pub proof fn lemma_followed_by_empty(x: Result<Seq<Piece>, StructureError>)
    ensures
        followed_by(Ok(Seq::empty()), x) == x,
        followed_by(x, Ok(Seq::empty())) == x,
{
    if let Ok(y) = x {
        assert(Seq::<Piece>::empty() + y =~= y);
        assert(y + Seq::<Piece>::empty() =~= y);
    }
}

pub open spec fn piece_of(n: SyntaxNode, src: Seq<u8>, mapped: bool) -> Piece {
    if mapped {
        sourced(n, src)
    } else {
        copied(n, src)
    }
}

/// Appends the source text of `node`, mapped back to it when `mapped`.
fn push_node(st: &mut Transpilation, source: &[u8], node: &SyntaxNode, mapped: bool) -> (r: Result<
    (),
    StructureError,
>)
    requires
        old(st).wf(),
        old(st).source@ == source@,
    ensures
        appended(
            *old(st),
            *final(st),
            r,
            if in_source(*node, source@) {
                Ok(seq![piece_of(*node, source@, mapped)])
            } else {
                Err(StructureError::SpanOutOfSource)
            },
        ),
{
    if node.start <= node.end && node.end <= source.len() {
        let text = vstd::slice::slice_subrange(source, node.start, node.end);
        let span = if mapped {
            Some(Span { start: node.start, end: node.end })
        } else {
            None
        };
        st.push_range(text, span);
        assert(st.pieces@ =~= old(st).pieces@ + seq![piece_of(*node, source@, mapped)]);
        Ok(())
    } else {
        Err(StructureError::SpanOutOfSource)
    }
}

/// Appends the source text of `node` between two copies of `surround`.
fn push_range_surround(
    st: &mut Transpilation,
    source: &[u8],
    node: &SyntaxNode,
    mapped: bool,
    surround: &str,
) -> (r: Result<(), StructureError>)
    requires
        old(st).wf(),
        old(st).source@ == source@,
    ensures
        appended(
            *old(st),
            *final(st),
            r,
            if in_source(*node, source@) {
                Ok(seq![lit(surround), piece_of(*node, source@, mapped), lit(surround)])
            } else {
                Err(StructureError::SpanOutOfSource)
            },
        ),
{
    if node.start <= node.end && node.end <= source.len() {
        st.push_literal(surround);
        let r = push_node(st, source, node, mapped);
        st.push_literal(surround);
        assert(st.pieces@ =~= old(st).pieces@ + seq![
            lit(surround),
            piece_of(*node, source@, mapped),
            lit(surround),
        ]);
        r
    } else {
        Err(StructureError::SpanOutOfSource)
    }
}

/// Appends the inert script marker for the expression `node`.
fn visit_marker(st: &mut Transpilation, source: &[u8], node: &SyntaxNode) -> (r: Result<
    (),
    StructureError,
>)
    requires
        old(st).wf(),
        old(st).source@ == source@,
    ensures
        appended(*old(st), *final(st), r, marker(*node, source@)),
{
    if node.start <= node.end && node.end <= source.len() {
        st.push_literal("<script>return ");
        let r = push_node(st, source, node, true);
        st.push_literal(";</script>");
        assert(st.pieces@ =~= old(st).pieces@ + seq![
            lit("<script>return "),
            sourced(*node, source@),
            lit(";</script>"),
        ]);
        r
    } else {
        Err(StructureError::SpanOutOfSource)
    }
}

/// Renders the named children of `node` from index `from` on, in order.
fn visit_named(node: &SyntaxNode, from: usize, source: &[u8], st: &mut Transpilation) -> (r: Result<
    (),
    StructureError,
>)
    requires
        old(st).wf(),
        old(st).source@ == source@,
    ensures
        appended(*old(st), *final(st), r, render_named(*node, from as int, source@)),
    decreases *node, 1nat,
{
    let mut i: usize = from;
    let ghost acc: Seq<Piece> = Seq::empty();
    proof {
        lemma_followed_by_empty(render_named(*node, from as int, source@));
        assert(st.pieces@ =~= old(st).pieces@ + acc);
    }
    while i < node.children.len()
        invariant
            st.wf(),
            st.source@ == source@,
            old(st).source@ == source@,
            st.pieces@ == old(st).pieces@ + acc,
            render_named(*node, from as int, source@) == followed_by(
                Ok(acc),
                render_named(*node, i as int, source@),
            ),
        decreases node.children@.len() - i,
    {
        let child = &node.children[i];
        if child.named {
            match traverse_tree(child, source, st) {
                Ok(()) => {
                    proof {
                        let ps = render(*child, source@)->Ok_0;
                        lemma_followed_by_ok(acc, ps, render_named(*node, i + 1, source@));
                        acc = acc + ps;
                        assert(st.pieces@ =~= old(st).pieces@ + acc);
                    }
                },
                Err(e) => {
                    return Err(e);
                },
            }
        }
        i += 1;
    }
    proof {
        lemma_followed_by_empty(Ok(acc));
    }
    Ok(())
}

/// Wraps each named child of a tag interpolation, after its opening
/// delimiter, in a marker.
fn visit_tag_interpolation(node: &SyntaxNode, source: &[u8], st: &mut Transpilation) -> (r: Result<
    (),
    StructureError,
>)
    requires
        old(st).wf(),
        old(st).source@ == source@,
    ensures
        appended(*old(st), *final(st), r, render_markers(*node, 1, source@)),
{
    let mut i: usize = 1;
    let ghost acc: Seq<Piece> = Seq::empty();
    proof {
        lemma_followed_by_empty(render_markers(*node, 1, source@));
        assert(st.pieces@ =~= old(st).pieces@ + acc);
    }
    while i < node.children.len()
        invariant
            st.wf(),
            st.source@ == source@,
            old(st).source@ == source@,
            st.pieces@ == old(st).pieces@ + acc,
            render_markers(*node, 1, source@) == followed_by(
                Ok(acc),
                render_markers(*node, i as int, source@),
            ),
        decreases node.children@.len() - i,
    {
        let child = &node.children[i];
        if child.named {
            match visit_marker(st, source, child) {
                Ok(()) => {
                    proof {
                        let ps = marker(*child, source@)->Ok_0;
                        lemma_followed_by_ok(acc, ps, render_markers(*node, i + 1, source@));
                        acc = acc + ps;
                        assert(st.pieces@ =~= old(st).pieces@ + acc);
                    }
                },
                Err(e) => {
                    return Err(e);
                },
            }
        }
        i += 1;
    }
    proof {
        lemma_followed_by_empty(Ok(acc));
    }
    Ok(())
}

/// One attribute: its name, `=`, and its value.
fn visit_attribute(attribute: &SyntaxNode, source: &[u8], st: &mut Transpilation) -> (r: Result<
    (),
    StructureError,
>)
    requires
        old(st).wf(),
        old(st).source@ == source@,
    ensures
        appended(*old(st), *final(st), r, render_attribute(*attribute, source@)),
{
    let k = find_named(&attribute.children, 0);
    if k >= attribute.children.len() {
        return Err(StructureError::MissingAttributeName);
    }
    let name = &attribute.children[k];
    if !(name.start <= name.end && name.end <= source.len()) {
        return Err(StructureError::SpanOutOfSource);
    }
    st.push_range(
        vstd::slice::slice_subrange(source, name.start, name.end),
        Some(Span { start: name.start, end: name.end }),
    );
    st.push_literal("=");
    let ghost head = seq![sourced(*name, source@), lit("=")];
    assert(st.pieces@ =~= old(st).pieces@ + head);
    let ghost mid = st.pieces@;
    let j = find_named(&attribute.children, k + 1);
    let r = if j < attribute.children.len() {
        let value = &attribute.children[j];
        if value.kind == NodeKind::Javascript {
            push_range_surround(st, source, value, true, "'")
        } else if value.kind == NodeKind::QuotedAttributeValue {
            push_node(st, source, value, true)
        } else {
            assert(st.pieces@ =~= mid + Seq::empty());
            Ok(())
        }
    } else {
        push_range_surround(st, source, name, false, "'")
    };
    proof {
        let value = if j < attribute.children@.len() {
            Some(attribute.children@[j as int])
        } else {
            None
        };
        if let Ok(v) = attribute_value(*name, value, source@) {
            assert(st.pieces@ =~= old(st).pieces@ + (head + v));
        }
    }
    r
}

/// The attributes of an attributes block, joined by `, `.
fn visit_attributes(node: &SyntaxNode, source: &[u8], st: &mut Transpilation) -> (r: Result<
    (),
    StructureError,
>)
    requires
        old(st).wf(),
        old(st).source@ == source@,
    ensures
        appended(*old(st), *final(st), r, render_attributes(*node, 0, source@)),
{
    let mut first = true;
    let mut i: usize = 0;
    let ghost cs = node.children@;
    let ghost acc: Seq<Piece> = Seq::empty();
    proof {
        lemma_followed_by_empty(render_attributes(*node, 0, source@));
        assert(st.pieces@ =~= old(st).pieces@ + acc);
    }
    while i < node.children.len()
        invariant
            cs == node.children@,
            i <= cs.len(),
            st.wf(),
            st.source@ == source@,
            old(st).source@ == source@,
            st.pieces@ == old(st).pieces@ + acc,
            first ==> next_named(cs, 0) == next_named(cs, i as int),
            !first ==> next_named(cs, 0) < i,
            render_attributes(*node, 0, source@) == followed_by(
                Ok(acc),
                render_attributes(*node, i as int, source@),
            ),
        decreases cs.len() - i,
    {
        let attribute = &node.children[i];
        if attribute.named {
            let ghost sep: Seq<Piece> = if first {
                Seq::empty()
            } else {
                seq![lit(", ")]
            };
            if !first {
                st.push_literal(", ");
            }
            first = false;
            assert(st.pieces@ =~= old(st).pieces@ + (acc + sep));
            match visit_attribute(attribute, source, st) {
                Ok(()) => {
                    proof {
                        let ps = render_attribute(*attribute, source@)->Ok_0;
                        lemma_followed_by_ok(acc, sep + ps, render_attributes(*node, i + 1, source@));
                        acc = acc + (sep + ps);
                        assert(st.pieces@ =~= old(st).pieces@ + acc);
                    }
                },
                Err(e) => {
                    return Err(e);
                },
            }
        }
        i += 1;
    }
    proof {
        lemma_followed_by_empty(Ok(acc));
    }
    Ok(())
}

/// A conditional: the marker of its condition, then its body, unconditionally.
fn visit_conditional(node: &SyntaxNode, source: &[u8], st: &mut Transpilation) -> (r: Result<
    (),
    StructureError,
>)
    requires
        old(st).wf(),
        old(st).source@ == source@,
    ensures
        appended(*old(st), *final(st), r, render_conditional(*node, source@)),
    decreases *node, 1nat,
{
    let has_condition = node.children.len() > 1 && node.children[1].kind == NodeKind::Javascript;
    if has_condition {
        match visit_marker(st, source, &node.children[1]) {
            Ok(()) => {},
            Err(e) => {
                return Err(e);
            },
        }
    } else {
        assert(st.pieces@ =~= old(st).pieces@ + Seq::empty());
    }
    let ghost head = if has_condition {
        marker(node.children@[1], source@)->Ok_0
    } else {
        Seq::empty()
    };
    let body: usize = if has_condition {
        3
    } else {
        2
    };
    if body < node.children.len() {
        let r = visit_named(&node.children[body], 0, source, st);
        proof {
            if let Ok(b) = render_named(node.children@[body as int], 0, source@) {
                assert(st.pieces@ =~= old(st).pieces@ + (head + b));
            }
        }
        r
    } else {
        assert(st.pieces@ =~= old(st).pieces@ + (head + Seq::empty()));
        Ok(())
    }
}

/// A tag: `<name`, its attributes, then `/>` for a void element, or `>`, its
/// content and children, and `</name>`.
/// One named child of a tag that does not end it.
fn visit_tag_child(
    node: &SyntaxNode,
    i: usize,
    closed: bool,
    source: &[u8],
    st: &mut Transpilation,
) -> (r: Result<(), StructureError>)
    requires
        old(st).wf(),
        old(st).source@ == source@,
        i < node.children@.len(),
    ensures
        appended(*old(st), *final(st), r, render_tag_child(*node, i as int, closed, source@)),
    decreases *node, 0nat,
{
    let child = &node.children[i];
    if child.kind == NodeKind::Attributes {
        st.push_literal(" ");
        let ghost sep = seq![lit(" ")];
        let r = traverse_tree(child, source, st);
        proof {
            if let Ok(ps) = render(*child, source@) {
                assert(st.pieces@ =~= old(st).pieces@ + (sep + ps));
            }
        }
        r
    } else {
        let ghost open: Seq<Piece> = if closed {
            Seq::empty()
        } else {
            seq![lit(">")]
        };
        if !closed {
            st.push_literal(">");
        }
        assert(st.pieces@ =~= old(st).pieces@ + open);
        if child.kind == NodeKind::Content || child.kind == NodeKind::Children {
            let r = traverse_tree(child, source, st);
            proof {
                if let Ok(ps) = render(*child, source@) {
                    assert(st.pieces@ =~= old(st).pieces@ + (open + ps));
                }
            }
            r
        } else {
            Ok(())
        }
    }
}

fn visit_tag(node: &SyntaxNode, source: &[u8], st: &mut Transpilation) -> (r: Result<
    (),
    StructureError,
>)
    requires
        old(st).wf(),
        old(st).source@ == source@,
    ensures
        appended(*old(st), *final(st), r, render_tag(*node, source@)),
    decreases *node, 1nat,
{
    let k = find_named(&node.children, 0);
    if k >= node.children.len() {
        return Err(StructureError::MissingTagName);
    }
    let name_node = &node.children[k];
    if !(name_node.start <= name_node.end && name_node.end <= source.len()) {
        return Err(StructureError::SpanOutOfSource);
    }
    let name = vstd::slice::slice_subrange(source, name_node.start, name_node.end);
    let void = is_void_name(name);
    st.push_literal("<");
    st.push_range(name, Some(Span { start: name_node.start, end: name_node.end }));
    let ghost name_piece = copied(*name_node, source@);
    let ghost head: Seq<Piece> = seq![lit("<"), sourced(*name_node, source@)];
    let ghost base = st.pieces@;
    let ghost target = render_tag_items(*node, k + 1, void, false, name_piece, source@);
    assert(st.pieces@ =~= old(st).pieces@ + head);
    assert(render_tag(*node, source@) == followed_by(Ok(head), target));
    let ghost acc: Seq<Piece> = Seq::empty();
    proof {
        lemma_followed_by_empty(target);
    }
    let mut closed = false;
    let mut i: usize = k + 1;
    while i < node.children.len()
        invariant
            i <= node.children@.len(),
            st.wf(),
            st.source@ == source@,
            old(st).source@ == source@,
            st.pieces@ == base + acc,
            base == old(st).pieces@ + head,
            render_tag(*node, source@) == followed_by(Ok(head), target),
            name@ == name_piece.text,
            name_piece.source is None,
            target == followed_by(
                Ok(acc),
                render_tag_items(*node, i as int, void, closed, name_piece, source@),
            ),
        decreases node.children@.len() - i,
    {
        let child = &node.children[i];
        if child.named {
            if child.kind != NodeKind::Attributes && void {
                st.push_literal("/>");
                proof {
                    assert(render_tag_items(*node, i as int, void, closed, name_piece, source@)
                        == Ok::<Seq<Piece>, StructureError>(seq![lit("/>")]));
                    lemma_followed_by_ok(head, acc + seq![lit("/>")], Ok(Seq::empty()));
                    lemma_followed_by_empty(Ok(acc + seq![lit("/>")]));
                    lemma_followed_by_empty(Ok(head + (acc + seq![lit("/>")])));
                }
                assert(st.pieces@ =~= old(st).pieces@ + (head + (acc + seq![lit("/>")])));
                return Ok(());
            }
            match visit_tag_child(node, i, closed, source, st) {
                Ok(()) => {
                    proof {
                        let ps = render_tag_child(*node, i as int, closed, source@)->Ok_0;
                        lemma_followed_by_ok(
                            acc,
                            ps,
                            render_tag_items(
                                *node,
                                i + 1,
                                void,
                                closed || child.kind != NodeKind::Attributes,
                                name_piece,
                                source@,
                            ),
                        );
                        acc = acc + ps;
                        assert(st.pieces@ =~= base + acc);
                    }
                },
                Err(e) => {
                    return Err(e);
                },
            }
            if child.kind != NodeKind::Attributes {
                closed = true;
            }
        }
        i += 1;
    }
    if void {
        st.push_literal("/>");
    } else {
        if !closed {
            st.push_literal(">");
        }
        st.push_literal("</");
        st.push_range(name, None);
        st.push_literal(">");
    }
    proof {
        let tail = acc + tag_end(void, closed, name_piece);
        lemma_followed_by_ok(head, tail, Ok(Seq::empty()));
        lemma_followed_by_empty(Ok(tail));
        lemma_followed_by_empty(Ok(head + tail));
        assert(st.pieces@ =~= old(st).pieces@ + (head + tail));
    }
    Ok(())
}

/// The single recursive entry point: routes a node to its renderer.
pub fn traverse_tree(node: &SyntaxNode, source: &[u8], st: &mut Transpilation) -> (r: Result<
    (),
    StructureError,
>)
    requires
        old(st).wf(),
        old(st).source@ == source@,
    ensures
        appended(*old(st), *final(st), r, render(*node, source@)),
    decreases *node, 2nat,
{
    if !node.named {
        assert(st.pieces@ =~= old(st).pieces@ + Seq::empty());
        return Ok(());
    }
    match node.kind {
        NodeKind::SourceFile | NodeKind::Children => visit_named(node, 0, source, st),
        NodeKind::EscapedStringInterpolation => {
            let k = find_named(&node.children, 0);
            if k < node.children.len() {
                visit_marker(st, source, &node.children[k])
            } else {
                assert(st.pieces@ =~= old(st).pieces@ + Seq::empty());
                Ok(())
            }
        },
        NodeKind::TagInterpolation => visit_tag_interpolation(node, source, st),
        NodeKind::Pipe => visit_named(node, 1, source, st),
        NodeKind::Conditional => visit_conditional(node, source, st),
        NodeKind::Tag => visit_tag(node, source, st),
        NodeKind::Attributes => visit_attributes(node, source, st),
        NodeKind::Content => {
            match visit_named(node, 0, source, st) {
                Ok(()) => {
                    let r = push_node(st, source, node, true);
                    proof {
                        if r is Ok {
                            let a = render_named(*node, 0, source@)->Ok_0;
                            assert(st.pieces@ =~= old(st).pieces@ + (a + seq![sourced(*node, source@)]));
                        }
                    }
                    r
                },
                Err(e) => Err(e),
            }
        },
        _ => {
            assert(st.pieces@ =~= old(st).pieces@ + Seq::empty());
            Ok(())
        },
    }
}

/// Each record of `t` names an output span that holds exactly the bytes of
/// its source span.
pub open spec fn records_copy_source(t: Transpilation, src: Seq<u8>) -> bool {
    forall|k: int|
        0 <= k < t.records@.len() ==> {
            let c = #[trigger] t.records@[k];
            &&& c.output.start <= c.output.end <= t.output@.len()
            &&& c.source.start <= c.source.end <= src.len()
            &&& t.output@.subrange(c.output.start as int, c.output.end as int) == src.subrange(
                c.source.start as int,
                c.source.end as int,
            )
        }
}

/// Renders a whole tree into a fresh buffer. On success the output is the
/// tree's rendering, each record's output span holds exactly the source
/// bytes it maps to, the records come in output order, and the record
/// slices, concatenated in order, are exactly the output text that has a
/// source mapping.
pub fn transpile(root: &SyntaxNode, source: &[u8]) -> (r: Result<Transpilation, StructureError>)
    ensures
        match render(*root, source@) {
            Ok(ps) => {
                &&& r is Ok
                &&& r->Ok_0.wf()
                &&& r->Ok_0.pieces@ == ps
                &&& r->Ok_0.output@ == text_of(ps)
                &&& models(r->Ok_0.records@) == records_of(ps)
                &&& records_copy_source(r->Ok_0, source@)
                &&& record_slices(r->Ok_0.output@, models(r->Ok_0.records@)) == mapped_text(ps)
                &&& records_ordered(models(r->Ok_0.records@))
            },
            Err(e) => r is Err && r->Err_0 == e,
        },
{
    let mut st = Transpilation::new(source);
    match traverse_tree(root, source, &mut st) {
        Ok(()) => {
            assert(st.pieces@ =~= Seq::empty() + st.pieces@);
            proof {
                let ps = st.pieces@;
                lemma_records_faithful(ps, source@);
                lemma_record_slices(ps);
                lemma_records_ordered(ps);
                assert forall|k: int| 0 <= k < st.records@.len() implies {
                    let c = #[trigger] st.records@[k];
                    &&& c.output.start <= c.output.end <= st.output@.len()
                    &&& c.source.start <= c.source.end <= source@.len()
                    &&& st.output@.subrange(c.output.start as int, c.output.end as int)
                        == source@.subrange(c.source.start as int, c.source.end as int)
                } by {
                    assert(models(st.records@)[k] == st.records@[k].model());
                    assert(records_of(ps)[k] == st.records@[k].model());
                }
            }
            Ok(st)
        },
        Err(e) => Err(e),
    }
}

} // verus!
