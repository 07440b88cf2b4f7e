//! What rendered tags, attributes and content blocks look like.
use vstd::prelude::*;
use vstd::string::StringSliceAdditionalSpecFns;

use crate::output::{lit, records_of, text_of, Piece};
use crate::render::{
    copied, in_source, render, render_attribute, render_attributes, render_named, render_tag,
    render_tag_child, render_tag_items, slice_of, sourced, tag_end, StructureError,
};
use crate::syntax::{lemma_next_named, next_named, NodeKind, SyntaxNode};
use crate::void_elements::is_void_spec;

verus! {

proof fn lemma_tag_items_end(
    n: SyntaxNode,
    i: int,
    void: bool,
    closed: bool,
    name: Piece,
    src: Seq<u8>,
)
    requires
        render_tag_items(n, i, void, closed, name, src) is Ok,
    ensures
        ({
            let ps = render_tag_items(n, i, void, closed, name, src)->Ok_0;
            if void {
                ps.len() >= 1 && ps.last() == lit("/>")
            } else {
                ps.len() >= 3 && ps.subrange(ps.len() - 3, ps.len() as int) == seq![
                    lit("</"),
                    name,
                    lit(">"),
                ]
            }
        }),
    decreases n.children@.len() - i,
{
    let cs = n.children@;
    if i < 0 || i >= cs.len() {
        let ps = tag_end(void, closed, name);
        assert(!void ==> ps.subrange(ps.len() - 3, ps.len() as int) =~= seq![lit("</"), name, lit(">")]);
    } else if !cs[i].named {
        lemma_tag_items_end(n, i + 1, void, closed, name, src);
    } else if cs[i].kind != NodeKind::Attributes && void {
    } else {
        let closed2 = closed || cs[i].kind != NodeKind::Attributes;
        lemma_tag_items_end(n, i + 1, void, closed2, name, src);
        let a = render_tag_child(n, i, closed, src)->Ok_0;
        let b = render_tag_items(n, i + 1, void, closed2, name, src)->Ok_0;
        let ps = a + b;
        if void {
            assert(ps.last() == b.last());
        } else {
            assert(ps.subrange(ps.len() - 3, ps.len() as int) =~= b.subrange(
                b.len() - 3,
                b.len() as int,
            ));
        }
    }
}

/// A rendered tag opens with `<` and its name, mapped to the name's source;
/// a void element ends with `/>`, any other with `</`, its name and `>`,
/// whatever the order of its attributes, content and children.
pub proof fn lemma_tag_shape(n: SyntaxNode, src: Seq<u8>)
    requires
        render_tag(n, src) is Ok,
    ensures
        ({
            let ps = render_tag(n, src)->Ok_0;
            let name = n.children@[next_named(n.children@, 0)];
            &&& ps.len() >= 3
            &&& ps[0] == lit("<")
            &&& ps[1] == sourced(name, src)
            &&& is_void_spec(slice_of(name, src)) ==> ps.last() == lit("/>")
            &&& !is_void_spec(slice_of(name, src)) ==> ps.len() >= 5 && ps.subrange(
                ps.len() - 3,
                ps.len() as int,
            ) == seq![lit("</"), copied(name, src), lit(">")]
        }),
{
    let cs = n.children@;
    lemma_next_named(cs, 0);
    let k = next_named(cs, 0);
    let void = is_void_spec(slice_of(cs[k], src));
    lemma_tag_items_end(n, k + 1, void, false, copied(cs[k], src), src);
    let head = seq![lit("<"), sourced(cs[k], src)];
    let b = render_tag_items(n, k + 1, void, false, copied(cs[k], src), src)->Ok_0;
    let ps = head + b;
    assert(ps[0] == head[0]);
    assert(ps[1] == head[1]);
    if void {
        assert(ps.last() == b.last());
    } else {
        assert(ps.subrange(ps.len() - 3, ps.len() as int) =~= b.subrange(
            b.len() - 3,
            b.len() as int,
        ));
    }
}

/// An attribute with a name and no value renders as `name='name'`, with
/// only the first name mapped to the source.
pub proof fn lemma_boolean_attribute(a: SyntaxNode, src: Seq<u8>)
    requires
        next_named(a.children@, 0) < a.children@.len(),
        in_source(a.children@[next_named(a.children@, 0)], src),
        next_named(a.children@, next_named(a.children@, 0) + 1) >= a.children@.len(),
    ensures
        ({
            let name = a.children@[next_named(a.children@, 0)];
            let ps = seq![sourced(name, src), lit("="), lit("'"), copied(name, src), lit("'")];
            &&& render_attribute(a, src) == Ok::<Seq<Piece>, StructureError>(ps)
            &&& text_of(ps) == slice_of(name, src) + "=".spec_bytes() + "'".spec_bytes()
                + slice_of(name, src) + "'".spec_bytes()
        }),
{
    lemma_next_named(a.children@, 0);
    let name = a.children@[next_named(a.children@, 0)];
    let ps = seq![sourced(name, src), lit("="), lit("'"), copied(name, src), lit("'")];
    assert(seq![sourced(name, src), lit("=")] + seq![lit("'"), copied(name, src), lit("'")] =~= ps);
    reveal_with_fuel(text_of, 6);
    assert(ps.drop_last().drop_last().drop_last().drop_last().drop_last() =~= Seq::<Piece>::empty());
    assert(ps.drop_last().drop_last().drop_last().drop_last() =~= seq![sourced(name, src)]);
    assert(ps.drop_last().drop_last().drop_last() =~= seq![sourced(name, src), lit("=")]);
    assert(ps.drop_last().drop_last() =~= seq![sourced(name, src), lit("="), lit("'")]);
    assert(ps.drop_last() =~= seq![sourced(name, src), lit("="), lit("'"), copied(name, src)]);
    assert(text_of(ps) =~= slice_of(name, src) + "=".spec_bytes() + "'".spec_bytes() + slice_of(
        name,
        src,
    ) + "'".spec_bytes());
}

proof fn lemma_attributes_unnamed(n: SyntaxNode, i: int, src: Seq<u8>)
    requires
        forall|j: int| 0 <= j < n.children@.len() ==> !(#[trigger] n.children@[j]).named,
    ensures
        render_attributes(n, i, src) == Ok::<Seq<Piece>, StructureError>(Seq::empty()),
    decreases n.children@.len() - i,
{
    if 0 <= i < n.children@.len() {
        lemma_attributes_unnamed(n, i + 1, src);
    }
}

/// An attributes block with no attributes renders as nothing at all: no
/// attribute text and no separator.
pub proof fn lemma_empty_attributes(n: SyntaxNode, src: Seq<u8>)
    requires
        n.named,
        n.kind == NodeKind::Attributes,
        forall|j: int| 0 <= j < n.children@.len() ==> !(#[trigger] n.children@[j]).named,
    ensures
        render(n, src) == Ok::<Seq<Piece>, StructureError>(Seq::empty()),
{
    lemma_attributes_unnamed(n, 0, src);
}

/// A content block whose one child is a string interpolation renders the
/// interpolation's marker first and then the block's whole source text, so
/// the expression's correspondence comes before the block's.
pub proof fn lemma_content_interpolation(n: SyntaxNode, src: Seq<u8>)
    requires
        n.named,
        n.kind == NodeKind::Content,
        in_source(n, src),
        n.children@.len() == 1,
        n.children@[0].named,
        n.children@[0].kind == NodeKind::EscapedStringInterpolation,
        next_named(n.children@[0].children@, 0) < n.children@[0].children@.len(),
        in_source(n.children@[0].children@[next_named(n.children@[0].children@, 0)], src),
    ensures
        ({
            let e = n.children@[0].children@[next_named(n.children@[0].children@, 0)];
            let ps = seq![
                lit("<script>return "),
                sourced(e, src),
                lit(";</script>"),
                sourced(n, src),
            ];
            &&& render(n, src) == Ok::<Seq<Piece>, StructureError>(ps)
            &&& records_of(ps).len() == 2
            &&& records_of(ps)[0].source == e.span()
            &&& records_of(ps)[1].source == n.span()
            &&& records_of(ps)[0].output_end <= records_of(ps)[1].output_start
        }),
{
    let c = n.children@[0];
    let e = c.children@[next_named(c.children@, 0)];
    let m = seq![lit("<script>return "), sourced(e, src), lit(";</script>")];
    let ps = m + seq![sourced(n, src)];
    assert(render(c, src) == Ok::<Seq<Piece>, StructureError>(m));
    assert(render_named(n, 1, src) == Ok::<Seq<Piece>, StructureError>(Seq::empty()));
    assert(m + Seq::empty() =~= m);
    assert(render_named(n, 0, src) == Ok::<Seq<Piece>, StructureError>(m));
    assert(ps =~= seq![lit("<script>return "), sourced(e, src), lit(";</script>"), sourced(n, src)]);
    reveal_with_fuel(records_of, 5);
    assert(ps.drop_last() =~= m);
    assert(m.drop_last() =~= seq![lit("<script>return "), sourced(e, src)]);
    assert(m.drop_last().drop_last() =~= seq![lit("<script>return ")]);
    assert(m.drop_last().drop_last().drop_last() =~= Seq::<Piece>::empty());
    reveal_with_fuel(text_of, 5);
}

} // verus!
