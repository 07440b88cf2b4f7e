use pug_html::{transpile, NodeKind, Span, StructureError, SyntaxNode, Transpilation};

fn node(kind: NodeKind, start: usize, end: usize, children: Vec<SyntaxNode>) -> SyntaxNode {
    SyntaxNode { kind, named: true, start, end, children }
}

fn punct(start: usize, end: usize) -> SyntaxNode {
    SyntaxNode { kind: NodeKind::Other, named: false, start, end, children: Vec::new() }
}

/// A named leaf covering the first occurrence of `text` at or after `from`.
fn leaf_at(src: &str, kind: NodeKind, text: &str, from: usize) -> SyntaxNode {
    let start = from + src[from..].find(text).unwrap();
    node(kind, start, start + text.len(), Vec::new())
}

fn leaf(src: &str, kind: NodeKind, text: &str) -> SyntaxNode {
    leaf_at(src, kind, text, 0)
}

fn output(t: &Transpilation) -> String {
    String::from_utf8(t.output.clone()).unwrap()
}

fn run(root: &SyntaxNode, src: &str) -> Transpilation {
    transpile(root, src.as_bytes()).unwrap()
}

fn mapped(t: &Transpilation, src: &str) -> Vec<(String, String)> {
    t.records
        .iter()
        .map(|r| {
            (
                output(t)[r.output.start..r.output.end].to_string(),
                src[r.source.start..r.source.end].to_string(),
            )
        })
        .collect()
}

/// `tag(attribute=isAuthenticated ? true : false, attribute)` with a nested
/// `tag_two(attribute)`.
fn example_tree(src: &str) -> SyntaxNode {
    let expr = "isAuthenticated ? true : false";
    let first_attr_start = src.find("attribute=").unwrap();
    let expr_node = leaf(src, NodeKind::Javascript, expr);
    let attr1 = node(
        NodeKind::Other,
        first_attr_start,
        expr_node.end,
        vec![
            leaf(src, NodeKind::Other, "attribute"),
            punct(first_attr_start + 9, first_attr_start + 10),
            expr_node,
        ],
    );
    let bare = leaf_at(src, NodeKind::Other, "attribute", attr1.end);
    let attr2 = node(NodeKind::Other, bare.start, bare.end, vec![bare]);
    let close1 = src.find(')').unwrap();
    let attrs1 = node(
        NodeKind::Attributes,
        3,
        close1 + 1,
        vec![punct(3, 4), attr1, punct(attr2.start - 2, attr2.start - 1), attr2, punct(close1, close1 + 1)],
    );
    let two = src.find("tag_two").unwrap();
    let inner_name = leaf_at(src, NodeKind::Other, "attribute", two);
    let close2 = src.rfind(')').unwrap();
    let attr3 = node(NodeKind::Other, inner_name.start, inner_name.end, vec![inner_name]);
    let attrs2 = node(
        NodeKind::Attributes,
        two + 7,
        close2 + 1,
        vec![punct(two + 7, two + 8), attr3, punct(close2, close2 + 1)],
    );
    let tag_two = node(
        NodeKind::Tag,
        two,
        close2 + 1,
        vec![node(NodeKind::Other, two, two + 7, Vec::new()), attrs2],
    );
    let children = node(NodeKind::Children, two, close2 + 1, vec![tag_two]);
    let tag = node(
        NodeKind::Tag,
        0,
        close2 + 1,
        vec![node(NodeKind::Other, 0, 3, Vec::new()), attrs1, children],
    );
    node(NodeKind::SourceFile, 0, src.len(), vec![tag])
}

const EXAMPLE: &str = "tag(attribute=isAuthenticated ? true : false, attribute)\n  tag_two(attribute)\n";

#[test]
fn end_to_end_attributes() {
    let t = run(&example_tree(EXAMPLE), EXAMPLE);
    assert_eq!(
        output(&t),
        "<tag attribute='isAuthenticated ? true : false', attribute='attribute'>\
         <tag_two attribute='attribute'></tag_two></tag>"
    );
    assert!(output(&t).starts_with(
        "<tag attribute='isAuthenticated ? true : false', attribute='attribute'>"
    ));
}

#[test]
fn end_to_end_records() {
    let t = run(&example_tree(EXAMPLE), EXAMPLE);
    let pairs: Vec<(String, String)> = mapped(&t, EXAMPLE);
    let expected: Vec<(String, String)> = [
        "tag",
        "attribute",
        "isAuthenticated ? true : false",
        "attribute",
        "tag_two",
        "attribute",
    ]
    .iter()
    .map(|s| (s.to_string(), s.to_string()))
    .collect();
    assert_eq!(pairs, expected);
}

#[test]
fn record_lengths_match_their_text() {
    let t = run(&example_tree(EXAMPLE), EXAMPLE);
    for r in &t.records {
        assert_eq!(r.output.end - r.output.start, r.source.end - r.source.start);
        assert_eq!(
            &t.output[r.output.start..r.output.end],
            &EXAMPLE.as_bytes()[r.source.start..r.source.end]
        );
    }
}

#[test]
fn record_slices_are_the_mapped_text() {
    let t = run(&example_tree(EXAMPLE), EXAMPLE);
    let mut joined = Vec::new();
    let mut last_end = 0;
    for r in &t.records {
        assert!(r.output.start >= last_end);
        last_end = r.output.end;
        joined.extend_from_slice(&t.output[r.output.start..r.output.end]);
    }
    assert_eq!(
        String::from_utf8(joined).unwrap(),
        "tagattributeisAuthenticated ? true : falseattributetag_twoattribute"
    );
}

#[test]
fn boolean_attribute_repeats_its_name() {
    let src = "input(disabled)";
    let name = leaf(src, NodeKind::Other, "disabled");
    let attr = node(NodeKind::Other, name.start, name.end, vec![name]);
    let attrs = node(NodeKind::Attributes, 5, 15, vec![punct(5, 6), attr, punct(14, 15)]);
    let tag = node(NodeKind::Tag, 0, 15, vec![node(NodeKind::Other, 0, 5, Vec::new()), attrs]);
    let t = run(&tag, src);
    assert_eq!(output(&t), "<input disabled='disabled'/>");
    assert_eq!(mapped(&t, src).len(), 2);
}

#[test]
fn quoted_value_is_copied_verbatim() {
    let src = "a(href=\"x.html\")";
    let name = leaf(src, NodeKind::Other, "href");
    let value = leaf(src, NodeKind::QuotedAttributeValue, "\"x.html\"");
    let attr = node(NodeKind::Other, name.start, value.end, vec![name, punct(6, 7), value]);
    let attrs = node(NodeKind::Attributes, 1, src.len(), vec![attr]);
    let tag = node(NodeKind::Tag, 0, src.len(), vec![node(NodeKind::Other, 0, 1, Vec::new()), attrs]);
    let t = run(&tag, src);
    assert_eq!(output(&t), "<a href=\"x.html\"></a>");
    assert_eq!(mapped(&t, src)[2], ("\"x.html\"".to_string(), "\"x.html\"".to_string()));
}

#[test]
fn conditional_marker_then_body() {
    let src = "if x > 1\n  p hello";
    let kw = leaf(src, NodeKind::Keyword, "if");
    let cond = leaf(src, NodeKind::Javascript, "x > 1");
    let p = src.find("p hello").unwrap();
    let content = leaf(src, NodeKind::Content, "hello");
    let tag = node(NodeKind::Tag, p, src.len(), vec![node(NodeKind::Other, p, p + 1, Vec::new()), content]);
    let body = node(NodeKind::Children, p, src.len(), vec![tag]);
    let conditional = node(
        NodeKind::Conditional,
        0,
        src.len(),
        vec![kw, cond, punct(8, 9), body],
    );
    let root = node(NodeKind::SourceFile, 0, src.len(), vec![conditional]);
    let t = run(&root, src);
    assert_eq!(output(&t), "<script>return x > 1;</script><p>hello</p>");
    assert!(output(&t).contains("<script>return x > 1;</script><p>"));
    assert_eq!(mapped(&t, src)[0], ("x > 1".to_string(), "x > 1".to_string()));
}

#[test]
fn conditional_without_condition_renders_body() {
    let src = "else\n  br";
    let kw = leaf(src, NodeKind::Keyword, "else");
    let b = src.find("br").unwrap();
    let tag = node(NodeKind::Tag, b, b + 2, vec![node(NodeKind::Other, b, b + 2, Vec::new())]);
    let body = node(NodeKind::Children, b, b + 2, vec![tag]);
    let conditional = node(NodeKind::Conditional, 0, src.len(), vec![kw, punct(4, 5), body]);
    let t = run(&conditional, src);
    assert_eq!(output(&t), "<br/>");
}

#[test]
fn empty_attributes_block_renders_nothing() {
    let src = "div()";
    let attrs = node(NodeKind::Attributes, 3, 5, Vec::new());
    let t = run(&attrs, src);
    assert_eq!(output(&t), "");
    assert!(t.records.is_empty());
    let attrs = node(NodeKind::Attributes, 3, 5, Vec::new());
    let tag = node(NodeKind::Tag, 0, 5, vec![node(NodeKind::Other, 0, 3, Vec::new()), attrs]);
    let t = run(&tag, src);
    assert_eq!(output(&t), "<div ></div>");
    assert!(!output(&t).contains(','));
}

#[test]
fn content_interpolation_comes_first() {
    let src = "p Hello #{name}!";
    let content_start = src.find("Hello").unwrap();
    let expr = leaf(src, NodeKind::Javascript, "name");
    let open = src.find("#{").unwrap();
    let interp = node(
        NodeKind::EscapedStringInterpolation,
        open,
        expr.end + 1,
        vec![punct(open, open + 2), expr, punct(open + 6, open + 7)],
    );
    let content = node(NodeKind::Content, content_start, src.len(), vec![interp]);
    let t = run(&content, src);
    assert_eq!(output(&t), "<script>return name;</script>Hello #{name}!");
    assert_eq!(
        mapped(&t, src),
        vec![
            ("name".to_string(), "name".to_string()),
            ("Hello #{name}!".to_string(), "Hello #{name}!".to_string()),
        ]
    );
    assert!(t.records[0].output.end <= t.records[1].output.start);
}

#[test]
fn void_tag_stops_at_first_other_child() {
    let src = "br text";
    let content = leaf(src, NodeKind::Content, "text");
    let tag = node(NodeKind::Tag, 0, src.len(), vec![node(NodeKind::Other, 0, 2, Vec::new()), content]);
    let t = run(&tag, src);
    assert_eq!(output(&t), "<br/>");
}

#[test]
fn uppercase_void_tag_keeps_its_name() {
    let src = "BR";
    let tag = node(NodeKind::Tag, 0, 2, vec![node(NodeKind::Other, 0, 2, Vec::new())]);
    let t = run(&tag, src);
    assert_eq!(output(&t), "<BR/>");
}

#[test]
fn non_void_tag_with_attributes_after_content() {
    let src = "div text (a)";
    let content = leaf(src, NodeKind::Content, "text");
    let name = leaf(src, NodeKind::Other, "a");
    let attr = node(NodeKind::Other, name.start, name.end, vec![name]);
    let attrs = node(NodeKind::Attributes, 9, 12, vec![attr]);
    let tag = node(NodeKind::Tag, 0, src.len(), vec![node(NodeKind::Other, 0, 3, Vec::new()), content, attrs]);
    let t = run(&tag, src);
    assert!(output(&t).starts_with("<div>"));
    assert!(output(&t).ends_with("</div>"));
    assert_eq!(output(&t), "<div>text a='a'</div>");
}

#[test]
fn pipe_skips_its_marker() {
    let src = "| some text";
    let content = leaf(src, NodeKind::Content, "some text");
    let pipe = node(NodeKind::Pipe, 0, src.len(), vec![punct(0, 1), content]);
    let t = run(&pipe, src);
    assert_eq!(output(&t), "some text");
    let empty = node(NodeKind::Pipe, 0, 0, Vec::new());
    assert_eq!(output(&run(&empty, src)), "");
}

#[test]
fn tag_interpolation_wraps_each_named_child() {
    let src = "#[a b]";
    let first = leaf(src, NodeKind::Other, "a");
    let second = leaf(src, NodeKind::Other, "b");
    let interp = node(
        NodeKind::TagInterpolation,
        0,
        src.len(),
        vec![punct(0, 2), first, second, punct(5, 6)],
    );
    let t = run(&interp, src);
    assert_eq!(output(&t), "<script>return a;</script><script>return b;</script>");
}

#[test]
fn inert_and_unknown_kinds_render_nothing() {
    let src = "// note";
    for kind in [NodeKind::Comment, NodeKind::Keyword, NodeKind::MixinAttributes, NodeKind::Other] {
        let n = node(kind, 0, src.len(), vec![leaf(src, NodeKind::Content, "note")]);
        let t = run(&n, src);
        assert_eq!(output(&t), "");
    }
    let unnamed = SyntaxNode {
        kind: NodeKind::Tag,
        named: false,
        start: 0,
        end: 2,
        children: Vec::new(),
    };
    assert_eq!(output(&run(&unnamed, src)), "");
}

#[test]
fn tag_without_name_is_an_error() {
    let src = "()";
    let tag = node(NodeKind::Tag, 0, 2, vec![punct(0, 1), punct(1, 2)]);
    assert!(matches!(transpile(&tag, src.as_bytes()), Err(StructureError::MissingTagName)));
}

#[test]
fn attribute_without_name_is_an_error() {
    let src = "a(=)";
    let attr = node(NodeKind::Other, 2, 3, vec![punct(2, 3)]);
    let attrs = node(NodeKind::Attributes, 1, 4, vec![attr]);
    let tag = node(NodeKind::Tag, 0, 4, vec![node(NodeKind::Other, 0, 1, Vec::new()), attrs]);
    assert!(matches!(
        transpile(&tag, src.as_bytes()),
        Err(StructureError::MissingAttributeName)
    ));
}

#[test]
fn span_outside_source_is_an_error() {
    let src = "p";
    let tag = node(NodeKind::Tag, 0, 9, vec![node(NodeKind::Other, 0, 9, Vec::new())]);
    assert!(matches!(transpile(&tag, src.as_bytes()), Err(StructureError::SpanOutOfSource)));
    let content = node(NodeKind::Content, 1, 0, Vec::new());
    assert!(matches!(transpile(&content, src.as_bytes()), Err(StructureError::SpanOutOfSource)));
}

#[test]
fn closing_tag_has_no_record() {
    let src = "section";
    let tag = node(NodeKind::Tag, 0, 7, vec![node(NodeKind::Other, 0, 7, Vec::new())]);
    let t = run(&tag, src);
    assert_eq!(output(&t), "<section></section>");
    assert_eq!(t.records.len(), 1);
    assert_eq!(t.records[0].output, Span { start: 1, end: 8 });
    assert_eq!(t.records[0].source, Span { start: 0, end: 7 });
}
