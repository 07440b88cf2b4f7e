use pug_html::{is_void_element, is_void_name, NodeKind};

#[test]
fn canonical_void_names_are_void() {
    for name in [
        "area", "base", "br", "col", "embed", "hr", "img", "input", "link", "meta", "param",
        "source", "track", "wbr",
    ] {
        assert!(is_void_element(name), "{}", name);
    }
}

#[test]
fn other_names_are_not_void() {
    for name in ["div", "span", "p", "", "brr", "are", "inputs", "tag", "script", "b"] {
        assert!(!is_void_element(name), "{}", name);
    }
}

#[test]
fn classification_uses_lowercase_name() {
    assert!(is_void_element("BR"));
    assert!(is_void_element("Img"));
    assert!(is_void_element("wBr"));
    assert!(!is_void_element("DIV"));
    assert_eq!(is_void_element("Meta"), is_void_element("meta"));
    assert!(is_void_name(b"LINK"));
    assert!(!is_void_name(b"LINKS"));
}

#[test]
fn kind_names_of_the_grammar() {
    assert_eq!(NodeKind::from_name("source_file"), NodeKind::SourceFile);
    assert_eq!(NodeKind::from_name("children"), NodeKind::Children);
    assert_eq!(NodeKind::from_name("tag"), NodeKind::Tag);
    assert_eq!(NodeKind::from_name("attributes"), NodeKind::Attributes);
    assert_eq!(NodeKind::from_name("javascript"), NodeKind::Javascript);
    assert_eq!(NodeKind::from_name("quoted_attribute_value"), NodeKind::QuotedAttributeValue);
    assert_eq!(NodeKind::from_name("content"), NodeKind::Content);
    assert_eq!(NodeKind::from_name("pipe"), NodeKind::Pipe);
    assert_eq!(NodeKind::from_name("conditional"), NodeKind::Conditional);
    assert_eq!(
        NodeKind::from_name("escaped_string_interpolation"),
        NodeKind::EscapedStringInterpolation
    );
    assert_eq!(NodeKind::from_name("tag_interpolation"), NodeKind::TagInterpolation);
    assert_eq!(NodeKind::from_name("keyword"), NodeKind::Keyword);
    assert_eq!(NodeKind::from_name("mixin_attributes"), NodeKind::MixinAttributes);
    assert_eq!(NodeKind::from_name("comment"), NodeKind::Comment);
    assert_eq!(NodeKind::from_name("tag_name"), NodeKind::Other);
    assert_eq!(NodeKind::from_name("Tag"), NodeKind::Other);
    assert_eq!(NodeKind::from_name(""), NodeKind::Other);
}
