use vstd::prelude::*;
use vstd::string::StringSliceAdditionalSpecFns;

use crate::bytes::same_bytes;

verus! {

/// A half-open byte interval `[start, end)`.
#[derive(Clone, Copy, Debug, PartialEq, Eq, Structural)]
pub struct Span {
    pub start: usize,
    pub end: usize,
}

/// The construct a syntax node stands for, as far as rendering tells them apart.
#[derive(Clone, Copy, Debug, PartialEq, Eq, Structural)]
pub enum NodeKind {
    SourceFile,
    Children,
    Tag,
    Attributes,
    Javascript,
    QuotedAttributeValue,
    Content,
    Pipe,
    Conditional,
    EscapedStringInterpolation,
    TagInterpolation,
    Keyword,
    MixinAttributes,
    Comment,
    /// Any construct with no role of its own in rendering.
    Other,
}

/// A node of the template's concrete syntax tree: its construct, whether the
/// grammar names it (punctuation is anonymous), its byte range in the source
/// and its children in document order.
pub struct SyntaxNode {
    pub kind: NodeKind,
    pub named: bool,
    pub start: usize,
    pub end: usize,
    pub children: Vec<SyntaxNode>,
}

impl SyntaxNode {
    pub open spec fn span(self) -> Span {
        Span { start: self.start, end: self.end }
    }
}

/// The grammar's names of the constructs that rendering tells apart.
pub open spec fn kind_of_name(name: Seq<u8>) -> NodeKind {
    if name == "source_file".spec_bytes() {
        NodeKind::SourceFile
    } else if name == "children".spec_bytes() {
        NodeKind::Children
    } else if name == "tag".spec_bytes() {
        NodeKind::Tag
    } else if name == "attributes".spec_bytes() {
        NodeKind::Attributes
    } else if name == "javascript".spec_bytes() {
        NodeKind::Javascript
    } else if name == "quoted_attribute_value".spec_bytes() {
        NodeKind::QuotedAttributeValue
    } else if name == "content".spec_bytes() {
        NodeKind::Content
    } else if name == "pipe".spec_bytes() {
        NodeKind::Pipe
    } else if name == "conditional".spec_bytes() {
        NodeKind::Conditional
    } else if name == "escaped_string_interpolation".spec_bytes() {
        NodeKind::EscapedStringInterpolation
    } else if name == "tag_interpolation".spec_bytes() {
        NodeKind::TagInterpolation
    } else if name == "keyword".spec_bytes() {
        NodeKind::Keyword
    } else if name == "mixin_attributes".spec_bytes() {
        NodeKind::MixinAttributes
    } else if name == "comment".spec_bytes() {
        NodeKind::Comment
    } else {
        NodeKind::Other
    }
}

impl NodeKind {
    /// The construct that the grammar calls `name`.
    pub fn from_name(name: &str) -> (r: NodeKind)
        ensures
            r == kind_of_name(name.spec_bytes()),
    {
        let b = name.as_bytes();
        if same_bytes(b, "source_file".as_bytes()) {
            NodeKind::SourceFile
        } else if same_bytes(b, "children".as_bytes()) {
            NodeKind::Children
        } else if same_bytes(b, "tag".as_bytes()) {
            NodeKind::Tag
        } else if same_bytes(b, "attributes".as_bytes()) {
            NodeKind::Attributes
        } else if same_bytes(b, "javascript".as_bytes()) {
            NodeKind::Javascript
        } else if same_bytes(b, "quoted_attribute_value".as_bytes()) {
            NodeKind::QuotedAttributeValue
        } else if same_bytes(b, "content".as_bytes()) {
            NodeKind::Content
        } else if same_bytes(b, "pipe".as_bytes()) {
            NodeKind::Pipe
        } else if same_bytes(b, "conditional".as_bytes()) {
            NodeKind::Conditional
        } else if same_bytes(b, "escaped_string_interpolation".as_bytes()) {
            NodeKind::EscapedStringInterpolation
        } else if same_bytes(b, "tag_interpolation".as_bytes()) {
            NodeKind::TagInterpolation
        } else if same_bytes(b, "keyword".as_bytes()) {
            NodeKind::Keyword
        } else if same_bytes(b, "mixin_attributes".as_bytes()) {
            NodeKind::MixinAttributes
        } else if same_bytes(b, "comment".as_bytes()) {
            NodeKind::Comment
        } else {
            NodeKind::Other
        }
    }
}

/// Index of the first named node of `cs` at or after `from`, or `cs.len()`
/// when there is none.
pub open spec fn next_named(cs: Seq<SyntaxNode>, from: int) -> int
    decreases cs.len() - from,
{
    if from >= cs.len() {
        cs.len() as int
    } else if cs[from].named {
        from
    } else {
        next_named(cs, from + 1)
    }
}

pub proof fn lemma_next_named(cs: Seq<SyntaxNode>, from: int)
    requires
        0 <= from <= cs.len(),
    ensures
        from <= next_named(cs, from) <= cs.len(),
        next_named(cs, from) < cs.len() ==> cs[next_named(cs, from)].named,
    decreases cs.len() - from,
{
    if from < cs.len() && !cs[from].named {
        lemma_next_named(cs, from + 1);
    }
}

/// Executable form of `next_named`.
pub fn find_named(children: &Vec<SyntaxNode>, from: usize) -> (r: usize)
    requires
        from <= children@.len(),
    ensures
        r == next_named(children@, from as int),
        from <= r <= children@.len(),
        r < children@.len() ==> children@[r as int].named,
{
    let mut i: usize = from;
    while i < children.len()
        invariant
            from <= i <= children@.len(),
            next_named(children@, i as int) == next_named(children@, from as int),
        decreases children@.len() - i,
    {
        if children[i].named {
            return i;
        }
        i += 1;
    }
    i
}

} // verus!
