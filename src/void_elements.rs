use vstd::prelude::*;
use vstd::string::StringSliceAdditionalSpecFns;

use crate::bytes::same_bytes;

verus! {

/// ASCII lowercase of one byte.
pub open spec fn lower_byte(b: u8) -> u8 {
    if 65 <= b && b <= 90 {
        (b + 32) as u8
    } else {
        b
    }
}

/// ASCII lowercase of a byte string.
pub open spec fn ascii_lower(s: Seq<u8>) -> Seq<u8> {
    s.map_values(|b: u8| lower_byte(b))
}

/// The HTML elements that close without content.
#[verifier::opaque]
pub open spec fn void_names() -> Set<Seq<u8>> {
    set![
        "area".spec_bytes(), "base".spec_bytes(), "br".spec_bytes(), "col".spec_bytes(),
        "embed".spec_bytes(), "hr".spec_bytes(), "img".spec_bytes(), "input".spec_bytes(),
        "link".spec_bytes(), "meta".spec_bytes(), "param".spec_bytes(), "source".spec_bytes(),
        "track".spec_bytes(), "wbr".spec_bytes(),
    ]
}

/// A tag name names a void element when its lowercase form is one of them.
pub open spec fn is_void_spec(name: Seq<u8>) -> bool {
    void_names().contains(ascii_lower(name))
}

/// Classification depends on the lowercase name alone: two names with the
/// same lowercase form are both void or both not.
pub proof fn lemma_void_by_lowercase(a: Seq<u8>, b: Seq<u8>)
    requires
        ascii_lower(a) == ascii_lower(b),
    ensures
        is_void_spec(a) == is_void_spec(b),
{
}

fn lower(b: u8) -> (r: u8)
    ensures
        r == lower_byte(b),
{
    if 65 <= b && b <= 90 {
        b + 32
    } else {
        b
    }
}

/// Whether the lowercase form of `name` is `lowercase_word`.
fn lower_equals(name: &[u8], lowercase_word: &[u8]) -> (r: bool)
    ensures
        r == (ascii_lower(name@) == lowercase_word@),
{
    if name.len() != lowercase_word.len() {
        assert(ascii_lower(name@).len() != lowercase_word@.len());
        return false;
    }
    let mut i: usize = 0;
    while i < name.len()
        invariant
            name@.len() == lowercase_word@.len(),
            i <= name@.len(),
            forall|k: int| 0 <= k < i ==> lower_byte(name@[k]) == lowercase_word@[k],
        decreases name@.len() - i,
    {
        if lower(name[i]) != lowercase_word[i] {
            assert(ascii_lower(name@)[i as int] != lowercase_word@[i as int]);
            return false;
        }
        i += 1;
    }
    assert(ascii_lower(name@) =~= lowercase_word@);
    true
}

/// Whether the tag name `name` (as bytes) names a void element.
pub fn is_void_name(name: &[u8]) -> (r: bool)
    ensures
        r == is_void_spec(name@),
{
    reveal(void_names);
    let r = lower_equals(name, "area".as_bytes()) || lower_equals(name, "base".as_bytes())
        || lower_equals(name, "br".as_bytes()) || lower_equals(name, "col".as_bytes())
        || lower_equals(name, "embed".as_bytes()) || lower_equals(name, "hr".as_bytes())
        || lower_equals(name, "img".as_bytes()) || lower_equals(name, "input".as_bytes())
        || lower_equals(name, "link".as_bytes()) || lower_equals(name, "meta".as_bytes())
        || lower_equals(name, "param".as_bytes()) || lower_equals(name, "source".as_bytes())
        || lower_equals(name, "track".as_bytes()) || lower_equals(name, "wbr".as_bytes());
    r
}

/// Whether the tag name `tag_name` names a void element.
pub fn is_void_element(tag_name: &str) -> (r: bool)
    ensures
        r == is_void_spec(tag_name.spec_bytes()),
{
    is_void_name(tag_name.as_bytes())
}

} // verus!
