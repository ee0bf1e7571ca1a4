//! What a view hands to the renderer: the elements of a tree in document
//! order, each with its depth below the root and its concrete rules.

use crate::resolver::StyleRule;
use vstd::prelude::*;

verus! {

/// The kind of an element.
#[derive(Clone, Copy, Debug, PartialEq, Eq, Hash, Structural)]
pub enum Tag {
    Div,
    H1,
    P,
}

/// One element. Its parent is the nearest element before it that is one
/// level less deep.
#[derive(Debug, PartialEq, Eq)]
pub struct Element {
    pub depth: usize,
    pub tag: Tag,
    pub rules: Vec<StyleRule>,
    pub text: &'static str,
}

/// `Element` as a mathematical value.
pub struct ElementView {
    pub depth: usize,
    pub tag: Tag,
    pub rules: Seq<StyleRule>,
    pub text: &'static str,
}

impl View for Element {
    type V = ElementView;

    open spec fn view(&self) -> ElementView {
        ElementView { depth: self.depth, tag: self.tag, rules: self.rules@, text: self.text }
    }
}

/// The views of a sequence of elements, in order.
pub open spec fn element_views(s: Seq<Element>) -> Seq<ElementView> {
    Seq::new(s.len(), |i: int| s[i]@)
}

/// Whether position `j` holds the parent of the element at position `i`:
/// the nearest element before it that is one level less deep.
pub open spec fn is_parent(s: Seq<ElementView>, i: int, j: int) -> bool {
    &&& 0 <= j < i < s.len()
    &&& s[j].depth + 1 == s[i].depth
    &&& forall|k: int| j < k < i ==> (#[trigger] s[k]).depth + 1 != s[i].depth
}

/// The position of the parent of the element at position `index`. There is
/// none for an element at depth zero, for one that nothing one level less
/// deep comes before, and for a position past the end.
pub fn parent(elements: &Vec<Element>, index: usize) -> (r: Option<usize>)
    ensures
        r matches Some(j) ==> is_parent(element_views(elements@), index as int, j as int),
        r is None ==> forall|j: int| !is_parent(element_views(elements@), index as int, j),
{
    let ghost views = element_views(elements@);
    if index >= elements.len() {
        return None;
    }
    let depth = elements[index].depth;
    if depth == 0 {
        return None;
    }
    let mut j = index;
    while j > 0
        invariant
            0 <= j <= index < elements@.len(),
            views == element_views(elements@),
            depth == elements@[index as int].depth,
            depth > 0,
            forall|k: int| j <= k < index ==> (#[trigger] views[k]).depth + 1 != depth,
        decreases j,
    {
        j -= 1;
        if elements[j].depth == depth - 1 {
            return Some(j);
        }
    }
    assert forall|k: int| !is_parent(views, index as int, k) by {
        if 0 <= k < index {
            assert(views[k].depth + 1 != depth);
        }
    }
    None
}

/// A copy of `rules`.
pub fn copy_rules(rules: &Vec<StyleRule>) -> (r: Vec<StyleRule>)
    ensures
        r@ == rules@,
{
    let n = rules.len();
    let mut copy: Vec<StyleRule> = Vec::new();
    let mut i: usize = 0;
    while i < n
        invariant
            n == rules@.len(),
            0 <= i <= n,
            copy@ == rules@.take(i as int),
        decreases n - i,
    {
        copy.push(rules[i]);
        assert(copy@ =~= rules@.take(i + 1));
        i += 1;
    }
    assert(rules@.take(n as int) =~= rules@);
    copy
}

} // verus!
