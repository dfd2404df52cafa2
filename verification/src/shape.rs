use vstd::prelude::*;
use crate::names::distinct_keys;
use crate::tree::{DocumentView, Element, ElementView, NodeView};

verus! {

/// The invariant speaks of the records alone.
pub proof fn lemma_same_elements_wf(v: DocumentView, w: DocumentView)
    requires
        v.wf(),
        w.elements == v.elements,
    ensures
        w.wf(),
{
    assert forall|e: Element| #[trigger] w.has(e) implies w.linked_up(e) by {
        assert(v.has(e));
        assert(v.linked_up(e));
    }
    assert forall|p: Element, i: int|
        w.has(p) && 0 <= i < w.children(p).len() implies #[trigger] w.linked_down(p, i) by {
        assert(v.has(p));
        assert(v.linked_down(p, i));
    }
    assert forall|e: Element| #[trigger] w.has(e) implies distinct_keys(w.get(e).attributes)
        && distinct_keys(w.get(e).namespace_decls) by {
        assert(v.has(e));
    }
}

/// A new element leaves the tree as it is: the invariant holds with one more record.
pub proof fn lemma_with_element_wf(v: DocumentView, data: ElementView)
    requires
        v.wf(),
        data.parent is None,
        data.children.len() == 0,
        distinct_keys(data.attributes),
        distinct_keys(data.namespace_decls),
    ensures
        v.with_element(data).wf(),
{
    broadcast use Element::lemma_same_index;

    let w = v.with_element(data);
    assert forall|e: Element| #[trigger] w.has(e) implies w.linked_up(e) by {
        if v.has(e) {
            assert(v.linked_up(e));
            assert(w.get(e) == v.get(e));
            if let Some(p) = v.parent(e) {
                assert(w.get(p) == v.get(p));
            }
        }
    }
    assert forall|p: Element, i: int|
        w.has(p) && 0 <= i < w.children(p).len() implies #[trigger] w.linked_down(p, i) by {
        if v.has(p) {
            assert(w.get(p) == v.get(p));
            assert(v.linked_down(p, i));
            if let NodeView::Element(c) = v.children(p)[i] {
                assert(w.get(c) == v.get(c));
            }
        }
    }
    assert forall|e: Element| #[trigger] w.has(e) implies distinct_keys(w.get(e).attributes)
        && distinct_keys(w.get(e).namespace_decls) by {
        if v.has(e) {
            assert(w.get(e) == v.get(e));
        }
    }
}

/// A change of an element's name, attributes or namespace declarations keeps the
/// invariant, as long as keys stay distinct.
pub proof fn lemma_set_data_wf(v: DocumentView, e: Element, data: ElementView)
    requires
        v.wf(),
        v.has(e),
        data.parent == v.get(e).parent,
        data.children == v.get(e).children,
        distinct_keys(data.attributes),
        distinct_keys(data.namespace_decls),
    ensures
        v.set(e, data).wf(),
{
    broadcast use Element::lemma_same_index;

    let w = v.set(e, data);
    assert forall|x: Element| #[trigger] w.has(x) implies w.linked_up(x) by {
        assert(v.has(x));
        assert(v.linked_up(x));
        assert(w.parent(x) == v.parent(x));
        if let Some(p) = v.parent(x) {
            assert(w.children(p) == v.children(p));
        }
    }
    assert forall|p: Element, i: int|
        w.has(p) && 0 <= i < w.children(p).len() implies #[trigger] w.linked_down(p, i) by {
        assert(w.children(p) == v.children(p));
        assert(v.linked_down(p, i));
        if let NodeView::Element(c) = v.children(p)[i] {
            assert(w.parent(c) == v.parent(c));
        }
    }
    assert forall|x: Element| #[trigger] w.has(x) implies distinct_keys(w.get(x).attributes)
        && distinct_keys(w.get(x).namespace_decls) by {
        assert(v.has(x));
        if x != e {
            assert(w.get(x) == v.get(x));
        }
    }
}

/// An element without a parent stands among nobody's children.
pub proof fn lemma_orphan_is_nowhere(v: DocumentView, c: Element, p: Element, i: int)
    requires
        v.wf(),
        v.parent(c) is None,
        v.has(p),
        0 <= i < v.children(p).len(),
    ensures
        v.children(p)[i] != NodeView::Element(c),
{
    assert(v.linked_down(p, i));
}

/// Attaching a node keeps the invariant.
pub proof fn lemma_attach_wf(v: DocumentView, parent: Element, index: int, node: NodeView)
    requires
        v.wf(),
        v.has(parent),
        0 <= index <= v.children(parent).len(),
        v.attachable(node),
    ensures
        v.attach(parent, index, node).wf(),
{
    broadcast use Element::lemma_same_index;

    let w = v.attach(parent, index, node);
    let old_kids = v.children(parent);
    let new_kids = old_kids.insert(index, node);
    assert(w.children(parent) == new_kids);
    assert(w.elements.len() == v.elements.len());
    assert forall|x: Element| w.has(x) && x != parent implies w.children(x) == v.children(x) by {}
    assert forall|x: Element| w.has(x) && NodeView::Element(x) != node implies w.parent(x)
        == v.parent(x) by {}
    assert(w.elements[0].parent is None) by {
        if let NodeView::Element(c) = node {
            assert(c.index() != 0);
        }
    }
    assert forall|e: Element| #[trigger] w.has(e) implies w.linked_up(e) by {
        assert(v.has(e));
        assert(v.linked_up(e));
        if NodeView::Element(e) == node {
            assert(w.parent(e) == Some(parent));
            assert(new_kids[index] == node);
        } else {
            assert(w.parent(e) == v.parent(e));
            if let Some(p) = v.parent(e) {
                let k = choose|k: int|
                    0 <= k < v.children(p).len() && v.children(p)[k] == NodeView::Element(e);
                if p == parent {
                    if k < index {
                        assert(new_kids[k] == NodeView::Element(e));
                    } else {
                        assert(new_kids[k + 1] == NodeView::Element(e));
                    }
                } else {
                    assert(w.children(p) == v.children(p));
                }
            }
        }
    }
    assert forall|p: Element, i: int|
        w.has(p) && 0 <= i < w.children(p).len() implies #[trigger] w.linked_down(p, i) by {
        assert(v.has(p));
        if p == parent {
            if i == index {
                if let NodeView::Element(c) = node {
                    assert forall|j: int| 0 <= j < new_kids.len() && j != i implies new_kids[j]
                        != NodeView::Element(c) by {
                        let k = if j < index { j } else { j - 1 };
                        lemma_orphan_is_nowhere(v, c, parent, k);
                    }
                }
            } else {
                let k = if i < index { i } else { i - 1 };
                assert(new_kids[i] == old_kids[k]);
                assert(v.linked_down(parent, k));
                if let NodeView::Element(c) = old_kids[k] {
                    assert(NodeView::Element(c) != node);
                    assert forall|j: int| 0 <= j < new_kids.len() && j != i implies new_kids[j]
                        != NodeView::Element(c) by {
                        if j != index {
                            let m = if j < index { j } else { j - 1 };
                            assert(new_kids[j] == old_kids[m]);
                        }
                    }
                }
            }
        } else {
            assert(w.children(p) == v.children(p));
            assert(v.linked_down(p, i));
            if let NodeView::Element(c) = v.children(p)[i] {
                assert(NodeView::Element(c) != node);
            }
        }
    }
    assert forall|e: Element| #[trigger] w.has(e) implies distinct_keys(w.get(e).attributes)
        && distinct_keys(w.get(e).namespace_decls) by {
        assert(v.has(e));
    }
}

/// Taking a child out keeps the invariant.
pub proof fn lemma_remove_at_wf(v: DocumentView, parent: Element, index: int)
    requires
        v.wf(),
        v.has(parent),
        0 <= index < v.children(parent).len(),
    ensures
        v.remove_at(parent, index).wf(),
        v.remove_at(parent, index).elements.len() == v.elements.len(),
        v.remove_at(parent, index).children(parent) == v.children(parent).remove(index),
        forall|x: Element|
            v.has(x) ==> (#[trigger] v.remove_at(parent, index).parent(x)) == (if NodeView::Element(
                x,
            ) == v.children(parent)[index] {
                None
            } else {
                v.parent(x)
            }),
        forall|x: Element|
            v.has(x) ==> {
                &&& (#[trigger] v.remove_at(parent, index).get(x)).full_name == v.get(x).full_name
                &&& v.remove_at(parent, index).get(x).attributes == v.get(x).attributes
                &&& v.remove_at(parent, index).get(x).namespace_decls == v.get(x).namespace_decls
                &&& x != parent ==> v.remove_at(parent, index).get(x).children == v.get(x).children
            },
{
    broadcast use Element::lemma_same_index;

    let w = v.remove_at(parent, index);
    let old_kids = v.children(parent);
    let new_kids = old_kids.remove(index);
    let node = old_kids[index];
    assert(v.linked_down(parent, index));
    assert(w.children(parent) == new_kids);
    assert forall|x: Element| w.has(x) && x != parent implies w.children(x) == v.children(x) by {}
    assert forall|x: Element| w.has(x) && NodeView::Element(x) != node implies w.parent(x)
        == v.parent(x) by {}
    assert forall|e: Element| #[trigger] w.has(e) implies w.linked_up(e) by {
        assert(v.has(e));
        assert(v.linked_up(e));
        if NodeView::Element(e) == node {
            assert(w.parent(e) is None);
        } else {
            if let Some(p) = v.parent(e) {
                let k = choose|k: int|
                    0 <= k < v.children(p).len() && v.children(p)[k] == NodeView::Element(e);
                if p == parent {
                    if k < index {
                        assert(new_kids[k] == NodeView::Element(e));
                    } else {
                        assert(new_kids[k - 1] == NodeView::Element(e));
                    }
                }
            }
        }
    }
    assert forall|p: Element, i: int|
        w.has(p) && 0 <= i < w.children(p).len() implies #[trigger] w.linked_down(p, i) by {
        assert(v.has(p));
        if p == parent {
            let k = if i < index { i } else { i + 1 };
            assert(new_kids[i] == old_kids[k]);
            assert(v.linked_down(parent, k));
            if let NodeView::Element(c) = old_kids[k] {
                assert(NodeView::Element(c) != node);
                assert forall|j: int| 0 <= j < new_kids.len() && j != i implies new_kids[j]
                    != NodeView::Element(c) by {
                    let m = if j < index { j } else { j + 1 };
                    assert(new_kids[j] == old_kids[m]);
                }
            }
        } else {
            assert(v.linked_down(p, i));
            if let NodeView::Element(c) = v.children(p)[i] {
                if NodeView::Element(c) == node {
                    assert(v.parent(c) == Some(p));
                    assert(v.parent(c) == Some(parent));
                }
            }
        }
    }
    assert forall|e: Element| #[trigger] w.has(e) implies distinct_keys(w.get(e).attributes)
        && distinct_keys(w.get(e).namespace_decls) by {
        assert(v.has(e));
    }
}

/// Detaching keeps the invariant and leaves the element without a parent.
pub proof fn lemma_detach_wf(v: DocumentView, e: Element)
    requires
        v.wf(),
        v.has(e),
    ensures
        v.detach(e).wf(),
        v.detach(e).has(e),
        v.detach(e).parent(e) is None,
        v.detach(e).elements.len() == v.elements.len(),
{
    broadcast use Element::lemma_same_index;

    assert(v.linked_up(e));
    if let Some(p) = v.parent(e) {
        let i = v.position_of(p, e);
        assert(0 <= i < v.children(p).len() && v.children(p)[i] == NodeView::Element(e));
        lemma_remove_at_wf(v, p, i);
    }
}

/// Taking out the first children one by one keeps the invariant and shortens the list of
/// children by as many.
pub proof fn lemma_remove_first_wf(v: DocumentView, parent: Element, count: nat)
    requires
        v.wf(),
        v.has(parent),
        count <= v.children(parent).len(),
    ensures
        v.remove_first(parent, count).wf(),
        v.remove_first(parent, count).elements.len() == v.elements.len(),
        v.remove_first(parent, count).children(parent) == v.children(parent).skip(count as int),
        forall|x: Element|
            v.has(x) && v.parent(x) is None ==> (#[trigger] v.remove_first(parent, count).parent(
                x,
            )) is None,
    decreases count,
{
    broadcast use Element::lemma_same_index;

    if count > 0 {
        lemma_remove_at_wf(v, parent, 0);
        let w = v.remove_at(parent, 0);
        lemma_remove_first_wf(w, parent, (count - 1) as nat);
        assert forall|x: Element| v.has(x) && v.parent(x) is None implies (
        #[trigger] v.remove_first(parent, count).parent(x)) is None by {
            assert(w.has(x));
            assert(w.parent(x) is None);
        }
        assert(v.children(parent).remove(0).skip(count - 1) =~= v.children(parent).skip(
            count as int,
        ));
    } else {
        assert(v.children(parent).skip(0) =~= v.children(parent));
    }
}

/// Clearing keeps the invariant and leaves the element without children.
pub proof fn lemma_clear_wf(v: DocumentView, parent: Element)
    requires
        v.wf(),
        v.has(parent),
    ensures
        v.clear(parent).wf(),
        v.clear(parent).elements.len() == v.elements.len(),
        v.clear(parent).children(parent).len() == 0,
        forall|x: Element|
            v.has(x) && v.parent(x) is None ==> (#[trigger] v.clear(parent).parent(x)) is None,
{
    lemma_remove_first_wf(v, parent, v.children(parent).len());
}

/// Whether `x` is one of the first `count` nodes of `nodes`.
pub open spec fn among_first(nodes: Seq<NodeView>, count: nat, x: Element) -> bool {
    exists|i: int| 0 <= i < count && i < nodes.len() && #[trigger] nodes[i] == NodeView::Element(x)
}

/// What taking out the first children does to each record: the children that were
/// taken out have no parent, the parent has lost them, and nothing else has changed.
pub proof fn lemma_remove_first(v: DocumentView, parent: Element, count: nat, x: Element)
    requires
        v.wf(),
        v.has(parent),
        v.has(x),
        count <= v.children(parent).len(),
    ensures
        v.remove_first(parent, count).get(x).full_name == v.get(x).full_name,
        v.remove_first(parent, count).get(x).attributes == v.get(x).attributes,
        v.remove_first(parent, count).get(x).namespace_decls == v.get(x).namespace_decls,
        v.remove_first(parent, count).parent(x) == (if among_first(v.children(parent), count, x) {
            None
        } else {
            v.parent(x)
        }),
        v.remove_first(parent, count).children(x) == (if x == parent {
            v.children(x).skip(count as int)
        } else {
            v.children(x)
        }),
    decreases count,
{
    broadcast use Element::lemma_same_index;

    let kids = v.children(parent);
    if count == 0 {
        assert(kids.skip(0) =~= kids);
    } else {
        let w = v.remove_at(parent, 0);
        lemma_remove_at_wf(v, parent, 0);
        lemma_remove_first(w, parent, (count - 1) as nat, x);
        assert(w.children(parent) =~= kids.skip(1));
        assert(kids.skip(1).skip(count - 1) =~= kids.skip(count as int));
        assert(w.get(x).full_name == v.get(x).full_name);
        let rest = w.children(parent);
        if among_first(rest, (count - 1) as nat, x) {
            let i = choose|i: int|
                0 <= i < count - 1 && i < rest.len() && #[trigger] rest[i] == NodeView::Element(x);
            assert(kids[i + 1] == NodeView::Element(x));
        }
        if among_first(kids, count, x) {
            let i = choose|i: int|
                0 <= i < count && i < kids.len() && #[trigger] kids[i] == NodeView::Element(x);
            if i > 0 {
                assert(rest[i - 1] == NodeView::Element(x));
            }
        } else {
            assert(kids[0] != NodeView::Element(x));
        }
    }
}

/// What clearing does to each record: the children of `parent` have no parent any more,
/// `parent` has no children, and nothing else has changed.
pub proof fn lemma_clear(v: DocumentView, parent: Element, x: Element)
    requires
        v.wf(),
        v.has(parent),
        v.has(x),
    ensures
        v.clear(parent).get(x).full_name == v.get(x).full_name,
        v.clear(parent).get(x).attributes == v.get(x).attributes,
        v.clear(parent).get(x).namespace_decls == v.get(x).namespace_decls,
        v.clear(parent).parent(x) == (if v.parent(x) == Some(parent) {
            None
        } else {
            v.parent(x)
        }),
        v.clear(parent).children(x) == (if x == parent {
            Seq::empty()
        } else {
            v.children(x)
        }),
{
    let kids = v.children(parent);
    lemma_remove_first(v, parent, kids.len(), x);
    assert(kids.skip(kids.len() as int) =~= Seq::empty());
    if among_first(kids, kids.len(), x) {
        let i = choose|i: int|
            0 <= i < kids.len() && i < kids.len() && #[trigger] kids[i] == NodeView::Element(x);
        assert(v.linked_down(parent, i));
    }
    if v.parent(x) == Some(parent) {
        assert(v.linked_up(x));
        let i = choose|i: int| 0 <= i < kids.len() && kids[i] == NodeView::Element(x);
        assert(kids[i] == NodeView::Element(x));
    }
}

/// `e` stands exactly once in `s`.
pub open spec fn occurs_once(s: Seq<NodeView>, e: Element) -> bool {
    exists|i: int|
        0 <= i < s.len() && #[trigger] s[i] == NodeView::Element(e) && forall|j: int|
            0 <= j < s.len() && #[trigger] s[j] == NodeView::Element(e) ==> j == i
}

/// `e` stands nowhere among the children of any element.
pub open spec fn occurs_nowhere(v: DocumentView, e: Element) -> bool {
    forall|p: Element, i: int|
        v.has(p) && 0 <= i < v.children(p).len() ==> #[trigger] v.children(p)[i]
            != NodeView::Element(e)
}

/// In a well-formed tree an element either has no parent and is nobody's child, or has a
/// parent in the document and stands exactly once among that parent's children, and
/// among no other element's.
pub proof fn lemma_one_parent_one_place(v: DocumentView, e: Element)
    requires
        v.wf(),
        v.has(e),
    ensures
        match v.parent(e) {
            None => occurs_nowhere(v, e),
            Some(p) => {
                &&& v.has(p)
                &&& occurs_once(v.children(p), e)
                &&& forall|q: Element, i: int|
                    v.has(q) && 0 <= i < v.children(q).len() && #[trigger] v.children(q)[i]
                        == NodeView::Element(e) ==> q == p
            },
        },
{
    assert(v.linked_up(e));
    match v.parent(e) {
        None => {
            assert forall|p: Element, i: int|
                v.has(p) && 0 <= i < v.children(p).len() implies #[trigger] v.children(p)[i]
                != NodeView::Element(e) by {
                assert(v.linked_down(p, i));
            }
        },
        Some(p) => {
            let s = v.children(p);
            let i = choose|i: int| 0 <= i < s.len() && s[i] == NodeView::Element(e);
            assert(v.linked_down(p, i));
            assert forall|j: int| 0 <= j < s.len() && #[trigger] s[j] == NodeView::Element(
                e,
            ) implies j == i by {}
            assert forall|q: Element, k: int|
                v.has(q) && 0 <= k < v.children(q).len() && #[trigger] v.children(q)[k]
                    == NodeView::Element(e) implies q == p by {
                assert(v.linked_down(q, k));
            }
        },
    }
}

/// The container is never a child.
pub proof fn lemma_container_is_no_child(v: DocumentView, e: Element)
    requires
        v.wf(),
        e.is_container(),
    ensures
        v.has(e),
        v.parent(e) is None,
        occurs_nowhere(v, e),
{
    lemma_one_parent_one_place(v, e);
}

/// A change to the shape of the tree.
pub enum Edit {
    /// Make an element with this record.
    Create(ElementView),
    /// Make `node` the child of `parent` at position `index`.
    Attach { parent: Element, index: int, node: NodeView },
    /// Take out the child of `parent` at position `index`.
    RemoveAt { parent: Element, index: int },
    /// Take `element` away from its parent.
    Detach { element: Element },
    /// Take out all children of `parent`.
    Clear { parent: Element },
}

impl Edit {
    /// Whether the edit can be made on `v`: the functions of the library make it on these
    /// documents and on no others.
    pub open spec fn permitted(self, v: DocumentView) -> bool {
        match self {
            Edit::Create(data) => data.parent is None && data.children.len() == 0
                && distinct_keys(data.attributes) && distinct_keys(data.namespace_decls),
            Edit::Attach { parent, index, node } => v.has(parent) && 0 <= index <= v.children(
                parent,
            ).len() && v.attachable(node),
            Edit::RemoveAt { parent, index } => v.has(parent) && 0 <= index < v.children(
                parent,
            ).len(),
            Edit::Detach { element } => v.has(element) && !element.is_container(),
            Edit::Clear { parent } => v.has(parent),
        }
    }

    /// The document after the edit; the same document where the edit is not permitted.
    pub open spec fn apply(self, v: DocumentView) -> DocumentView {
        if !self.permitted(v) {
            v
        } else {
            match self {
                Edit::Create(data) => v.with_element(data),
                Edit::Attach { parent, index, node } => v.attach(parent, index, node),
                Edit::RemoveAt { parent, index } => v.remove_at(parent, index),
                Edit::Detach { element } => v.detach(element),
                Edit::Clear { parent } => v.clear(parent),
            }
        }
    }
}

/// The document after the edits were made in turn.
pub open spec fn apply_all(v: DocumentView, edits: Seq<Edit>) -> DocumentView
    decreases edits.len(),
{
    if edits.len() == 0 {
        v
    } else {
        edits.last().apply(apply_all(v, edits.drop_last()))
    }
}

/// One edit keeps the invariant.
pub proof fn lemma_edit_wf(v: DocumentView, edit: Edit)
    requires
        v.wf(),
    ensures
        edit.apply(v).wf(),
{
    if edit.permitted(v) {
        match edit {
            Edit::Create(data) => lemma_with_element_wf(v, data),
            Edit::Attach { parent, index, node } => lemma_attach_wf(v, parent, index, node),
            Edit::RemoveAt { parent, index } => lemma_remove_at_wf(v, parent, index),
            Edit::Detach { element } => lemma_detach_wf(v, element),
            Edit::Clear { parent } => lemma_clear_wf(v, parent),
        }
    }
}

/// After any sequence of edits, and so after each edit of the sequence, every element
/// either has no parent or stands exactly once among its parent's children.
pub proof fn lemma_invariant_under_churn(v: DocumentView, edits: Seq<Edit>, e: Element)
    requires
        v.wf(),
        apply_all(v, edits).has(e),
    ensures
        apply_all(v, edits).wf(),
        match apply_all(v, edits).parent(e) {
            None => occurs_nowhere(apply_all(v, edits), e),
            Some(p) => apply_all(v, edits).has(p) && occurs_once(
                apply_all(v, edits).children(p),
                e,
            ),
        },
{
    lemma_apply_all_wf(v, edits);
    lemma_one_parent_one_place(apply_all(v, edits), e);
}

/// Any sequence of edits keeps the invariant.
pub proof fn lemma_apply_all_wf(v: DocumentView, edits: Seq<Edit>)
    requires
        v.wf(),
    ensures
        apply_all(v, edits).wf(),
    decreases edits.len(),
{
    if edits.len() > 0 {
        lemma_apply_all_wf(v, edits.drop_last());
        lemma_edit_wf(apply_all(v, edits.drop_last()), edits.last());
    }
}

/// Detaching an element that has no parent changes nothing, and detaching twice is the
/// same as detaching once.
pub proof fn lemma_detach_idempotent(v: DocumentView, e: Element)
    requires
        v.wf(),
        v.has(e),
    ensures
        v.parent(e) is None ==> v.detach(e) == v,
        v.detach(e).detach(e) == v.detach(e),
{
    lemma_detach_wf(v, e);
}

} // verus!
