use vstd::prelude::*;
use vstd::set_lib::{lemma_int_range, lemma_len_subset, set_int_range};
use crate::names::value_of;
use crate::tree::{DocumentView, Element};

verus! {

/// A way up the tree: each element of `path` but the last has the next one as its parent.
pub open spec fn is_way_up(v: DocumentView, path: Seq<Element>) -> bool {
    &&& path.len() > 0
    &&& forall|i: int| 0 <= i < path.len() ==> v.has(#[trigger] path[i])
    &&& forall|i: int| 0 <= i < path.len() - 1 ==> v.parent(#[trigger] path[i]) == Some(path[i + 1])
}

/// No element of `path` but the last declares a namespace for `prefix`.
pub open spec fn declared_last_only(v: DocumentView, path: Seq<Element>, prefix: Seq<char>) -> bool {
    &&& forall|i: int|
        0 <= i < path.len() - 1 ==> value_of(v.get(#[trigger] path[i]).namespace_decls, prefix) is None
    &&& value_of(v.get(path.last()).namespace_decls, prefix) is Some
}

/// The prefixes `xml` and `xmlns` stand for their fixed namespaces at every element,
/// whatever the tree declares.
pub proof fn lemma_fixed_prefixes(v: DocumentView, e: Element)
    ensures
        v.namespace_for_prefix(e, "xml"@) == Some("http://www.w3.org/XML/1998/namespace"@),
        v.namespace_for_prefix(e, "xmlns"@) == Some("http://www.w3.org/2000/xmlns/"@),
{
    reveal_strlit("xml");
    reveal_strlit("xmlns");
    assert("xml"@.len() == 3);
    assert("xmlns"@.len() == 5);
}

/// A declaration on the element itself decides, whatever its ancestors declare.
pub proof fn lemma_own_declaration_wins(v: DocumentView, e: Element, prefix: Seq<char>)
    requires
        prefix != "xml"@,
        prefix != "xmlns"@,
        value_of(v.get(e).namespace_decls, prefix) is Some,
    ensures
        v.namespace_for_prefix(e, prefix) == value_of(v.get(e).namespace_decls, prefix),
{
}

/// Walking up from the start of `path`, the declaration at its end is found as soon as
/// the walk may take as many steps as the path has.
proof fn lemma_found_at_end(v: DocumentView, path: Seq<Element>, prefix: Seq<char>, steps: nat)
    requires
        is_way_up(v, path),
        declared_last_only(v, path, prefix),
        steps >= path.len() - 1,
    ensures
        v.declared_namespace(path[0], prefix, steps) == value_of(
            v.get(path.last()).namespace_decls,
            prefix,
        ),
    decreases path.len(),
{
    if path.len() > 1 {
        let rest = path.drop_first();
        assert(forall|i: int| 0 <= i < rest.len() ==> rest[i] == path[i + 1]);
        assert(is_way_up(v, rest)) by {
            assert forall|i: int| 0 <= i < rest.len() - 1 implies v.parent(#[trigger] rest[i])
                == Some(rest[i + 1]) by {
                assert(v.parent(path[i + 1]) == Some(path[i + 2]));
            }
        }
        assert(declared_last_only(v, rest, prefix)) by {
            assert(rest.last() == path.last());
            assert forall|i: int| 0 <= i < rest.len() - 1 implies value_of(
                v.get(#[trigger] rest[i]).namespace_decls,
                prefix,
            ) is None by {
                assert(value_of(v.get(path[i + 1]).namespace_decls, prefix) is None);
            }
        }
        lemma_found_at_end(v, rest, prefix, (steps - 1) as nat);
        assert(v.parent(path[0]) == Some(path[1]));
        assert(value_of(v.get(path[0]).namespace_decls, prefix) is None);
    }
}

/// On a way up, what follows equal elements is equal.
proof fn lemma_way_up_repeats(v: DocumentView, path: Seq<Element>, i: int, j: int, k: int)
    requires
        is_way_up(v, path),
        0 <= i < j,
        0 <= k,
        j + k < path.len(),
        path[i] == path[j],
    ensures
        path[i + k] == path[j + k],
    decreases k,
{
    if k > 0 {
        lemma_way_up_repeats(v, path, i, j, k - 1);
        assert(v.parent(path[i + k - 1]) == Some(path[i + k]));
        assert(v.parent(path[j + k - 1]) == Some(path[j + k]));
    }
}

/// A way up to the first declaration passes no element twice, so it is no longer than
/// the document has elements.
proof fn lemma_way_up_is_short(v: DocumentView, path: Seq<Element>, prefix: Seq<char>)
    requires
        is_way_up(v, path),
        declared_last_only(v, path, prefix),
    ensures
        path.len() <= v.elements.len(),
{
    broadcast use Element::lemma_same_index;

    let numbers = path.map_values(|e: Element| e.index() as int);
    assert forall|i: int, j: int| 0 <= i < j < numbers.len() implies numbers[i] != numbers[j] by {
        if numbers[i] == numbers[j] {
            assert(path[i].index() == path[j].index());
            assert(path[i] == path[j]);
            let k = path.len() - 1 - j;
            lemma_way_up_repeats(v, path, i, j, k);
            assert(path[i + k] == path.last());
            assert(value_of(v.get(path[i + k]).namespace_decls, prefix) is None);
        }
    }
    assert(numbers.no_duplicates());
    numbers.unique_seq_to_set();
    lemma_int_range(0, v.elements.len() as int);
    assert(numbers.to_set().subset_of(set_int_range(0, v.elements.len() as int))) by {
        assert forall|n: int| numbers.to_set().contains(n) implies set_int_range(
            0,
            v.elements.len() as int,
        ).contains(n) by {
            let i = choose|i: int| 0 <= i < numbers.len() && numbers[i] == n;
            assert(v.has(path[i]));
        }
    }
    lemma_len_subset(numbers.to_set(), set_int_range(0, v.elements.len() as int));
}

/// The nearest declaration decides: where `path` leads from an element up to the first
/// element that declares a namespace for `prefix`, the prefix stands for that namespace
/// at the start of the path, whatever the elements further up declare.
pub proof fn lemma_nearest_declaration_wins(v: DocumentView, path: Seq<Element>, prefix: Seq<char>)
    requires
        prefix != "xml"@,
        prefix != "xmlns"@,
        is_way_up(v, path),
        declared_last_only(v, path, prefix),
    ensures
        v.namespace_for_prefix(path[0], prefix) == value_of(
            v.get(path.last()).namespace_decls,
            prefix,
        ),
{
    lemma_way_up_is_short(v, path, prefix);
    lemma_found_at_end(v, path, prefix, v.elements.len());
}

/// Whether neither the element `e` nor any of its ancestors declares a namespace for
/// `prefix`: no element on any way up from `e` does.
pub open spec fn undeclared_above(v: DocumentView, e: Element, prefix: Seq<char>) -> bool {
    forall|path: Seq<Element>, i: int|
        is_way_up(v, path) && path[0] == e && 0 <= i < path.len() ==> value_of(
            v.get(#[trigger] path[i]).namespace_decls,
            prefix,
        ) is None
}

/// Walking up from the end of a way up from `e` finds nothing where neither `e` nor any
/// of its ancestors declares the prefix.
proof fn lemma_nothing_declared(v: DocumentView, e: Element, path: Seq<Element>, prefix: Seq<char>, steps: nat)
    requires
        v.wf(),
        is_way_up(v, path),
        path[0] == e,
        undeclared_above(v, e, prefix),
    ensures
        v.declared_namespace(path.last(), prefix, steps) is None,
    decreases steps,
{
    let last = path.last();
    assert(last == path[path.len() - 1]);
    assert(value_of(v.get(path[path.len() - 1]).namespace_decls, prefix) is None);
    assert(v.has(last));
    assert(v.linked_up(last));
    if steps > 0 {
        if let Some(p) = v.parent(last) {
            let longer = path.push(p);
            assert forall|i: int| 0 <= i < longer.len() implies v.has(#[trigger] longer[i]) by {
                if i < path.len() {
                    assert(longer[i] == path[i]);
                }
            }
            assert forall|i: int| 0 <= i < longer.len() - 1 implies v.parent(#[trigger] longer[i])
                == Some(longer[i + 1]) by {
                if i < path.len() - 1 {
                    assert(longer[i] == path[i]);
                    assert(longer[i + 1] == path[i + 1]);
                }
            }
            assert(longer[0] == path[0]);
            lemma_nothing_declared(v, e, longer, prefix, (steps - 1) as nat);
        }
    }
}

/// A prefix that neither the element nor any of its ancestors declares stands for
/// nothing at the element, whatever the rest of the document declares, unless it is
/// `xml` or `xmlns`.
pub proof fn lemma_undeclared_prefix(v: DocumentView, e: Element, prefix: Seq<char>)
    requires
        v.wf(),
        v.has(e),
        prefix != "xml"@,
        prefix != "xmlns"@,
        undeclared_above(v, e, prefix),
    ensures
        v.namespace_for_prefix(e, prefix) is None,
{
    let path = seq![e];
    assert(is_way_up(v, path));
    lemma_nothing_declared(v, e, path, prefix, v.elements.len());
}

} // verus!
