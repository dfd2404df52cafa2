use vstd::prelude::*;
use crate::error::{Error, Result};
use crate::names::{distinct_keys, value_of, with_entry, Entries, NameMap};
use crate::text::{join_name, local_name_of, prefix_of, split_name, str_eq};

verus! {

/// A handle to an element of a [`Document`]: the number of the element's record.
///
/// A handle holds no data. It means something only together with the document that
/// made it.
#[derive(Debug, Clone, Copy, PartialEq, Eq, Structural)]
pub struct Element {
    id: usize,
}

/// A node of the tree.
#[derive(Debug)]
pub enum Node {
    /// An element, by its handle.
    Element(Element),
    /// Character data.
    Text(String),
    /// A comment.
    Comment(String),
    /// A CDATA section.
    CData(String),
    /// A processing instruction.
    PI(String),
    /// A document type declaration.
    DocType(String),
}

/// What a [`Node`] holds.
pub enum NodeView {
    Element(Element),
    Text(Seq<char>),
    Comment(Seq<char>),
    CData(Seq<char>),
    PI(Seq<char>),
    DocType(Seq<char>),
}

impl View for Node {
    type V = NodeView;

    open spec fn view(&self) -> NodeView {
        match *self {
            Node::Element(e) => NodeView::Element(e),
            Node::Text(s) => NodeView::Text(s@),
            Node::Comment(s) => NodeView::Comment(s@),
            Node::CData(s) => NodeView::CData(s@),
            Node::PI(s) => NodeView::PI(s@),
            Node::DocType(s) => NodeView::DocType(s@),
        }
    }
}

/// The elements among `nodes`, in their order.
pub open spec fn elements_of(nodes: Seq<NodeView>) -> Seq<Element>
    decreases nodes.len(),
{
    if nodes.len() == 0 {
        Seq::empty()
    } else {
        match nodes.last() {
            NodeView::Element(e) => elements_of(nodes.drop_last()).push(e),
            _ => elements_of(nodes.drop_last()),
        }
    }
}

/// What a list of borrowed nodes holds.
pub open spec fn refs_view(nodes: Seq<&Node>) -> Seq<NodeView> {
    nodes.map_values(|n: &Node| n@)
}

/// What a list of nodes holds.
pub open spec fn nodes_view(nodes: Seq<Node>) -> Seq<NodeView> {
    nodes.map_values(|n: Node| n@)
}

/// The record of one element.
#[derive(Debug)]
struct ElementData {
    full_name: String,
    attributes: NameMap,
    namespace_decls: NameMap,
    parent: Option<Element>,
    children: Vec<Node>,
}

/// What the record of one element holds.
pub struct ElementView {
    /// The name as written, with its prefix if it has one.
    pub full_name: Seq<char>,
    /// The attributes, oldest first.
    pub attributes: Entries,
    /// The namespaces declared on this element, by prefix, oldest first.
    pub namespace_decls: Entries,
    /// The element whose child this one is.
    pub parent: Option<Element>,
    /// The child nodes in document order.
    pub children: Seq<NodeView>,
}

impl ElementView {
    /// The record of an element that was just made.
    pub open spec fn fresh(full_name: Seq<char>, attributes: Entries, namespace_decls: Entries) -> ElementView {
        ElementView { full_name, attributes, namespace_decls, parent: None, children: Seq::empty() }
    }
}

impl View for ElementData {
    type V = ElementView;

    closed spec fn view(&self) -> ElementView {
        ElementView {
            full_name: self.full_name@,
            attributes: self.attributes@,
            namespace_decls: self.namespace_decls@,
            parent: self.parent,
            children: nodes_view(self.children@),
        }
    }
}

/// An XML document or fragment: the records of all elements ever made in it.
///
/// The record with number 0 is the container, which holds the top-level nodes and is
/// never a child.
#[derive(Debug)]
pub struct Document {
    counter: usize,
    store: Vec<ElementData>,
    container: Element,
    version: String,
    standalone: bool,
}

/// What a [`Document`] holds.
pub struct DocumentView {
    /// The records, by the number of their element.
    pub elements: Seq<ElementView>,
    /// The XML version of the declaration.
    pub version: Seq<char>,
    /// Whether the declaration says that the document stands alone.
    pub standalone: bool,
}

impl Element {
    /// The number of the element's record.
    pub closed spec fn index(&self) -> nat {
        self.id as nat
    }

    /// The handle with the number `index`.
    pub closed spec fn nth(index: nat) -> Element {
        Element { id: index as usize }
    }

    /// The handle of the container.
    pub open spec fn top() -> Element {
        Element::nth(0)
    }

    /// The handle with a number has that number, as far as handles go.
    pub broadcast proof fn lemma_nth(index: nat)
        requires
            index <= usize::MAX,
        ensures
            (#[trigger] Element::nth(index)).index() == index,
    {
    }

    /// Handles with the same number are the same handle.
    pub broadcast proof fn lemma_same_index(a: Element, b: Element)
        ensures
            (#[trigger] a.index() == #[trigger] b.index()) <==> a == b,
    {
    }
}

impl DocumentView {
    /// The element belongs to this document.
    pub open spec fn has(self, e: Element) -> bool {
        e.index() < self.elements.len()
    }

    /// The record of `e`.
    pub open spec fn get(self, e: Element) -> ElementView {
        self.elements[e.index() as int]
    }

    /// The parent of `e`.
    pub open spec fn parent(self, e: Element) -> Option<Element> {
        self.get(e).parent
    }

    /// The children of `e`.
    pub open spec fn children(self, e: Element) -> Seq<NodeView> {
        self.get(e).children
    }

    /// The document with the record of `e` replaced.
    pub open spec fn set(self, e: Element, data: ElementView) -> DocumentView {
        DocumentView { elements: self.elements.update(e.index() as int, data), ..self }
    }

    /// The document with another parent recorded for `e`.
    pub open spec fn with_parent(self, e: Element, parent: Option<Element>) -> DocumentView {
        self.set(e, ElementView { parent, ..self.get(e) })
    }

    /// The document with other children for `e`.
    pub open spec fn with_children(self, e: Element, children: Seq<NodeView>) -> DocumentView {
        self.set(e, ElementView { children, ..self.get(e) })
    }

    /// An element with a parent is among that parent's children.
    pub open spec fn linked_up(self, e: Element) -> bool {
        self.parent(e) matches Some(p) ==> self.has(p) && self.children(p).contains(
            NodeView::Element(e),
        )
    }

    /// An element among the children of `p` has `p` as its parent and stands nowhere else
    /// among them.
    pub open spec fn linked_down(self, p: Element, i: int) -> bool {
        self.children(p)[i] matches NodeView::Element(c) ==> {
            &&& self.has(c)
            &&& self.parent(c) == Some(p)
            &&& forall|j: int|
                0 <= j < self.children(p).len() && j != i ==> #[trigger] self.children(p)[j]
                    != NodeView::Element(c)
        }
    }

    /// The invariant of the tree: the container exists and has no parent, every element
    /// with a parent stands exactly once among that parent's children, every element among
    /// the children of another has that one as its parent, and no key occurs twice among
    /// the attributes or namespace declarations of an element.
    pub open spec fn wf(self) -> bool {
        &&& self.elements.len() > 0
        &&& self.elements[0].parent is None
        &&& forall|e: Element| #[trigger] self.has(e) ==> self.linked_up(e)
        &&& forall|p: Element, i: int|
            self.has(p) && 0 <= i < self.children(p).len() ==> #[trigger] self.linked_down(p, i)
        &&& forall|e: Element| #[trigger]
            self.has(e) ==> distinct_keys(self.get(e).attributes) && distinct_keys(
                self.get(e).namespace_decls,
            )
    }

    /// The document with another name for `e`.
    pub open spec fn with_full_name(self, e: Element, full_name: Seq<char>) -> DocumentView {
        self.set(e, ElementView { full_name, ..self.get(e) })
    }

    /// The document with other attributes for `e`.
    pub open spec fn with_attributes(self, e: Element, attributes: Entries) -> DocumentView {
        self.set(e, ElementView { attributes, ..self.get(e) })
    }

    /// The document with other namespace declarations for `e`.
    pub open spec fn with_namespace_decls(self, e: Element, namespace_decls: Entries) -> DocumentView {
        self.set(e, ElementView { namespace_decls, ..self.get(e) })
    }

    /// The namespace that `e` or the nearest of its ancestors declares for `prefix`. The
    /// walk goes up at most `steps` times.
    pub open spec fn declared_namespace(self, e: Element, prefix: Seq<char>, steps: nat) -> Option<
        Seq<char>,
    >
        decreases steps,
    {
        match value_of(self.get(e).namespace_decls, prefix) {
            Some(namespace) => Some(namespace),
            None => match self.parent(e) {
                Some(p) => if steps > 0 {
                    self.declared_namespace(p, prefix, (steps - 1) as nat)
                } else {
                    None
                },
                None => None,
            },
        }
    }

    /// The namespace that `prefix` stands for at `e`. The prefixes `xml` and `xmlns` have
    /// fixed namespaces. For any other the declarations of `e` and of its ancestors
    /// decide, the nearest first; a chain of ancestors is never longer than the document
    /// has elements.
    pub open spec fn namespace_for_prefix(self, e: Element, prefix: Seq<char>) -> Option<Seq<char>> {
        if prefix == "xml"@ {
            Some("http://www.w3.org/XML/1998/namespace"@)
        } else if prefix == "xmlns"@ {
            Some("http://www.w3.org/2000/xmlns/"@)
        } else {
            self.declared_namespace(e, prefix, self.elements.len())
        }
    }

    /// The text in `nodes` and below them, in document order: the content of text nodes,
    /// CDATA sections and processing instructions. Elements are entered at most `depth`
    /// levels deep.
    pub open spec fn text_of(self, nodes: Seq<NodeView>, depth: nat) -> Seq<char>
        decreases depth, nodes.len(),
    {
        if nodes.len() == 0 {
            Seq::empty()
        } else {
            self.text_of(nodes.drop_last(), depth) + (match nodes.last() {
                NodeView::Element(e) => if depth > 0 {
                    self.text_of(self.children(e), (depth - 1) as nat)
                } else {
                    Seq::empty()
                },
                NodeView::Text(text) => text,
                NodeView::CData(text) => text,
                NodeView::PI(text) => text,
                NodeView::Comment(_) => Seq::empty(),
                NodeView::DocType(_) => Seq::empty(),
            })
        }
    }

    /// The text of `e`: that of all nodes below it. No tree is deeper than the document
    /// has elements.
    pub open spec fn text_content(self, e: Element) -> Seq<char> {
        self.text_of(self.children(e), self.elements.len())
    }

    /// The text of one node.
    pub open spec fn node_text(self, node: NodeView) -> Seq<char> {
        match node {
            NodeView::Element(e) => self.text_content(e),
            NodeView::Text(text) => text,
            NodeView::CData(text) => text,
            NodeView::PI(text) => text,
            NodeView::Comment(_) => Seq::empty(),
            NodeView::DocType(_) => Seq::empty(),
        }
    }

    /// `nodes` and all nodes below them, each parent before its children. Elements are
    /// entered at most `depth` levels deep.
    pub open spec fn walk(self, nodes: Seq<NodeView>, depth: nat) -> Seq<NodeView>
        decreases depth, nodes.len(),
    {
        if nodes.len() == 0 {
            Seq::empty()
        } else {
            self.walk(nodes.drop_last(), depth).push(nodes.last()) + (match nodes.last() {
                NodeView::Element(e) => if depth > 0 {
                    self.walk(self.children(e), (depth - 1) as nat)
                } else {
                    Seq::empty()
                },
                _ => Seq::empty(),
            })
        }
    }

    /// All nodes below `e`, each parent before its children.
    pub open spec fn descendants(self, e: Element) -> Seq<NodeView> {
        self.walk(self.children(e), self.elements.len())
    }

    /// Whether `node` is an element whose local name is `name`.
    pub open spec fn is_named(self, node: NodeView, name: Seq<char>) -> bool {
        node matches NodeView::Element(c) && local_name_of(self.get(c).full_name) == name
    }

    /// The elements among `nodes` whose local name is `name`, in their order.
    pub open spec fn named_among(self, nodes: Seq<NodeView>, name: Seq<char>) -> Seq<Element>
        decreases nodes.len(),
    {
        if nodes.len() == 0 {
            Seq::empty()
        } else {
            match nodes.last() {
                NodeView::Element(c) => if self.is_named(nodes.last(), name) {
                    self.named_among(nodes.drop_last(), name).push(c)
                } else {
                    self.named_among(nodes.drop_last(), name)
                },
                _ => self.named_among(nodes.drop_last(), name),
            }
        }
    }

    /// The first element among `nodes` whose local name is `name`.
    pub open spec fn first_named(self, nodes: Seq<NodeView>, name: Seq<char>) -> Option<Element>
        decreases nodes.len(),
    {
        if nodes.len() == 0 {
            None
        } else {
            match nodes.first() {
                NodeView::Element(c) => if self.is_named(nodes.first(), name) {
                    Some(c)
                } else {
                    self.first_named(nodes.drop_first(), name)
                },
                _ => self.first_named(nodes.drop_first(), name),
            }
        }
    }

    /// The document with one more element, which has no parent and no children.
    pub open spec fn with_element(self, data: ElementView) -> DocumentView {
        DocumentView { elements: self.elements.push(data), ..self }
    }

    /// Whether `node` may become a child: an element must belong to the document, must not
    /// be the container and must have no parent.
    pub open spec fn attachable(self, node: NodeView) -> bool {
        node matches NodeView::Element(c) ==> self.has(c) && !c.is_container() && self.parent(
            c,
        ) is None
    }

    /// The document after `node` became the child of `parent` at position `index`.
    pub open spec fn attach(self, parent: Element, index: int, node: NodeView) -> DocumentView {
        let linked = match node {
            NodeView::Element(c) => self.with_parent(c, Some(parent)),
            _ => self,
        };
        linked.with_children(parent, linked.children(parent).insert(index, node))
    }

    /// The document after the child of `parent` at position `index` was taken out.
    pub open spec fn remove_at(self, parent: Element, index: int) -> DocumentView {
        let cut = self.with_children(parent, self.children(parent).remove(index));
        match self.children(parent)[index] {
            NodeView::Element(c) => cut.with_parent(c, None),
            _ => cut,
        }
    }

    /// The position of `e` among the children of `parent`.
    pub open spec fn position_of(self, parent: Element, e: Element) -> int {
        choose|i: int|
            0 <= i < self.children(parent).len() && self.children(parent)[i] == NodeView::Element(e)
    }

    /// The document after `e` left its parent; the same document if it had none.
    pub open spec fn detach(self, e: Element) -> DocumentView {
        match self.parent(e) {
            Some(p) => self.remove_at(p, self.position_of(p, e)),
            None => self,
        }
    }

    /// The document after the first `count` children of `parent` were taken out, one by one.
    pub open spec fn remove_first(self, parent: Element, count: nat) -> DocumentView
        decreases count,
    {
        if count == 0 {
            self
        } else {
            self.remove_at(parent, 0).remove_first(parent, (count - 1) as nat)
        }
    }

    /// The document after all children of `parent` were taken out.
    pub open spec fn clear(self, parent: Element) -> DocumentView {
        self.remove_first(parent, self.children(parent).len())
    }
}

impl View for Document {
    type V = DocumentView;

    closed spec fn view(&self) -> DocumentView {
        DocumentView {
            elements: self.store@.map_values(|d: ElementData| d@),
            version: self.version@,
            standalone: self.standalone,
        }
    }
}

impl Document {
    /// The invariant of the type: the tree is well formed, and the counter is the number
    /// of records.
    pub closed spec fn wf(&self) -> bool {
        &&& self@.wf()
        &&& self.counter == self.store@.len()
        &&& self.container.id == 0
    }

    /// A well-formed document holds a well-formed tree.
    pub broadcast proof fn lemma_wf(&self)
        requires
            #[trigger] self.wf(),
        ensures
            self@.wf(),
    {
    }

    /// A document that holds the container and nothing else.
    pub fn new() -> (doc: Document)
        ensures
            doc.wf(),
            doc@.elements == seq![ElementView::fresh(Seq::empty(), Seq::empty(), Seq::empty())],
            doc@.version == "1.0"@,
            !doc@.standalone,
    {
        let (container, container_data) = Element::container();
        let mut store = Vec::new();
        store.push(container_data);
        let doc = Document {
            counter: 1,
            store,
            container,
            version: "1.0".to_owned(),
            standalone: false,
        };
        proof {
            assert(doc@.elements =~= seq![
                ElementView::fresh(Seq::empty(), Seq::empty(), Seq::empty()),
            ]);
            let v = doc@;
            assert forall|e: Element| #[trigger] v.has(e) implies v.linked_up(e) by {
                assert(e.index() == 0);
            }
        }
        doc
    }

    /// The container: the element that holds the top-level nodes. It has no parent, and
    /// an attempt to give it one fails with [`Error::ContainerCannotMove`].
    pub fn container(&self) -> (e: Element)
        requires
            self.wf(),
        ensures
            e == Element::top(),
            e.is_container(),
            self@.has(e),
    {
        self.container
    }

    /// The number of elements that the document holds, the container among them.
    pub fn len(&self) -> (r: usize)
        ensures
            r == self@.elements.len(),
    {
        self.store.len()
    }

    /// Whether the document holds nothing but the container.
    pub fn is_empty(&self) -> (r: bool)
        ensures
            r == (self@.elements.len() == 1),
    {
        self.store.len() == 1
    }

    /// The XML version of the declaration.
    pub fn version(&self) -> (r: &str)
        ensures
            r@ == self@.version,
    {
        self.version.as_str()
    }

    /// Whether the declaration says that the document stands alone.
    pub fn standalone(&self) -> (r: bool)
        ensures
            r == self@.standalone,
    {
        self.standalone
    }

    /// Sets the XML version that the declaration names.
    pub fn set_version(&mut self, version: String)
        requires
            old(self).wf(),
        ensures
            final(self).wf(),
            final(self)@ == (DocumentView { version: version@, ..old(self)@ }),
    {
        self.version = version;
        proof {
            crate::shape::lemma_same_elements_wf(old(self)@, self@);
        }
    }

    /// Sets whether the declaration says that the document stands alone.
    pub fn set_standalone(&mut self, standalone: bool)
        requires
            old(self).wf(),
        ensures
            final(self).wf(),
            final(self)@ == (DocumentView { standalone, ..old(self)@ }),
    {
        self.standalone = standalone;
        proof {
            crate::shape::lemma_same_elements_wf(old(self)@, self@);
        }
    }
}

impl Element {
    /// Whether this is the handle of the container.
    pub open spec fn spec_is_container(&self) -> bool {
        self.index() == 0
    }

    /// Whether this is the handle of the container.
    #[verifier::when_used_as_spec(spec_is_container)]
    pub fn is_container(&self) -> (r: bool)
        ensures
            r == self.is_container(),
    {
        self.id == 0
    }

    /// The container's handle and its record.
    fn container() -> (r: (Element, ElementData))
        ensures
            r.0.id == 0,
            r.1@ == ElementView::fresh(Seq::empty(), Seq::empty(), Seq::empty()),
    {
        let data = ElementData {
            full_name: String::new(),
            attributes: NameMap::new(),
            namespace_decls: NameMap::new(),
            parent: None,
            children: Vec::new(),
        };
        assert(nodes_view(data.children@) =~= Seq::empty());
        (Element { id: 0 }, data)
    }

    /// The node that stands for this element.
    pub fn as_node(&self) -> (r: Node)
        ensures
            r@ == NodeView::Element(*self),
    {
        Node::Element(*self)
    }

    /// Makes an element with the given record parts. It has no parent and no children.
    pub fn with_data(
        doc: &mut Document,
        full_name: String,
        attributes: NameMap,
        namespace_decls: NameMap,
    ) -> (e: Element)
        requires
            old(doc).wf(),
            attributes.wf(),
            namespace_decls.wf(),
        ensures
            final(doc).wf(),
            e == Element::nth(old(doc)@.elements.len()),
            e.index() == old(doc)@.elements.len(),
            final(doc)@ == old(doc)@.with_element(
                ElementView::fresh(full_name@, attributes@, namespace_decls@),
            ),
    {
        let elem = Element { id: doc.store.len() };
        let data = ElementData { full_name, attributes, namespace_decls, parent: None, children: Vec::new() };
        assert(nodes_view(data.children@) =~= Seq::empty());
        doc.store.push(data);
        doc.counter = doc.store.len();
        proof {
            let fresh = ElementView::fresh(full_name@, attributes@, namespace_decls@);
            assert(doc@.elements =~= old(doc)@.elements.push(fresh));
            crate::shape::lemma_with_element_wf(old(doc)@, fresh);
        }
        elem
    }

    /// Makes an element named `full_name`, without parent, attributes or children. What
    /// stands before a `:` in the name is its namespace prefix.
    pub fn new(doc: &mut Document, full_name: &str) -> (e: Element)
        requires
            old(doc).wf(),
        ensures
            final(doc).wf(),
            e == Element::nth(old(doc)@.elements.len()),
            e.index() == old(doc)@.elements.len(),
            final(doc)@ == old(doc)@.with_element(
                ElementView::fresh(full_name@, Seq::empty(), Seq::empty()),
            ),
    {
        Element::with_data(doc, full_name.to_owned(), NameMap::new(), NameMap::new())
    }
}

/// Below are the functions that read the tree.
impl Element {
    /// The parent of this element.
    pub fn parent(&self, doc: &Document) -> (r: Option<Element>)
        requires
            doc.wf(),
            doc@.has(*self),
        ensures
            r == doc@.parent(*self),
            r matches Some(p) ==> doc@.has(p),
    {
        proof {
            assert(doc@.linked_up(*self));
        }
        doc.store[self.id].parent
    }

    /// Whether this element has a parent.
    pub fn has_parent(&self, doc: &Document) -> (r: bool)
        requires
            doc.wf(),
            doc@.has(*self),
        ensures
            r == doc@.parent(*self).is_some(),
    {
        self.parent(doc).is_some()
    }

    /// Whether this element is a top-level node of the document.
    pub fn is_root(&self, doc: &Document) -> (r: bool)
        requires
            doc.wf(),
            doc@.has(*self),
        ensures
            r == (doc@.parent(*self) matches Some(p) && p.is_container()),
    {
        match self.parent(doc) {
            Some(p) => p.is_container(),
            None => false,
        }
    }

    /// The child nodes of this element, in document order.
    pub fn children<'a>(&self, doc: &'a Document) -> (r: &'a Vec<Node>)
        requires
            doc.wf(),
            doc@.has(*self),
        ensures
            nodes_view(r@) == doc@.children(*self),
    {
        &doc.store[self.id].children
    }

    /// Whether this element has a child node.
    pub fn has_children(&self, doc: &Document) -> (r: bool)
        requires
            doc.wf(),
            doc@.has(*self),
        ensures
            r == (doc@.children(*self).len() > 0),
    {
        doc.store[self.id].children.len() > 0
    }
}

/// Below are the functions that read and set names, attributes and namespaces.
impl Element {
    /// Splits a name at its first `:` into prefix and local part. The prefix is empty
    /// where the name holds no `:`.
    pub fn separate_prefix_name(full_name: &str) -> (r: (&str, &str))
        ensures
            r.0@ == prefix_of(full_name@),
            r.1@ == local_name_of(full_name@),
    {
        split_name(full_name)
    }

    /// The name of this element as written, with its prefix.
    pub fn full_name<'a>(&self, doc: &'a Document) -> (r: &'a str)
        requires
            doc.wf(),
            doc@.has(*self),
        ensures
            r@ == doc@.get(*self).full_name,
    {
        doc.store[self.id].full_name.as_str()
    }

    /// Gives this element another name, prefix included.
    pub fn set_full_name(&self, doc: &mut Document, name: &str)
        requires
            old(doc).wf(),
            old(doc)@.has(*self),
        ensures
            final(doc).wf(),
            final(doc)@ == old(doc)@.with_full_name(*self, name@),
    {
        self.store_full_name(doc, name.to_owned());
    }

    fn store_full_name(&self, doc: &mut Document, name: String)
        requires
            old(doc).wf(),
            old(doc)@.has(*self),
        ensures
            final(doc).wf(),
            final(doc)@ == old(doc)@.with_full_name(*self, name@),
    {
        doc.store[self.id].full_name = name;
        proof {
            let before = old(doc)@;
            let after = before.with_full_name(*self, name@);
            assert(doc@.elements =~= after.elements);
            crate::shape::lemma_set_data_wf(before, *self, after.get(*self));
        }
    }

    /// The prefix and the local part of this element's name.
    pub fn prefix_name<'a>(&self, doc: &'a Document) -> (r: (&'a str, &'a str))
        requires
            doc.wf(),
            doc@.has(*self),
        ensures
            r.0@ == prefix_of(doc@.get(*self).full_name),
            r.1@ == local_name_of(doc@.get(*self).full_name),
    {
        split_name(self.full_name(doc))
    }

    /// The namespace prefix of this element's name.
    pub fn prefix<'a>(&self, doc: &'a Document) -> (r: &'a str)
        requires
            doc.wf(),
            doc@.has(*self),
        ensures
            r@ == prefix_of(doc@.get(*self).full_name),
    {
        self.prefix_name(doc).0
    }

    /// The local part of this element's name.
    pub fn name<'a>(&self, doc: &'a Document) -> (r: &'a str)
        requires
            doc.wf(),
            doc@.has(*self),
        ensures
            r@ == local_name_of(doc@.get(*self).full_name),
    {
        self.prefix_name(doc).1
    }

    /// Gives the name the prefix `prefix` and keeps its local part: the new name is the
    /// prefix, a `:` and the local part.
    pub fn set_prefix(&self, doc: &mut Document, prefix: &str)
        requires
            old(doc).wf(),
            old(doc)@.has(*self),
        ensures
            final(doc).wf(),
            final(doc)@ == old(doc)@.with_full_name(
                *self,
                prefix@ + seq![':'] + local_name_of(old(doc)@.get(*self).full_name),
            ),
    {
        let full_name = join_name(prefix, self.name(doc));
        self.store_full_name(doc, full_name);
    }

    /// Gives the name the local part `name` and keeps its prefix.
    pub fn set_name(&self, doc: &mut Document, name: &str)
        requires
            old(doc).wf(),
            old(doc)@.has(*self),
        ensures
            final(doc).wf(),
            final(doc)@ == old(doc)@.with_full_name(
                *self,
                if prefix_of(old(doc)@.get(*self).full_name).len() == 0 {
                    name@
                } else {
                    prefix_of(old(doc)@.get(*self).full_name) + seq![':'] + name@
                },
            ),
    {
        let prefix = self.prefix(doc);
        let full_name = if prefix.unicode_len() == 0 {
            name.to_owned()
        } else {
            join_name(prefix, name)
        };
        self.store_full_name(doc, full_name);
    }

    /// The attributes of this element. An attribute's name may have a prefix.
    pub fn attributes<'a>(&self, doc: &'a Document) -> (r: &'a NameMap)
        requires
            doc.wf(),
            doc@.has(*self),
        ensures
            r.wf(),
            r@ == doc@.get(*self).attributes,
    {
        &doc.store[self.id].attributes
    }

    /// The value of the attribute `name`.
    pub fn attribute<'a>(&self, doc: &'a Document, name: &str) -> (r: Option<&'a str>)
        requires
            doc.wf(),
            doc@.has(*self),
        ensures
            match r {
                Some(v) => value_of(doc@.get(*self).attributes, name@) == Some(v@),
                None => value_of(doc@.get(*self).attributes, name@) is None,
            },
    {
        self.attributes(doc).get(name)
    }

    /// Adds the attribute `name`, or gives it another value.
    pub fn set_attribute(&self, doc: &mut Document, name: &str, value: &str)
        requires
            old(doc).wf(),
            old(doc)@.has(*self),
        ensures
            final(doc).wf(),
            final(doc)@ == old(doc)@.with_attributes(
                *self,
                with_entry(old(doc)@.get(*self).attributes, name@, value@),
            ),
    {
        doc.store[self.id].attributes.insert(name.to_owned(), value.to_owned());
        proof {
            let before = old(doc)@;
            let after = before.with_attributes(
                *self,
                with_entry(before.get(*self).attributes, name@, value@),
            );
            assert(doc@.elements =~= after.elements);
            crate::shape::lemma_set_data_wf(before, *self, after.get(*self));
        }
    }

    /// The attributes of this element, to be changed in place. The document is well
    /// formed again once the borrow ends, as long as the keys are distinct then.
    pub fn mut_attributes<'a>(&self, doc: &'a mut Document) -> (r: &'a mut NameMap)
        requires
            old(doc).wf(),
            old(doc)@.has(*self),
        ensures
            r.wf(),
            r@ == old(doc)@.get(*self).attributes,
            final(doc)@ == old(doc)@.with_attributes(*self, final(r)@),
            final(r).wf() ==> final(doc).wf(),
    {
        proof {
            let before = doc@;
            assert forall|after: Entries| crate::names::distinct_keys(after) implies (
            #[trigger] before.with_attributes(*self, after)).wf() by {
                crate::shape::lemma_set_data_wf(
                    before,
                    *self,
                    before.with_attributes(*self, after).get(*self),
                );
            }
        }
        let r = &mut doc.store[self.id].attributes;
        proof {
            assert(after_borrow(doc)@.elements =~= old(doc)@.with_attributes(
                *self,
                final(r)@,
            ).elements);
        }
        r
    }

    /// The namespaces that this element declares, by prefix. The default namespace has
    /// the empty prefix.
    pub fn namespace_decls<'a>(&self, doc: &'a Document) -> (r: &'a NameMap)
        requires
            doc.wf(),
            doc@.has(*self),
        ensures
            r.wf(),
            r@ == doc@.get(*self).namespace_decls,
    {
        &doc.store[self.id].namespace_decls
    }

    /// The namespace declarations of this element, to be changed in place. The document
    /// is well formed again once the borrow ends, as long as the keys are distinct then.
    pub fn mut_namespace_decls<'a>(&self, doc: &'a mut Document) -> (r: &'a mut NameMap)
        requires
            old(doc).wf(),
            old(doc)@.has(*self),
        ensures
            r.wf(),
            r@ == old(doc)@.get(*self).namespace_decls,
            final(doc)@ == old(doc)@.with_namespace_decls(*self, final(r)@),
            final(r).wf() ==> final(doc).wf(),
    {
        proof {
            let before = doc@;
            assert forall|after: Entries| crate::names::distinct_keys(after) implies (
            #[trigger] before.with_namespace_decls(*self, after)).wf() by {
                crate::shape::lemma_set_data_wf(
                    before,
                    *self,
                    before.with_namespace_decls(*self, after).get(*self),
                );
            }
        }
        let r = &mut doc.store[self.id].namespace_decls;
        proof {
            assert(after_borrow(doc)@.elements =~= old(doc)@.with_namespace_decls(
                *self,
                final(r)@,
            ).elements);
        }
        r
    }

    /// Declares `namespace` for `prefix` on this element.
    pub fn set_namespace_decl(&self, doc: &mut Document, prefix: &str, namespace: &str)
        requires
            old(doc).wf(),
            old(doc)@.has(*self),
        ensures
            final(doc).wf(),
            final(doc)@ == old(doc)@.with_namespace_decls(
                *self,
                with_entry(old(doc)@.get(*self).namespace_decls, prefix@, namespace@),
            ),
    {
        doc.store[self.id].namespace_decls.insert(prefix.to_owned(), namespace.to_owned());
        proof {
            let before = old(doc)@;
            let after = before.with_namespace_decls(
                *self,
                with_entry(before.get(*self).namespace_decls, prefix@, namespace@),
            );
            assert(doc@.elements =~= after.elements);
            crate::shape::lemma_set_data_wf(before, *self, after.get(*self));
        }
    }

    /// The namespace that `prefix` stands for at this element: the nearest declaration on
    /// the way up decides. `xml` and `xmlns` have fixed namespaces.
    pub fn namespace_for_prefix<'a>(&self, doc: &'a Document, prefix: &str) -> (r: Option<&'a str>)
        requires
            doc.wf(),
            doc@.has(*self),
        ensures
            match r {
                Some(v) => doc@.namespace_for_prefix(*self, prefix@) == Some(v@),
                None => doc@.namespace_for_prefix(*self, prefix@) is None,
            },
    {
        if str_eq(prefix, "xml") {
            return Some("http://www.w3.org/XML/1998/namespace");
        }
        if str_eq(prefix, "xmlns") {
            return Some("http://www.w3.org/2000/xmlns/");
        }
        let mut elem = *self;
        let mut steps = doc.store.len();
        loop
            invariant
                doc.wf(),
                doc@.has(elem),
                prefix@ != "xml"@,
                prefix@ != "xmlns"@,
                doc@.declared_namespace(elem, prefix@, steps as nat) == doc@.declared_namespace(
                    *self,
                    prefix@,
                    doc@.elements.len(),
                ),
            decreases steps,
        {
            proof {
                assert(doc@.linked_up(elem));
            }
            if let Some(value) = doc.store[elem.id].namespace_decls.get(prefix) {
                return Some(value);
            }
            if steps == 0 {
                return None;
            }
            match doc.store[elem.id].parent {
                Some(parent) => {
                    elem = parent;
                    steps -= 1;
                },
                None => {
                    return None;
                },
            }
        }
    }

    /// The namespace of this element: what its own prefix stands for.
    pub fn namespace<'a>(&self, doc: &'a Document) -> (r: Option<&'a str>)
        requires
            doc.wf(),
            doc@.has(*self),
        ensures
            match r {
                Some(v) => doc@.namespace_for_prefix(
                    *self,
                    prefix_of(doc@.get(*self).full_name),
                ) == Some(v@),
                None => doc@.namespace_for_prefix(*self, prefix_of(doc@.get(*self).full_name)) is None,
            },
    {
        self.namespace_for_prefix(doc, self.prefix(doc))
    }
}

/// Below are the functions that walk the tree.
impl Element {
    /// Appends to `buf` the text below this element, entering elements at most `depth`
    /// levels deep.
    fn build_text_content(&self, doc: &Document, buf: &mut String, depth: usize)
        requires
            doc.wf(),
            doc@.has(*self),
        ensures
            final(buf)@ == old(buf)@ + doc@.text_of(doc@.children(*self), depth as nat),
        decreases depth,
    {
        let children = &doc.store[self.id].children;
        let ghost start = buf@;
        let ghost kids = doc@.children(*self);
        let mut i: usize = 0;
        assert(kids.take(0) =~= Seq::empty());
        while i < children.len()
            invariant
                i <= children.len(),
                doc.wf(),
                doc@.has(*self),
                kids == doc@.children(*self),
                nodes_view(children@) == kids,
                buf@ == start + doc@.text_of(kids.take(i as int), depth as nat),
            decreases children.len() - i,
        {
            proof {
                assert(kids.take(i + 1).drop_last() =~= kids.take(i as int));
                assert(kids.take(i + 1).last() == kids[i as int]);
                assert(doc@.linked_down(*self, i as int));
            }
            match &children[i] {
                Node::Element(e) => {
                    if depth > 0 {
                        e.build_text_content(doc, buf, depth - 1);
                    }
                },
                Node::Text(text) => {
                    buf.append(text.as_str());
                },
                Node::CData(text) => {
                    buf.append(text.as_str());
                },
                Node::PI(text) => {
                    buf.append(text.as_str());
                },
                _ => {},
            }
            proof {
                let piece = doc@.text_of(kids.take(i + 1), depth as nat);
                assert(buf@ =~= start + piece);
            }
            i += 1;
        }
        assert(kids.take(i as int) =~= kids);
    }

    /// The text of this element: the content of all text nodes, CDATA sections and
    /// processing instructions below it, in document order.
    pub fn text_content(&self, doc: &Document) -> (r: String)
        requires
            doc.wf(),
            doc@.has(*self),
        ensures
            r@ == doc@.text_content(*self),
    {
        let mut buf = String::new();
        self.build_text_content(doc, &mut buf, doc.store.len());
        assert(buf@ =~= doc@.text_content(*self));
        buf
    }

    /// Appends to `nodes` the nodes below this element, each parent before its children,
    /// entering elements at most `depth` levels deep.
    fn collect_children<'a>(&self, doc: &'a Document, nodes: &mut Vec<&'a Node>, depth: usize)
        requires
            doc.wf(),
            doc@.has(*self),
        ensures
            refs_view(final(nodes)@) == refs_view(old(nodes)@) + doc@.walk(
                doc@.children(*self),
                depth as nat,
            ),
        decreases depth,
    {
        let children = &doc.store[self.id].children;
        let ghost start = refs_view(nodes@);
        let ghost kids = doc@.children(*self);
        let mut i: usize = 0;
        assert(kids.take(0) =~= Seq::empty());
        assert(refs_view(nodes@) =~= start + doc@.walk(kids.take(0), depth as nat));
        while i < children.len()
            invariant
                i <= children.len(),
                doc.wf(),
                doc@.has(*self),
                kids == doc@.children(*self),
                nodes_view(children@) == kids,
                refs_view(nodes@) == start + doc@.walk(kids.take(i as int), depth as nat),
            decreases children.len() - i,
        {
            proof {
                assert(kids.take(i + 1).drop_last() =~= kids.take(i as int));
                assert(kids.take(i + 1).last() == kids[i as int]);
                assert(doc@.linked_down(*self, i as int));
            }
            let ghost before = refs_view(nodes@);
            let node = &children[i];
            nodes.push(node);
            assert(refs_view(nodes@) =~= before.push(kids[i as int]));
            if let Node::Element(e) = node {
                if depth > 0 {
                    e.collect_children(doc, nodes, depth - 1);
                }
            }
            proof {
                let piece = doc@.walk(kids.take(i + 1), depth as nat);
                assert(refs_view(nodes@) =~= start + piece);
            }
            i += 1;
        }
        assert(kids.take(i as int) =~= kids);
    }

    /// All nodes below this element, each parent before its children.
    pub fn children_recursive<'a>(&self, doc: &'a Document) -> (r: Vec<&'a Node>)
        requires
            doc.wf(),
            doc@.has(*self),
        ensures
            refs_view(r@) == doc@.descendants(*self),
    {
        let mut nodes: Vec<&'a Node> = Vec::new();
        assert(refs_view(nodes@) =~= Seq::empty());
        self.collect_children(doc, &mut nodes, doc.store.len());
        assert(refs_view(nodes@) =~= doc@.descendants(*self));
        nodes
    }

    /// The children of this element that are elements.
    pub fn child_elements(&self, doc: &Document) -> (r: Vec<Element>)
        requires
            doc.wf(),
            doc@.has(*self),
        ensures
            r@ == elements_of(doc@.children(*self)),
    {
        let children = &doc.store[self.id].children;
        let ghost kids = doc@.children(*self);
        let mut found: Vec<Element> = Vec::new();
        let mut i: usize = 0;
        assert(kids.take(0) =~= Seq::empty());
        while i < children.len()
            invariant
                i <= children.len(),
                nodes_view(children@) == kids,
                found@ == elements_of(kids.take(i as int)),
            decreases children.len() - i,
        {
            proof {
                assert(kids.take(i + 1).drop_last() =~= kids.take(i as int));
                assert(kids.take(i + 1).last() == kids[i as int]);
            }
            if let Node::Element(e) = &children[i] {
                found.push(*e);
            }
            i += 1;
        }
        assert(kids.take(i as int) =~= kids);
        found
    }

    /// The elements below this element, each parent before its children.
    pub fn child_elements_recursive(&self, doc: &Document) -> (r: Vec<Element>)
        requires
            doc.wf(),
            doc@.has(*self),
        ensures
            r@ == elements_of(doc@.descendants(*self)),
    {
        let nodes = self.children_recursive(doc);
        let ghost all = doc@.descendants(*self);
        let mut found: Vec<Element> = Vec::new();
        let mut i: usize = 0;
        assert(all.take(0) =~= Seq::empty());
        while i < nodes.len()
            invariant
                i <= nodes.len(),
                refs_view(nodes@) == all,
                found@ == elements_of(all.take(i as int)),
            decreases nodes.len() - i,
        {
            proof {
                assert(all.take(i + 1).drop_last() =~= all.take(i as int));
                assert(all.take(i + 1).last() == all[i as int]);
            }
            if let Node::Element(e) = nodes[i] {
                found.push(*e);
            }
            i += 1;
        }
        assert(all.take(i as int) =~= all);
        found
    }

    /// The first child element whose local name is `name`.
    pub fn find(&self, doc: &Document, name: &str) -> (r: Option<Element>)
        requires
            doc.wf(),
            doc@.has(*self),
        ensures
            r == doc@.first_named(doc@.children(*self), name@),
            r matches Some(e) ==> doc@.has(e),
    {
        let children = &doc.store[self.id].children;
        let ghost kids = doc@.children(*self);
        let mut i: usize = 0;
        assert(kids.skip(0) =~= kids);
        while i < children.len()
            invariant
                i <= children.len(),
                doc.wf(),
                doc@.has(*self),
                kids == doc@.children(*self),
                nodes_view(children@) == kids,
                doc@.first_named(kids.skip(i as int), name@) == doc@.first_named(kids, name@),
            decreases children.len() - i,
        {
            proof {
                assert(kids.skip(i as int).drop_first() =~= kids.skip(i + 1));
                assert(kids.skip(i as int).first() == kids[i as int]);
                assert(doc@.linked_down(*self, i as int));
            }
            if let Node::Element(e) = &children[i] {
                if str_eq(e.name(doc), name) {
                    return Some(*e);
                }
            }
            i += 1;
        }
        assert(kids.skip(i as int) =~= Seq::empty());
        None
    }

    /// All child elements whose local name is `name`.
    pub fn find_all(&self, doc: &Document, name: &str) -> (r: Vec<Element>)
        requires
            doc.wf(),
            doc@.has(*self),
        ensures
            r@ == doc@.named_among(doc@.children(*self), name@),
    {
        let children = &doc.store[self.id].children;
        let ghost kids = doc@.children(*self);
        let mut found: Vec<Element> = Vec::new();
        let mut i: usize = 0;
        assert(kids.take(0) =~= Seq::empty());
        while i < children.len()
            invariant
                i <= children.len(),
                doc.wf(),
                doc@.has(*self),
                kids == doc@.children(*self),
                nodes_view(children@) == kids,
                found@ == doc@.named_among(kids.take(i as int), name@),
            decreases children.len() - i,
        {
            proof {
                assert(kids.take(i + 1).drop_last() =~= kids.take(i as int));
                assert(kids.take(i + 1).last() == kids[i as int]);
                assert(doc@.linked_down(*self, i as int));
            }
            if let Node::Element(e) = &children[i] {
                if str_eq(e.name(doc), name) {
                    found.push(*e);
                }
            }
            i += 1;
        }
        assert(kids.take(i as int) =~= kids);
        found
    }
}

impl Node {
    /// The handle, if this node is an element.
    pub fn as_element(&self) -> (r: Option<Element>)
        ensures
            r == (match self@ {
                NodeView::Element(e) => Some(e),
                _ => None,
            }),
    {
        match self {
            Node::Element(e) => Some(*e),
            _ => None,
        }
    }

    /// The text of this node: the content of a text node, a CDATA section or a processing
    /// instruction, the text below an element, and nothing for a comment or a document
    /// type declaration.
    pub fn text_content(&self, doc: &Document) -> (r: String)
        requires
            doc.wf(),
            self@ matches NodeView::Element(e) ==> doc@.has(e),
        ensures
            r@ == doc@.node_text(self@),
    {
        match self {
            Node::Element(e) => e.text_content(doc),
            Node::Text(text) => text.clone(),
            Node::CData(text) => text.clone(),
            Node::PI(text) => text.clone(),
            _ => String::new(),
        }
    }
}

impl Document {
    /// The top-level nodes.
    pub fn root_nodes(&self) -> (r: &Vec<Node>)
        requires
            self.wf(),
        ensures
            nodes_view(r@) == self@.children(Element::top()),
    {
        self.container.children(self)
    }

    /// The first top-level node that is an element.
    pub fn root_element(&self) -> (r: Option<Element>)
        requires
            self.wf(),
        ensures
            r == (if elements_of(self@.children(Element::top())).len() > 0 {
                Some(elements_of(self@.children(Element::top()))[0])
            } else {
                None
            }),
            r matches Some(e) ==> self@.has(e),
    {
        let roots = self.container.child_elements(self);
        if roots.len() > 0 {
            proof {
                lemma_elements_of_are_children(self@.elements[0].children, 0);
                let i = choose|i: int| 0 <= i < self@.elements[0].children.len()
                    && self@.elements[0].children[i] == NodeView::Element(roots@[0]);
                assert(self@.linked_down(self.container, i));
            }
            Some(roots[0])
        } else {
            None
        }
    }

    /// Adds `node` as the last top-level node.
    pub fn push_root_node(&mut self, node: Node) -> (r: Result<()>)
        requires
            old(self).wf(),
            node@ matches NodeView::Element(c) ==> old(self)@.has(c),
        ensures
            final(self).wf(),
            match r {
                Ok(_) => old(self)@.attachable(node@) && final(self)@ == old(self)@.attach(
                    Element::top(),
                    old(self)@.children(Element::top()).len() as int,
                    node@,
                ),
                Err(e) => !old(self)@.attachable(node@) && final(self)@ == old(self)@ && (node@ matches NodeView::Element(c) && (
                    if c.is_container() {
                        e is ContainerCannotMove
                    } else {
                        e is HasAParent
                    })),
            },
    {
        let root = self.container;
        root.push_child(self, node)
    }
}

/// Each of the elements among `nodes` is one of the nodes.
pub proof fn lemma_elements_of_are_children(nodes: Seq<NodeView>, k: int)
    requires
        0 <= k < elements_of(nodes).len(),
    ensures
        exists|i: int| 0 <= i < nodes.len() && nodes[i] == NodeView::Element(elements_of(nodes)[k]),
    decreases nodes.len(),
{
    if nodes.len() > 0 {
        let rest = nodes.drop_last();
        if k < elements_of(rest).len() {
            lemma_elements_of_are_children(rest, k);
            let i = choose|i: int| 0 <= i < rest.len() && rest[i] == NodeView::Element(
                elements_of(rest)[k],
            );
            assert(nodes[i] == rest[i]);
        } else {
            assert(nodes[nodes.len() - 1] == nodes.last());
        }
    }
}

/// Below are the functions that change the shape of the tree. No other function does:
/// a parent and its children are never out of step.
impl Element {
    /// Adds `node` as the child at position `index`.
    ///
    /// Fails with [`Error::ContainerCannotMove`] if the node is the container, and with
    /// [`Error::HasAParent`] if it is an element that has a parent; the document is then
    /// unchanged.
    pub fn insert_child(&self, doc: &mut Document, index: usize, node: Node) -> (r: Result<()>)
        requires
            old(doc).wf(),
            old(doc)@.has(*self),
            index <= old(doc)@.children(*self).len(),
            node@ matches NodeView::Element(c) ==> old(doc)@.has(c),
        ensures
            final(doc).wf(),
            match r {
                Ok(_) => old(doc)@.attachable(node@) && final(doc)@ == old(doc)@.attach(
                    *self,
                    index as int,
                    node@,
                ),
                Err(e) => !old(doc)@.attachable(node@) && final(doc)@ == old(doc)@ && (node@ matches NodeView::Element(c) && (
                    if c.is_container() {
                        e is ContainerCannotMove
                    } else {
                        e is HasAParent
                    })),
            },
    {
        if let Node::Element(elem) = &node {
            if elem.is_container() {
                return Err(Error::ContainerCannotMove);
            }
            if doc.store[elem.id].parent.is_some() {
                return Err(Error::HasAParent);
            }
            doc.store[elem.id].parent = Some(*self);
        }
        let ghost linked = doc@;
        doc.store[self.id].children.insert(index, node);
        proof {
            let before = old(doc)@;
            let after = before.attach(*self, index as int, node@);
            match node@ {
                NodeView::Element(c) => {
                    assert(linked.elements =~= before.with_parent(c, Some(*self)).elements);
                },
                _ => {
                    assert(linked.elements =~= before.elements);
                },
            }
            assert(doc@.children(*self) =~= linked.children(*self).insert(index as int, node@));
            assert(doc@.elements =~= after.elements);
            crate::shape::lemma_attach_wf(before, *self, index as int, node@);
        }
        Ok(())
    }

    /// Adds `node` as the last child.
    ///
    /// Fails with [`Error::ContainerCannotMove`] if the node is the container, and with
    /// [`Error::HasAParent`] if it is an element that has a parent; the document is then
    /// unchanged.
    pub fn push_child(&self, doc: &mut Document, node: Node) -> (r: Result<()>)
        requires
            old(doc).wf(),
            old(doc)@.has(*self),
            node@ matches NodeView::Element(c) ==> old(doc)@.has(c),
        ensures
            final(doc).wf(),
            match r {
                Ok(_) => old(doc)@.attachable(node@) && final(doc)@ == old(doc)@.attach(
                    *self,
                    old(doc)@.children(*self).len() as int,
                    node@,
                ),
                Err(e) => !old(doc)@.attachable(node@) && final(doc)@ == old(doc)@ && (node@ matches NodeView::Element(c) && (
                    if c.is_container() {
                        e is ContainerCannotMove
                    } else {
                        e is HasAParent
                    })),
            },
    {
        let index = doc.store[self.id].children.len();
        self.insert_child(doc, index, node)
    }

    /// Adds this element as the last child of `parent`.
    pub fn push_to(&self, doc: &mut Document, parent: Element) -> (r: Result<()>)
        requires
            old(doc).wf(),
            old(doc)@.has(*self),
            old(doc)@.has(parent),
        ensures
            final(doc).wf(),
            match r {
                Ok(_) => old(doc)@.attachable(NodeView::Element(*self)) && final(doc)@ == old(doc)@.attach(parent, old(doc)@.children(parent).len() as int, NodeView::Element(*self)),
                Err(e) => !old(doc)@.attachable(NodeView::Element(*self)) && final(doc)@ == old(doc)@ && (
                    if self.is_container() {
                        e is ContainerCannotMove
                    } else {
                        e is HasAParent
                    }),
            },
    {
        parent.push_child(doc, self.as_node())
    }

    /// Takes out the child at position `index` and returns it. An element that is taken
    /// out has no parent afterwards.
    pub fn remove_child(&self, doc: &mut Document, index: usize) -> (r: Node)
        requires
            old(doc).wf(),
            old(doc)@.has(*self),
            index < old(doc)@.children(*self).len(),
        ensures
            final(doc).wf(),
            r@ == old(doc)@.children(*self)[index as int],
            final(doc)@ == old(doc)@.remove_at(*self, index as int),
            final(doc)@.elements.len() == old(doc)@.elements.len(),
            final(doc)@.children(*self) == old(doc)@.children(*self).remove(index as int),
            r@ matches NodeView::Element(c) ==> final(doc)@.parent(c) is None,
    {
        proof {
            assert(doc@.linked_down(*self, index as int));
        }
        let node = doc.store[self.id].children.remove(index);
        let ghost cut = doc@;
        if let Node::Element(elem) = &node {
            doc.store[elem.id].parent = None;
        }
        proof {
            let before = old(doc)@;
            let after = before.remove_at(*self, index as int);
            assert(cut.children(*self) =~= before.children(*self).remove(index as int));
            assert(cut.elements =~= before.with_children(
                *self,
                before.children(*self).remove(index as int),
            ).elements);
            assert(doc@.elements =~= after.elements);
            old(doc).lemma_wf();
            crate::shape::lemma_remove_at_wf(before, *self, index as int);
            if let NodeView::Element(c) = node@ {
                assert(before.has(c));
            }
        }
        node
    }

    /// The position of `element` among the children of this element.
    fn child_position(&self, doc: &Document, element: Element) -> (r: Option<usize>)
        requires
            doc.wf(),
            doc@.has(*self),
        ensures
            match r {
                Some(i) => i < doc@.children(*self).len() && doc@.children(*self)[i as int]
                    == NodeView::Element(element) && i == doc@.position_of(*self, element),
                None => !doc@.children(*self).contains(NodeView::Element(element)),
            },
    {
        let children = &doc.store[self.id].children;
        let mut i: usize = 0;
        while i < children.len()
            invariant
                i <= children.len(),
                doc.wf(),
                doc@.has(*self),
                nodes_view(children@) == doc@.children(*self),
                forall|j: int| 0 <= j < i ==> doc@.children(*self)[j] != NodeView::Element(element),
            decreases children.len() - i,
        {
            if let Node::Element(e) = &children[i] {
                if *e == element {
                    proof {
                        assert(doc@.linked_down(*self, i as int));
                        let k = doc@.position_of(*self, element);
                        assert(0 <= k < doc@.children(*self).len() && doc@.children(*self)[k]
                            == NodeView::Element(element));
                    }
                    return Some(i);
                }
            }
            i += 1;
        }
        None
    }

    /// Takes `element` out of the children of this element.
    ///
    /// Fails with [`Error::NotFound`] if it is not among them; the document is then
    /// unchanged.
    pub fn remove_child_elem(&self, doc: &mut Document, element: Element) -> (r: Result<()>)
        requires
            old(doc).wf(),
            old(doc)@.has(*self),
        ensures
            final(doc).wf(),
            match r {
                Ok(_) => old(doc)@.children(*self).contains(NodeView::Element(element))
                    && final(doc)@ == old(doc)@.remove_at(
                    *self,
                    old(doc)@.position_of(*self, element),
                ),
                Err(e) => e is NotFound && !old(doc)@.children(*self).contains(
                    NodeView::Element(element),
                ) && final(doc)@ == old(doc)@,
            },
            final(doc)@.elements.len() == old(doc)@.elements.len(),
            r is Ok ==> final(doc)@.parent(element) is None && final(doc)@.children(*self) == old(doc)@.children(*self).remove(old(doc)@.position_of(*self, element)),
    {
        match self.child_position(doc, element) {
            Some(pos) => {
                self.remove_child(doc, pos);
                Ok(())
            },
            None => Err(Error::NotFound),
        }
    }

    /// Takes out all children.
    pub fn clear_children(&self, doc: &mut Document)
        requires
            old(doc).wf(),
            old(doc)@.has(*self),
        ensures
            final(doc).wf(),
            final(doc)@ == old(doc)@.clear(*self),
            final(doc)@.children(*self).len() == 0,
            final(doc)@.elements.len() == old(doc)@.elements.len(),
    {
        proof {
            crate::shape::lemma_clear_wf(doc@, *self);
        }
        while doc.store[self.id].children.len() > 0
            invariant
                doc.wf(),
                doc@.has(*self),
                doc@.clear(*self) == old(doc)@.clear(*self),
            decreases doc@.children(*self).len(),
        {
            let ghost before = doc@;
            proof {
                crate::shape::lemma_remove_at_wf(before, *self, 0);
            }
            self.remove_child(doc, 0);
        }
    }

    /// Takes this element away from its parent. Nothing happens if it has none.
    ///
    /// Fails with [`Error::ContainerCannotMove`] on the container.
    pub fn detatch(&self, doc: &mut Document) -> (r: Result<()>)
        requires
            old(doc).wf(),
            old(doc)@.has(*self),
        ensures
            final(doc).wf(),
            match r {
                Ok(_) => !self.is_container() && final(doc)@ == old(doc)@.detach(*self),
                Err(e) => e is ContainerCannotMove && self.is_container() && final(doc)@ == old(doc)@,
            },
            final(doc)@.elements.len() == old(doc)@.elements.len(),
            r is Ok ==> final(doc)@.parent(*self) is None,
            r is Ok ==> (old(doc)@.parent(*self) matches Some(p) ==> final(doc)@.children(p)
                == old(doc)@.children(p).remove(old(doc)@.position_of(p, *self)) && final(doc)@.children(p).len() == old(doc)@.children(p).len() - 1),
    {
        if self.is_container() {
            return Err(Error::ContainerCannotMove);
        }
        proof {
            doc.lemma_wf();
            assert(doc@.linked_up(*self));
            crate::shape::lemma_detach_wf(doc@, *self);
            if let Some(p) = doc@.parent(*self) {
                let i = doc@.position_of(p, *self);
                assert(0 <= i < doc@.children(p).len() && doc@.children(p)[i] == NodeView::Element(*self));
                crate::shape::lemma_remove_at_wf(doc@, p, i);
            }
        }
        match doc.store[self.id].parent {
            Some(parent) => parent.remove_child_elem(doc, *self),
            None => Ok(()),
        }
    }

    /// Replaces all children by one text node that holds `text`.
    pub fn set_text_content(&self, doc: &mut Document, text: &str)
        requires
            old(doc).wf(),
            old(doc)@.has(*self),
        ensures
            final(doc).wf(),
            final(doc)@ == old(doc)@.clear(*self).attach(*self, 0, NodeView::Text(text@)),
            final(doc)@.children(*self) == seq![NodeView::Text(text@)],
    {
        self.clear_children(doc);
        let pushed = self.push_child(doc, Node::Text(text.to_owned()));
        assert(doc@.children(*self) =~= seq![NodeView::Text(text@)]);
    }

    /// Takes out the last child and returns it.
    pub fn pop_child(&self, doc: &mut Document) -> (r: Option<Node>)
        requires
            old(doc).wf(),
            old(doc)@.has(*self),
        ensures
            final(doc).wf(),
            match r {
                Some(node) => old(doc)@.children(*self).len() > 0 && node@ == old(doc)@.children(
                    *self,
                ).last() && final(doc)@ == old(doc)@.remove_at(
                    *self,
                    old(doc)@.children(*self).len() - 1,
                ),
                None => old(doc)@.children(*self).len() == 0 && final(doc)@ == old(doc)@,
            },
            final(doc)@.elements.len() == old(doc)@.elements.len(),
    {
        let count = doc.store[self.id].children.len();
        if count == 0 {
            None
        } else {
            Some(self.remove_child(doc, count - 1))
        }
    }
}

} // verus!
