use vstd::prelude::*;
use crate::names::with_entry;
use crate::text::local_name_of;
use crate::tree::{Document, Element, ElementView, NodeView};

verus! {

/// Builds an element step by step: [`Element::build`] starts, the methods of the builder
/// set what the element is to have, and [`ElementBuilder::finish`] or
/// [`ElementBuilder::push_to`] ends.
///
/// Each step is the function of [`Element`] with the same purpose, and nothing else.
pub struct ElementBuilder<'a> {
    /// The element that is built.
    pub element: Element,
    /// The document that holds it.
    pub doc: &'a mut Document,
}

impl<'a> ElementBuilder<'a> {
    /// The invariant of the type: the document is well formed and holds the element,
    /// which has no parent and is not the container.
    pub open spec fn wf(&self) -> bool {
        &&& self.doc.wf()
        &&& self.doc@.has(self.element)
        &&& self.doc@.attachable(NodeView::Element(self.element))
    }

    /// Gives the name the prefix `prefix` and keeps its local part.
    pub fn prefix(self, prefix: &str) -> (r: ElementBuilder<'a>)
        requires
            self.wf(),
        ensures
            r.wf(),
            r.element == self.element,
            *final(r.doc) == *final(self.doc),
            r.doc@ == old(self.doc)@.with_full_name(
                self.element,
                prefix@ + seq![':'] + local_name_of(old(self.doc)@.get(self.element).full_name),
            ),
    {
        self.element.set_prefix(self.doc, prefix);
        self
    }

    /// Adds the attribute `name`, or gives it another value.
    pub fn attribute(self, name: &str, value: &str) -> (r: ElementBuilder<'a>)
        requires
            self.wf(),
        ensures
            r.wf(),
            r.element == self.element,
            *final(r.doc) == *final(self.doc),
            r.doc@ == old(self.doc)@.with_attributes(
                self.element,
                with_entry(old(self.doc)@.get(self.element).attributes, name@, value@),
            ),
    {
        self.element.set_attribute(self.doc, name, value);
        self
    }

    /// Declares `namespace` for `prefix` on the element.
    pub fn namespace_decl(self, prefix: &str, namespace: &str) -> (r: ElementBuilder<'a>)
        requires
            self.wf(),
        ensures
            r.wf(),
            r.element == self.element,
            *final(r.doc) == *final(self.doc),
            r.doc@ == old(self.doc)@.with_namespace_decls(
                self.element,
                with_entry(old(self.doc)@.get(self.element).namespace_decls, prefix@, namespace@),
            ),
    {
        self.element.set_namespace_decl(self.doc, prefix, namespace);
        self
    }

    /// Replaces all children of the element by one text node that holds `text`.
    pub fn text_content(self, text: &str) -> (r: ElementBuilder<'a>)
        requires
            self.wf(),
        ensures
            r.wf(),
            r.element == self.element,
            *final(r.doc) == *final(self.doc),
            r.doc@ == old(self.doc)@.clear(self.element).attach(
                self.element,
                0,
                NodeView::Text(text@),
            ),
    {
        proof {
            self.doc.lemma_wf();
            crate::shape::lemma_clear_wf(self.doc@, self.element);
        }
        let ghost cleared = self.doc@.clear(self.element);
        self.element.set_text_content(self.doc, text);
        proof {
            assert(cleared.parent(self.element) is None);
            assert(self.doc@.parent(self.element) == cleared.parent(self.element));
        }
        self
    }

    /// Ends the building and returns the element, which has no parent.
    pub fn finish(self) -> (r: Element)
        requires
            self.wf(),
        ensures
            r == self.element,
            *final(self.doc) == *old(self.doc),
    {
        self.element
    }

    /// Ends the building with the element as the last child of `parent`, and returns the
    /// element.
    pub fn push_to(self, parent: Element) -> (r: Element)
        requires
            self.wf(),
            self.doc@.has(parent),
        ensures
            r == self.element,
            final(self.doc).wf(),
            final(self.doc)@ == old(self.doc)@.attach(
                parent,
                old(self.doc)@.children(parent).len() as int,
                NodeView::Element(self.element),
            ),
    {
        let pushed = self.element.push_to(self.doc, parent);
        self.element
    }
}

impl Element {
    /// Makes an element named `name` and returns a builder for it.
    pub fn build<'a>(doc: &'a mut Document, name: &str) -> (r: ElementBuilder<'a>)
        requires
            old(doc).wf(),
        ensures
            r.wf(),
            r.element == Element::nth(old(doc)@.elements.len()),
            r.doc@ == old(doc)@.with_element(
                ElementView::fresh(name@, Seq::empty(), Seq::empty()),
            ),
            *final(r.doc) == *final(doc),
    {
        proof {
            doc.lemma_wf();
        }
        let element = Element::new(doc, name);
        ElementBuilder { element, doc }
    }
}

} // verus!
