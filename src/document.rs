use vstd::prelude::*;
use kuchiki::traits::TendrilSink;
use kuchiki::NodeRef;
use crate::html::{elements_view, ActionView, ElementInfo, ElementView};

verus! {

#[verifier::external_type_specification]
#[verifier::external_body]
pub struct ExNodeRef(kuchiki::NodeRef);

/// What parsing `html` and reading each of its `<script>` and `<link>`
/// elements, in document order, gives.
pub uninterp spec fn elements_of(html: Seq<char>) -> Seq<ElementView>;

/// The serialization of the document parsed from `html` once each change
/// `(i, action)` has been made, in order, to its `i`-th `<script>` or
/// `<link>` element.
pub uninterp spec fn inlined_text(html: Seq<char>, changes: Seq<(int, ActionView)>) -> Seq<char>;

/// A parsed document and its `<script>` and `<link>` elements. Only
/// [`Document::parse`] makes one, and only its own methods change it, so the
/// text it was parsed from and the changes made to it are what its tree holds.
pub struct Document {
    tree: NodeRef,
    nodes: Vec<NodeRef>,
    source: Ghost<Seq<char>>,
    changes: Ghost<Seq<(int, ActionView)>>,
}

impl Document {
    /// The text the document was parsed from.
    pub closed spec fn source(&self) -> Seq<char> {
        self.source@
    }

    /// The changes made to the document so far, in order.
    pub closed spec fn changes(&self) -> Seq<(int, ActionView)> {
        self.changes@
    }

    /// The number of `<script>` and `<link>` elements.
    pub closed spec fn len(&self) -> nat {
        self.nodes@.len()
    }

    /// Relies on `kuchiki::parse_html`, `NodeRef::select` and
    /// `Attributes::get`: the tree of `html` with no change made, and what
    /// each of its `<script>` and `<link>` elements holds, in document order;
    /// all of it depends on the text alone.
    #[verifier::external_body]
    pub fn parse(html: &str) -> (r: (Document, Vec<ElementInfo>))
        ensures
            r.0.source() == html@,
            r.0.changes() == Seq::<(int, ActionView)>::empty(),
            r.0.len() == r.1@.len(),
            elements_view(r.1@) == elements_of(html@),
    {
        let tree = kuchiki::parse_html().one(html);
        let nodes: Vec<NodeRef> = tree.select("script, link").unwrap().map(|m| m.as_node().clone()).collect();
        let infos = nodes.iter().map(|n| {
            let e = n.as_element().unwrap();
            let a = e.attributes.borrow();
            let get = |k: &str| a.get(k).map(String::from);
            ElementInfo { tag: e.name.local.to_string(), rel: get("rel"), href: get("href"), src: get("src") }
        }).collect();
        (Document { tree, nodes, source: Ghost(html@), changes: Ghost(Seq::empty()) }, infos)
    }

    /// Relies on `kuchiki::Attributes::remove` and `NodeRef::append`: the
    /// `i`-th element loses its `src` attribute and gets `text` as its last
    /// child.
    #[verifier::external_body]
    pub fn inline_script_at(&mut self, i: usize, text: &str)
        requires
            i < old(self).len(),
        ensures
            final(self).changes() == old(self).changes().push(
                (i as int, ActionView::InlineScript(text@)),
            ),
            final(self).source() == old(self).source(),
            final(self).len() == old(self).len(),
    {
        let node = &self.nodes[i];
        if let Some(e) = node.as_element() {
            e.attributes.borrow_mut().remove("src");
        }
        node.append(NodeRef::new_text(text));
    }

    /// Relies on `kuchiki::NodeRef::new_element`, `append`, `insert_after`
    /// and `detach`: the `i`-th element is replaced by a `<style>` element of
    /// the HTML namespace whose only child is the text `css`.
    #[verifier::external_body]
    pub fn inline_style_at(&mut self, i: usize, css: &str)
        requires
            i < old(self).len(),
        ensures
            final(self).changes() == old(self).changes().push(
                (i as int, ActionView::InlineStyle(css@)),
            ),
            final(self).source() == old(self).source(),
            final(self).len() == old(self).len(),
    {
        let ns = html5ever::Namespace::from("http://www.w3.org/1999/xhtml");
        let name = html5ever::QualName::new(None, ns, html5ever::LocalName::from("style"));
        let style = NodeRef::new_element(name, None);
        style.append(NodeRef::new_text(css));
        self.nodes[i].insert_after(style);
        self.nodes[i].detach();
    }

    /// Relies on `kuchiki::NodeRef::detach`: the `i`-th element leaves the
    /// tree.
    #[verifier::external_body]
    pub fn drop_at(&mut self, i: usize)
        requires
            i < old(self).len(),
        ensures
            final(self).changes() == old(self).changes().push((i as int, ActionView::Drop)),
            final(self).source() == old(self).source(),
            final(self).len() == old(self).len(),
    {
        self.nodes[i].detach();
    }

    /// Relies on kuchiki's `ToString` for `NodeRef`: the serialized document.
    #[verifier::external_body]
    pub fn serialize(&self) -> (r: String)
        ensures
            r@ == inlined_text(self.source(), self.changes()),
    {
        self.tree.to_string()
    }
}

} // verus!
