//! The outline of a document: its bookmarks, as a tree and as the flat
//! sequence in which a reader meets them.

use vstd::prelude::*;

verus! {

/// One bookmark of a document's outline.
///
/// `page` is the index of the page that the bookmark points to, counted from
/// zero; a bookmark without a page it can be resolved to has none.
#[derive(Debug, Clone, PartialEq, Eq)]
pub struct OutlineEntry {
    pub title: String,
    pub page: Option<u32>,
}

/// A bookmark together with the bookmarks nested below it.
#[derive(Debug, PartialEq, Eq)]
pub struct OutlineNode {
    pub title: String,
    pub page: Option<u32>,
    pub children: Vec<OutlineNode>,
}

/// What an [`OutlineEntry`] stands for: a title and, possibly, a page.
pub struct OutlineEntryView {
    pub title: Seq<char>,
    pub page: Option<nat>,
}

/// The page of a bookmark as a natural number.
pub open spec fn page_view(page: Option<u32>) -> Option<nat> {
    match page {
        Some(p) => Some(p as nat),
        None => None,
    }
}

impl View for OutlineEntry {
    type V = OutlineEntryView;

    open spec fn view(&self) -> OutlineEntryView {
        OutlineEntryView { title: self.title@, page: page_view(self.page) }
    }
}

impl DeepView for OutlineEntry {
    type V = OutlineEntryView;

    open spec fn deep_view(&self) -> OutlineEntryView {
        self@
    }
}

impl OutlineNode {
    /// The bookmark at this node, without what is nested below it.
    pub open spec fn entry(&self) -> OutlineEntryView {
        OutlineEntryView { title: self.title@, page: page_view(self.page) }
    }

    /// This node's bookmark followed by the bookmarks below it, in the order
    /// of a reader who goes through the outline from top to bottom.
    pub open spec fn preorder(&self) -> Seq<OutlineEntryView>
        decreases self,
    {
        seq![self.entry()] + preorder(self.children@)
    }
}

/// The bookmarks of a forest of outline nodes in document order: each node
/// comes before its children, and all of a node's descendants come before its
/// next sibling.
pub open spec fn preorder(nodes: Seq<OutlineNode>) -> Seq<OutlineEntryView>
    decreases nodes,
{
    if nodes.len() == 0 {
        Seq::empty()
    } else {
        preorder(nodes.drop_last()) + nodes.last().preorder()
    }
}

/// Appends the bookmarks of `nodes`, in document order, to `entries`.
fn append_preorder(nodes: &Vec<OutlineNode>, entries: &mut Vec<OutlineEntry>)
    ensures
        final(entries).deep_view() == old(entries).deep_view() + preorder(nodes@),
    decreases nodes,
{
    let mut i: usize = 0;
    while i < nodes.len()
        invariant
            i <= nodes.len(),
            entries.deep_view() == old(entries).deep_view() + preorder(nodes@.take(i as int)),
        decreases nodes.len() - i,
    {
        let node = &nodes[i];
        let ghost before = entries.deep_view();
        entries.push(OutlineEntry { title: node.title.clone(), page: node.page });
        assert(entries.deep_view() == before + seq![node.entry()]);
        append_preorder(&node.children, entries);
        proof {
            let done = nodes@.take(i + 1);
            assert(done.drop_last() == nodes@.take(i as int));
            assert(done.last() == *node);
            assert(preorder(done) == preorder(nodes@.take(i as int)) + node.preorder());
            assert(entries.deep_view() =~= old(entries).deep_view() + preorder(done));
        }
        i += 1;
    }
    proof {
        assert(nodes@.take(nodes.len() as int) == nodes@);
    }
}

/// Flattens an outline: the bookmarks of the whole tree as one sequence, in
/// document order. Nesting is not kept.
pub fn flatten_outline(nodes: &Vec<OutlineNode>) -> (entries: Vec<OutlineEntry>)
    ensures
        entries.deep_view() == preorder(nodes@),
{
    let mut entries: Vec<OutlineEntry> = Vec::new();
    append_preorder(nodes, &mut entries);
    entries
}

} // verus!
