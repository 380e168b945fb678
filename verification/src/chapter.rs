//! Chapters: the page ranges into which the bookmarks of an outline divide a
//! document.
//!
//! Every bookmark that points to a page starts a chapter. The chapter runs up
//! to the page of the next such bookmark, and the last one up to the end of
//! the document. The bookmarks are taken in the order of the outline, never
//! sorted by page, and no range is checked: a bookmark that points backwards
//! or past the end gives a chapter whose range holds no page.

use crate::outline::{OutlineEntry, OutlineEntryView};
use vstd::prelude::*;
use vstd::string::StringExecFns;

verus! {

/// A chapter: a title and the pages from `start_page` up to, and without,
/// `end_page`.
#[derive(Debug, Clone, PartialEq, Eq)]
pub struct Chapter {
    pub title: String,
    pub start_page: u32,
    pub end_page: u32,
}

/// What a [`Chapter`] stands for.
pub struct ChapterView {
    pub title: Seq<char>,
    pub start_page: nat,
    pub end_page: nat,
}

impl View for Chapter {
    type V = ChapterView;

    open spec fn view(&self) -> ChapterView {
        ChapterView {
            title: self.title@,
            start_page: self.start_page as nat,
            end_page: self.end_page as nat,
        }
    }
}

impl DeepView for Chapter {
    type V = ChapterView;

    open spec fn deep_view(&self) -> ChapterView {
        self@
    }
}

/// Why an outline gives no chapters.
#[derive(Debug, Clone, Copy, PartialEq, Eq, Structural)]
pub enum ResolveError {
    /// No bookmark of the outline points to a page.
    NoChaptersFound,
}

impl ResolveError {
    /// What the error says to a reader.
    pub open spec fn text(self) -> Seq<char> {
        "No valid chapters found"@
    }

    /// A sentence for the user.
    pub fn message(&self) -> (text: String)
        ensures
            text@ == self.text(),
    {
        String::from_str("No valid chapters found")
    }
}

/// The bookmarks that point to a page, in the order of the outline.
pub open spec fn anchored(outline: Seq<OutlineEntryView>) -> Seq<OutlineEntryView> {
    outline.filter(|e: OutlineEntryView| e.page is Some)
}

/// Where the chapter of the `i`-th anchored bookmark ends: at the page of the
/// next one, or at the end of the document.
pub open spec fn end_of(anchors: Seq<OutlineEntryView>, total_pages: nat, i: int) -> nat {
    if i + 1 < anchors.len() {
        anchors[i + 1].page->0
    } else {
        total_pages
    }
}

/// The chapters that a sequence of anchored bookmarks gives in a document of
/// `total_pages` pages: one for each bookmark, in the same order.
pub open spec fn chapters_of(anchors: Seq<OutlineEntryView>, total_pages: nat) -> Seq<
    ChapterView,
> {
    Seq::new(
        anchors.len(),
        |i: int|
            ChapterView {
                title: anchors[i].title,
                start_page: anchors[i].page->0,
                end_page: end_of(anchors, total_pages, i),
            },
    )
}

/// The chapters of an outline in a document of `total_pages` pages.
pub open spec fn resolved(outline: Seq<OutlineEntryView>, total_pages: nat) -> Seq<ChapterView> {
    chapters_of(anchored(outline), total_pages)
}

/// The chapters that end at a following bookmark: all but the last.
spec fn closed_chapters(anchors: Seq<OutlineEntryView>) -> Seq<ChapterView> {
    Seq::new(
        if anchors.len() == 0 {
            0
        } else {
            (anchors.len() - 1) as nat
        },
        |i: int|
            ChapterView {
                title: anchors[i].title,
                start_page: anchors[i].page->0,
                end_page: anchors[i + 1].page->0,
            },
    )
}

/// Taking one more entry of the outline adds it to the anchored bookmarks if
/// it points to a page, and changes nothing otherwise.
proof fn lemma_anchored_step(outline: Seq<OutlineEntryView>, i: int)
    requires
        0 <= i < outline.len(),
    ensures
        anchored(outline.take(i + 1)) == if outline[i].page is Some {
            anchored(outline.take(i)).push(outline[i])
        } else {
            anchored(outline.take(i))
        },
{
    reveal(Seq::filter);
    assert(outline.take(i + 1).drop_last() == outline.take(i));
    assert(outline.take(i + 1).last() == outline[i]);
}

/// Divides a document of `total_pages` pages into chapters along its outline.
///
/// Fails exactly when no bookmark points to a page. Otherwise there is one
/// chapter for each bookmark that does, in the order of the outline; each
/// starts at its bookmark's page and ends where the next one starts, the last
/// at `total_pages`.
pub fn extract_chapters(outline: &Vec<OutlineEntry>, total_pages: u32) -> (r: Result<
    Vec<Chapter>,
    ResolveError,
>)
    ensures
        match r {
            Ok(chapters) => {
                &&& anchored(outline.deep_view()).len() > 0
                &&& chapters.deep_view() == resolved(outline.deep_view(), total_pages as nat)
            },
            Err(e) => {
                &&& anchored(outline.deep_view()).len() == 0
                &&& e == ResolveError::NoChaptersFound
            },
        },
{
    let mut chapters: Vec<Chapter> = Vec::new();
    let mut open: Option<(String, u32)> = None;
    let mut i: usize = 0;
    while i < outline.len()
        invariant
            i <= outline.len(),
            open is None <==> anchored(outline.deep_view().take(i as int)).len() == 0,
            open matches Some(o) ==> {
                let last = anchored(outline.deep_view().take(i as int)).last();
                o.0@ == last.title && last.page == Some(o.1 as nat)
            },
            chapters.deep_view() == closed_chapters(anchored(outline.deep_view().take(i as int))),
        decreases outline.len() - i,
    {
        let entry = &outline[i];
        proof {
            lemma_anchored_step(outline.deep_view(), i as int);
            assert(outline.deep_view()[i as int] == entry@);
        }
        let ghost before = anchored(outline.deep_view().take(i as int));
        let ghost closed = chapters.deep_view();
        if let Some(page) = entry.page {
            if let Some((title, start_page)) = open {
                let chapter = Chapter { title, start_page, end_page: page };
                let ghost added = chapter@;
                chapters.push(chapter);
                assert(chapters.deep_view() == closed.push(added));
            }
            open = Some((entry.title.clone(), page));
            proof {
                assert(chapters.deep_view() =~= closed_chapters(before.push(entry@)));
            }
        }
        i += 1;
    }
    proof {
        assert(outline.deep_view().take(outline.len() as int) == outline.deep_view());
    }
    match open {
        None => Err(ResolveError::NoChaptersFound),
        Some((title, start_page)) => {
            let ghost closed = chapters.deep_view();
            let chapter = Chapter { title, start_page, end_page: total_pages };
            let ghost added = chapter@;
            chapters.push(chapter);
            proof {
                assert(chapters.deep_view() == closed.push(added));
                assert(chapters.deep_view() =~= resolved(
                    outline.deep_view(),
                    total_pages as nat,
                ));
            }
            Ok(chapters)
        },
    }
}

/// The positions in the outline of the bookmarks that point to a page, in
/// ascending order.
pub open spec fn origins(outline: Seq<OutlineEntryView>) -> Seq<int>
    decreases outline.len(),
{
    if outline.len() == 0 {
        Seq::empty()
    } else if outline.last().page is Some {
        origins(outline.drop_last()).push(outline.len() - 1)
    } else {
        origins(outline.drop_last())
    }
}

/// The anchored bookmarks are the entries of the outline at the positions
/// that [`origins`] lists: those and no others, each once, in ascending order
/// of position.
pub proof fn lemma_anchored_at_origins(outline: Seq<OutlineEntryView>)
    ensures
        origins(outline).len() == anchored(outline).len(),
        forall|i: int|
            0 <= i < origins(outline).len() ==> 0 <= #[trigger] origins(outline)[i]
                < outline.len() && outline[origins(outline)[i]] == anchored(outline)[i]
                && anchored(outline)[i].page is Some,
        forall|i: int, j: int|
            0 <= i < j < origins(outline).len() ==> #[trigger] origins(outline)[i]
                < #[trigger] origins(outline)[j],
        forall|p: int|
            0 <= p < outline.len() && (#[trigger] outline[p]).page is Some ==> origins(
                outline,
            ).contains(p),
    decreases outline.len(),
{
    reveal(Seq::filter);
    if outline.len() > 0 {
        let front = outline.drop_last();
        lemma_anchored_at_origins(front);
        let here = outline.len() - 1;
        assert forall|p: int| 0 <= p < outline.len() && (#[trigger] outline[p]).page
            is Some implies origins(outline).contains(p) by {
            if p < here {
                assert(front[p] == outline[p]);
                let i = choose|i: int| 0 <= i < origins(front).len() && origins(front)[i] == p;
                assert(origins(outline)[i] == p);
            } else {
                assert(origins(outline).last() == p);
            }
        }
    }
}

/// Order preservation: the chapters stand in the order of the bookmarks they
/// come from, whatever the pages of those bookmarks are. The `i`-th chapter
/// has the title and the page of the `i`-th bookmark that points to a page,
/// and no such bookmark is passed over.
pub proof fn lemma_chapters_keep_outline_order(outline: Seq<OutlineEntryView>, total_pages: nat)
    ensures
        resolved(outline, total_pages).len() == origins(outline).len(),
        forall|i: int|
            0 <= i < origins(outline).len() ==> {
                let from = #[trigger] origins(outline)[i];
                let chapter = resolved(outline, total_pages)[i];
                &&& 0 <= from < outline.len()
                &&& outline[from].title == chapter.title
                &&& outline[from].page == Some(chapter.start_page)
            },
        forall|i: int, j: int|
            0 <= i < j < origins(outline).len() ==> #[trigger] origins(outline)[i]
                < #[trigger] origins(outline)[j],
        forall|p: int|
            0 <= p < outline.len() && (#[trigger] outline[p]).page is Some ==> origins(
                outline,
            ).contains(p),
{
    lemma_anchored_at_origins(outline);
}

/// An outline has no anchored bookmark, and so no chapters, exactly when none
/// of its entries points to a page.
pub proof fn lemma_no_chapters_iff_no_page(outline: Seq<OutlineEntryView>)
    ensures
        anchored(outline).len() == 0 <==> forall|p: int|
            0 <= p < outline.len() ==> (#[trigger] outline[p]).page is None,
{
    lemma_anchored_at_origins(outline);
    if anchored(outline).len() == 0 {
        assert forall|p: int| 0 <= p < outline.len() implies (#[trigger] outline[p]).page
            is None by {
            if outline[p].page is Some {
                assert(origins(outline).contains(p));
            }
        }
    } else {
        let from = origins(outline)[0];
        assert(outline[from].page is Some);
    }
}

/// The chapters leave no page between them: each ends at the page at which
/// the next one starts, and the last ends with the document.
pub proof fn lemma_chapters_are_contiguous(outline: Seq<OutlineEntryView>, total_pages: nat)
    ensures
        forall|i: int, j: int|
            0 <= i && j == i + 1 && j < resolved(outline, total_pages).len() ==> (
            #[trigger] resolved(outline, total_pages)[i]).end_page == (#[trigger] resolved(
                outline,
                total_pages,
            )[j]).start_page,
        resolved(outline, total_pages).len() > 0 ==> resolved(
            outline,
            total_pages,
        ).last().end_page == total_pages,
{
}

} // verus!
