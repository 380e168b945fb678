//! Which pages the chapters of an outline cover, and when they cover the
//! whole document.

use crate::chapter::{anchored, chapters_of, resolved, ChapterView};
use crate::outline::OutlineEntryView;
use vstd::prelude::*;

verus! {

/// The pages from `start` up to, and without, `end`, in ascending order. There
/// are none where `end` is not above `start`.
pub open spec fn page_range(start: nat, end: nat) -> Seq<nat> {
    Seq::new(
        if start <= end {
            (end - start) as nat
        } else {
            0
        },
        |k: int| (start + k) as nat,
    )
}

/// The pages of the chapters' ranges, one range after the other in the order
/// of the chapters.
pub open spec fn covered(chapters: Seq<ChapterView>) -> Seq<nat>
    decreases chapters.len(),
{
    if chapters.len() == 0 {
        Seq::empty()
    } else {
        page_range(chapters.first().start_page, chapters.first().end_page) + covered(
            chapters.drop_first(),
        )
    }
}

/// The page at which the `i`-th chapter starts and the one before it ends;
/// behind the last chapter, the end of the document.
pub open spec fn boundary(anchors: Seq<OutlineEntryView>, total_pages: nat, i: int) -> nat {
    if 0 <= i < anchors.len() {
        anchors[i].page->0
    } else {
        total_pages
    }
}

/// The `i`-th chapter holds no page: it ends at or before the page at which it
/// starts.
pub open spec fn holds_no_page(anchors: Seq<OutlineEntryView>, total_pages: nat, i: int) -> bool {
    boundary(anchors, total_pages, i) >= boundary(anchors, total_pages, i + 1)
}

/// The `i`-th chapter does not end before the page at which it starts.
pub open spec fn runs_forward(anchors: Seq<OutlineEntryView>, total_pages: nat, i: int) -> bool {
    boundary(anchors, total_pages, i) <= boundary(anchors, total_pages, i + 1)
}

/// The `k`-th boundary is page 0, no chapter before it holds a page, and
/// every chapter from it on runs forward.
pub open spec fn turns_at(anchors: Seq<OutlineEntryView>, total_pages: nat, k: int) -> bool {
    &&& 0 <= k <= anchors.len()
    &&& boundary(anchors, total_pages, k) == 0
    &&& forall|i: int| 0 <= i < k ==> #[trigger] holds_no_page(anchors, total_pages, i)
    &&& forall|i: int| k <= i < anchors.len() ==> #[trigger] runs_forward(anchors, total_pages, i)
}

/// The bookmarks divide the document without a gap and without an overlap:
/// from some bookmark on page 0 onwards the pages of the bookmarks never fall
/// and stay within the document, and the bookmarks before that one, if any,
/// never rise, so that their chapters hold no page. Without any bookmark, the
/// document has no page.
pub open spec fn tiles(anchors: Seq<OutlineEntryView>, total_pages: nat) -> bool {
    exists|k: int| turns_at(anchors, total_pages, k)
}

/// The first bookmark points to page 0, no bookmark points to a page before
/// that of an earlier one, and none points past the end of the document.
pub open spec fn ascending(anchors: Seq<OutlineEntryView>, total_pages: nat) -> bool {
    &&& anchors.len() > 0
    &&& anchors[0].page->0 == 0
    &&& forall|i: int, j: int|
        0 <= i <= j < anchors.len() ==> (#[trigger] anchors[i]).page->0 <= (
        #[trigger] anchors[j]).page->0
    &&& anchors.last().page->0 <= total_pages
}

/// The boundaries of the chapters as one sequence: the start of each, then
/// the end of the document.
spec fn bounds(anchors: Seq<OutlineEntryView>, total_pages: nat) -> Seq<nat> {
    Seq::new(anchors.len() + 1, |i: int| boundary(anchors, total_pages, i))
}

/// The boundary after the `i`-th is not above it.
spec fn falls(b: Seq<nat>, i: int) -> bool {
    b[i] >= b[i + 1]
}

/// The boundary after the `i`-th is not below it.
spec fn rises(b: Seq<nat>, i: int) -> bool {
    b[i] <= b[i + 1]
}

/// The pages between successive boundaries, from the `j`-th boundary on.
spec fn spans(b: Seq<nat>, j: int) -> Seq<nat>
    decreases b.len() - j,
{
    if j < 0 || j + 1 >= b.len() {
        Seq::empty()
    } else {
        page_range(b[j], b[j + 1]) + spans(b, j + 1)
    }
}

/// The pages that the chapters from the `j`-th on cover are the pages between
/// their boundaries.
proof fn lemma_covered_is_spans(anchors: Seq<OutlineEntryView>, total_pages: nat, j: int)
    requires
        0 <= j <= anchors.len(),
    ensures
        covered(chapters_of(anchors, total_pages).skip(j)) == spans(
            bounds(anchors, total_pages),
            j,
        ),
    decreases anchors.len() - j,
{
    let chapters = chapters_of(anchors, total_pages);
    if j < anchors.len() {
        lemma_covered_is_spans(anchors, total_pages, j + 1);
        assert(chapters.skip(j).drop_first() == chapters.skip(j + 1));
    }
}

/// No page lies between the boundaries from the `j`-th on exactly when they
/// never rise.
proof fn lemma_spans_empty(b: Seq<nat>, j: int)
    requires
        0 <= j < b.len(),
    ensures
        spans(b, j).len() == 0 <==> forall|i: int| j <= i < b.len() - 1 ==> #[trigger] falls(b, i),
    decreases b.len() - j,
{
    if j + 1 < b.len() {
        lemma_spans_empty(b, j + 1);
        assert(falls(b, j) <==> page_range(b[j], b[j + 1]).len() == 0);
        if spans(b, j).len() == 0 {
            assert forall|i: int| j <= i < b.len() - 1 implies #[trigger] falls(b, i) by {
                if i > j {
                    assert(j + 1 <= i);
                }
            }
        }
    }
}

/// Boundaries that never rise from the `j`-th to the `k`-th add no page.
proof fn lemma_spans_skip(b: Seq<nat>, j: int, k: int)
    requires
        0 <= j <= k < b.len(),
        forall|i: int| j <= i < k ==> #[trigger] falls(b, i),
    ensures
        spans(b, j) == spans(b, k),
    decreases k - j,
{
    if j < k {
        lemma_spans_skip(b, j + 1, k);
        assert(falls(b, j));
        assert(page_range(b[j], b[j + 1]) =~= Seq::<nat>::empty());
        assert(spans(b, j) =~= spans(b, j + 1));
    }
}

/// Boundaries that never fall from the `j`-th on give every page from the
/// `j`-th boundary to the last, once.
proof fn lemma_spans_ascending(b: Seq<nat>, j: int)
    requires
        0 <= j < b.len(),
        forall|i: int| j <= i < b.len() - 1 ==> #[trigger] rises(b, i),
    ensures
        b[j] <= b.last(),
        spans(b, j) == page_range(b[j], b.last()),
    decreases b.len() - j,
{
    if j + 1 < b.len() {
        lemma_spans_ascending(b, j + 1);
        assert(rises(b, j));
        assert(page_range(b[j], b[j + 1]) + page_range(b[j + 1], b.last()) =~= page_range(
            b[j],
            b.last(),
        ));
    } else {
        assert(spans(b, j) =~= page_range(b[j], b.last()));
    }
}

/// Boundaries that never rise from the `j`-th on end at or below the `j`-th.
proof fn lemma_falling_ends_below(b: Seq<nat>, j: int)
    requires
        0 <= j < b.len(),
        forall|i: int| j <= i < b.len() - 1 ==> #[trigger] falls(b, i),
    ensures
        b[j] >= b.last(),
    decreases b.len() - j,
{
    if j + 1 < b.len() {
        lemma_falling_ends_below(b, j + 1);
        assert(falls(b, j));
    }
}

/// The first page between the boundaries from the `j`-th on is not above the
/// `j`-th boundary.
proof fn lemma_spans_first(b: Seq<nat>, j: int)
    requires
        0 <= j < b.len(),
        spans(b, j).len() > 0,
    ensures
        spans(b, j)[0] <= b[j],
    decreases b.len() - j,
{
    if b[j] >= b[j + 1] {
        assert(page_range(b[j], b[j + 1]) =~= Seq::<nat>::empty());
        assert(spans(b, j) =~= spans(b, j + 1));
        lemma_spans_first(b, j + 1);
    }
}

/// Where the pages between the boundaries from the `j`-th on are those from
/// the `j`-th boundary to the last, once each, the boundaries never fall.
proof fn lemma_spans_exact_ascending(b: Seq<nat>, j: int)
    requires
        0 <= j < b.len(),
        b[j] <= b.last(),
        spans(b, j) == page_range(b[j], b.last()),
    ensures
        forall|i: int| j <= i < b.len() - 1 ==> #[trigger] rises(b, i),
    decreases b.len() - j,
{
    if j + 1 < b.len() {
        let here = page_range(b[j], b[j + 1]);
        let rest = spans(b, j + 1);
        assert(spans(b, j) == here + rest);
        if b[j] <= b[j + 1] {
            assert(here.len() + rest.len() == b.last() - b[j]);
            assert(rest =~= page_range(b[j + 1], b.last())) by {
                assert forall|k: int| 0 <= k < rest.len() implies rest[k] == b[j + 1] + k by {
                    assert(rest[k] == (here + rest)[here.len() + k]);
                }
            }
            lemma_spans_exact_ascending(b, j + 1);
            assert forall|i: int| j <= i < b.len() - 1 implies #[trigger] rises(b, i) by {
                if i > j {
                    assert(j + 1 <= i);
                }
            }
        } else {
            assert(here =~= Seq::<nat>::empty());
            assert(rest =~= spans(b, j));
            if b[j] == b.last() {
                lemma_spans_empty(b, j + 1);
                lemma_falling_ends_below(b, j + 1);
            } else {
                lemma_spans_first(b, j + 1);
                assert(rest[0] == b[j]);
            }
            assert(false);
        }
    }
}

/// Where the pages between the boundaries from the `j`-th on are those of the
/// whole document, once each, the boundaries fall to page 0 and rise from it.
proof fn lemma_spans_cover_turns(b: Seq<nat>, j: int) -> (k: int)
    requires
        0 <= j < b.len(),
        spans(b, j) == page_range(0, b.last()),
    ensures
        j <= k < b.len(),
        b[k] == 0,
        forall|i: int| j <= i < k ==> #[trigger] falls(b, i),
        forall|i: int| k <= i < b.len() - 1 ==> #[trigger] rises(b, i),
    decreases b.len() - j,
{
    let whole = page_range(0, b.last());
    assert(whole.len() == b.last());
    if j + 1 >= b.len() {
        j
    } else if b[j] < b[j + 1] {
        let here = page_range(b[j], b[j + 1]);
        assert(here.len() > 0);
        assert(spans(b, j)[0] == here[0]);
        assert(whole[0] == 0);
        lemma_spans_exact_ascending(b, j);
        j
    } else {
        assert(page_range(b[j], b[j + 1]) =~= Seq::<nat>::empty());
        assert(spans(b, j) =~= spans(b, j + 1));
        let k = lemma_spans_cover_turns(b, j + 1);
        assert forall|i: int| j <= i < k implies #[trigger] falls(b, i) by {
            if i > j {
                assert(j + 1 <= i);
            }
        }
        k
    }
}

/// The chapters of a sequence of bookmarks cover the pages of the document
/// from the first to the last, each once and in order, exactly when the
/// bookmarks tile the document.
pub proof fn lemma_chapters_cover_iff_tiles(anchors: Seq<OutlineEntryView>, total_pages: nat)
    ensures
        covered(chapters_of(anchors, total_pages)) == page_range(0, total_pages) <==> tiles(
            anchors,
            total_pages,
        ),
{
    let b = bounds(anchors, total_pages);
    let chapters = chapters_of(anchors, total_pages);
    lemma_covered_is_spans(anchors, total_pages, 0);
    assert(chapters.skip(0) == chapters);
    assert(b.last() == total_pages);
    assert forall|i: int| 0 <= i < anchors.len() implies (falls(b, i) <==> holds_no_page(
        anchors,
        total_pages,
        i,
    )) && (rises(b, i) <==> runs_forward(anchors, total_pages, i)) by {
        assert(b[i] == boundary(anchors, total_pages, i));
        assert(b[i + 1] == boundary(anchors, total_pages, i + 1));
    }
    if covered(chapters) == page_range(0, total_pages) {
        let k = lemma_spans_cover_turns(b, 0);
        assert(turns_at(anchors, total_pages, k)) by {
            assert forall|i: int| 0 <= i < k implies #[trigger] holds_no_page(
                anchors,
                total_pages,
                i,
            ) by {
                assert(falls(b, i));
            }
            assert forall|i: int| k <= i < anchors.len() implies #[trigger] runs_forward(
                anchors,
                total_pages,
                i,
            ) by {
                assert(rises(b, i));
            }
        }
    }
    if tiles(anchors, total_pages) {
        let k = choose|k: int| turns_at(anchors, total_pages, k);
        assert forall|i: int| 0 <= i < k implies #[trigger] falls(b, i) by {
            assert(holds_no_page(anchors, total_pages, i));
        }
        assert forall|i: int| k <= i < b.len() - 1 implies #[trigger] rises(b, i) by {
            assert(runs_forward(anchors, total_pages, i));
        }
        lemma_spans_skip(b, 0, k);
        lemma_spans_ascending(b, k);
    }
}

/// Coverage: the chapters of an outline cover every page of the document
/// exactly once and in order, without a gap and without an overlap, exactly
/// when the outline's bookmarks tile the document.
pub proof fn lemma_coverage(outline: Seq<OutlineEntryView>, total_pages: nat)
    ensures
        covered(resolved(outline, total_pages)) == page_range(0, total_pages) <==> tiles(
            anchored(outline),
            total_pages,
        ),
{
    lemma_chapters_cover_iff_tiles(anchored(outline), total_pages);
}

/// Bookmarks that start at page 0, never point backwards and stay within the
/// document tile it.
pub proof fn lemma_ascending_tiles(anchors: Seq<OutlineEntryView>, total_pages: nat)
    requires
        ascending(anchors, total_pages),
    ensures
        tiles(anchors, total_pages),
{
    assert(turns_at(anchors, total_pages, 0)) by {
        assert forall|i: int| 0 <= i < anchors.len() implies #[trigger] runs_forward(
            anchors,
            total_pages,
            i,
        ) by {
            if i + 1 < anchors.len() {
                assert(anchors[i].page->0 <= anchors[i + 1].page->0);
            }
        }
    }
}

/// An outline whose bookmarks start at page 0, never point backwards and stay
/// within the document gives chapters that cover every page of the document
/// exactly once and in order.
pub proof fn lemma_ascending_outline_is_covered(outline: Seq<OutlineEntryView>, total_pages: nat)
    requires
        ascending(anchored(outline), total_pages),
    ensures
        covered(resolved(outline, total_pages)) == page_range(0, total_pages),
{
    lemma_ascending_tiles(anchored(outline), total_pages);
    lemma_coverage(outline, total_pages);
}

} // verus!
