//! The text of a chapter and the files that an export writes.
//!
//! The pages of a document are given as the text of each page, in page order.
//! A page whose text could not be had has none. Such a page, and a page index
//! at or past the end of the document, adds nothing to a chapter's text: it is
//! skipped, and the chapter's text holds what the other pages of its range
//! give. The skipped pages are reported beside the text.

use crate::chapter::{Chapter, ChapterView};
use crate::sanitize::{sanitize_filename, sanitized};
use vstd::prelude::*;
use vstd::string::StringExecFns;

verus! {

/// The text of a chapter, and which pages of its range gave none.
#[derive(Debug, Clone, PartialEq, Eq)]
pub struct ChapterText {
    /// The text of the pages of the range that have one, in page order,
    /// with nothing between them.
    pub text: String,
    /// The pages of the range, within the document, that have no text, in
    /// ascending order.
    pub skipped: Vec<u32>,
    /// How many page indices of the range lie at or past the end of the
    /// document.
    pub out_of_range: u32,
}

/// What a [`ChapterText`] stands for.
pub struct ChapterTextView {
    pub text: Seq<char>,
    pub skipped: Seq<nat>,
    pub out_of_range: nat,
}

impl View for ChapterText {
    type V = ChapterTextView;

    open spec fn view(&self) -> ChapterTextView {
        ChapterTextView {
            text: self.text@,
            skipped: self.skipped@.map_values(|p: u32| p as nat),
            out_of_range: self.out_of_range as nat,
        }
    }
}

/// The text that page `i` adds to a chapter: its own, or nothing where the
/// document has no such page or the page has no text.
pub open spec fn page_text(pages: Seq<Option<Seq<char>>>, i: int) -> Seq<char> {
    if 0 <= i < pages.len() && pages[i] is Some {
        pages[i]->0
    } else {
        Seq::empty()
    }
}

/// The texts of the pages from `start` up to, and without, `end`, one after
/// the other.
pub open spec fn range_text(pages: Seq<Option<Seq<char>>>, start: int, end: int) -> Seq<char>
    decreases end - start,
{
    if start >= end {
        Seq::empty()
    } else {
        range_text(pages, start, end - 1) + page_text(pages, end - 1)
    }
}

/// The pages of the document from `start` up to, and without, `end` that
/// have no text, in ascending order.
pub open spec fn range_skipped(pages: Seq<Option<Seq<char>>>, start: int, end: int) -> Seq<nat>
    decreases end - start,
{
    if start >= end {
        Seq::empty()
    } else if 0 <= end - 1 < pages.len() && pages[end - 1] is None {
        range_skipped(pages, start, end - 1).push((end - 1) as nat)
    } else {
        range_skipped(pages, start, end - 1)
    }
}

/// How many of the indices from `start` up to, and without, `end` lie at or
/// past the end of a document of `len` pages.
pub open spec fn range_overhang(len: int, start: int, end: int) -> nat {
    let from = if start >= len {
        start
    } else {
        len
    };
    if end > from {
        (end - from) as nat
    } else {
        0
    }
}

/// The text of the chapter that runs from `start` to `end`.
pub open spec fn chapter_text(
    pages: Seq<Option<Seq<char>>>,
    start: nat,
    end: nat,
) -> ChapterTextView {
    ChapterTextView {
        text: range_text(pages, start as int, end as int),
        skipped: range_skipped(pages, start as int, end as int),
        out_of_range: range_overhang(pages.len() as int, start as int, end as int),
    }
}

/// Page indices at or past the end of the document add no text and no
/// skipped page.
proof fn lemma_range_past_end(pages: Seq<Option<Seq<char>>>, start: int, mid: int, end: int)
    requires
        start <= mid <= end,
        pages.len() <= mid,
    ensures
        range_text(pages, start, end) == range_text(pages, start, mid),
        range_skipped(pages, start, end) == range_skipped(pages, start, mid),
    decreases end - mid,
{
    if mid < end {
        lemma_range_past_end(pages, start, mid, end - 1);
        assert(range_text(pages, start, end) =~= range_text(pages, start, end - 1));
    }
}

/// Collects the text of the pages from `start_page` up to, and without,
/// `end_page`.
///
/// A page without text and an index past the end of the document are skipped
/// and never make the call fail. A range that ends at or before its start
/// gives an empty text.
pub fn extract_chapter_text(pages: &Vec<Option<String>>, start_page: u32, end_page: u32) -> (r:
    ChapterText)
    ensures
        r@ == chapter_text(pages.deep_view(), start_page as nat, end_page as nat),
{
    let ghost texts = pages.deep_view();
    let mut text = String::new();
    let mut skipped: Vec<u32> = Vec::new();
    if start_page >= end_page {
        assert(skipped@.map_values(|p: u32| p as nat) =~= Seq::<nat>::empty());
        return ChapterText { text, skipped, out_of_range: 0 };
    }
    let len = pages.len();
    let stop: u32 = if (end_page as usize) < len {
        end_page
    } else if (start_page as usize) < len {
        len as u32
    } else {
        start_page
    };
    let mut i: u32 = start_page;
    while i < stop
        invariant
            start_page <= i <= stop,
            stop <= pages.len() || stop == start_page,
            texts == pages.deep_view(),
            text@ == range_text(texts, start_page as int, i as int),
            skipped@.map_values(|p: u32| p as nat) == range_skipped(
                texts,
                start_page as int,
                i as int,
            ),
        decreases stop - i,
    {
        let ghost seen = skipped@.map_values(|p: u32| p as nat);
        match &pages[i as usize] {
            Some(page) => {
                text.append(page.as_str());
            },
            None => {
                skipped.push(i);
                assert(skipped@.map_values(|p: u32| p as nat) =~= seen.push(i as nat));
            },
        }
        i += 1;
    }
    proof {
        if stop < end_page {
            lemma_range_past_end(texts, start_page as int, stop as int, end_page as int);
        }
    }
    ChapterText { text, skipped, out_of_range: end_page - stop }
}

/// The file that holds a chapter: its name within the output directory, and
/// the text to write.
#[derive(Debug, Clone, PartialEq, Eq)]
pub struct ChapterFile {
    pub file_name: String,
    pub content: ChapterText,
}

/// What a [`ChapterFile`] stands for.
pub struct ChapterFileView {
    pub file_name: Seq<char>,
    pub content: ChapterTextView,
}

impl View for ChapterFile {
    type V = ChapterFileView;

    open spec fn view(&self) -> ChapterFileView {
        ChapterFileView { file_name: self.file_name@, content: self.content@ }
    }
}

impl DeepView for ChapterFile {
    type V = ChapterFileView;

    open spec fn deep_view(&self) -> ChapterFileView {
        self@
    }
}

/// The name of the file of a chapter with the given title: the sanitized
/// title, then `.txt`.
pub open spec fn file_name_of(title: Seq<char>) -> Seq<char> {
    sanitized(title) + seq!['.', 't', 'x', 't']
}

/// The file of a chapter of a document with the given pages.
pub open spec fn file_of(chapter: ChapterView, pages: Seq<Option<Seq<char>>>) -> ChapterFileView {
    ChapterFileView {
        file_name: file_name_of(chapter.title),
        content: chapter_text(pages, chapter.start_page, chapter.end_page),
    }
}

/// The files of the chapters, one for each and in the same order. Chapters
/// whose titles give the same name give files of the same name: none is
/// renamed or left out.
pub open spec fn planned_files(
    chapters: Seq<ChapterView>,
    pages: Seq<Option<Seq<char>>>,
) -> Seq<ChapterFileView> {
    Seq::new(chapters.len(), |i: int| file_of(chapters[i], pages))
}

/// Names the file of a chapter with the given title.
pub fn chapter_file_name(title: &str) -> (name: String)
    ensures
        name@ == file_name_of(title@),
{
    let mut name = sanitize_filename(title);
    proof {
        reveal_strlit(".txt");
        assert(".txt"@ =~= seq!['.', 't', 'x', 't']);
    }
    name.append(".txt");
    name
}

/// Prepares the file of one chapter.
pub fn export_chapter(chapter: &Chapter, pages: &Vec<Option<String>>) -> (file: ChapterFile)
    ensures
        file@ == file_of(chapter@, pages.deep_view()),
{
    let content = extract_chapter_text(pages, chapter.start_page, chapter.end_page);
    let file_name = chapter_file_name(chapter.title.as_str());
    ChapterFile { file_name, content }
}

/// Prepares the files of all chapters, in the order of the chapters. Writing
/// them in that order into one directory, each replacing what a file of its
/// name held, is the export.
pub fn plan_export(chapters: &Vec<Chapter>, pages: &Vec<Option<String>>) -> (files: Vec<
    ChapterFile,
>)
    ensures
        files.deep_view() == planned_files(chapters.deep_view(), pages.deep_view()),
{
    let mut files: Vec<ChapterFile> = Vec::new();
    let mut i: usize = 0;
    while i < chapters.len()
        invariant
            i <= chapters.len(),
            files.deep_view() == planned_files(
                chapters.deep_view().take(i as int),
                pages.deep_view(),
            ),
        decreases chapters.len() - i,
    {
        let ghost done = files.deep_view();
        let file = export_chapter(&chapters[i], pages);
        let ghost added = file@;
        files.push(file);
        assert(files.deep_view() == done.push(added));
        i += 1;
        assert(files.deep_view() =~= planned_files(
            chapters.deep_view().take(i as int),
            pages.deep_view(),
        ));
    }
    assert(chapters.deep_view().take(chapters.len() as int) == chapters.deep_view());
    files
}

} // verus!
