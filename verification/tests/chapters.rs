use pdf_chapters::chapter::{extract_chapters, Chapter, ResolveError};
use pdf_chapters::outline::{flatten_outline, OutlineEntry, OutlineNode};

fn entry(title: &str, page: Option<u32>) -> OutlineEntry {
    OutlineEntry { title: title.to_string(), page }
}

fn node(title: &str, page: Option<u32>, children: Vec<OutlineNode>) -> OutlineNode {
    OutlineNode { title: title.to_string(), page, children }
}

fn triples(chapters: &[Chapter]) -> Vec<(String, u32, u32)> {
    chapters.iter().map(|c| (c.title.clone(), c.start_page, c.end_page)).collect()
}

fn flat(entries: &[OutlineEntry]) -> Vec<(String, Option<u32>)> {
    entries.iter().map(|e| (e.title.clone(), e.page)).collect()
}

#[test]
fn three_bookmarks_divide_ten_pages() {
    let outline = vec![entry("Intro", Some(0)), entry("Body", Some(3)), entry("Outro", Some(8))];
    let chapters = extract_chapters(&outline, 10).unwrap();
    assert_eq!(
        triples(&chapters),
        vec![
            ("Intro".to_string(), 0, 3),
            ("Body".to_string(), 3, 8),
            ("Outro".to_string(), 8, 10),
        ]
    );
}

#[test]
fn empty_outline_has_no_chapters() {
    let outline: Vec<OutlineEntry> = Vec::new();
    assert_eq!(extract_chapters(&outline, 10).unwrap_err(), ResolveError::NoChaptersFound);
}

#[test]
fn outline_without_pages_has_no_chapters() {
    let outline = vec![entry("Cover", None), entry("Links", None)];
    assert_eq!(extract_chapters(&outline, 10).unwrap_err(), ResolveError::NoChaptersFound);
    assert_eq!(ResolveError::NoChaptersFound.message(), "No valid chapters found");
}

#[test]
fn bookmarks_without_page_are_left_out() {
    let outline = vec![
        entry("Website", None),
        entry("One", Some(2)),
        entry("Mail", None),
        entry("Two", Some(5)),
        entry("Imprint", None),
    ];
    let chapters = extract_chapters(&outline, 7).unwrap();
    assert_eq!(triples(&chapters), vec![("One".to_string(), 2, 5), ("Two".to_string(), 5, 7)]);
}

#[test]
fn single_bookmark_runs_to_the_end() {
    let outline = vec![entry("All", Some(0))];
    let chapters = extract_chapters(&outline, 42).unwrap();
    assert_eq!(triples(&chapters), vec![("All".to_string(), 0, 42)]);
}

#[test]
fn titles_keep_the_order_of_the_outline_not_of_the_pages() {
    let outline = vec![entry("Late", Some(8)), entry("Early", Some(1)), entry("Middle", Some(4))];
    let chapters = extract_chapters(&outline, 10).unwrap();
    assert_eq!(
        triples(&chapters),
        vec![
            ("Late".to_string(), 8, 1),
            ("Early".to_string(), 1, 4),
            ("Middle".to_string(), 4, 10),
        ]
    );
}

#[test]
fn bookmarks_on_one_page_give_an_empty_range() {
    let outline = vec![entry("A", Some(3)), entry("B", Some(3))];
    let chapters = extract_chapters(&outline, 5).unwrap();
    assert_eq!(triples(&chapters), vec![("A".to_string(), 3, 3), ("B".to_string(), 3, 5)]);
}

#[test]
fn bookmark_past_the_end_is_accepted() {
    let outline = vec![entry("A", Some(0)), entry("B", Some(u32::MAX))];
    let chapters = extract_chapters(&outline, 5).unwrap();
    assert_eq!(
        triples(&chapters),
        vec![("A".to_string(), 0, u32::MAX), ("B".to_string(), u32::MAX, 5)]
    );
}

#[test]
fn each_chapter_ends_where_the_next_starts() {
    let outline = vec![
        entry("a", Some(0)),
        entry("b", Some(4)),
        entry("skip", None),
        entry("c", Some(4)),
        entry("d", Some(9)),
    ];
    let total = 12;
    let chapters = extract_chapters(&outline, total).unwrap();
    assert_eq!(chapters.len(), 4);
    for i in 0..chapters.len() - 1 {
        assert_eq!(chapters[i].end_page, chapters[i + 1].start_page);
    }
    assert_eq!(chapters[chapters.len() - 1].end_page, total);
    let mut pages: Vec<u32> = Vec::new();
    for c in &chapters {
        pages.extend(c.start_page..c.end_page);
    }
    assert_eq!(pages, (0..total).collect::<Vec<u32>>());
}

#[test]
fn nested_bookmarks_are_flattened_in_document_order() {
    let outline = vec![
        node(
            "1",
            Some(0),
            vec![
                node("1.1", Some(1), vec![node("1.1.1", None, Vec::new())]),
                node("1.2", Some(2), Vec::new()),
            ],
        ),
        node("2", Some(5), vec![node("2.1", Some(6), Vec::new())]),
    ];
    let entries = flatten_outline(&outline);
    assert_eq!(
        flat(&entries),
        vec![
            ("1".to_string(), Some(0)),
            ("1.1".to_string(), Some(1)),
            ("1.1.1".to_string(), None),
            ("1.2".to_string(), Some(2)),
            ("2".to_string(), Some(5)),
            ("2.1".to_string(), Some(6)),
        ]
    );
    let chapters = extract_chapters(&entries, 8).unwrap();
    assert_eq!(
        triples(&chapters),
        vec![
            ("1".to_string(), 0, 1),
            ("1.1".to_string(), 1, 2),
            ("1.2".to_string(), 2, 5),
            ("2".to_string(), 5, 6),
            ("2.1".to_string(), 6, 8),
        ]
    );
}

#[test]
fn empty_forest_flattens_to_nothing() {
    let outline: Vec<OutlineNode> = Vec::new();
    assert!(flatten_outline(&outline).is_empty());
}

#[test]
fn bookmarks_out_of_order_leave_pages_out() {
    let outline = vec![entry("Late", Some(8)), entry("Early", Some(1)), entry("Middle", Some(4))];
    let chapters = extract_chapters(&outline, 10).unwrap();
    let mut pages: Vec<u32> = Vec::new();
    for c in &chapters {
        pages.extend(c.start_page..c.end_page);
    }
    assert_eq!(pages, (1..10).collect::<Vec<u32>>());
}

#[test]
fn bookmarks_that_fall_to_the_first_page_still_cover_the_document() {
    let outline = vec![entry("Back", Some(5)), entry("Cover", Some(3)), entry("Text", Some(0))];
    let chapters = extract_chapters(&outline, 6).unwrap();
    assert_eq!(
        triples(&chapters),
        vec![("Back".to_string(), 5, 3), ("Cover".to_string(), 3, 0), ("Text".to_string(), 0, 6)]
    );
    let mut pages: Vec<u32> = Vec::new();
    for c in &chapters {
        pages.extend(c.start_page..c.end_page);
    }
    assert_eq!(pages, (0..6).collect::<Vec<u32>>());
}
