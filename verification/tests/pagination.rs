use review_stats::error::EngineError;
use review_stats::page::{reversed, Page, Paginator, PAGE_SIZE};
use review_stats::repos::{contains_name, dedup, RepoEnumerator};

fn page(items: &[u32], cursor: &str, more: bool) -> Page<u32> {
    Page { items: items.to_vec(), end_cursor: cursor.to_string(), has_next_page: more }
}

fn names(items: &[&str], cursor: &str, more: bool) -> Page<String> {
    Page {
        items: items.iter().map(|s| s.to_string()).collect(),
        end_cursor: cursor.to_string(),
        has_next_page: more,
    }
}

/// Cuts `items` into pages of `size` items and walks through them.
fn walk(items: &[u32], size: usize) -> (Vec<u32>, usize) {
    let mut pager: Paginator<u32> = Paginator::new();
    let chunks: Vec<&[u32]> = items.chunks(size).collect();
    let mut calls = 0;
    while let Some(cursor) = pager.next_request() {
        let at: usize = if cursor.is_empty() { 0 } else { cursor.parse().unwrap() };
        let more = at + 1 < chunks.len();
        pager.accept(page(chunks[at], &(at + 1).to_string(), more), false);
        calls += 1;
    }
    (pager.into_items(), calls)
}

#[test]
fn a_page_asks_for_a_hundred_items() {
    assert_eq!(PAGE_SIZE, 100);
}

#[test]
fn the_empty_page_ends_a_listing() {
    let p: Page<u32> = Page::empty();
    assert!(p.items.is_empty());
    assert_eq!(p.end_cursor, "");
    assert!(!p.has_next_page);
    assert!(!p.has_next_page());
    assert_eq!(p.next_cursor(), "");
}

#[test]
fn extending_puts_the_items_behind_and_takes_the_cursor() {
    let mut first = page(&[1, 2], "a", true);
    first.extend(page(&[3], "b", false));
    assert_eq!(first, page(&[1, 2, 3], "b", false));
    assert_eq!(first.next_cursor(), "b");
}

#[test]
fn extending_is_associative() {
    let mut left = page(&[1], "a", true);
    left.extend(page(&[2, 3], "b", true));
    left.extend(page(&[4], "c", false));
    let mut tail = page(&[2, 3], "b", true);
    tail.extend(page(&[4], "c", false));
    let mut right = page(&[1], "a", true);
    right.extend(tail);
    assert_eq!(left, right);
}

#[test]
fn reversing_turns_the_order() {
    assert_eq!(reversed(vec![1, 2, 3]), vec![3, 2, 1]);
    assert_eq!(reversed(Vec::<u32>::new()), Vec::<u32>::new());
}

#[test]
fn a_walk_starts_with_the_empty_cursor() {
    let pager: Paginator<u32> = Paginator::new();
    assert!(!pager.is_done());
    assert_eq!(pager.next_request(), Some(String::new()));
    assert!(pager.consumed_cursors().is_empty());
}

#[test]
fn a_walk_follows_the_cursors_until_nothing_follows() {
    let mut pager: Paginator<u32> = Paginator::new();
    pager.accept(page(&[1, 2], "c1", true), false);
    assert_eq!(pager.next_request(), Some("c1".to_string()));
    pager.accept(page(&[3], "c2", true), false);
    assert_eq!(pager.next_request(), Some("c2".to_string()));
    pager.accept(page(&[4, 5], "c3", false), false);
    assert!(pager.is_done());
    assert_eq!(pager.next_request(), None);
    assert_eq!(pager.consumed_cursors(), &vec!["".to_string(), "c1".to_string(), "c2".to_string()]);
    assert_eq!(pager.into_items(), vec![1, 2, 3, 4, 5]);
}

#[test]
fn an_early_stop_ends_the_walk_although_more_follows() {
    let mut pager: Paginator<u32> = Paginator::new();
    pager.accept(page(&[1, 2], "c1", true), false);
    pager.accept(page(&[3], "c2", true), true);
    assert!(pager.is_done());
    assert_eq!(pager.next_request(), None);
    assert_eq!(pager.into_items(), vec![1, 2, 3]);
}

#[test]
fn a_page_behind_the_end_is_left_out() {
    let mut pager: Paginator<u32> = Paginator::new();
    pager.accept(page(&[1], "c1", false), false);
    pager.accept(page(&[2], "c2", true), false);
    assert!(pager.is_done());
    assert_eq!(pager.into_items(), vec![1]);
}

#[test]
fn page_sizes_do_not_change_the_items() {
    let source: Vec<u32> = (0..23).collect();
    for size in [1, 2, 3, 5, 7, 22, 23, 100] {
        let (items, calls) = walk(&source, size);
        assert_eq!(items, source);
        assert_eq!(calls, (source.len() + size - 1) / size);
    }
}

#[test]
fn feeding_pages_is_walking_through_them() {
    let mut fed: Paginator<u32> = Paginator::new();
    fed.feed(vec![page(&[1], "a", true), page(&[2, 3], "b", false), page(&[4], "c", false)]);
    assert!(fed.is_done());
    assert_eq!(fed.consumed_cursors(), &vec!["".to_string(), "a".to_string()]);
    assert_eq!(fed.into_items(), vec![1, 2, 3]);
}

#[test]
fn a_failure_keeps_what_has_arrived() {
    let mut pager: Paginator<u32> = Paginator::new();
    pager.accept(page(&[1, 2], "c1", true), false);
    pager.accept(page(&[3], "c2", true), false);
    pager.fail();
    assert!(pager.is_done());
    assert_eq!(pager.next_request(), None);
    assert_eq!(pager.consumed_cursors().len(), 3);
    assert_eq!(pager.into_items(), vec![1, 2, 3]);
}

#[test]
fn a_failure_at_the_start_leaves_nothing() {
    let mut pager: Paginator<u32> = Paginator::new();
    pager.fail();
    assert!(pager.is_done());
    assert_eq!(pager.into_items(), Vec::<u32>::new());
}

#[test]
fn the_repositories_of_all_pages_are_listed() {
    let mut listing = RepoEnumerator::new();
    assert_eq!(listing.next_request(), Some(String::new()));
    assert_eq!(listing.accept(Ok(names(&["a", "b"], "c1", true))), Ok(()));
    assert_eq!(listing.next_request(), Some("c1".to_string()));
    assert_eq!(listing.accept(Ok(names(&["c"], "c2", false))), Ok(()));
    assert_eq!(listing.next_request(), None);
    assert_eq!(listing.finish(), vec!["a".to_string(), "b".to_string(), "c".to_string()]);
}

#[test]
fn a_failure_on_the_first_page_is_fatal() {
    let mut listing = RepoEnumerator::new();
    assert_eq!(listing.accept(Err(EngineError::TransportError)), Err(EngineError::TransportError));
    assert_eq!(listing.next_request(), None);
    assert!(listing.finish().is_empty());
}

#[test]
fn a_decode_failure_on_the_first_page_is_fatal_too() {
    let mut listing = RepoEnumerator::new();
    assert_eq!(listing.accept(Err(EngineError::DecodeError)), Err(EngineError::DecodeError));
}

#[test]
fn a_failure_on_a_later_page_ends_the_listing_with_what_is_there() {
    let mut listing = RepoEnumerator::new();
    assert_eq!(listing.accept(Ok(names(&["a", "b"], "c1", true))), Ok(()));
    assert_eq!(listing.accept(Err(EngineError::DecodeError)), Ok(()));
    assert_eq!(listing.next_request(), None);
    assert_eq!(listing.finish(), vec!["a".to_string(), "b".to_string()]);
}

#[test]
fn a_name_that_comes_twice_is_listed_once() {
    let mut listing = RepoEnumerator::new();
    assert_eq!(listing.accept(Ok(names(&["a", "b", "a"], "c1", true))), Ok(()));
    assert_eq!(listing.accept(Ok(names(&["b", "c"], "c2", false))), Ok(()));
    assert_eq!(listing.finish(), vec!["a".to_string(), "b".to_string(), "c".to_string()]);
}

#[test]
fn dedup_keeps_the_first_occurrences_in_order() {
    let input: Vec<String> =
        ["x", "y", "x", "z", "y", "x"].iter().map(|s| s.to_string()).collect();
    assert_eq!(dedup(&input), vec!["x".to_string(), "y".to_string(), "z".to_string()]);
    assert_eq!(dedup(&Vec::new()), Vec::<String>::new());
    assert!(contains_name(&input, &"z".to_string()));
    assert!(!contains_name(&input, &"w".to_string()));
}
