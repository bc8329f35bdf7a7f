use catplay::ring::bitmap::Bitmap;

#[test]
fn bitmap_new_is_empty_and_exposes_capacity() {
    let bm = Bitmap::new(128);
    assert!(bm.is_empty());
    assert!(bm.capacity() == 128);
}

#[test]
fn mark_single_region() {
    let mut bm = Bitmap::new(128);

    bm.mark_region(10, 5);

    assert!(!bm.is_empty());
    assert_eq!(bm.search_next_gap(0, 128), Some((10, 5)));
}

#[test]
fn unmark_single_region() {
    let mut bm = Bitmap::new(128);

    bm.mark_region(10, 5);
    bm.unmark_region(10, 5);

    assert!(bm.is_empty());
    assert_eq!(bm.search_next_gap(0, 128), None);
}

#[test]
fn mark_multiple_regions() {
    let mut bm = Bitmap::new(128);

    bm.mark_region(10, 5);
    bm.mark_region(30, 3);

    assert_eq!(bm.search_next_gap(0, 128), Some((10, 5)));

    bm.unmark_region(10, 5);
    assert_eq!(bm.search_next_gap(0, 128), Some((30, 3)));

    bm.unmark_region(30, 3);
    assert!(bm.is_empty());
}

#[test]
fn partial_unmark_keeps_gap() {
    let mut bm = Bitmap::new(128);

    bm.mark_region(20, 10);
    bm.unmark_region(20, 5);

    assert!(!bm.is_empty());
    assert_eq!(bm.search_next_gap(0, 128), Some((25, 5)));
}

#[test]
fn search_respects_start_offset() {
    let mut bm = Bitmap::new(128);

    bm.mark_region(10, 5);
    bm.mark_region(30, 5);

    assert_eq!(bm.search_next_gap(0, 128), Some((10, 5)));
    assert_eq!(bm.search_next_gap(15, 128 - 15), Some((30, 5)));
}

#[test]
fn search_limited_range() {
    let mut bm = Bitmap::new(128);

    bm.mark_region(10, 5);
    bm.mark_region(30, 5);

    assert_eq!(bm.search_next_gap(0, 20), Some((10, 5)));
    assert_eq!(bm.search_next_gap(0, 10), None);
    assert_eq!(bm.search_next_gap(20, 10), None);
    assert_eq!(bm.search_next_gap(20, 20), Some((30, 5)));
}

#[test]
fn gap_at_zero() {
    let mut bm = Bitmap::new(64);

    bm.mark_region(0, 8);

    assert_eq!(bm.search_next_gap(0, 64), Some((0, 8)));
}

#[test]
fn gap_at_end() {
    let mut bm = Bitmap::new(64);

    bm.mark_region(60, 4);

    assert_eq!(bm.search_next_gap(0, 64), Some((60, 4)));
    assert_eq!(bm.search_next_gap(0, 60), None);
}

#[test]
fn multiple_adjacent_marks_merge_logically() {
    let mut bm = Bitmap::new(128);

    bm.mark_region(10, 5);
    bm.mark_region(15, 5);

    assert_eq!(bm.search_next_gap(0, 128), Some((10, 10)));

    bm.unmark_region(10, 10);
    assert!(bm.is_empty());
}

#[test]
fn unmark_middle_splits_gap() {
    let mut bm = Bitmap::new(128);

    bm.mark_region(10, 10);
    bm.unmark_region(14, 2);

    assert_eq!(bm.search_next_gap(0, 128), Some((10, 4)));

    bm.unmark_region(10, 4);
    assert_eq!(bm.search_next_gap(0, 128), Some((16, 4)));
}

#[test]
fn repeated_mark_same_region_is_idempotent() {
    let mut bm = Bitmap::new(128);

    bm.mark_region(20, 5);
    bm.mark_region(20, 5);

    assert_eq!(bm.search_next_gap(0, 128), Some((20, 5)));
}

#[test]
fn repeated_unmark_same_region_is_idempotent() {
    let mut bm = Bitmap::new(128);

    bm.mark_region(20, 5);
    bm.unmark_region(20, 5);
    bm.unmark_region(20, 5);

    assert!(bm.is_empty());
}

#[test]
fn empty_flag_consistency() {
    let mut bm = Bitmap::new(128);

    assert!(bm.is_empty());

    bm.mark_region(1, 1);
    assert!(!bm.is_empty());

    bm.unmark_region(1, 1);
    assert!(bm.is_empty());
}

#[test]
fn search_does_not_overflow_range() {
    let mut bm = Bitmap::new(128);

    bm.mark_region(100, 10);

    assert_eq!(bm.search_next_gap(0, 50), None);
    assert_eq!(bm.search_next_gap(90, 10), None);
    assert_eq!(bm.search_next_gap(90, 20), Some((100, 10)));
}

#[test]
fn gap_crosses_word_boundary() {
    let mut bm = Bitmap::new(256);

    bm.mark_region(60, 10);

    assert_eq!(bm.search_next_gap(0, 256), Some((60, 10)));
}

#[test]
fn gap_spans_multiple_full_words() {
    let mut bm = Bitmap::new(512);

    bm.mark_region(32, 160);

    assert_eq!(bm.search_next_gap(0, 512), Some((32, 160)));
}

#[test]
fn unmark_splits_multiword_gap() {
    let mut bm = Bitmap::new(256);

    bm.mark_region(20, 200);
    bm.unmark_region(100, 20);

    assert_eq!(bm.search_next_gap(0, 256), Some((20, 80)));

    bm.unmark_region(20, 80);
    assert_eq!(bm.search_next_gap(0, 256), Some((120, 100)));
}

#[test]
fn search_crosses_words_with_offset() {
    let mut bm = Bitmap::new(256);

    bm.mark_region(10, 100);

    assert_eq!(bm.search_next_gap(50, 40), Some((50, 40)));
}

#[test]
fn empty_requests_ignore_the_bounds() {
    let mut bm = Bitmap::new(128);
    bm.mark_region(500, 0);
    bm.unmark_region(400, 50);
    assert_eq!(bm.search_next_gap(1000, 10), None);
    assert!(bm.is_empty());
    bm.mark_region(10, 4);
    bm.unmark_region(900, 0);
    assert_eq!(bm.search_next_gap(900, 0), None);
    assert_eq!(bm.search_next_gap(0, 128), Some((10, 4)));
}
