use question_harvest::planner::{compute_plan, parse_checkpoint, total_pages, PageWindow, Plan};

#[test]
fn pages_for_exact_multiple() {
    assert_eq!(total_pages(150, 50), 3);
}

#[test]
fn pages_for_partial_last_page() {
    assert_eq!(total_pages(151, 50), 4);
}

#[test]
fn pages_for_empty_listing() {
    assert_eq!(total_pages(0, 50), 0);
}

#[test]
fn pages_for_single_item_and_large_counts() {
    assert_eq!(total_pages(1, 50), 1);
    assert_eq!(total_pages(125, 50), 3);
    assert_eq!(total_pages(u64::MAX, 1), u64::MAX);
    assert_eq!(total_pages(u64::MAX, 2), u64::MAX / 2 + 1);
}

#[test]
fn fresh_run_starts_at_newest_page() {
    assert_eq!(
        compute_plan(20, 0, 10),
        Plan::Window(PageWindow { start_page: 20, end_page: 11 })
    );
}

#[test]
fn resumed_run_continues_below_checkpoint() {
    assert_eq!(
        compute_plan(20, 11, 10),
        Plan::Window(PageWindow { start_page: 10, end_page: 1 })
    );
}

#[test]
fn checkpoint_one_means_all_pages_processed() {
    assert_eq!(compute_plan(20, 1, 10), Plan::AllPagesProcessed);
    assert_eq!(compute_plan(0, 1, 10), Plan::AllPagesProcessed);
}

#[test]
fn window_is_clamped_at_page_one() {
    assert_eq!(
        compute_plan(3, 0, 10),
        Plan::Window(PageWindow { start_page: 3, end_page: 1 })
    );
    assert_eq!(
        compute_plan(20, 2, 10),
        Plan::Window(PageWindow { start_page: 1, end_page: 1 })
    );
}

#[test]
fn nothing_to_plan() {
    assert_eq!(compute_plan(0, 0, 10), Plan::NoPages);
    assert_eq!(compute_plan(20, 0, 0), Plan::NoPages);
}

#[test]
fn window_start_never_passes_listing_end() {
    assert_eq!(
        compute_plan(5, 40, 10),
        Plan::Window(PageWindow { start_page: 5, end_page: 1 })
    );
}

#[test]
fn window_pages_descend() {
    let w = PageWindow { start_page: 20, end_page: 11 };
    assert_eq!(w.len(), 10);
    assert_eq!(w.page_list(), vec![20, 19, 18, 17, 16, 15, 14, 13, 12, 11]);
    let one = PageWindow { start_page: 1, end_page: 1 };
    assert_eq!(one.page_list(), vec![1]);
}

#[test]
fn checkpoint_text_is_read() {
    assert_eq!(parse_checkpoint("12\n"), 12);
    assert_eq!(parse_checkpoint("  7 "), 7);
    assert_eq!(parse_checkpoint("+3"), 3);
}

#[test]
fn unreadable_checkpoint_counts_as_none() {
    assert_eq!(parse_checkpoint(""), 0);
    assert_eq!(parse_checkpoint("abc"), 0);
    assert_eq!(parse_checkpoint("-4"), 0);
    assert_eq!(parse_checkpoint("18446744073709551616"), 0);
    assert_eq!(parse_checkpoint("18446744073709551615"), u64::MAX);
}
