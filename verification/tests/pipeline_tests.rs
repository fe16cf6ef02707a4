use std::path::PathBuf;
use superbook_pdf::markdown_pipeline::ProgressState;

#[test]
fn test_progress_state_new() {
    let state = ProgressState::new(10, PathBuf::from("test.pdf"), "test");
    assert_eq!(state.total_pages, 10);
    assert!(state.processed_pages.is_empty());
    assert_eq!(state.title, "test");
}

#[test]
fn test_progress_state_mark_processed() {
    let mut state = ProgressState::new(10, PathBuf::from("test.pdf"), "test");
    state.mark_processed(0);
    state.mark_processed(5);
    state.mark_processed(0); // Duplicate

    assert!(state.is_processed(0));
    assert!(state.is_processed(5));
    assert!(!state.is_processed(3));
    assert_eq!(state.processed_pages.len(), 2);
}

#[test]
fn test_progress_state_duplicate_mark() {
    let mut state = ProgressState::new(5, PathBuf::from("test.pdf"), "test");
    state.mark_processed(2);
    state.mark_processed(2);
    state.mark_processed(2);
    assert_eq!(state.processed_pages.len(), 1);
    assert!(state.is_processed(2));
}

#[test]
fn test_progress_state_sorted_order() {
    let mut state = ProgressState::new(10, PathBuf::from("test.pdf"), "test");
    state.mark_processed(5);
    state.mark_processed(1);
    state.mark_processed(8);
    state.mark_processed(3);
    assert_eq!(state.processed_pages, vec![1, 3, 5, 8]);
}

#[test]
fn test_progress_state_boundary_pages() {
    let mut state = ProgressState::new(100, PathBuf::from("test.pdf"), "test");
    state.mark_processed(0);
    state.mark_processed(99);
    assert!(state.is_processed(0));
    assert!(state.is_processed(99));
    assert!(!state.is_processed(50));
    assert!(!state.is_processed(100)); // out of range but no panic
}

#[test]
fn test_progress_state_mark_idempotent() {
    let mut state = ProgressState::new(5, PathBuf::from("test.pdf"), "test");
    state.mark_processed(2);
    state.mark_processed(2); // duplicate
    let completed: Vec<_> = (0..5).filter(|i| state.is_processed(*i)).collect();
    // Page 2 should appear exactly once in the completed set
    assert_eq!(
        completed.iter().filter(|&&p| p == 2).count(),
        1,
        "Duplicate mark should be idempotent"
    );
}

#[test]
fn test_progress_state_times() {
    let mut state =
        ProgressState::started(3, PathBuf::from("book.pdf"), "a book", "begin".to_string());
    assert_eq!(state.started_at, "begin");
    assert_eq!(state.last_updated, "begin");
    assert_eq!(state.input_pdf, PathBuf::from("book.pdf"));
    state.mark_processed_at(usize::MAX, "first".to_string());
    state.mark_processed_at(7, "second".to_string());
    state.mark_processed_at(7, "third".to_string());
    assert_eq!(state.processed_pages, vec![7, usize::MAX]);
    assert_eq!(state.started_at, "begin");
    assert_eq!(state.last_updated, "third");
    let copy = state.clone();
    assert_eq!(copy.processed_pages, vec![7, usize::MAX]);
    assert_eq!(copy.input_pdf, PathBuf::from("book.pdf"));
    let fresh = ProgressState::new(1, PathBuf::new(), "");
    assert_eq!(fresh.started_at, fresh.last_updated);
    assert!(!fresh.started_at.is_empty());
}

#[test]
fn test_progress_state_very_large_page_index() {
    let mut state = ProgressState::new(10, PathBuf::from("test.pdf"), "test");
    // Mark a page index far beyond total_pages — should not panic
    state.mark_processed(usize::MAX);
    assert!(state.is_processed(usize::MAX));
    assert_eq!(state.processed_pages.len(), 1);
}

#[test]
fn test_progress_state_empty_title() {
    let state = ProgressState::new(5, PathBuf::from(""), "");
    assert_eq!(state.title, "");
    assert_eq!(state.input_pdf, PathBuf::from(""));
}
