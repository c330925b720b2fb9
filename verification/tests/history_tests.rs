use photo_editor::history::{History, MAX_HISTORY};

#[test]
fn undo_then_redo_round_trips() {
    let mut h: History<u32> = History::new();
    assert!(!h.can_undo());
    assert!(!h.can_redo());
    // Edits: 0 -> 1 -> 2.
    h.record(0);
    h.record(1);
    assert!(h.can_undo());
    assert_eq!(h.step_back(2), Some(1));
    assert_eq!(h.step_back(1), Some(0));
    assert_eq!(h.step_back(0), None);
    assert!(h.can_redo());
    assert_eq!(h.step_forward(0), Some(1));
    assert_eq!(h.step_forward(1), Some(2));
    assert_eq!(h.step_forward(2), None);
}

#[test]
fn a_new_edit_drops_the_redo_steps() {
    let mut h: History<u32> = History::new();
    h.record(10);
    assert_eq!(h.step_back(11), Some(10));
    assert!(h.can_redo());
    h.record(10);
    assert!(!h.can_redo());
    assert_eq!(h.step_back(12), Some(10));
}

#[test]
fn history_is_capped() {
    let mut h: History<usize> = History::new();
    for i in 0..(MAX_HISTORY + 5) {
        h.record(i);
    }
    let mut count = 0;
    let mut current = MAX_HISTORY + 5;
    while let Some(prev) = h.step_back(current) {
        current = prev;
        count += 1;
    }
    assert_eq!(count, MAX_HISTORY);
    // The oldest steps fell off.
    assert_eq!(current, 5);
}

#[test]
fn flush_then_undo_returns_to_the_pending_state() {
    let mut h: History<&str> = History::new();
    h.record("a");
    h.flush("b");
    assert_eq!(h.step_back("c"), Some("b"));
    assert_eq!(h.step_back("b"), Some("a"));
}

#[test]
fn clear_forgets_everything() {
    let mut h: History<u8> = History::new();
    h.record(1);
    h.step_back(2);
    h.record(3);
    h.clear();
    assert!(!h.can_undo());
    assert!(!h.can_redo());
}

#[test]
fn undo_with_a_pending_edit_returns_to_the_committed_state() {
    let mut h: History<&str> = History::new();
    h.record("a");
    assert_eq!(h.undo_pending(true, "b", "c"), Some("b"));
    assert!(h.can_redo());
    assert_eq!(h.step_forward("b"), Some("c"));
}

#[test]
fn undo_without_a_pending_edit_is_a_plain_undo() {
    let mut h: History<u8> = History::new();
    assert_eq!(h.undo_pending(false, 1, 1), None);
    assert!(!h.can_undo() && !h.can_redo());
    h.record(1);
    assert_eq!(h.undo_pending(false, 2, 2), Some(1));
}
