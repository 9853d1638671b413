use scope_live::capture_history::{
    CaptureHistory, CaptureHistoryError, CaptureId, DEFAULT_CAPTURE_HISTORY_BYTES,
};
use scope_live::trigger::{capture_byte_size, TriggerCapture, TriggerConfig};

fn capture(samples: usize) -> TriggerCapture {
    TriggerCapture {
        channel_ids: vec![0],
        sample_indices: (0..samples as u64).collect(),
        timestamps: (0..samples as u64).collect(),
        channels: vec![vec![0.0_f32.to_bits(); samples]],
        trigger_position: samples / 2,
        auto_timeout: false,
    }
}

#[test]
fn evicts_oldest_unpinned_and_keeps_selection_valid() {
    let bytes = capture_byte_size(&capture(4));
    let mut history = CaptureHistory::new(2, bytes * 3).unwrap();
    let first = history
        .insert_live(capture(4), TriggerConfig::default(), 1, true)
        .unwrap()
        .id;
    history.set_pinned(first, true);
    history
        .insert_live(capture(4), TriggerConfig::default(), 2, true)
        .unwrap();
    let third = history
        .insert_live(capture(4), TriggerConfig::default(), 3, true)
        .unwrap()
        .id;
    assert_eq!(history.entries().len(), 2);
    assert!(history.entries().iter().any(|entry| entry.id == first));
    assert_eq!(history.selected_id(), Some(third));
}

#[test]
fn navigates_edits_and_removes_entries_without_stale_selection() {
    let mut history = CaptureHistory::new(4, DEFAULT_CAPTURE_HISTORY_BYTES).unwrap();
    let first = history
        .insert_live(capture(4), TriggerConfig::default(), 1, true)
        .unwrap()
        .id;
    let second = history
        .insert_live(capture(4), TriggerConfig::default(), 2, true)
        .unwrap()
        .id;
    let third = history
        .insert_live(capture(4), TriggerConfig::default(), 3, true)
        .unwrap()
        .id;

    assert_eq!(history.select_previous(), Some(second));
    assert_eq!(history.select_previous(), Some(first));
    assert_eq!(history.select_previous(), None);
    assert_eq!(history.select_next(), Some(second));
    assert!(history.set_metadata(
        second,
        "DC-link trip".to_owned(),
        "Inspect desaturation edge".to_owned(),
        true,
    ));
    assert_eq!(history.selected().unwrap().label, "DC-link trip");
    assert_eq!(history.selected().unwrap().note, "Inspect desaturation edge");
    assert!(history.selected().unwrap().pinned);
    assert!(history.remove(second));
    assert_eq!(history.selected_id(), Some(third));
    assert!(!history.remove(second));
}

#[test]
fn rejects_new_capture_when_all_retained_entries_are_pinned() {
    let bytes = capture_byte_size(&capture(4));
    let mut history = CaptureHistory::new(1, bytes * 2).unwrap();
    let first = history
        .insert_live(capture(4), TriggerConfig::default(), 1, true)
        .unwrap()
        .id;
    history.set_pinned(first, true);
    assert_eq!(
        history.insert_live(capture(4), TriggerConfig::default(), 2, true),
        Err(CaptureHistoryError::PinnedBudgetExceeded)
    );
    assert_eq!(history.entries().len(), 1);
}

#[test]
fn zero_limits_are_refused() {
    assert!(matches!(
        CaptureHistory::new(0, 10),
        Err(CaptureHistoryError::InvalidLimits)
    ));
    assert!(matches!(
        CaptureHistory::new(10, 0),
        Err(CaptureHistoryError::InvalidLimits)
    ));
}

#[test]
fn capture_size_counts_every_column() {
    // 4 indices and 4 timestamps of 8 bytes, one channel id of 2 bytes,
    // 4 values of 4 bytes.
    assert_eq!(capture_byte_size(&capture(4)), 4 * 8 + 4 * 8 + 2 + 4 * 4);
}

#[test]
fn a_capture_larger_than_the_budget_is_refused_without_change() {
    let bytes = capture_byte_size(&capture(4));
    let mut history = CaptureHistory::new(4, bytes - 1).unwrap();
    assert_eq!(
        history.insert_live(capture(4), TriggerConfig::default(), 1, true),
        Err(CaptureHistoryError::PinnedBudgetExceeded)
    );
    assert!(history.entries().is_empty());
    assert_eq!(history.selected_id(), None);
}

#[test]
fn new_live_entries_get_numbered_labels_and_trigger_rows() {
    let mut history = CaptureHistory::default();
    let mut c = capture(5);
    c.sample_indices = vec![100, 101, 102, 103, 104];
    c.timestamps = vec![1_000, 1_010, 1_020, 1_030, 1_040];
    c.trigger_position = 9;
    let id = history
        .insert_live(c, TriggerConfig::default(), 42, false)
        .unwrap()
        .id;
    assert_eq!(id, CaptureId(1));
    let entry = &history.entries()[0];
    assert_eq!(entry.label, "Capture 1");
    assert_eq!(entry.note, "");
    assert_eq!(entry.trigger_sample_index, 104);
    assert_eq!(entry.trigger_timestamp, 1_040);
    assert_eq!(entry.created_unix_ms, 42);
    assert!(!entry.pinned);
    assert_eq!(history.selected_id(), Some(id));
}

#[test]
fn clear_keeps_only_pinned_entries_unless_they_go_too() {
    let mut history = CaptureHistory::new(8, DEFAULT_CAPTURE_HISTORY_BYTES).unwrap();
    let first = history
        .insert_live(capture(2), TriggerConfig::default(), 1, true)
        .unwrap()
        .id;
    let second = history
        .insert_live(capture(2), TriggerConfig::default(), 2, true)
        .unwrap()
        .id;
    history.insert_live(capture(2), TriggerConfig::default(), 3, true).unwrap();
    history.set_pinned(first, true);
    history.set_pinned(second, true);
    history.clear(false);
    assert_eq!(history.entries().len(), 2);
    assert_eq!(history.selected_id(), Some(second));
    history.clear(true);
    assert!(history.entries().is_empty());
    assert_eq!(history.selected_id(), None);
    assert_eq!(history.select_next(), None);
}

#[test]
fn selecting_an_absent_id_changes_nothing() {
    let mut history = CaptureHistory::new(2, DEFAULT_CAPTURE_HISTORY_BYTES).unwrap();
    let first = history
        .insert_live(capture(2), TriggerConfig::default(), 1, true)
        .unwrap()
        .id;
    assert!(!history.select(CaptureId(99)));
    assert_eq!(history.selected_id(), Some(first));
    assert!(!history.set_pinned(CaptureId(99), true));
}
