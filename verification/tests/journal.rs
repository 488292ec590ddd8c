use ai_file_organizer::organizer::undo::{
    journal_path, undo_outcome, undo_step, UndoAction, UndoEntry, UndoHistory,
};

#[test]
fn journal_starts_empty() {
    assert!(UndoHistory::new().is_empty());
    assert!(UndoHistory::default().is_empty());
    assert!(UndoHistory::from_stored(None).is_empty());
}

#[test]
fn stored_journal_is_kept() {
    let mut h = UndoHistory::new();
    h.append(UndoEntry::new("a", "b"));
    let back = UndoHistory::from_stored(Some(h));
    assert_eq!(back.entries.len(), 1);
    assert_eq!(back.entries[0].original_path, "a");
    assert_eq!(back.entries[0].current_path, "b");
}

#[test]
fn entries_are_undone_most_recent_first() {
    let mut h = UndoHistory::new();
    h.append(UndoEntry::new("r/a", "r/X/a"));
    h.append(UndoEntry::new("r/b", "r/X/b"));
    h.append(UndoEntry::new("r/c", "r/Y/c"));
    assert_eq!(h.entries.len(), 3);
    assert_eq!(h.entries[0].original_path, "r/a");
    assert_eq!(h.entries[2].current_path, "r/Y/c");
    let order: Vec<String> = std::iter::from_fn(|| h.take_latest()).map(|e| e.original_path).collect();
    assert_eq!(order, vec!["r/c".to_string(), "r/b".to_string(), "r/a".to_string()]);
    assert!(h.is_empty());
}

#[test]
fn taking_leaves_older_entries() {
    let mut h = UndoHistory::new();
    h.append(UndoEntry::new("r/a", "r/X/a"));
    h.append(UndoEntry::new("r/b", "r/X/b"));
    let e = h.take_latest().unwrap();
    assert_eq!(e.current_path, "r/X/b");
    assert_eq!(h.entries.len(), 1);
    assert_eq!(h.entries[0].original_path, "r/a");
}

#[test]
fn missing_file_is_skipped() {
    let e = UndoEntry::new("r/a", "r/X/a");
    assert!(matches!(undo_step(&e, false), UndoAction::Skip));
}

#[test]
fn restore_names_parent_directory() {
    let e = UndoEntry::new("r/sub/dir/a.txt", "r/X/a.txt");
    match undo_step(&e, true) {
        UndoAction::Restore { from, to, parent } => {
            assert_eq!(from, "r/X/a.txt");
            assert_eq!(to, "r/sub/dir/a.txt");
            assert_eq!(parent, Some("r/sub/dir".to_string()));
        }
        UndoAction::Skip => panic!("restore expected"),
    }
    match undo_step(&UndoEntry::new("a.txt", "X/a.txt"), true) {
        UndoAction::Restore { parent, .. } => assert_eq!(parent, Some("".to_string())),
        UndoAction::Skip => panic!("restore expected"),
    }
}

#[test]
fn clear_empties_the_journal() {
    let mut h = UndoHistory::new();
    h.append(UndoEntry::new("a", "b"));
    h.clear();
    assert!(h.is_empty());
    assert!(h.take_latest().is_none());
}

#[test]
fn journal_lives_below_the_root() {
    assert_eq!(journal_path("/home/u/dl"), "/home/u/dl/.undo_history.json");
}

#[test]
fn failed_restore_puts_the_entry_back() {
    let mut h = UndoHistory::new();
    h.append(UndoEntry::new("r/a", "r/X/a"));
    h.append(UndoEntry::new("r/b", "r/X/b"));
    let latest = h.take_latest().unwrap();
    assert!(!undo_outcome(&mut h, latest, false));
    assert_eq!(h.entries.len(), 2);
    assert_eq!(h.entries[0].original_path, "r/a");
    assert_eq!(h.entries[1].original_path, "r/b");
    assert_eq!(h.entries[1].current_path, "r/X/b");
}

#[test]
fn successful_restore_goes_on() {
    let mut h = UndoHistory::new();
    h.append(UndoEntry::new("r/a", "r/X/a"));
    h.append(UndoEntry::new("r/b", "r/X/b"));
    let latest = h.take_latest().unwrap();
    assert!(undo_outcome(&mut h, latest, true));
    assert_eq!(h.entries.len(), 1);
    assert_eq!(h.entries[0].original_path, "r/a");
}
