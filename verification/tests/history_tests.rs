use file_organizer::history::{
    cleanup_folders, parent_dir, plan_undo, HistoryError, HistoryLedger, UndoPayload, UndoStep,
};

fn add(ledger: &mut HistoryLedger, op: &str, desc: &str, details: &str) -> i64 {
    ledger.add_history(
        op.to_string(),
        desc.to_string(),
        details.to_string(),
        "2024-01-01 12:00:00".to_string(),
    )
}

#[test]
fn test_add_and_get_history() {
    let mut ledger = HistoryLedger::new();
    add(&mut ledger, "move", "Moved file.txt", "{\"from\": \"/a\", \"to\": \"/b\"}");
    add(&mut ledger, "delete", "Deleted file2.txt", "{\"path\": \"/a/file2.txt\"}");

    let history = ledger.get_history(10, 0);
    assert_eq!(history.len(), 2);
    assert_eq!(history[0].operation_type, "delete");
    assert_eq!(history[0].description, "Deleted file2.txt");
    assert_eq!(history[1].operation_type, "move");
    assert_eq!(history[1].description, "Moved file.txt");
}

#[test]
fn test_get_history_item() {
    let mut ledger = HistoryLedger::new();
    let id = add(&mut ledger, "rename", "Renamed file", "{\"old\": \"a.txt\", \"new\": \"b.txt\"}");

    let item = ledger.get_history_item(id).unwrap();
    assert_eq!(item.operation_type, "rename");
    assert_eq!(item.description, "Renamed file");
    assert_eq!(item.details.as_deref(), Some("{\"old\": \"a.txt\", \"new\": \"b.txt\"}"));
    assert!(!item.is_undone);
}

#[test]
fn test_mark_history_undone() {
    let mut ledger = HistoryLedger::new();
    let id = add(&mut ledger, "move", "Moved file", "{}");

    assert!(!ledger.get_history_item(id).unwrap().is_undone);
    ledger.mark_history_undone(id);
    assert!(ledger.get_history_item(id).unwrap().is_undone);
}

#[test]
fn test_clear_history() {
    let mut ledger = HistoryLedger::new();
    add(&mut ledger, "move", "Moved file1", "{}");
    add(&mut ledger, "move", "Moved file2", "{}");
    add(&mut ledger, "move", "Moved file3", "{}");

    assert_eq!(ledger.get_history(10, 0).len(), 3);
    ledger.clear_history();
    assert_eq!(ledger.get_history(10, 0).len(), 0);
}

#[test]
fn test_history_pagination() {
    let mut ledger = HistoryLedger::new();
    for i in 0..10 {
        add(&mut ledger, "move", &format!("Moved file{}", i), "{}");
    }

    let page1 = ledger.get_history(5, 0);
    assert_eq!(page1.len(), 5);
    let page2 = ledger.get_history(5, 5);
    assert_eq!(page2.len(), 5);
    assert_eq!(page1[0].description, "Moved file9");
}

#[test]
fn test_ids_grow_and_survive_clear() {
    let mut ledger = HistoryLedger::new();
    let a = add(&mut ledger, "move", "first", "{}");
    let b = add(&mut ledger, "move", "second", "{}");
    assert!(a < b);
    ledger.clear_history();
    let c = add(&mut ledger, "move", "third", "{}");
    assert!(b < c);
}

#[test]
fn test_get_history_item_not_found() {
    let ledger = HistoryLedger::new();
    assert!(matches!(ledger.get_history_item(7), Err(HistoryError::NotFound)));
}

#[test]
fn test_undo_idempotence_guard() {
    // Undoing a move yields exactly the move back; once the entry is
    // marked undone, a second undo is refused before any step is planned.
    let mut ledger = HistoryLedger::new();
    let id = add(&mut ledger, "move", "Moved a.txt", "{}");
    let payload = UndoPayload::MoveOp {
        original_path: "/src/a.txt".to_string(),
        new_path: "/dst/a.txt".to_string(),
    };

    let item = ledger.get_history_item(id).unwrap();
    let steps = plan_undo(item.is_undone, &payload).unwrap();
    assert_eq!(steps.len(), 1);
    match &steps[0] {
        UndoStep::MoveBack { from, to } => {
            assert_eq!(from, "/dst/a.txt");
            assert_eq!(to, "/src/a.txt");
        }
        _ => panic!("expected a move back"),
    }

    ledger.mark_history_undone(id);
    let again = ledger.get_history_item(id).unwrap();
    let denied = plan_undo(again.is_undone, &payload);
    assert!(matches!(denied, Err(HistoryError::AlreadyUndone)));
}

#[test]
fn test_undo_copy_and_rename_and_delete() {
    let copy = UndoPayload::CopyOp { copied_path: "/dst/c.txt".to_string() };
    let steps = plan_undo(false, &copy).unwrap();
    assert!(matches!(&steps[0], UndoStep::DeleteCopy { path } if path == "/dst/c.txt"));

    let rename = UndoPayload::RenameOp {
        original_path: "/d/a.txt".to_string(),
        new_path: "/d/b.txt".to_string(),
    };
    let steps = plan_undo(false, &rename).unwrap();
    assert!(matches!(&steps[0], UndoStep::MoveBack { from, to } if from == "/d/b.txt" && to == "/d/a.txt"));

    let permanent = UndoPayload::DeleteOp { to_trash: false };
    assert!(matches!(plan_undo(false, &permanent), Err(HistoryError::CannotUndo)));
    let trashed = UndoPayload::DeleteOp { to_trash: true };
    assert!(matches!(plan_undo(false, &trashed), Err(HistoryError::TrashUndoUnavailable)));
}

#[test]
fn test_undo_batch_skips_empty_pairs() {
    let batch = UndoPayload::Batch {
        moves: vec![
            ("/s/a.jpg".to_string(), "/s/Images/a.jpg".to_string()),
            ("".to_string(), "/s/Images/ghost.jpg".to_string()),
            ("/s/b.xyz".to_string(), "/s/Others/b.xyz".to_string()),
        ],
    };
    let steps = plan_undo(false, &batch).unwrap();
    assert_eq!(steps.len(), 2);
    assert!(matches!(&steps[0], UndoStep::MoveBack { from, to } if from == "/s/Images/a.jpg" && to == "/s/a.jpg"));
    assert!(matches!(&steps[1], UndoStep::MoveBack { from, to } if from == "/s/Others/b.xyz" && to == "/s/b.xyz"));
}

#[test]
fn test_parent_dir_and_cleanup_folders() {
    assert_eq!(parent_dir("/s/Images/a.jpg").as_deref(), Some("/s/Images"));
    assert_eq!(parent_dir("plain"), None);

    let moves = vec![
        ("/s/a.jpg".to_string(), "/s/Images/a.jpg".to_string()),
        ("/s/c.png".to_string(), "/s/Images/c.png".to_string()),
        ("/s/b.xyz".to_string(), "/s/Others/b.xyz".to_string()),
    ];
    let folders = cleanup_folders(&moves);
    assert_eq!(folders, vec!["/s/Images".to_string(), "/s/Others".to_string()]);
}

#[test]
fn test_history_negative_limit_returns_all() {
    let mut ledger = HistoryLedger::new();
    for i in 0..4 {
        add(&mut ledger, "move", &format!("entry {}", i), "{}");
    }
    assert_eq!(ledger.get_history(-1, 0).len(), 4);
    assert_eq!(ledger.get_history(10, 99).len(), 0);
}
