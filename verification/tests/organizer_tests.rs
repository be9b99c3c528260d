use file_organizer::fileops::{
    backup_folder_name, is_backup_name, plan_restore, rename_collides, resolve_destination,
    restore_decision, select_backups, transfer_decision, BackupInfo, OverwriteStrategy,
    RestoreStep, TransferStep,
};
use file_organizer::organizer::{
    get_date_folder, organize_decision, organize_result, plan_organize, preview_organization,
    OrganizeConflict,
};
use file_organizer::paths::{numbered_name, parenthesized_name, path_is_within, path_join};
use file_organizer::records::{build_file_info, name_is_hidden, FileInfo};
use file_organizer::scan::scan_listing;
use file_organizer::stats::{analyze_folder, find_empty_folders, find_large_files};
use file_organizer::text::{parse_u64, str_cmp};
use file_organizer::tree::{get_folder_tree, RawFolder};
use file_organizer::watcher::{event_label, FileWatcher, WatchEventKind};

fn file(path: &str, name: &str, ext: Option<&str>, size: u64) -> FileInfo {
    build_file_info(
        path.to_string(),
        name.to_string(),
        ext,
        size,
        "2024-01-01 10:00:00".to_string(),
        "2024-02-03 10:00:00".to_string(),
        false,
        false,
    )
}

#[test]
fn test_preview_organization_groups_and_ranks() {
    let files = vec![
        file("/s/a.jpg", "a.jpg", Some("jpg"), 10),
        file("/s/b.png", "b.png", Some("png"), 10),
        file("/s/c.pdf", "c.pdf", Some("pdf"), 10),
        file("/s/.hid.jpg", ".hid.jpg", Some("jpg"), 10),
    ];
    let previews = preview_organization("/s", &files);
    assert_eq!(previews.len(), 2);
    assert_eq!(previews[0].category, "images");
    assert_eq!(previews[0].file_count, 2);
    assert_eq!(previews[0].destination_folder, "/s/Images");
    assert_eq!(previews[0].category_label, "이미지");
    assert_eq!(previews[1].category, "documents");
    assert_eq!(previews[1].file_count, 1);
}

#[test]
fn test_plan_organize_destinations() {
    let files = vec![
        file("/s/a.jpg", "a.jpg", Some("jpg"), 10),
        file("/s/b.xyz", "b.xyz", Some("xyz"), 10),
    ];
    let plain = plan_organize("/s", &files, false, "YYYY-MM");
    assert_eq!(plain.len(), 2);
    assert_eq!(plain[0].dest_file, "/s/Images/a.jpg");
    assert_eq!(plain[1].dest_file, "/s/Others/b.xyz");

    let dated = plan_organize("/s", &files, true, "YYYY-MM");
    assert_eq!(dated[0].dest_folder, "/s/Images/2024-02");
}

#[test]
fn test_get_date_folder_formats() {
    let m = "2024-02-03 10:00:00";
    assert_eq!(get_date_folder(m, "YYYY-MM"), "2024-02");
    assert_eq!(get_date_folder(m, "YYYY/MM"), "2024/02");
    assert_eq!(get_date_folder(m, "YYYY"), "2024");
    assert_eq!(get_date_folder(m, "anything"), "2024-02-03");
    assert_eq!(get_date_folder("short", "YYYY-MM"), "Unknown");
}

#[test]
fn test_organize_decision_table() {
    assert_eq!(organize_decision("skip", false), OrganizeConflict::Proceed);
    assert_eq!(organize_decision("skip", true), OrganizeConflict::SkipFile);
    assert_eq!(organize_decision("rename", true), OrganizeConflict::RenameDestination);
    assert_eq!(organize_decision("overwrite", true), OrganizeConflict::Overwrite);
    assert_eq!(organize_decision("whatever", true), OrganizeConflict::SkipFile);
}

#[test]
fn test_organize_result_gate() {
    let good = organize_result(2, 0, vec![], 5);
    assert!(good.success);
    assert_eq!(good.history_id, 5);
    let bad = organize_result(1, 1, vec!["b.xyz: no space".to_string()], 6);
    assert!(!bad.success);
}

#[test]
fn test_transfer_and_rename_decisions() {
    assert_eq!(transfer_decision(OverwriteStrategy::Skip, false), TransferStep::Proceed);
    assert_eq!(transfer_decision(OverwriteStrategy::Overwrite, true), TransferStep::RemoveExistingFirst);
    assert_eq!(transfer_decision(OverwriteStrategy::Rename, true), TransferStep::UseUniqueName);
    assert_eq!(transfer_decision(OverwriteStrategy::Skip, true), TransferStep::SkipExisting);
    assert!(rename_collides(true, false));
    assert!(!rename_collides(true, true));
    assert!(!rename_collides(false, false));
}

#[test]
fn test_path_helpers() {
    assert_eq!(path_join("/a/b", "c.txt"), "/a/b/c.txt");
    assert_eq!(numbered_name("report", "pdf", 2), "report_2.pdf");
    assert_eq!(numbered_name("notes", "", 7), "notes_7");
    assert_eq!(parenthesized_name("photo", "jpg", 1), "photo (1).jpg");
    assert_eq!(parenthesized_name("photo", "", 3), "photo (3)");
    assert!(path_is_within("/home/u/Documents/Desktop_Backups/x", "/home/u/Documents/Desktop_Backups"));
    assert!(!path_is_within("/tmp/elsewhere", "/home/u/Documents/Desktop_Backups"));
    assert_eq!(resolve_destination("a.txt", "/dir", true), "/dir/a.txt");
    assert_eq!(resolve_destination("a.txt", "/dir/b.txt", false), "/dir/b.txt");
}

#[test]
fn test_backup_selection() {
    let mk = |name: &str| BackupInfo {
        name: name.to_string(),
        path: format!("/b/{}", name),
        size: 1,
        file_count: 1,
        created_at: "2024-01-01 10:00".to_string(),
    };
    assert_eq!(backup_folder_name("20240101_120000"), "Desktop_backup_20240101_120000");
    assert!(is_backup_name("Desktop_backup_20240101_120000"));
    assert!(!is_backup_name("random_folder"));

    let entries = vec![
        mk("Desktop_backup_20240101_120000"),
        mk("unrelated"),
        mk("Desktop_backup_20240301_120000"),
        mk("Desktop_backup_20240201_120000"),
    ];
    let picked = select_backups(&entries);
    assert_eq!(picked.len(), 3);
    assert_eq!(picked[0].name, "Desktop_backup_20240301_120000");
    assert_eq!(picked[1].name, "Desktop_backup_20240201_120000");
    assert_eq!(picked[2].name, "Desktop_backup_20240101_120000");
}

#[test]
fn test_scan_listing_order_and_hidden() {
    let files = vec![
        file("/s/Zeta.txt", "Zeta.txt", Some("txt"), 1),
        file("/s/alpha.txt", "alpha.txt", Some("txt"), 1),
        build_file_info(
            "/s/.hidden".to_string(),
            ".hidden".to_string(),
            None,
            1,
            String::new(),
            String::new(),
            false,
            true,
        ),
    ];
    let shown = scan_listing(&files, false);
    assert_eq!(shown.len(), 2);
    assert_eq!(shown[0].name, "alpha.txt");
    assert_eq!(shown[1].name, "Zeta.txt");
    let all = scan_listing(&files, true);
    assert_eq!(all.len(), 3);
    assert!(name_is_hidden(".hidden"));
    assert!(!name_is_hidden("plain"));
}

#[test]
fn test_analyze_folder_totals() {
    let mut folder = file("/s/sub", "sub", None, 0);
    folder.is_directory = true;
    let files = vec![
        file("/s/a.jpg", "a.jpg", Some("jpg"), 100),
        file("/s/b.jpg", "b.jpg", Some("jpg"), 300),
        file("/s/c.pdf", "c.pdf", Some("pdf"), 200),
        folder,
    ];
    let stats = analyze_folder("/s".to_string(), &files);
    assert_eq!(stats.file_count, 3);
    assert_eq!(stats.folder_count, 1);
    assert_eq!(stats.total_size, 600);
    assert_eq!(stats.largest_file.as_ref().unwrap().name, "b.jpg");
    assert_eq!(stats.category_breakdown.len(), 2);
    let images = stats.category_breakdown.iter().find(|(k, _)| k == "images").unwrap();
    assert_eq!(images.1.count, 2);
    assert_eq!(images.1.total_size, 400);
}

#[test]
fn test_find_empty_and_large() {
    let probes = vec![
        ("/s/full".to_string(), 3u64),
        ("/s/empty".to_string(), 0u64),
        ("/s/also_empty".to_string(), 0u64),
    ];
    assert_eq!(find_empty_folders(&probes), vec!["/s/empty".to_string(), "/s/also_empty".to_string()]);

    let files = vec![
        file("/s/small.bin", "small.bin", Some("bin"), 1024),
        file("/s/big.bin", "big.bin", Some("bin"), 3 * 1024 * 1024),
        file("/s/huge.bin", "huge.bin", Some("bin"), 9 * 1024 * 1024),
    ];
    let large = find_large_files(&files, 2);
    assert_eq!(large.len(), 2);
    assert_eq!(large[0].name, "huge.bin");
    assert_eq!(large[1].name, "big.bin");
}

#[test]
fn test_folder_tree_aggregates() {
    let leaf = RawFolder {
        path: "/s/sub".to_string(),
        name: "sub".to_string(),
        file_sizes: vec![10, 20],
        subfolders: vec![],
    };
    let root = RawFolder {
        path: "/s".to_string(),
        name: "s".to_string(),
        file_sizes: vec![5],
        subfolders: vec![leaf],
    };
    let tree = get_folder_tree(&root, 2);
    assert_eq!(tree.size, 35);
    assert_eq!(tree.file_count, 3);
    assert_eq!(tree.children.len(), 1);
    assert_eq!(tree.children[0].size, 30);
    assert_eq!(tree.children[0].file_count, 2);

    // Depth zero shows the root alone and counts only its own files.
    let shallow = get_folder_tree(&root, 0);
    assert_eq!(shallow.children.len(), 0);
    assert_eq!(shallow.size, 5);
    assert_eq!(shallow.file_count, 1);
}

#[test]
fn test_watcher_state_machine() {
    let mut w = FileWatcher::new();
    assert!(!w.is_watching());
    assert!(w.get_watching_path().is_none());
    let stopped = w.start_watching("/s".to_string());
    assert!(!stopped);
    assert!(w.is_watching());
    assert_eq!(w.get_watching_path().map(|p| p.as_str()), Some("/s"));
    // Starting over replaces the watch; only one is ever active.
    let stopped = w.start_watching("/t".to_string());
    assert!(stopped);
    assert_eq!(w.get_watching_path().map(|p| p.as_str()), Some("/t"));
    w.stop_watching();
    assert!(!w.is_watching());

    assert_eq!(event_label(WatchEventKind::Create), Some("create"));
    assert_eq!(event_label(WatchEventKind::Modify), Some("modify"));
    assert_eq!(event_label(WatchEventKind::Remove), Some("remove"));
    assert_eq!(event_label(WatchEventKind::Access), None);
    assert_eq!(event_label(WatchEventKind::Other), Some("other"));
}

#[test]
fn test_parse_and_compare_text() {
    assert_eq!(parse_u64("0"), Some(0));
    assert_eq!(parse_u64("18446744073709551615"), Some(u64::MAX));
    assert_eq!(parse_u64("18446744073709551616"), None);
    assert_eq!(parse_u64(""), None);
    assert_eq!(parse_u64("12a"), None);
    assert!(str_cmp("apple", "banana") < 0);
    assert!(str_cmp("banana", "apple") > 0);
    assert_eq!(str_cmp("same", "same"), 0);
}

#[test]
fn test_path_is_within_component_boundary() {
    // The containment guard accepts the base itself and true descendants
    // and refuses a sibling whose name merely continues the base's.
    let base = "/home/u/Documents/Desktop_Backups";
    assert!(path_is_within(base, base));
    assert!(path_is_within("/home/u/Documents/Desktop_Backups/run1", base));
    assert!(!path_is_within("/home/u/Documents/Desktop_Backups_old", base));
    assert!(!path_is_within("/home/u/Documents/Desktop_Backupsx/run1", base));
}

#[test]
fn test_restore_decision() {
    assert_eq!(restore_decision(false), RestoreStep::CopyInPlace);
    assert_eq!(restore_decision(true), RestoreStep::DisplaceExistingThenCopy);

    let entries = vec![("docs".to_string(), true), ("docs/a.txt".to_string(), false)];
    let plan = plan_restore(&entries, "/home/u/Desktop");
    assert_eq!(plan.len(), 2);
    assert!(plan[0].is_directory);
    assert_eq!(plan[1].dest, "/home/u/Desktop/docs/a.txt");
    assert_eq!(plan[1].relative, "docs/a.txt");
}
