use file_organizer::compare::{
    compare_folders, merge_decision, merge_result, should_delete_source, CompareFile, FileStatus,
    MergeAction, MergeOptions, MergeStrategy,
};
use file_organizer::dedup::{find_duplicates, DuplicateGroup, HashedFile};
use file_organizer::fingerprint::{back_window_needed, fingerprint_from_windows, front_len, hex16};
use file_organizer::fmt::format_size;
use file_organizer::records::{build_file_info, FileInfo};

fn file(path: &str, name: &str, ext: Option<&str>, size: u64) -> FileInfo {
    build_file_info(
        path.to_string(),
        name.to_string(),
        ext,
        size,
        "2024-01-01 10:00:00".to_string(),
        "2024-02-03 10:00:00".to_string(),
        false,
        false,
    )
}

fn fingerprint_of(content: &[u8]) -> String {
    let len = content.len() as u64;
    let front_n = front_len(len) as usize;
    let front: Vec<u8> = content[..front_n].to_vec();
    if back_window_needed(len) {
        let back: Vec<u8> = content[content.len() - 65536..].to_vec();
        fingerprint_from_windows(&front, Some(&back), len)
    } else {
        fingerprint_from_windows(&front, None, len)
    }
}

#[test]
fn test_fingerprint_window_boundaries() {
    // Up to 128 KiB only the front window is read; above it the back
    // window joins in.
    assert_eq!(front_len(65536), 65536);
    assert!(!back_window_needed(65536));
    assert_eq!(front_len(65537), 65536);
    assert!(!back_window_needed(65537));
    assert!(!back_window_needed(131072));
    assert!(back_window_needed(131073));

    let small = vec![7u8; 65536];
    let f1 = fingerprint_of(&small);
    assert_eq!(f1.len(), 16);
    let larger = vec![7u8; 65537];
    let f2 = fingerprint_of(&larger);
    assert_eq!(f2.len(), 16);
    assert_ne!(f1, f2);

    let at_threshold = vec![9u8; 131072];
    let over_threshold = vec![9u8; 131073];
    assert_ne!(fingerprint_of(&at_threshold), fingerprint_of(&over_threshold));
}

#[test]
fn test_fingerprint_blind_to_middle() {
    // Two contents of equal length with the same first and last 64 KiB
    // fingerprint identically, whatever their middle holds.
    let mut a = vec![1u8; 200000];
    let mut b = vec![1u8; 200000];
    a[100000] = 42;
    b[100000] = 43;
    assert_eq!(fingerprint_of(&a), fingerprint_of(&b));

    // A difference inside a window is seen.
    let mut c = vec![1u8; 200000];
    c[10] = 99;
    assert_ne!(fingerprint_of(&a), fingerprint_of(&c));
}

#[test]
fn test_hex_rendering() {
    assert_eq!(hex16(0), "0000000000000000");
    assert_eq!(hex16(255), "00000000000000ff");
    assert_eq!(hex16(0xdead_beef_0123_4567), "deadbeef01234567");
}

#[test]
fn test_find_duplicates_identical_content() {
    // N files of identical content form exactly one group of size N.
    let h = fingerprint_of(&vec![5u8; 1000]);
    let files = vec![
        HashedFile { info: file("/d/a.bin", "a.bin", Some("bin"), 1000), hash: h.clone() },
        HashedFile { info: file("/d/b.bin", "b.bin", Some("bin"), 1000), hash: h.clone() },
        HashedFile { info: file("/d/c.bin", "c.bin", Some("bin"), 1000), hash: h.clone() },
    ];
    let groups = find_duplicates(&files);
    assert_eq!(groups.len(), 1);
    assert_eq!(groups[0].files.len(), 3);
    assert_eq!(groups[0].hash, h);
    assert_eq!(groups[0].size, 1000);
}

#[test]
fn test_find_duplicates_same_size_different_content() {
    let h1 = fingerprint_of(&vec![5u8; 1000]);
    let h2 = fingerprint_of(&vec![6u8; 1000]);
    let files = vec![
        HashedFile { info: file("/d/a.bin", "a.bin", Some("bin"), 1000), hash: h1 },
        HashedFile { info: file("/d/b.bin", "b.bin", Some("bin"), 1000), hash: h2 },
    ];
    let groups = find_duplicates(&files);
    assert_eq!(groups.len(), 0);
}

#[test]
fn test_find_duplicates_ranked_by_waste() {
    // Two duplicated pairs: the bigger waste leads; equal waste keeps
    // first-appearance order.
    let files = vec![
        HashedFile { info: file("/d/s1", "s1", None, 10), hash: "aa".to_string() },
        HashedFile { info: file("/d/b1", "b1", None, 500), hash: "bb".to_string() },
        HashedFile { info: file("/d/s2", "s2", None, 10), hash: "aa".to_string() },
        HashedFile { info: file("/d/b2", "b2", None, 500), hash: "bb".to_string() },
        HashedFile { info: file("/d/e1", "e1", None, 10), hash: "cc".to_string() },
        HashedFile { info: file("/d/e2", "e2", None, 10), hash: "cc".to_string() },
    ];
    let groups: Vec<DuplicateGroup> = find_duplicates(&files);
    assert_eq!(groups.len(), 3);
    assert_eq!(groups[0].hash, "bb");
    assert_eq!(groups[1].hash, "aa");
    assert_eq!(groups[2].hash, "cc");
}

fn cmp_file(rel: &str, size: u64, content: &[u8]) -> CompareFile {
    CompareFile {
        relative_path: rel.to_string(),
        info: file(&format!("/root/{}", rel), rel, None, size),
        hash: fingerprint_of(content),
    }
}

#[test]
fn test_compare_folders_statuses() {
    let left = vec![
        cmp_file("same.txt", 4, b"same"),
        cmp_file("diff.txt", 5, b"left!"),
        cmp_file("only_left.txt", 3, b"abc"),
    ];
    let right = vec![
        cmp_file("same.txt", 4, b"same"),
        cmp_file("diff.txt", 5, b"right"),
        cmp_file("only_right.txt", 3, b"xyz"),
    ];
    let summary = compare_folders("/a".to_string(), "/b".to_string(), &left, &right);
    assert_eq!(summary.total_files, 4);
    assert_eq!(summary.identical, 1);
    assert_eq!(summary.different, 1);
    assert_eq!(summary.only_in_source, 1);
    assert_eq!(summary.only_in_target, 1);
    // Sorted lexicographically by relative path.
    assert_eq!(summary.results[0].relative_path, "diff.txt");
    assert_eq!(summary.results[1].relative_path, "only_left.txt");
    assert_eq!(summary.results[2].relative_path, "only_right.txt");
    assert_eq!(summary.results[3].relative_path, "same.txt");
    assert_eq!(summary.results[3].status, FileStatus::Identical);
    assert_eq!(summary.results[0].status, FileStatus::Different);
}

#[test]
fn test_compare_folders_round_trip() {
    // Swapping the two trees swaps the one-sided statuses and keeps the
    // identical-or-different split.
    let left = vec![
        cmp_file("same.txt", 4, b"same"),
        cmp_file("diff.txt", 5, b"left!"),
        cmp_file("only_left.txt", 3, b"abc"),
    ];
    let right = vec![
        cmp_file("same.txt", 4, b"same"),
        cmp_file("diff.txt", 5, b"right"),
        cmp_file("only_right.txt", 3, b"xyz"),
    ];
    let ab = compare_folders("/a".to_string(), "/b".to_string(), &left, &right);
    let ba = compare_folders("/b".to_string(), "/a".to_string(), &right, &left);
    assert_eq!(ab.only_in_source, ba.only_in_target);
    assert_eq!(ab.only_in_target, ba.only_in_source);
    assert_eq!(ab.identical, ba.identical);
    assert_eq!(ab.different, ba.different);
    for (x, y) in ab.results.iter().zip(ba.results.iter()) {
        assert_eq!(x.relative_path, y.relative_path);
        let swapped = match y.status {
            FileStatus::OnlyInSource => FileStatus::OnlyInTarget,
            FileStatus::OnlyInTarget => FileStatus::OnlyInSource,
            other => other,
        };
        assert_eq!(x.status, swapped);
        assert_eq!(x.size_diff, -y.size_diff);
    }
}

#[test]
fn test_merge_decisions() {
    let opts = MergeOptions {
        strategy: MergeStrategy::OverwriteNewer,
        delete_source_after: false,
        include_only_in_source: true,
        include_different: true,
    };
    // A fresh destination is simply copied.
    assert_eq!(merge_decision(FileStatus::OnlyInSource, &opts, false, None, None), MergeAction::CopyNew);
    // A newer source overwrites, an older one does not.
    assert_eq!(
        merge_decision(FileStatus::Different, &opts, true, Some(200), Some(100)),
        MergeAction::Overwrite
    );
    assert_eq!(
        merge_decision(FileStatus::Different, &opts, true, Some(100), Some(200)),
        MergeAction::Skip
    );
    // Identical entries are never copied.
    assert_eq!(merge_decision(FileStatus::Identical, &opts, true, None, None), MergeAction::Skip);
    // The rename strategy copies under a fresh name.
    let ren = MergeOptions { strategy: MergeStrategy::Rename, ..opts };
    assert_eq!(
        merge_decision(FileStatus::Different, &ren, true, None, None),
        MergeAction::CopyRenamed
    );
}

#[test]
fn test_merge_result_gate() {
    let ok = merge_result(3, 1, 2, 4096, vec![]);
    assert!(ok.success);
    let bad = merge_result(3, 1, 2, 4096, vec!["a.txt: copy failed".to_string()]);
    assert!(!bad.success);

    let opts = MergeOptions {
        strategy: MergeStrategy::OverwriteAll,
        delete_source_after: true,
        include_only_in_source: true,
        include_different: false,
    };
    // The source tree is only removed when everything succeeded.
    assert!(should_delete_source(&opts, &vec![]));
    assert!(!should_delete_source(&opts, &vec!["x".to_string()]));
}

#[test]
fn test_format_size_values() {
    assert_eq!(format_size(0), "0B");
    assert_eq!(format_size(512), "512B");
    assert_eq!(format_size(1024), "1.0KB");
    assert_eq!(format_size(1536), "1.5KB");
    assert_eq!(format_size(1024 * 1024), "1.0MB");
    assert_eq!(format_size(5 * 1024 * 1024 + 1024 * 512), "5.5MB");
    assert_eq!(format_size(2 * 1024 * 1024 * 1024), "2.0GB");
}

#[test]
fn test_find_duplicates_empty_input() {
    let groups = find_duplicates(&vec![]);
    assert_eq!(groups.len(), 0);
}

#[test]
fn test_compare_folders_empty_trees() {
    let summary = compare_folders("/a".to_string(), "/b".to_string(), &vec![], &vec![]);
    assert_eq!(summary.total_files, 0);
    assert_eq!(summary.source_total_size, 0);
    assert_eq!(summary.target_total_size, 0);
}

#[test]
fn test_find_duplicates_needs_equal_sizes() {
    // An equal fingerprint alone is not enough: members must share their
    // byte size, so a cross-size digest collision cannot mix sizes in one
    // group.
    let files = vec![
        HashedFile { info: file("/d/a", "a", None, 100), hash: "zz".to_string() },
        HashedFile { info: file("/d/b", "b", None, 200), hash: "zz".to_string() },
        HashedFile { info: file("/d/c", "c", None, 100), hash: "zz".to_string() },
    ];
    let groups = find_duplicates(&files);
    assert_eq!(groups.len(), 1);
    assert_eq!(groups[0].size, 100);
    assert_eq!(groups[0].files.len(), 2);
    assert!(groups[0].files.iter().all(|f| f.size == 100));
}

#[test]
fn test_find_duplicates_skips_empty_files() {
    let files = vec![
        HashedFile { info: file("/d/a", "a", None, 0), hash: "ee".to_string() },
        HashedFile { info: file("/d/b", "b", None, 0), hash: "ee".to_string() },
    ];
    let groups = find_duplicates(&files);
    assert_eq!(groups.len(), 0);
}
