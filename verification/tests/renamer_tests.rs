use file_organizer::renamer::{
    apply_rule, preview_rename, rename_result, replace_all, RenameFile, RenameRule,
};

fn blank_rule(kind: &str) -> RenameRule {
    RenameRule {
        rule_type: kind.to_string(),
        find_text: None,
        replace_text: None,
        prefix: None,
        suffix: None,
        start_number: None,
        digit_count: None,
        date_format: None,
        date_source: None,
        case_type: None,
        regex_pattern: None,
        regex_replace: None,
    }
}

fn input(path: &str, name: &str, stem: &str, ext: &str, rules: usize) -> RenameFile {
    RenameFile {
        path: path.to_string(),
        name: name.to_string(),
        stem: stem.to_string(),
        extension: ext.to_string(),
        date_texts: vec![String::new(); rules],
    }
}

#[test]
fn test_replace_all_occurrences() {
    assert_eq!(replace_all("a-b-c", "-", "_"), "a_b_c");
    assert_eq!(replace_all("aaa", "aa", "b"), "ba");
    assert_eq!(replace_all("nothing", "x", "y"), "nothing");
}

#[test]
fn test_apply_rule_kinds() {
    let mut fr = blank_rule("findReplace");
    fr.find_text = Some("draft".to_string());
    fr.replace_text = Some("final".to_string());
    assert_eq!(apply_rule("report_draft", &fr, "", 0), "report_final");

    let mut pre = blank_rule("prefix");
    pre.prefix = Some("2024_".to_string());
    assert_eq!(apply_rule("notes", &pre, "", 0), "2024_notes");

    let mut suf = blank_rule("suffix");
    suf.suffix = Some("_old".to_string());
    assert_eq!(apply_rule("notes", &suf, "", 0), "notes_old");

    let seq = blank_rule("sequence");
    assert_eq!(apply_rule("img", &seq, "", 7), "img_007");
    let mut wide = blank_rule("sequence");
    wide.digit_count = Some(5);
    assert_eq!(apply_rule("img", &wide, "", 42), "img_00042");

    let date = blank_rule("date");
    assert_eq!(apply_rule("img", &date, "20240203", 0), "img_20240203");
    assert_eq!(apply_rule("img", &date, "", 0), "img");

    let mut up = blank_rule("case");
    up.case_type = Some("upper".to_string());
    assert_eq!(apply_rule("mixed Case", &up, "", 0), "MIXED CASE");
    let mut low = blank_rule("case");
    low.case_type = Some("lower".to_string());
    assert_eq!(apply_rule("Mixed Case", &low, "", 0), "mixed case");
    let mut title = blank_rule("case");
    title.case_type = Some("title".to_string());
    assert_eq!(apply_rule("the old report", &title, "", 0), "The Old Report");

    let mut re = blank_rule("regex");
    re.regex_pattern = Some("[0-9]+".to_string());
    re.regex_replace = Some("N".to_string());
    assert_eq!(apply_rule("img123 and 456", &re, "", 0), "imgN and N");
    // An invalid pattern leaves the stem as it was.
    let mut bad = blank_rule("regex");
    bad.regex_pattern = Some("([".to_string());
    bad.regex_replace = Some("x".to_string());
    assert_eq!(apply_rule("img123", &bad, "", 0), "img123");

    let unknown = blank_rule("sparkle");
    assert_eq!(apply_rule("stem", &unknown, "", 0), "stem");
}

#[test]
fn test_preview_rename_sequence_runs_through_batch() {
    let mut seq = blank_rule("sequence");
    seq.start_number = Some(3);
    seq.digit_count = Some(2);
    let rules = vec![seq];
    let files = vec![
        input("/s/a.jpg", "a.jpg", "a", ".jpg", 1),
        input("/s/b.jpg", "b.jpg", "b", ".jpg", 1),
        input("/s/c.jpg", "c.jpg", "c", ".jpg", 1),
    ];
    let previews = preview_rename(&files, &rules);
    assert_eq!(previews.len(), 3);
    assert_eq!(previews[0].new_name, "a_03.jpg");
    assert_eq!(previews[1].new_name, "b_04.jpg");
    assert_eq!(previews[2].new_name, "c_05.jpg");
    assert!(previews.iter().all(|p| !p.has_conflict));
}

#[test]
fn test_preview_rename_flags_conflicts() {
    let mut fr = blank_rule("findReplace");
    fr.find_text = Some("_copy".to_string());
    fr.replace_text = Some("".to_string());
    let rules = vec![fr];
    let files = vec![
        input("/s/a.txt", "a.txt", "a", ".txt", 1),
        input("/s/a_copy.txt", "a_copy.txt", "a_copy", ".txt", 1),
    ];
    let previews = preview_rename(&files, &rules);
    assert_eq!(previews[0].new_name, "a.txt");
    assert_eq!(previews[1].new_name, "a.txt");
    assert!(!previews[0].has_conflict);
    assert!(previews[1].has_conflict);
    assert_eq!(previews[1].conflict_message.as_deref(), Some("이름이 중복됩니다"));
}

#[test]
fn test_rename_result_gate() {
    let good = rename_result(2, 0, vec![]);
    assert!(good.success);
    assert_eq!(good.renamed_count, 2);
    let bad = rename_result(1, 1, vec!["File already exists: a.txt".to_string()]);
    assert!(!bad.success);
    assert_eq!(bad.failed_count, 1);
}
