use file_organizer::history::{plan_undo, HistoryLedger, UndoPayload, UndoStep};
use file_organizer::records::{build_file_info, FileInfo};
use file_organizer::rules::{
    compute_matches, default_rule_seed, evaluate_condition, evaluate_rule, find_matching_rule,
    format_action_preview, plan_action, preview_unified, unified_moves, unified_result,
    unified_verdict, ActionError, Condition, DefaultRule, MatchVerdict, PlannedAction, Rule,
};

fn file(path: &str, name: &str, ext: Option<&str>, size: u64) -> FileInfo {
    build_file_info(
        path.to_string(),
        name.to_string(),
        ext,
        size,
        "2024-01-01 10:00:00".to_string(),
        "2024-02-03 10:00:00".to_string(),
        false,
        false,
    )
}

fn rule(name: &str, enabled: bool, conditions: Vec<Condition>, logic: &str, dest: &str) -> Rule {
    Rule {
        id: None,
        name: name.to_string(),
        priority: 0,
        enabled,
        conditions,
        condition_logic: logic.to_string(),
        action_type: "move".to_string(),
        action_destination: Some(dest.to_string()),
        action_rename_pattern: None,
        create_date_subfolder: false,
    }
}

fn cond(field: &str, op: &str, value: &str) -> Condition {
    Condition { field: field.to_string(), operator: op.to_string(), value: value.to_string() }
}

#[test]
fn test_evaluate_condition_operators() {
    let f = file("/s/Report Final.PDF", "Report Final.PDF", Some("PDF"), 2048);
    assert!(evaluate_condition(&f, &cond("name", "contains", "final")));
    assert!(evaluate_condition(&f, &cond("name", "startsWith", "report")));
    assert!(evaluate_condition(&f, &cond("extension", "equals", ".PDF")));
    assert!(evaluate_condition(&f, &cond("name", "endsWith", ".pdf")));
    assert!(evaluate_condition(&f, &cond("size", "greaterThan", "1000")));
    assert!(!evaluate_condition(&f, &cond("size", "lessThan", "1000")));
    // Numeric operators fail closed on what does not parse.
    assert!(!evaluate_condition(&f, &cond("size", "greaterThan", "many")));
    // Unknown fields and operators never match.
    assert!(!evaluate_condition(&f, &cond("owner", "equals", "me")));
    assert!(!evaluate_condition(&f, &cond("name", "sounds_like", "report")));
}

#[test]
fn test_evaluate_condition_regex() {
    let f = file("/s/IMG_2024.jpg", "IMG_2024.jpg", Some("jpg"), 100);
    assert!(evaluate_condition(&f, &cond("name", "matches", "^IMG_[0-9]+")));
    assert!(!evaluate_condition(&f, &cond("name", "matches", "^DSC_[0-9]+")));
    // A pattern that does not compile matches nothing.
    assert!(!evaluate_condition(&f, &cond("name", "matches", "([")));
}

#[test]
fn test_evaluate_rule_logic() {
    let f = file("/s/a.txt", "a.txt", Some("txt"), 10);
    let both = vec![cond("extension", "equals", ".txt"), cond("size", "lessThan", "100")];
    let one = vec![cond("extension", "equals", ".txt"), cond("size", "greaterThan", "100")];
    assert!(evaluate_rule(&f, &rule("and", true, both.clone(), "AND", "T")));
    assert!(!evaluate_rule(&f, &rule("and", true, one.clone(), "AND", "T")));
    assert!(evaluate_rule(&f, &rule("or", true, one, "OR", "T")));
    // A rule without conditions never matches.
    assert!(!evaluate_rule(&f, &rule("empty", true, vec![], "AND", "T")));
    assert!(!evaluate_rule(&f, &rule("empty", true, vec![], "OR", "T")));
}

#[test]
fn test_first_matching_rule_wins() {
    let f = file("/s/a.txt", "a.txt", Some("txt"), 10);
    let rules = vec![
        rule("disabled", false, vec![cond("extension", "equals", ".txt")], "AND", "First"),
        rule("second", true, vec![cond("extension", "equals", ".txt")], "AND", "Second"),
        rule("third", true, vec![cond("extension", "equals", ".txt")], "AND", "Third"),
    ];
    assert_eq!(find_matching_rule(&f, &rules), Some(1));
}

#[test]
fn test_rule_precedence() {
    // An enabled custom rule beats the default rule; disabling it lets
    // the default rule apply; disabling both leaves the file out.
    let f = file("/s/photo.jpg", "photo.jpg", Some("jpg"), 100);
    let custom_on = vec![rule("jpgs", true, vec![cond("extension", "equals", ".jpg")], "AND", "Shots")];
    let custom_off = vec![rule("jpgs", false, vec![cond("extension", "equals", ".jpg")], "AND", "Shots")];
    let defaults = default_rule_seed();
    let mut defaults_off = default_rule_seed();
    for d in defaults_off.iter_mut() {
        d.enabled = false;
    }

    assert_eq!(unified_verdict(&f, &custom_on, &defaults), MatchVerdict::ByCustom(0));
    assert_eq!(unified_verdict(&f, &custom_off, &defaults), MatchVerdict::ByDefault(0));
    assert_eq!(unified_verdict(&f, &custom_off, &defaults_off), MatchVerdict::Unmatched);
}

#[test]
fn test_compute_matches_skips_hidden_and_dirs() {
    let visible = file("/s/a.txt", "a.txt", Some("txt"), 10);
    let hidden = file("/s/.secret.txt", ".secret.txt", Some("txt"), 10);
    let mut folder = file("/s/sub", "sub", None, 0);
    folder.is_directory = true;
    let rules = vec![rule("texts", true, vec![cond("extension", "equals", ".txt")], "AND", "T")];
    let ms = compute_matches(&vec![visible, hidden, folder], &rules);
    assert_eq!(ms.len(), 1);
    assert_eq!(ms[0].file.name, "a.txt");
    assert_eq!(ms[0].rule.name, "texts");
    assert_eq!(ms[0].action_preview, "이동: a.txt → T");
}

#[test]
fn test_format_action_preview_kinds() {
    let f = file("/s/a.txt", "a.txt", Some("txt"), 10);
    let mv = rule("m", true, vec![], "AND", "Dest");
    assert_eq!(format_action_preview(&mv, &f), "이동: a.txt → Dest");
    let mut del = rule("d", true, vec![], "AND", "");
    del.action_type = "delete".to_string();
    assert_eq!(format_action_preview(&del, &f), "삭제: a.txt");
    let mut unknown = rule("u", true, vec![], "AND", "");
    unknown.action_type = "shred".to_string();
    assert_eq!(format_action_preview(&unknown, &f), "알 수 없는 작업: a.txt");
}

#[test]
fn test_plan_action_outcomes() {
    let f = file("/s/a.txt", "a.txt", Some("txt"), 10);
    let mv = rule("m", true, vec![], "AND", "/dest");
    match plan_action(&mv, &f).unwrap() {
        PlannedAction::MoveTo(p) => assert_eq!(p, "/dest/a.txt"),
        _ => panic!("expected a move"),
    }
    let mut dated = rule("m", true, vec![], "AND", "/dest");
    dated.create_date_subfolder = true;
    match plan_action(&dated, &f).unwrap() {
        PlannedAction::MoveTo(p) => assert_eq!(p, "/dest/2024-02/a.txt"),
        _ => panic!("expected a move"),
    }
    let mut missing = rule("m", true, vec![], "AND", "");
    missing.action_destination = None;
    assert!(matches!(plan_action(&missing, &f), Err(ActionError::MissingDestination)));
    let mut del = rule("d", true, vec![], "AND", "");
    del.action_type = "delete".to_string();
    assert!(matches!(plan_action(&del, &f), Ok(PlannedAction::TrashDelete)));
    let mut other = rule("r", true, vec![], "AND", "");
    other.action_type = "rename".to_string();
    assert!(matches!(plan_action(&other, &f), Err(ActionError::UnsupportedAction)));
}

#[test]
fn test_unified_end_to_end_plan() {
    // A source with a picture and an unknown file, default rules on:
    // the picture goes under Images, the unknown file under Others; the
    // recorded batch undoes back to the source and the two category
    // folders fall empty.
    let a = file("/s/a.jpg", "a.jpg", Some("jpg"), 100);
    let b = file("/s/b.xyz", "b.xyz", Some("xyz"), 200);
    let defaults = default_rule_seed();
    let previews = preview_unified("/s", &vec![a, b], &vec![], &defaults);
    assert_eq!(previews.len(), 2);
    assert_eq!(previews[0].match_type, "default");
    assert_eq!(previews[0].destination, "/s/Images");
    assert_eq!(previews[1].destination, "/s/Others");

    let (moves, skipped) = unified_moves(&previews, &vec![]);
    assert_eq!(moves.len(), 2);
    assert_eq!(skipped, 0);
    assert_eq!(moves[0].from, "/s/a.jpg");
    assert_eq!(moves[0].dest_file, "/s/Images/a.jpg");
    assert_eq!(moves[1].from, "/s/b.xyz");
    assert_eq!(moves[1].dest_file, "/s/Others/b.xyz");

    // The batch is recorded once; its reversal plans one move back per
    // pair, and the category folders are the cleanup candidates.
    let mut ledger = HistoryLedger::new();
    let pairs: Vec<(String, String)> =
        moves.iter().map(|m| (m.from.clone(), m.dest_file.clone())).collect();
    let id = ledger.add_history(
        "organize".to_string(),
        "통합 정리: 2개 파일 이동".to_string(),
        "[]".to_string(),
        "2024-02-03 10:00:00".to_string(),
    );
    let item = ledger.get_history_item(id).unwrap();
    let steps = plan_undo(item.is_undone, &UndoPayload::Batch { moves: pairs.clone() }).unwrap();
    assert_eq!(steps.len(), 2);
    assert!(matches!(&steps[0], UndoStep::MoveBack { from, to } if from == "/s/Images/a.jpg" && to == "/s/a.jpg"));
    let folders = file_organizer::history::cleanup_folders(&pairs);
    assert_eq!(folders, vec!["/s/Images".to_string(), "/s/Others".to_string()]);

    let result = unified_result(2, 0, vec![], id);
    assert!(result.success);
    assert_eq!(result.files_moved, 2);
    assert_eq!(result.files_skipped, 0);
}

#[test]
fn test_unified_moves_exclusions() {
    let a = file("/s/a.jpg", "a.jpg", Some("jpg"), 100);
    let defaults = default_rule_seed();
    let previews = preview_unified("/s", &vec![a], &vec![], &defaults);
    let (moves, skipped) = unified_moves(&previews, &vec!["/s/Images".to_string()]);
    assert_eq!(moves.len(), 0);
    assert_eq!(skipped, 1);
}

#[test]
fn test_unified_custom_destination_and_dates() {
    let f = file("/s/a.jpg", "a.jpg", Some("jpg"), 100);
    let mut shots = rule("shots", true, vec![cond("extension", "equals", ".jpg")], "AND", "/pics");
    shots.create_date_subfolder = true;
    let previews = preview_unified("/s", &vec![f], &vec![shots], &default_rule_seed());
    assert_eq!(previews.len(), 1);
    assert_eq!(previews[0].match_type, "custom");
    assert_eq!(previews[0].destination, "/pics");
    let (moves, _) = unified_moves(&previews, &vec![]);
    assert_eq!(moves[0].dest_folder, "/pics/2024-02");
    assert_eq!(moves[0].dest_file, "/pics/2024-02/a.jpg");
}

#[test]
fn test_default_rule_respects_enabled_flag() {
    let f = file("/s/a.jpg", "a.jpg", Some("jpg"), 100);
    let mut defaults: Vec<DefaultRule> = default_rule_seed();
    defaults[0].enabled = false;
    let previews = preview_unified("/s", &vec![f], &vec![], &defaults);
    assert_eq!(previews.len(), 0);
}
