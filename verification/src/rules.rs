//! The rule engine. User-defined conditional rules are evaluated against a
//! file's record; enabled custom rules are tried in the order given (highest
//! priority first, as the store hands them out) and the first match wins.
//! When no custom rule matches, the enabled per-category default rule for
//! the file's category applies. Files matching neither are left out of the
//! plan.

use vstd::prelude::*;
use crate::classifier::{category_key, spec_category_key};
use crate::paths::{path_join, spec_path_join};
use crate::records::{clone_file_info, name_is_hidden, same_file_info, FileInfo};
use crate::text::{
    all_digits, ascii_lower, ascii_lowercase, dec_seq, dec_value, is_prefix_of, is_substring_of,
    is_suffix_of, parse_u64, str_contains, str_ends_with, str_eq, str_starts_with, u64_to_string,
};

verus! {

/// One condition of a custom rule: a field, an operator and a literal.
#[derive(Debug, Clone)]
pub struct Condition {
    pub field: String,
    pub operator: String,
    pub value: String,
}

/// A user-defined rule: matching is decided by its conditions, the action
/// says what happens to a matching file.
#[derive(Debug, Clone)]
pub struct Rule {
    pub id: Option<i64>,
    pub name: String,
    pub priority: i32,
    pub enabled: bool,
    pub conditions: Vec<Condition>,
    pub condition_logic: String,
    pub action_type: String,
    pub action_destination: Option<String>,
    pub action_rename_pattern: Option<String>,
    pub create_date_subfolder: bool,
}

/// One file matched by one rule, with a rendered preview of the action.
#[derive(Debug, Clone)]
pub struct RuleMatch {
    pub file: FileInfo,
    pub rule: Rule,
    pub action_preview: String,
}

/// The per-category fallback rule.
#[derive(Debug, Clone)]
pub struct DefaultRule {
    pub id: i64,
    pub category: String,
    pub enabled: bool,
    pub destination: String,
    pub create_date_subfolder: bool,
    pub priority: i32,
}

/// The outcome of running the custom rules over a folder.
#[derive(Debug, Clone)]
pub struct ExecuteRulesResult {
    pub success: bool,
    pub executed_count: usize,
    pub skipped_count: usize,
    pub errors: Vec<String>,
}

/// Named result: what `regex::Regex::new` followed by `Regex::is_match`
/// yields for a pattern and a text, with an invalid pattern counting as no
/// match. It depends on the two strings alone.
pub uninterp spec fn regex_match_of(pattern: Seq<char>, text: Seq<char>) -> bool;

/// Relies on `regex::Regex::new` and `regex::Regex::is_match`: whether the
/// pattern matches the text; a pattern that does not compile matches
/// nothing, so rule evaluation fails closed.
#[verifier::external_body]
fn regex_is_match(pattern: &str, text: &str) -> (r: bool)
    ensures
        r == regex_match_of(pattern@, text@),
{
    match regex::Regex::new(pattern) {
        Ok(re) => re.is_match(text),
        Err(_) => false,
    }
}

/// The string a condition field extracts from a record, when the field is
/// known.
pub open spec fn spec_field_value(f: FileInfo, field: Seq<char>) -> Option<Seq<char>> {
    if field == "name"@ {
        Some(f.name@)
    } else if field == "extension"@ {
        Some(f.extension@)
    } else if field == "size"@ {
        Some(dec_seq(f.size as nat))
    } else if field == "createdDate"@ {
        Some(f.created_at@)
    } else if field == "modifiedDate"@ {
        Some(f.modified_at@)
    } else {
        None
    }
}

/// The string parses as an unsigned 64-bit decimal number.
pub open spec fn parses_u64(s: Seq<char>) -> bool {
    all_digits(s) && dec_value(s) <= u64::MAX
}

/// Whether one condition holds of a record. Textual operators compare with
/// ASCII case folded; the numeric operators fail closed unless both sides
/// parse; an unknown field or operator never matches; a bad regular
/// expression never matches.
pub open spec fn spec_eval_condition(f: FileInfo, c: Condition) -> bool {
    match spec_field_value(f, c.field@) {
        Option::None => false,
        Option::Some(fv) => {
            let lf = ascii_lower(fv);
            let lv = ascii_lower(c.value@);
            if c.operator@ == "equals"@ {
                lf == lv
            } else if c.operator@ == "contains"@ {
                is_substring_of(lv, lf)
            } else if c.operator@ == "startsWith"@ {
                is_prefix_of(lv, lf)
            } else if c.operator@ == "endsWith"@ {
                is_suffix_of(lv, lf)
            } else if c.operator@ == "greaterThan"@ {
                parses_u64(fv) && parses_u64(c.value@) && dec_value(fv) > dec_value(c.value@)
            } else if c.operator@ == "lessThan"@ {
                parses_u64(fv) && parses_u64(c.value@) && dec_value(fv) < dec_value(c.value@)
            } else if c.operator@ == "matches"@ {
                regex_match_of(c.value@, fv)
            } else {
                false
            }
        },
    }
}

/// Evaluates one condition against a record.
pub fn evaluate_condition(file: &FileInfo, condition: &Condition) -> (r: bool)
    ensures
        r == spec_eval_condition(*file, *condition),
{
    let field = condition.field.as_str();
    let field_value: String = if str_eq(field, "name") {
        file.name.clone()
    } else if str_eq(field, "extension") {
        file.extension.clone()
    } else if str_eq(field, "size") {
        u64_to_string(file.size)
    } else if str_eq(field, "createdDate") {
        file.created_at.clone()
    } else if str_eq(field, "modifiedDate") {
        file.modified_at.clone()
    } else {
        return false;
    };
    let op = condition.operator.as_str();
    if str_eq(op, "equals") {
        let lf = ascii_lowercase(field_value.as_str());
        let lv = ascii_lowercase(condition.value.as_str());
        str_eq(lf.as_str(), lv.as_str())
    } else if str_eq(op, "contains") {
        let lf = ascii_lowercase(field_value.as_str());
        let lv = ascii_lowercase(condition.value.as_str());
        str_contains(lf.as_str(), lv.as_str())
    } else if str_eq(op, "startsWith") {
        let lf = ascii_lowercase(field_value.as_str());
        let lv = ascii_lowercase(condition.value.as_str());
        str_starts_with(lf.as_str(), lv.as_str())
    } else if str_eq(op, "endsWith") {
        let lf = ascii_lowercase(field_value.as_str());
        let lv = ascii_lowercase(condition.value.as_str());
        str_ends_with(lf.as_str(), lv.as_str())
    } else if str_eq(op, "greaterThan") {
        let a = parse_u64(field_value.as_str());
        let b = parse_u64(condition.value.as_str());
        match (a, b) {
            (Some(x), Some(y)) => x > y,
            _ => false,
        }
    } else if str_eq(op, "lessThan") {
        let a = parse_u64(field_value.as_str());
        let b = parse_u64(condition.value.as_str());
        match (a, b) {
            (Some(x), Some(y)) => x < y,
            _ => false,
        }
    } else if str_eq(op, "matches") {
        regex_is_match(condition.value.as_str(), field_value.as_str())
    } else {
        false
    }
}

/// All conditions of the list hold of the record.
pub open spec fn all_conditions_hold(f: FileInfo, cs: Seq<Condition>) -> bool {
    forall|i: int| 0 <= i < cs.len() ==> spec_eval_condition(f, #[trigger] cs[i])
}

/// Some condition of the list holds of the record.
pub open spec fn any_condition_holds(f: FileInfo, cs: Seq<Condition>) -> bool {
    exists|i: int| #![trigger cs[i]] 0 <= i && i < cs.len() && spec_eval_condition(f, cs[i])
}

/// Whether a rule matches a record: under AND logic every condition must
/// hold, otherwise any one suffices; a rule without conditions never
/// matches.
pub open spec fn spec_eval_rule(f: FileInfo, r: Rule) -> bool {
    &&& r.conditions@.len() > 0
    &&& if r.condition_logic@ == "AND"@ {
        all_conditions_hold(f, r.conditions@)
    } else {
        any_condition_holds(f, r.conditions@)
    }
}

/// Evaluates a rule's conditions against a record under the rule's logic.
pub fn evaluate_rule(file: &FileInfo, rule: &Rule) -> (r: bool)
    ensures
        r == spec_eval_rule(*file, *rule),
{
    let n = rule.conditions.len();
    if n == 0 {
        return false;
    }
    let is_and = str_eq(rule.condition_logic.as_str(), "AND");
    let mut all = true;
    let mut any = false;
    let mut i: usize = 0;
    while i < n
        invariant
            i <= n,
            n == rule.conditions@.len(),
            all == all_conditions_hold(*file, rule.conditions@.take(i as int)),
            any == any_condition_holds(*file, rule.conditions@.take(i as int)),
        decreases n - i,
    {
        let c = evaluate_condition(file, &rule.conditions[i]);
        proof {
            let pre = rule.conditions@.take(i as int);
            let nxt = rule.conditions@.take(i + 1 as int);
            assert(nxt =~= pre.push(rule.conditions@[i as int]));
            assert(nxt[i as int] == rule.conditions@[i as int]);
            assert forall|j: int| 0 <= j < i implies nxt[j] == pre[j] by {}
            if all && c {
                assert forall|j: int| 0 <= j < nxt.len() implies spec_eval_condition(
                    *file,
                    #[trigger] nxt[j],
                ) by {
                    if j < i {
                        assert(spec_eval_condition(*file, pre[j]));
                    }
                }
            } else if !all {
                assert(exists|w: int|
                    #![trigger pre[w]]
                    0 <= w && w < pre.len() && !spec_eval_condition(*file, pre[w]));
                let w = choose|w: int|
                    #![trigger pre[w]]
                    0 <= w && w < pre.len() && !spec_eval_condition(*file, pre[w]);
                assert(!spec_eval_condition(*file, nxt[w]));
            } else {
                assert(!spec_eval_condition(*file, nxt[i as int]));
            }
            if c {
                assert(any_condition_holds(*file, nxt)) by {
                    assert(spec_eval_condition(*file, nxt[i as int]));
                }
            } else if any {
                let w = choose|w: int|
                    #![trigger pre[w]]
                    0 <= w && w < pre.len() && spec_eval_condition(*file, pre[w]);
                assert(spec_eval_condition(*file, nxt[w]));
            } else {
                assert forall|j: int| 0 <= j < nxt.len() implies !spec_eval_condition(
                    *file,
                    #[trigger] nxt[j],
                ) by {
                    if j < i {
                        if spec_eval_condition(*file, nxt[j]) {
                            assert(spec_eval_condition(*file, pre[j]));
                        }
                    }
                }
            }
        }
        all = all && c;
        any = any || c;
        i = i + 1;
    }
    proof {
        assert(rule.conditions@.take(n as int) =~= rule.conditions@);
    }
    if is_and {
        all
    } else {
        any
    }
}

/// Whether a rule takes part in matching at all and matches the record.
pub open spec fn rule_matches(f: FileInfo, r: Rule) -> bool {
    r.enabled && spec_eval_rule(f, r)
}

/// `j` is the position of the first enabled, matching rule.
pub open spec fn is_first_custom_match(f: FileInfo, rs: Seq<Rule>, j: int) -> bool {
    &&& 0 <= j < rs.len()
    &&& rule_matches(f, rs[j])
    &&& forall|k: int| 0 <= k < j ==> !rule_matches(f, #[trigger] rs[k])
}

/// Some enabled rule of the list matches the record.
pub open spec fn has_custom_match(f: FileInfo, rs: Seq<Rule>) -> bool {
    exists|j: int| #![trigger rs[j]] 0 <= j && j < rs.len() && rule_matches(f, rs[j])
}

/// Finds the first enabled rule that matches, in the order given; the store
/// hands rules out highest priority first, so that rule wins.
pub fn find_matching_rule(file: &FileInfo, rules: &Vec<Rule>) -> (r: Option<usize>)
    ensures
        match r {
            Some(j) => is_first_custom_match(*file, rules@, j as int),
            None => !has_custom_match(*file, rules@),
        },
{
    let n = rules.len();
    let mut j: usize = 0;
    while j < n
        invariant
            j <= n,
            n == rules@.len(),
            forall|k: int| 0 <= k < j ==> !rule_matches(*file, #[trigger] rules@[k]),
        decreases n - j,
    {
        if rules[j].enabled {
            if evaluate_rule(file, &rules[j]) {
                return Some(j);
            }
        }
        j = j + 1;
    }
    proof {
        if has_custom_match(*file, rules@) {
            let w = choose|w: int|
                #![trigger rules@[w]]
                0 <= w && w < rules@.len() && rule_matches(*file, rules@[w]);
            assert(!rule_matches(*file, rules@[w]));
        }
    }
    None
}

/// `d` is the position of the first enabled default rule for the category
/// key.
pub open spec fn is_first_default_match(key: Seq<char>, ds: Seq<DefaultRule>, d: int) -> bool {
    &&& 0 <= d < ds.len()
    &&& ds[d].enabled
    &&& ds[d].category@ == key
    &&& forall|k: int|
        0 <= k < d ==> !((#[trigger] ds[k]).enabled && ds[k].category@ == key)
}

/// Some enabled default rule covers the category key.
pub open spec fn has_default_match(key: Seq<char>, ds: Seq<DefaultRule>) -> bool {
    exists|d: int| #![trigger ds[d]] 0 <= d && d < ds.len() && ds[d].enabled && ds[d].category@ == key
}

/// Finds the first enabled default rule stored under the category key.
pub fn find_default_rule(key: &str, defaults: &Vec<DefaultRule>) -> (r: Option<usize>)
    ensures
        match r {
            Some(d) => is_first_default_match(key@, defaults@, d as int),
            None => !has_default_match(key@, defaults@),
        },
{
    let n = defaults.len();
    let mut d: usize = 0;
    while d < n
        invariant
            d <= n,
            n == defaults@.len(),
            forall|k: int|
                0 <= k < d ==> !((#[trigger] defaults@[k]).enabled && defaults@[k].category@
                    == key@),
        decreases n - d,
    {
        if defaults[d].enabled {
            if str_eq(defaults[d].category.as_str(), key) {
                return Some(d);
            }
        }
        d = d + 1;
    }
    proof {
        if has_default_match(key@, defaults@) {
            let w = choose|w: int|
                #![trigger defaults@[w]]
                0 <= w && w < defaults@.len() && defaults@[w].enabled && defaults@[w].category@
                    == key@;
            assert(!(defaults@[w].enabled && defaults@[w].category@ == key@));
        }
    }
    None
}

/// The verdict of the layered evaluation for one file.
#[derive(Debug, Clone, Copy, PartialEq, Eq, Structural)]
pub enum MatchVerdict {
    ByCustom(usize),
    ByDefault(usize),
    Unmatched,
}

/// The precedence of the unified evaluation, stated once for every input:
/// an enabled custom rule beats the default rule of the file's category;
/// the default rule applies only when no enabled custom rule matches; a
/// file covered by neither is excluded from the plan.
pub fn unified_verdict(
    file: &FileInfo,
    custom_rules: &Vec<Rule>,
    default_rules: &Vec<DefaultRule>,
) -> (r: MatchVerdict)
    ensures
        match r {
            MatchVerdict::ByCustom(j) => is_first_custom_match(*file, custom_rules@, j as int),
            MatchVerdict::ByDefault(d) => !has_custom_match(*file, custom_rules@)
                && is_first_default_match(
                spec_category_key(file.category),
                default_rules@,
                d as int,
            ),
            MatchVerdict::Unmatched => !has_custom_match(*file, custom_rules@)
                && !has_default_match(spec_category_key(file.category), default_rules@),
        },
{
    match find_matching_rule(file, custom_rules) {
        Some(j) => MatchVerdict::ByCustom(j),
        None => {
            let key = category_key(&file.category);
            match find_default_rule(key, default_rules) {
                Some(d) => MatchVerdict::ByDefault(d),
                None => MatchVerdict::Unmatched,
            }
        },
    }
}

/// The rendered preview of a rule's action on a file.
pub open spec fn spec_action_preview(r: Rule, f: FileInfo) -> Seq<char> {
    if r.action_type@ == "move"@ {
        match r.action_destination {
            Some(d) => "이동: "@ + f.name@ + " → "@ + d@,
            None => "이동: "@ + f.name@,
        }
    } else if r.action_type@ == "copy"@ {
        match r.action_destination {
            Some(d) => "복사: "@ + f.name@ + " → "@ + d@,
            None => "복사: "@ + f.name@,
        }
    } else if r.action_type@ == "rename"@ {
        match r.action_rename_pattern {
            Some(p) => "이름변경: "@ + f.name@ + " → "@ + p@,
            None => "이름변경: "@ + f.name@,
        }
    } else if r.action_type@ == "delete"@ {
        "삭제: "@ + f.name@
    } else {
        "알 수 없는 작업: "@ + f.name@
    }
}

/// Builds "<label><name>" or "<label><name> → <tail>".
fn preview_string(label: &str, name: &str, tail: Option<&String>) -> (r: String)
    ensures
        r@ == match tail {
            Some(t) => label@ + name@ + " → "@ + t@,
            None => label@ + name@,
        },
{
    let mut out = String::new();
    out.append(label);
    out.append(name);
    match tail {
        Some(t) => {
            out.append(" → ");
            out.append(t.as_str());
            proof {
                assert(out@ =~= label@ + name@ + " → "@ + t@);
            }
        },
        None => {
            proof {
                assert(out@ =~= label@ + name@);
            }
        },
    }
    out
}

/// Renders what a rule would do with a file, for the preview listing.
pub fn format_action_preview(rule: &Rule, file: &FileInfo) -> (r: String)
    ensures
        r@ == spec_action_preview(*rule, *file),
{
    let at = rule.action_type.as_str();
    if str_eq(at, "move") {
        preview_string("이동: ", file.name.as_str(), rule.action_destination.as_ref())
    } else if str_eq(at, "copy") {
        preview_string("복사: ", file.name.as_str(), rule.action_destination.as_ref())
    } else if str_eq(at, "rename") {
        preview_string("이름변경: ", file.name.as_str(), rule.action_rename_pattern.as_ref())
    } else if str_eq(at, "delete") {
        preview_string("삭제: ", file.name.as_str(), None)
    } else {
        preview_string("알 수 없는 작업: ", file.name.as_str(), None)
    }
}

/// Two conditions agree field for field.
pub open spec fn same_condition(a: Condition, b: Condition) -> bool {
    a.field@ == b.field@ && a.operator@ == b.operator@ && a.value@ == b.value@
}

/// Two condition lists agree pointwise.
pub open spec fn same_condition_seq(a: Seq<Condition>, b: Seq<Condition>) -> bool {
    a.len() == b.len() && forall|i: int| 0 <= i < a.len() ==> same_condition(#[trigger] a[i], b[i])
}

/// The view of an optional string.
pub open spec fn opt_str(o: Option<String>) -> Seq<char> {
    match o {
        Some(s) => s@,
        None => Seq::empty(),
    }
}

/// The two optional strings agree: both absent, or both present with equal
/// characters.
pub open spec fn same_opt_str(a: Option<String>, b: Option<String>) -> bool {
    match (a, b) {
        (Some(x), Some(y)) => x@ == y@,
        (None, None) => true,
        _ => false,
    }
}

/// Two rules agree field for field.
pub open spec fn same_rule(a: Rule, b: Rule) -> bool {
    &&& a.id == b.id
    &&& a.name@ == b.name@
    &&& a.priority == b.priority
    &&& a.enabled == b.enabled
    &&& same_condition_seq(a.conditions@, b.conditions@)
    &&& a.condition_logic@ == b.condition_logic@
    &&& a.action_type@ == b.action_type@
    &&& same_opt_str(a.action_destination, b.action_destination)
    &&& same_opt_str(a.action_rename_pattern, b.action_rename_pattern)
    &&& a.create_date_subfolder == b.create_date_subfolder
}

/// Two default rules agree field for field.
pub open spec fn same_default_rule(a: DefaultRule, b: DefaultRule) -> bool {
    &&& a.id == b.id
    &&& a.category@ == b.category@
    &&& a.enabled == b.enabled
    &&& a.destination@ == b.destination@
    &&& a.create_date_subfolder == b.create_date_subfolder
    &&& a.priority == b.priority
}

/// An equal copy of one condition.
fn clone_condition(c: &Condition) -> (r: Condition)
    ensures
        same_condition(r, *c),
{
    Condition { field: c.field.clone(), operator: c.operator.clone(), value: c.value.clone() }
}

/// An equal copy of an optional string.
fn clone_opt_string(o: &Option<String>) -> (r: Option<String>)
    ensures
        same_opt_str(r, *o),
{
    match o {
        Some(s) => Some(s.clone()),
        None => None,
    }
}

/// An equal copy of one rule.
pub fn clone_rule(rule: &Rule) -> (r: Rule)
    ensures
        same_rule(r, *rule),
{
    let mut conditions: Vec<Condition> = Vec::new();
    let n = rule.conditions.len();
    let mut i: usize = 0;
    while i < n
        invariant
            i <= n,
            n == rule.conditions@.len(),
            conditions@.len() == i,
            forall|j: int|
                0 <= j < i ==> same_condition(#[trigger] conditions@[j], rule.conditions@[j]),
        decreases n - i,
    {
        conditions.push(clone_condition(&rule.conditions[i]));
        i = i + 1;
    }
    Rule {
        id: rule.id,
        name: rule.name.clone(),
        priority: rule.priority,
        enabled: rule.enabled,
        conditions,
        condition_logic: rule.condition_logic.clone(),
        action_type: rule.action_type.clone(),
        action_destination: clone_opt_string(&rule.action_destination),
        action_rename_pattern: clone_opt_string(&rule.action_rename_pattern),
        create_date_subfolder: rule.create_date_subfolder,
    }
}

/// An equal copy of one default rule.
pub fn clone_default_rule(d: &DefaultRule) -> (r: DefaultRule)
    ensures
        same_default_rule(r, *d),
{
    DefaultRule {
        id: d.id,
        category: d.category.clone(),
        enabled: d.enabled,
        destination: d.destination.clone(),
        create_date_subfolder: d.create_date_subfolder,
        priority: d.priority,
    }
}

/// One planned step of the unified organization, with which layer matched
/// and where the file goes.
#[derive(Debug, Clone)]
pub struct UnifiedPreview {
    pub file: FileInfo,
    pub match_type: String,
    pub rule: Option<Rule>,
    pub default_rule: Option<DefaultRule>,
    pub action: String,
    pub destination: String,
}

/// The outcome of one unified organization run.
#[derive(Debug, Clone)]
pub struct UnifiedOrganizeResult {
    pub success: bool,
    pub files_moved: usize,
    pub files_skipped: usize,
    pub errors: Vec<String>,
    pub history_id: i64,
}

/// A file takes part in organization: it is no directory and its name does
/// not mark it hidden.
pub open spec fn spec_eligible(f: FileInfo) -> bool {
    !f.is_directory && !(f.name@.len() > 0 && f.name@[0] == '.')
}

/// The unified evaluation puts this file in the plan.
pub open spec fn unified_matched(f: FileInfo, cs: Seq<Rule>, ds: Seq<DefaultRule>) -> bool {
    spec_eligible(f) && (has_custom_match(f, cs) || has_default_match(
        spec_category_key(f.category),
        ds,
    ))
}

/// The positions of the files the unified plan covers, in input order.
pub open spec fn matched_indices(files: Seq<FileInfo>, cs: Seq<Rule>, ds: Seq<DefaultRule>) -> Seq<
    int,
>
    decreases files.len(),
{
    if files.len() == 0 {
        Seq::empty()
    } else {
        let rest = matched_indices(files.drop_last(), cs, ds);
        if unified_matched(files.last(), cs, ds) {
            rest.push(files.len() - 1)
        } else {
            rest
        }
    }
}

/// The position of the first enabled custom rule matching the file.
pub open spec fn first_custom_idx(f: FileInfo, cs: Seq<Rule>) -> int {
    choose|j: int| is_first_custom_match(f, cs, j)
}

/// The position of the first enabled default rule for the key.
pub open spec fn first_default_idx(key: Seq<char>, ds: Seq<DefaultRule>) -> int {
    choose|d: int| is_first_default_match(key, ds, d)
}

/// A first match is unique.
proof fn lemma_first_custom_unique(f: FileInfo, cs: Seq<Rule>, j1: int, j2: int)
    requires
        is_first_custom_match(f, cs, j1),
        is_first_custom_match(f, cs, j2),
    ensures
        j1 == j2,
{
    if j1 < j2 {
        assert(!rule_matches(f, cs[j1]));
    } else if j2 < j1 {
        assert(!rule_matches(f, cs[j2]));
    }
}

/// A first default match is unique.
proof fn lemma_first_default_unique(key: Seq<char>, ds: Seq<DefaultRule>, d1: int, d2: int)
    requires
        is_first_default_match(key, ds, d1),
        is_first_default_match(key, ds, d2),
    ensures
        d1 == d2,
{
    if d1 < d2 {
        assert(!(ds[d1].enabled && ds[d1].category@ == key));
    } else if d2 < d1 {
        assert(!(ds[d2].enabled && ds[d2].category@ == key));
    }
}

/// One plan entry is right for the file at position `i`: it copies the
/// record, names the layer that matched, embeds the deciding rule, renders
/// its action, and carries the rule's destination (custom) or the default
/// folder under the scanned root (default).
pub open spec fn preview_ok(
    p: UnifiedPreview,
    i: int,
    files: Seq<FileInfo>,
    cs: Seq<Rule>,
    ds: Seq<DefaultRule>,
    source: Seq<char>,
) -> bool {
    &&& same_file_info(p.file, files[i])
    &&& if has_custom_match(files[i], cs) {
        let j = first_custom_idx(files[i], cs);
        {
            &&& p.match_type@ == "custom"@
            &&& p.rule is Some
            &&& same_rule(p.rule->0, cs[j])
            &&& p.default_rule is None
            &&& p.action@ == spec_action_preview(cs[j], files[i])
            &&& p.destination@ == opt_str(cs[j].action_destination)
        }
    } else {
        let d = first_default_idx(spec_category_key(files[i].category), ds);
        {
            &&& p.match_type@ == "default"@
            &&& p.rule is None
            &&& p.default_rule is Some
            &&& same_default_rule(p.default_rule->0, ds[d])
            &&& p.action@ == "이동: "@ + files[i].name@ + " → "@ + ds[d].destination@
            &&& p.destination@ == spec_path_join(source, ds[d].destination@)
        }
    }
}

/// Builds the unified plan for a folder's files: one entry for every
/// eligible file that an enabled custom rule or the category's enabled
/// default rule covers, in input order, each entry as `preview_ok` demands.
pub fn preview_unified(
    source_path: &str,
    files: &Vec<FileInfo>,
    custom_rules: &Vec<Rule>,
    default_rules: &Vec<DefaultRule>,
) -> (r: Vec<UnifiedPreview>)
    ensures
        r@.len() == matched_indices(files@, custom_rules@, default_rules@).len(),
        forall|k: int|
            0 <= k < r@.len() ==> preview_ok(
                #[trigger] r@[k],
                matched_indices(files@, custom_rules@, default_rules@)[k],
                files@,
                custom_rules@,
                default_rules@,
                source_path@,
            ),
{
    let n = files.len();
    let mut out: Vec<UnifiedPreview> = Vec::new();
    let mut i: usize = 0;
    while i < n
        invariant
            i <= n,
            n == files@.len(),
            out@.len() == matched_indices(
                files@.take(i as int),
                custom_rules@,
                default_rules@,
            ).len(),
            forall|k: int|
                0 <= k < out@.len() ==> preview_ok(
                    #[trigger] out@[k],
                    matched_indices(files@.take(i as int), custom_rules@, default_rules@)[k],
                    files@,
                    custom_rules@,
                    default_rules@,
                    source_path@,
                ),
            forall|k: int|
                0 <= k < out@.len() ==> 0 <= #[trigger] matched_indices(
                    files@.take(i as int),
                    custom_rules@,
                    default_rules@,
                )[k] < i,
        decreases n - i,
    {
        let ghost pre = matched_indices(files@.take(i as int), custom_rules@, default_rules@);
        proof {
            assert(files@.take(i + 1 as int).drop_last() =~= files@.take(i as int));
            assert(files@.take(i + 1 as int).last() == files@[i as int]);
        }
        let file = &files[i];
        let eligible = !file.is_directory && !name_is_hidden(file.name.as_str());
        if eligible {
            let verdict = unified_verdict(file, custom_rules, default_rules);
            match verdict {
                MatchVerdict::ByCustom(j) => {
                    let rule = &custom_rules[j];
                    let dest = match &rule.action_destination {
                        Some(d) => d.clone(),
                        None => String::new(),
                    };
                    let entry = UnifiedPreview {
                        file: clone_file_info(file),
                        match_type: String::from_str("custom"),
                        rule: Some(clone_rule(rule)),
                        default_rule: None,
                        action: format_action_preview(rule, file),
                        destination: dest,
                    };
                    proof {
                        lemma_first_custom_unique(
                            files@[i as int],
                            custom_rules@,
                            j as int,
                            first_custom_idx(files@[i as int], custom_rules@),
                        );
                        assert(preview_ok(
                            entry,
                            i as int,
                            files@,
                            custom_rules@,
                            default_rules@,
                            source_path@,
                        ));
                    }
                    out.push(entry);
                },
                MatchVerdict::ByDefault(d) => {
                    let def = &default_rules[d];
                    let entry = UnifiedPreview {
                        file: clone_file_info(file),
                        match_type: String::from_str("default"),
                        rule: None,
                        default_rule: Some(clone_default_rule(def)),
                        action: preview_string("이동: ", file.name.as_str(), Some(&def.destination)),
                        destination: path_join(source_path, def.destination.as_str()),
                    };
                    proof {
                        lemma_first_default_unique(
                            spec_category_key(files@[i as int].category),
                            default_rules@,
                            d as int,
                            first_default_idx(
                                spec_category_key(files@[i as int].category),
                                default_rules@,
                            ),
                        );
                        assert(preview_ok(
                            entry,
                            i as int,
                            files@,
                            custom_rules@,
                            default_rules@,
                            source_path@,
                        ));
                    }
                    out.push(entry);
                },
                MatchVerdict::Unmatched => {},
            }
        }
        i = i + 1;
    }
    proof {
        assert(files@.take(n as int) =~= files@);
    }
    out
}

/// The positions of the eligible files some enabled custom rule matches, in
/// input order.
pub open spec fn custom_indices(files: Seq<FileInfo>, cs: Seq<Rule>) -> Seq<int>
    decreases files.len(),
{
    if files.len() == 0 {
        Seq::empty()
    } else {
        let rest = custom_indices(files.drop_last(), cs);
        if spec_eligible(files.last()) && has_custom_match(files.last(), cs) {
            rest.push(files.len() - 1)
        } else {
            rest
        }
    }
}

/// One match entry is right for the file at position `i`: it copies the
/// record, embeds the first matching rule and renders its action.
pub open spec fn match_ok(m: RuleMatch, i: int, files: Seq<FileInfo>, cs: Seq<Rule>) -> bool {
    let j = first_custom_idx(files[i], cs);
    &&& same_file_info(m.file, files[i])
    &&& same_rule(m.rule, cs[j])
    &&& m.action_preview@ == spec_action_preview(cs[j], files[i])
}

/// Matches a folder's files against the custom rules alone: one entry per
/// eligible file that some enabled rule matches, in input order, carrying
/// the first matching rule.
pub fn compute_matches(files: &Vec<FileInfo>, rules: &Vec<Rule>) -> (r: Vec<RuleMatch>)
    ensures
        r@.len() == custom_indices(files@, rules@).len(),
        forall|k: int|
            0 <= k < r@.len() ==> match_ok(
                #[trigger] r@[k],
                custom_indices(files@, rules@)[k],
                files@,
                rules@,
            ),
{
    let n = files.len();
    let mut out: Vec<RuleMatch> = Vec::new();
    let mut i: usize = 0;
    while i < n
        invariant
            i <= n,
            n == files@.len(),
            out@.len() == custom_indices(files@.take(i as int), rules@).len(),
            forall|k: int|
                0 <= k < out@.len() ==> match_ok(
                    #[trigger] out@[k],
                    custom_indices(files@.take(i as int), rules@)[k],
                    files@,
                    rules@,
                ),
            forall|k: int|
                0 <= k < out@.len() ==> 0 <= #[trigger] custom_indices(
                    files@.take(i as int),
                    rules@,
                )[k] < i,
        decreases n - i,
    {
        proof {
            assert(files@.take(i + 1 as int).drop_last() =~= files@.take(i as int));
            assert(files@.take(i + 1 as int).last() == files@[i as int]);
        }
        let file = &files[i];
        let eligible = !file.is_directory && !name_is_hidden(file.name.as_str());
        if eligible {
            match find_matching_rule(file, rules) {
                Some(j) => {
                    let rule = &rules[j];
                    let entry = RuleMatch {
                        file: clone_file_info(file),
                        rule: clone_rule(rule),
                        action_preview: format_action_preview(rule, file),
                    };
                    proof {
                        lemma_first_custom_unique(
                            files@[i as int],
                            rules@,
                            j as int,
                            first_custom_idx(files@[i as int], rules@),
                        );
                        assert(match_ok(entry, i as int, files@, rules@));
                    }
                    out.push(entry);
                },
                None => {},
            }
        }
        i = i + 1;
    }
    proof {
        assert(files@.take(n as int) =~= files@);
    }
    out
}

/// The physical step a rule asks for on a matching file.
#[derive(Debug, Clone)]
pub enum PlannedAction {
    MoveTo(String),
    CopyTo(String),
    TrashDelete,
}

/// Why no step could be planned.
#[derive(Debug, Clone, Copy, PartialEq, Eq, Structural)]
pub enum ActionError {
    MissingDestination,
    UnsupportedAction,
}

impl ActionError {
    /// The user-visible message of this error.
    pub fn message(&self) -> (r: &'static str)
        ensures
            r@ == match *self {
                ActionError::MissingDestination => "대상 폴더가 지정되지 않았습니다"@,
                ActionError::UnsupportedAction => "지원되지 않는 작업입니다"@,
            },
    {
        match self {
            ActionError::MissingDestination => "대상 폴더가 지정되지 않았습니다",
            ActionError::UnsupportedAction => "지원되지 않는 작업입니다",
        }
    }
}

/// The folder a rule sends a file to: its destination, under a `YYYY-MM`
/// subfolder from the file's modified time when the rule asks for one and
/// the rendered time carries at least seven characters.
pub open spec fn spec_rule_dest_folder(r: Rule, f: FileInfo) -> Seq<char> {
    if r.create_date_subfolder && f.modified_at@.len() >= 7 {
        spec_path_join(opt_str(r.action_destination), f.modified_at@.take(7))
    } else {
        opt_str(r.action_destination)
    }
}

/// The full destination path a rule sends a file to.
pub open spec fn spec_rule_dest_path(r: Rule, f: FileInfo) -> Seq<char> {
    spec_path_join(spec_rule_dest_folder(r, f), f.name@)
}

/// Plans the physical action of a rule on one file: a move or copy to the
/// resolved destination, a reversible trash deletion, an error when the
/// destination is missing or the action is not supported. Nothing is
/// touched; the caller performs the plan.
pub fn plan_action(rule: &Rule, file: &FileInfo) -> (r: Result<PlannedAction, ActionError>)
    ensures
        match r {
            Ok(PlannedAction::MoveTo(p)) => rule.action_type@ == "move"@
                && rule.action_destination is Some && p@ == spec_rule_dest_path(*rule, *file),
            Ok(PlannedAction::CopyTo(p)) => rule.action_type@ == "copy"@
                && rule.action_destination is Some && p@ == spec_rule_dest_path(*rule, *file),
            Ok(PlannedAction::TrashDelete) => rule.action_type@ == "delete"@,
            Err(ActionError::MissingDestination) => (rule.action_type@ == "move"@
                || rule.action_type@ == "copy"@) && rule.action_destination is None,
            Err(ActionError::UnsupportedAction) => rule.action_type@ != "move"@
                && rule.action_type@ != "copy"@ && rule.action_type@ != "delete"@,
        },
{
    let at = rule.action_type.as_str();
    let is_move = str_eq(at, "move");
    let is_copy = str_eq(at, "copy");
    if is_move || is_copy {
        let dest: &String = match &rule.action_destination {
            Some(d) => d,
            None => {
                return Err(ActionError::MissingDestination);
            },
        };
        let folder: String = if rule.create_date_subfolder && file.modified_at.unicode_len() >= 7 {
            let date_part = file.modified_at.as_str().substring_char(0, 7);
            path_join(dest.as_str(), date_part)
        } else {
            dest.clone()
        };
        let full = path_join(folder.as_str(), file.name.as_str());
        proof {
            assert(file.modified_at@.subrange(0, 7) =~= file.modified_at@.take(7));
        }
        if is_move {
            Ok(PlannedAction::MoveTo(full))
        } else {
            Ok(PlannedAction::CopyTo(full))
        }
    } else if str_eq(at, "delete") {
        Ok(PlannedAction::TrashDelete)
    } else {
        Err(ActionError::UnsupportedAction)
    }
}

/// One move of the unified execution: the file's current path, the folder
/// to create, and the full destination path.
#[derive(Debug, Clone)]
pub struct PlannedMove {
    pub from: String,
    pub dest_folder: String,
    pub dest_file: String,
}

/// The destination is on the caller's exclusion list.
pub open spec fn in_excluded(dest: Seq<char>, ex: Seq<String>) -> bool {
    exists|k: int| #![trigger ex[k]] 0 <= k && k < ex.len() && ex[k]@ == dest
}

/// The entry names the layer that matched and embeds that layer's rule.
pub open spec fn preview_proper(p: UnifiedPreview) -> bool {
    if p.match_type@ == "custom"@ {
        p.rule is Some
    } else {
        p.default_rule is Some
    }
}

/// Whether this entry's rule asks for a date subfolder.
pub open spec fn preview_date_flag(p: UnifiedPreview) -> bool {
    if p.match_type@ == "custom"@ {
        p.rule->0.create_date_subfolder
    } else {
        p.default_rule->0.create_date_subfolder
    }
}

/// The folder this entry's file moves into.
pub open spec fn spec_move_folder(p: UnifiedPreview) -> Seq<char> {
    if preview_date_flag(p) && p.file.modified_at@.len() >= 7 {
        spec_path_join(p.destination@, p.file.modified_at@.take(7))
    } else {
        p.destination@
    }
}

/// The positions of the plan entries that are acted on: proper entries
/// whose destination is not excluded.
pub open spec fn acted_indices(ps: Seq<UnifiedPreview>, ex: Seq<String>) -> Seq<int>
    decreases ps.len(),
{
    if ps.len() == 0 {
        Seq::empty()
    } else {
        let rest = acted_indices(ps.drop_last(), ex);
        if !in_excluded(ps.last().destination@, ex) && preview_proper(ps.last()) {
            rest.push(ps.len() - 1)
        } else {
            rest
        }
    }
}

/// How many plan entries the exclusion list skips.
pub open spec fn excluded_count(ps: Seq<UnifiedPreview>, ex: Seq<String>) -> int
    decreases ps.len(),
{
    if ps.len() == 0 {
        0
    } else {
        excluded_count(ps.drop_last(), ex) + if in_excluded(ps.last().destination@, ex) {
            1int
        } else {
            0int
        }
    }
}

/// One planned move is right for its plan entry.
pub open spec fn move_ok(m: PlannedMove, p: UnifiedPreview) -> bool {
    &&& m.from@ == p.file.path@
    &&& m.dest_folder@ == spec_move_folder(p)
    &&& m.dest_file@ == spec_path_join(spec_move_folder(p), p.file.name@)
}

/// The move list realizes the acted-on part of the plan, in order.
pub open spec fn moves_ok(ms: Seq<PlannedMove>, ps: Seq<UnifiedPreview>, ex: Seq<String>) -> bool {
    &&& ms.len() == acted_indices(ps, ex).len()
    &&& forall|k: int|
        0 <= k < ms.len() ==> 0 <= acted_indices(ps, ex)[k] < ps.len() && move_ok(
            #[trigger] ms[k],
            ps[acted_indices(ps, ex)[k]],
        )
}

/// Turns the unified plan into concrete moves, leaving out every entry
/// whose destination the caller excluded from this run; the second result
/// counts the excluded entries.
pub fn unified_moves(previews: &Vec<UnifiedPreview>, excluded: &Vec<String>) -> (r: (
    Vec<PlannedMove>,
    usize,
))
    ensures
        moves_ok(r.0@, previews@, excluded@),
        r.1 == excluded_count(previews@, excluded@),
{
    let n = previews.len();
    let mut out: Vec<PlannedMove> = Vec::new();
    let mut skipped: usize = 0;
    let mut i: usize = 0;
    while i < n
        invariant
            i <= n,
            n == previews@.len(),
            moves_ok(out@, previews@.take(i as int), excluded@),
            forall|k: int|
                0 <= k < out@.len() ==> 0 <= #[trigger] acted_indices(
                    previews@.take(i as int),
                    excluded@,
                )[k] < i,
            skipped == excluded_count(previews@.take(i as int), excluded@),
            skipped <= i,
        decreases n - i,
    {
        proof {
            assert(previews@.take(i + 1 as int).drop_last() =~= previews@.take(i as int));
            assert(previews@.take(i + 1 as int).last() == previews@[i as int]);
        }
        let p = &previews[i];
        let mut is_ex = false;
        let en = excluded.len();
        let mut e: usize = 0;
        while e < en && !is_ex
            invariant
                e <= en,
                en == excluded@.len(),
                i < n,
                n == previews@.len(),
                *p == previews@[i as int],
                !is_ex ==> forall|k: int|
                    0 <= k < e ==> (#[trigger] excluded@[k])@ != previews@[i as int].destination@,
                is_ex ==> in_excluded(previews@[i as int].destination@, excluded@),
            decreases en - e + (if is_ex {
                0int
            } else {
                1int
            }),
        {
            if str_eq(excluded[e].as_str(), p.destination.as_str()) {
                is_ex = true;
            } else {
                e = e + 1;
            }
        }
        proof {
            if !is_ex && in_excluded(previews@[i as int].destination@, excluded@) {
                let w = choose|w: int|
                    #![trigger excluded@[w]]
                    0 <= w && w < excluded@.len() && excluded@[w]@ == previews@[i as int].destination@;
                assert(excluded@[w]@ != previews@[i as int].destination@);
            }
        }
        if is_ex {
            skipped = skipped + 1;
        } else {
            let is_custom = str_eq(p.match_type.as_str(), "custom");
            let flag_opt: Option<bool> = if is_custom {
                match &p.rule {
                    Some(rl) => Some(rl.create_date_subfolder),
                    None => None,
                }
            } else {
                match &p.default_rule {
                    Some(dr) => Some(dr.create_date_subfolder),
                    None => None,
                }
            };
            match flag_opt {
                Some(flag) => {
                    let folder: String = if flag && p.file.modified_at.unicode_len() >= 7 {
                        let date_part = p.file.modified_at.as_str().substring_char(0, 7);
                        path_join(p.destination.as_str(), date_part)
                    } else {
                        p.destination.clone()
                    };
                    let dest_file = path_join(folder.as_str(), p.file.name.as_str());
                    let m = PlannedMove { from: p.file.path.clone(), dest_folder: folder, dest_file };
                    proof {
                        assert(p.file.modified_at@.subrange(0, 7) =~= p.file.modified_at@.take(7));
                        assert(move_ok(m, previews@[i as int]));
                    }
                    out.push(m);
                },
                None => {},
            }
        }
        i = i + 1;
    }
    proof {
        assert(previews@.take(n as int) =~= previews@);
    }
    (out, skipped)
}

/// Assembles the outcome of a custom-rule run; it succeeded exactly when no
/// per-file error was collected.
pub fn execute_rules_result(executed_count: usize, skipped_count: usize, errors: Vec<String>) -> (r:
    ExecuteRulesResult)
    ensures
        r.success == (r.errors@.len() == 0),
        r.executed_count == executed_count,
        r.skipped_count == skipped_count,
        r.errors@ == errors@,
{
    let success = errors.len() == 0;
    ExecuteRulesResult { success, executed_count, skipped_count, errors }
}

/// Assembles the outcome of a unified run; it succeeded exactly when no
/// per-file error was collected.
pub fn unified_result(
    files_moved: usize,
    files_skipped: usize,
    errors: Vec<String>,
    history_id: i64,
) -> (r: UnifiedOrganizeResult)
    ensures
        r.success == (r.errors@.len() == 0),
        r.files_moved == files_moved,
        r.files_skipped == files_skipped,
        r.errors@ == errors@,
        r.history_id == history_id,
{
    let success = errors.len() == 0;
    UnifiedOrganizeResult { success, files_moved, files_skipped, errors, history_id }
}

/// One stored default rule, fresh from the seed.
fn seed_default(id: i64, category: &str, destination: &str, priority: i32) -> (r: DefaultRule)
    ensures
        r.id == id,
        r.category@ == category@,
        r.enabled,
        r.destination@ == destination@,
        !r.create_date_subfolder,
        r.priority == priority,
{
    DefaultRule {
        id,
        category: String::from_str(category),
        enabled: true,
        destination: String::from_str(destination),
        create_date_subfolder: false,
        priority,
    }
}

/// The rows the default-rule store is seeded with on first access: one
/// enabled rule per category, its folder named after the category, without
/// date subfolders, priorities in listing order.
pub fn default_rule_seed() -> (r: Vec<DefaultRule>)
    ensures
        r@.len() == 8,
        forall|k: int|
            0 <= k < 8 ==> (#[trigger] r@[k]).enabled && !r@[k].create_date_subfolder && r@[k].priority == k && r@[k].id == k + 1,
        r@[0].category@ == "images"@ && r@[0].destination@ == "Images"@,
        r@[1].category@ == "documents"@ && r@[1].destination@ == "Documents"@,
        r@[2].category@ == "videos"@ && r@[2].destination@ == "Videos"@,
        r@[3].category@ == "music"@ && r@[3].destination@ == "Music"@,
        r@[4].category@ == "archives"@ && r@[4].destination@ == "Archives"@,
        r@[5].category@ == "installers"@ && r@[5].destination@ == "Installers"@,
        r@[6].category@ == "code"@ && r@[6].destination@ == "Code"@,
        r@[7].category@ == "others"@ && r@[7].destination@ == "Others"@,
{
    let mut out: Vec<DefaultRule> = Vec::new();
    out.push(seed_default(1, "images", "Images", 0));
    out.push(seed_default(2, "documents", "Documents", 1));
    out.push(seed_default(3, "videos", "Videos", 2));
    out.push(seed_default(4, "music", "Music", 3));
    out.push(seed_default(5, "archives", "Archives", 4));
    out.push(seed_default(6, "installers", "Installers", 5));
    out.push(seed_default(7, "code", "Code", 6));
    out.push(seed_default(8, "others", "Others", 7));
    out
}

/// One stored override from an extension to a category and target folder.
#[derive(Debug, Clone)]
pub struct ExtensionMapping {
    pub id: Option<i64>,
    pub extension: String,
    pub category: String,
    pub target_folder: String,
}

/// A stored extension, normalized: ASCII-lowercased, behind a leading dot
/// that is added when missing.
pub open spec fn spec_normalize_extension(s: Seq<char>) -> Seq<char> {
    if s.len() > 0 && s[0] == '.' {
        crate::text::ascii_lower(s)
    } else {
        seq!['.'] + crate::text::ascii_lower(s)
    }
}

/// Normalizes an extension for the override store.
pub fn normalize_extension(extension: &str) -> (r: String)
    ensures
        r@ == spec_normalize_extension(extension@),
{
    let has_dot = extension.unicode_len() > 0 && extension.get_char(0) == '.';
    if has_dot {
        ascii_lowercase(extension)
    } else {
        let mut out = String::new();
        crate::text::push_char(&mut out, '.');
        let low = ascii_lowercase(extension);
        out.append(low.as_str());
        proof {
            assert(out@ =~= seq!['.'] + crate::text::ascii_lower(extension@));
        }
        out
    }
}

/// One seeded extension override.
fn seed_mapping(extension: &str, category: &str, target_folder: &str) -> (r: ExtensionMapping)
    ensures
        r.id is None,
        r.extension@ == extension@,
        r.category@ == category@,
        r.target_folder@ == target_folder@,
{
    ExtensionMapping {
        id: None,
        extension: String::from_str(extension),
        category: String::from_str(category),
        target_folder: String::from_str(target_folder),
    }
}

/// The extension seeded at one position of the override table.
pub open spec fn spec_seed_extension(k: int) -> Seq<char> {
    if k == 0 {
        ".jpg"@
    } else if k == 1 {
        ".jpeg"@
    } else if k == 2 {
        ".png"@
    } else if k == 3 {
        ".gif"@
    } else if k == 4 {
        ".bmp"@
    } else if k == 5 {
        ".svg"@
    } else if k == 6 {
        ".webp"@
    } else if k == 7 {
        ".ico"@
    } else if k == 8 {
        ".psd"@
    } else if k == 9 {
        ".ai"@
    } else if k == 10 {
        ".pdf"@
    } else if k == 11 {
        ".doc"@
    } else if k == 12 {
        ".docx"@
    } else if k == 13 {
        ".xls"@
    } else if k == 14 {
        ".xlsx"@
    } else if k == 15 {
        ".ppt"@
    } else if k == 16 {
        ".pptx"@
    } else if k == 17 {
        ".hwp"@
    } else if k == 18 {
        ".hwpx"@
    } else if k == 19 {
        ".txt"@
    } else if k == 20 {
        ".rtf"@
    } else if k == 21 {
        ".odt"@
    } else if k == 22 {
        ".mp4"@
    } else if k == 23 {
        ".avi"@
    } else if k == 24 {
        ".mkv"@
    } else if k == 25 {
        ".mov"@
    } else if k == 26 {
        ".wmv"@
    } else if k == 27 {
        ".flv"@
    } else if k == 28 {
        ".webm"@
    } else if k == 29 {
        ".mp3"@
    } else if k == 30 {
        ".wav"@
    } else if k == 31 {
        ".flac"@
    } else if k == 32 {
        ".aac"@
    } else if k == 33 {
        ".m4a"@
    } else if k == 34 {
        ".wma"@
    } else if k == 35 {
        ".ogg"@
    } else if k == 36 {
        ".zip"@
    } else if k == 37 {
        ".rar"@
    } else if k == 38 {
        ".7z"@
    } else if k == 39 {
        ".tar"@
    } else if k == 40 {
        ".gz"@
    } else if k == 41 {
        ".bz2"@
    } else if k == 42 {
        ".exe"@
    } else if k == 43 {
        ".msi"@
    } else if k == 44 {
        ".dmg"@
    } else if k == 45 {
        ".pkg"@
    } else if k == 46 {
        ".deb"@
    } else if k == 47 {
        ".rpm"@
    } else if k == 48 {
        ".py"@
    } else if k == 49 {
        ".js"@
    } else if k == 50 {
        ".ts"@
    } else if k == 51 {
        ".tsx"@
    } else if k == 52 {
        ".jsx"@
    } else if k == 53 {
        ".html"@
    } else if k == 54 {
        ".css"@
    } else if k == 55 {
        ".java"@
    } else if k == 56 {
        ".cpp"@
    } else if k == 57 {
        ".c"@
    } else if k == 58 {
        ".h"@
    } else if k == 59 {
        ".rs"@
    } else if k == 60 {
        ".go"@
    } else if k == 61 {
        ".json"@
    } else if k == 62 {
        ".xml"@
    } else if k == 63 {
        ".yaml"@
    } else if k == 64 {
        ".yml"@
    } else if k == 65 {
        ".md"@
    } else {
        Seq::empty()
    }
}

/// The category seeded at one position of the override table.
pub open spec fn spec_seed_category(k: int) -> Seq<char> {
    if k == 0 {
        "images"@
    } else if k == 1 {
        "images"@
    } else if k == 2 {
        "images"@
    } else if k == 3 {
        "images"@
    } else if k == 4 {
        "images"@
    } else if k == 5 {
        "images"@
    } else if k == 6 {
        "images"@
    } else if k == 7 {
        "images"@
    } else if k == 8 {
        "images"@
    } else if k == 9 {
        "images"@
    } else if k == 10 {
        "documents"@
    } else if k == 11 {
        "documents"@
    } else if k == 12 {
        "documents"@
    } else if k == 13 {
        "documents"@
    } else if k == 14 {
        "documents"@
    } else if k == 15 {
        "documents"@
    } else if k == 16 {
        "documents"@
    } else if k == 17 {
        "documents"@
    } else if k == 18 {
        "documents"@
    } else if k == 19 {
        "documents"@
    } else if k == 20 {
        "documents"@
    } else if k == 21 {
        "documents"@
    } else if k == 22 {
        "videos"@
    } else if k == 23 {
        "videos"@
    } else if k == 24 {
        "videos"@
    } else if k == 25 {
        "videos"@
    } else if k == 26 {
        "videos"@
    } else if k == 27 {
        "videos"@
    } else if k == 28 {
        "videos"@
    } else if k == 29 {
        "music"@
    } else if k == 30 {
        "music"@
    } else if k == 31 {
        "music"@
    } else if k == 32 {
        "music"@
    } else if k == 33 {
        "music"@
    } else if k == 34 {
        "music"@
    } else if k == 35 {
        "music"@
    } else if k == 36 {
        "archives"@
    } else if k == 37 {
        "archives"@
    } else if k == 38 {
        "archives"@
    } else if k == 39 {
        "archives"@
    } else if k == 40 {
        "archives"@
    } else if k == 41 {
        "archives"@
    } else if k == 42 {
        "installers"@
    } else if k == 43 {
        "installers"@
    } else if k == 44 {
        "installers"@
    } else if k == 45 {
        "installers"@
    } else if k == 46 {
        "installers"@
    } else if k == 47 {
        "installers"@
    } else if k == 48 {
        "code"@
    } else if k == 49 {
        "code"@
    } else if k == 50 {
        "code"@
    } else if k == 51 {
        "code"@
    } else if k == 52 {
        "code"@
    } else if k == 53 {
        "code"@
    } else if k == 54 {
        "code"@
    } else if k == 55 {
        "code"@
    } else if k == 56 {
        "code"@
    } else if k == 57 {
        "code"@
    } else if k == 58 {
        "code"@
    } else if k == 59 {
        "code"@
    } else if k == 60 {
        "code"@
    } else if k == 61 {
        "code"@
    } else if k == 62 {
        "code"@
    } else if k == 63 {
        "code"@
    } else if k == 64 {
        "code"@
    } else if k == 65 {
        "code"@
    } else {
        Seq::empty()
    }
}

/// The target folder seeded at one position of the override table.
pub open spec fn spec_seed_folder(k: int) -> Seq<char> {
    if k == 0 {
        "Images"@
    } else if k == 1 {
        "Images"@
    } else if k == 2 {
        "Images"@
    } else if k == 3 {
        "Images"@
    } else if k == 4 {
        "Images"@
    } else if k == 5 {
        "Images"@
    } else if k == 6 {
        "Images"@
    } else if k == 7 {
        "Images"@
    } else if k == 8 {
        "Images"@
    } else if k == 9 {
        "Images"@
    } else if k == 10 {
        "Documents"@
    } else if k == 11 {
        "Documents"@
    } else if k == 12 {
        "Documents"@
    } else if k == 13 {
        "Documents"@
    } else if k == 14 {
        "Documents"@
    } else if k == 15 {
        "Documents"@
    } else if k == 16 {
        "Documents"@
    } else if k == 17 {
        "Documents"@
    } else if k == 18 {
        "Documents"@
    } else if k == 19 {
        "Documents"@
    } else if k == 20 {
        "Documents"@
    } else if k == 21 {
        "Documents"@
    } else if k == 22 {
        "Videos"@
    } else if k == 23 {
        "Videos"@
    } else if k == 24 {
        "Videos"@
    } else if k == 25 {
        "Videos"@
    } else if k == 26 {
        "Videos"@
    } else if k == 27 {
        "Videos"@
    } else if k == 28 {
        "Videos"@
    } else if k == 29 {
        "Music"@
    } else if k == 30 {
        "Music"@
    } else if k == 31 {
        "Music"@
    } else if k == 32 {
        "Music"@
    } else if k == 33 {
        "Music"@
    } else if k == 34 {
        "Music"@
    } else if k == 35 {
        "Music"@
    } else if k == 36 {
        "Archives"@
    } else if k == 37 {
        "Archives"@
    } else if k == 38 {
        "Archives"@
    } else if k == 39 {
        "Archives"@
    } else if k == 40 {
        "Archives"@
    } else if k == 41 {
        "Archives"@
    } else if k == 42 {
        "Installers"@
    } else if k == 43 {
        "Installers"@
    } else if k == 44 {
        "Installers"@
    } else if k == 45 {
        "Installers"@
    } else if k == 46 {
        "Installers"@
    } else if k == 47 {
        "Installers"@
    } else if k == 48 {
        "Code"@
    } else if k == 49 {
        "Code"@
    } else if k == 50 {
        "Code"@
    } else if k == 51 {
        "Code"@
    } else if k == 52 {
        "Code"@
    } else if k == 53 {
        "Code"@
    } else if k == 54 {
        "Code"@
    } else if k == 55 {
        "Code"@
    } else if k == 56 {
        "Code"@
    } else if k == 57 {
        "Code"@
    } else if k == 58 {
        "Code"@
    } else if k == 59 {
        "Code"@
    } else if k == 60 {
        "Code"@
    } else if k == 61 {
        "Code"@
    } else if k == 62 {
        "Code"@
    } else if k == 63 {
        "Code"@
    } else if k == 64 {
        "Code"@
    } else if k == 65 {
        "Code"@
    } else {
        Seq::empty()
    }
}

/// The seeded row at one position of the override table.
fn seed_mapping_at(k: usize) -> (r: ExtensionMapping)
    requires
        k < 66,
    ensures
        r.id is None,
        r.extension@ == spec_seed_extension(k as int),
        r.category@ == spec_seed_category(k as int),
        r.target_folder@ == spec_seed_folder(k as int),
{
    match k {
        0 => seed_mapping(".jpg", "images", "Images"),
        1 => seed_mapping(".jpeg", "images", "Images"),
        2 => seed_mapping(".png", "images", "Images"),
        3 => seed_mapping(".gif", "images", "Images"),
        4 => seed_mapping(".bmp", "images", "Images"),
        5 => seed_mapping(".svg", "images", "Images"),
        6 => seed_mapping(".webp", "images", "Images"),
        7 => seed_mapping(".ico", "images", "Images"),
        8 => seed_mapping(".psd", "images", "Images"),
        9 => seed_mapping(".ai", "images", "Images"),
        10 => seed_mapping(".pdf", "documents", "Documents"),
        11 => seed_mapping(".doc", "documents", "Documents"),
        12 => seed_mapping(".docx", "documents", "Documents"),
        13 => seed_mapping(".xls", "documents", "Documents"),
        14 => seed_mapping(".xlsx", "documents", "Documents"),
        15 => seed_mapping(".ppt", "documents", "Documents"),
        16 => seed_mapping(".pptx", "documents", "Documents"),
        17 => seed_mapping(".hwp", "documents", "Documents"),
        18 => seed_mapping(".hwpx", "documents", "Documents"),
        19 => seed_mapping(".txt", "documents", "Documents"),
        20 => seed_mapping(".rtf", "documents", "Documents"),
        21 => seed_mapping(".odt", "documents", "Documents"),
        22 => seed_mapping(".mp4", "videos", "Videos"),
        23 => seed_mapping(".avi", "videos", "Videos"),
        24 => seed_mapping(".mkv", "videos", "Videos"),
        25 => seed_mapping(".mov", "videos", "Videos"),
        26 => seed_mapping(".wmv", "videos", "Videos"),
        27 => seed_mapping(".flv", "videos", "Videos"),
        28 => seed_mapping(".webm", "videos", "Videos"),
        29 => seed_mapping(".mp3", "music", "Music"),
        30 => seed_mapping(".wav", "music", "Music"),
        31 => seed_mapping(".flac", "music", "Music"),
        32 => seed_mapping(".aac", "music", "Music"),
        33 => seed_mapping(".m4a", "music", "Music"),
        34 => seed_mapping(".wma", "music", "Music"),
        35 => seed_mapping(".ogg", "music", "Music"),
        36 => seed_mapping(".zip", "archives", "Archives"),
        37 => seed_mapping(".rar", "archives", "Archives"),
        38 => seed_mapping(".7z", "archives", "Archives"),
        39 => seed_mapping(".tar", "archives", "Archives"),
        40 => seed_mapping(".gz", "archives", "Archives"),
        41 => seed_mapping(".bz2", "archives", "Archives"),
        42 => seed_mapping(".exe", "installers", "Installers"),
        43 => seed_mapping(".msi", "installers", "Installers"),
        44 => seed_mapping(".dmg", "installers", "Installers"),
        45 => seed_mapping(".pkg", "installers", "Installers"),
        46 => seed_mapping(".deb", "installers", "Installers"),
        47 => seed_mapping(".rpm", "installers", "Installers"),
        48 => seed_mapping(".py", "code", "Code"),
        49 => seed_mapping(".js", "code", "Code"),
        50 => seed_mapping(".ts", "code", "Code"),
        51 => seed_mapping(".tsx", "code", "Code"),
        52 => seed_mapping(".jsx", "code", "Code"),
        53 => seed_mapping(".html", "code", "Code"),
        54 => seed_mapping(".css", "code", "Code"),
        55 => seed_mapping(".java", "code", "Code"),
        56 => seed_mapping(".cpp", "code", "Code"),
        57 => seed_mapping(".c", "code", "Code"),
        58 => seed_mapping(".h", "code", "Code"),
        59 => seed_mapping(".rs", "code", "Code"),
        60 => seed_mapping(".go", "code", "Code"),
        61 => seed_mapping(".json", "code", "Code"),
        62 => seed_mapping(".xml", "code", "Code"),
        63 => seed_mapping(".yaml", "code", "Code"),
        64 => seed_mapping(".yml", "code", "Code"),
        _ => seed_mapping(".md", "code", "Code"),
    }
}

/// The rows the override store is seeded with when empty, each pinned by
/// position. The seed mirrors the classifier's built-in table for the
/// common extensions; the tests hold the two against each other.
pub fn default_extension_mappings() -> (r: Vec<ExtensionMapping>)
    ensures
        r@.len() == 66,
        forall|k: int|
            0 <= k < 66 ==> (#[trigger] r@[k]).id is None && r@[k].extension@
                == spec_seed_extension(k) && r@[k].category@ == spec_seed_category(k) && r@[k].target_folder@ == spec_seed_folder(k),
{
    let mut out: Vec<ExtensionMapping> = Vec::new();
    let mut k: usize = 0;
    while k < 66
        invariant
            k <= 66,
            out@.len() == k,
            forall|j: int|
                0 <= j < k ==> (#[trigger] out@[j]).id is None && out@[j].extension@
                    == spec_seed_extension(j) && out@[j].category@ == spec_seed_category(j)
                    && out@[j].target_folder@ == spec_seed_folder(j),
        decreases 66 - k,
    {
        out.push(seed_mapping_at(k));
        k = k + 1;
    }
    out
}

} // verus!
