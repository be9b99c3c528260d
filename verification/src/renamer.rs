//! Batch renaming. A list of rules is applied in order to every file's
//! stem: find-and-replace, prefixing, suffixing, a running zero-padded
//! sequence number shared by the whole batch, a date tag, case changes and
//! regular-expression rewriting. Names that would collide inside the batch
//! are flagged instead of renamed.

use vstd::prelude::*;
use crate::text::{ascii_lower, ascii_lower_char, dec_seq, is_prefix_of, push_char, str_eq};

verus! {

/// One renaming rule; the fields its kind does not use stay empty.
#[derive(Debug, Clone)]
pub struct RenameRule {
    pub rule_type: String,
    pub find_text: Option<String>,
    pub replace_text: Option<String>,
    pub prefix: Option<String>,
    pub suffix: Option<String>,
    pub start_number: Option<i32>,
    pub digit_count: Option<i32>,
    pub date_format: Option<String>,
    pub date_source: Option<String>,
    pub case_type: Option<String>,
    pub regex_pattern: Option<String>,
    pub regex_replace: Option<String>,
}

/// What one file would be renamed to, and whether that name collides
/// within the batch.
#[derive(Debug, Clone)]
pub struct RenamePreview {
    pub original_path: String,
    pub original_name: String,
    pub new_name: String,
    pub has_conflict: bool,
    pub conflict_message: Option<String>,
}

/// The outcome of one batch rename.
#[derive(Debug, Clone)]
pub struct RenameResult {
    pub success: bool,
    pub renamed_count: usize,
    pub failed_count: usize,
    pub errors: Vec<String>,
}

/// One file handed to the renamer: its path, full name, stem and extension
/// (with its dot), and the rendered date tag for each rule of the batch
/// (empty where a rule carries none).
#[derive(Debug, Clone)]
pub struct RenameFile {
    pub path: String,
    pub name: String,
    pub stem: String,
    pub extension: String,
    pub date_texts: Vec<String>,
}

/// Named result: what `regex::Regex::new` followed by
/// `Regex::replace_all` yields for a pattern, a replacement and a text,
/// with an invalid pattern leaving the text unchanged. It depends on the
/// three strings alone.
pub uninterp spec fn regex_replace_of(pattern: Seq<char>, rep: Seq<char>, text: Seq<char>) -> Seq<
    char,
>;

/// Relies on `regex::Regex::new` and `regex::Regex::replace_all`: the text
/// with every match of the pattern replaced; a pattern that does not
/// compile leaves the text as it was, so rule application fails closed.
#[verifier::external_body]
fn regex_replace_all(pattern: &str, rep: &str, text: &str) -> (r: String)
    ensures
        r@ == regex_replace_of(pattern@, rep@, text@),
{
    match regex::Regex::new(pattern) {
        Ok(re) => re.replace_all(text, rep).to_string(),
        Err(_) => text.to_string(),
    }
}

/// The stem with every occurrence of `find` replaced by `rep`, scanning
/// left to right without overlap.
pub open spec fn spec_replace_all(s: Seq<char>, find: Seq<char>, rep: Seq<char>) -> Seq<char>
    recommends
        find.len() > 0,
    decreases s.len(),
{
    if s.len() == 0 {
        s
    } else if find.len() > 0 && is_prefix_of(find, s) {
        rep + spec_replace_all(s.skip(find.len() as int), find, rep)
    } else {
        seq![s[0]] + spec_replace_all(s.drop_first(), find, rep)
    }
}

/// Whether `find` sits at position `i` of `s`.
fn region_matches(s: &str, i: usize, find: &str) -> (r: bool)
    requires
        i <= s@.len(),
    ensures
        r == is_prefix_of(find@, s@.skip(i as int)),
{
    let n = s.unicode_len();
    let fn_ = find.unicode_len();
    if fn_ > n - i {
        return false;
    }
    let mut j: usize = 0;
    while j < fn_
        invariant
            j <= fn_,
            fn_ <= n - i,
            i <= n,
            n == s@.len(),
            fn_ == find@.len(),
            forall|k: int| 0 <= k < j ==> s@[i + k] == find@[k],
        decreases fn_ - j,
    {
        if s.get_char(i + j) != find.get_char(j) {
            proof {
                assert(s@.skip(i as int)[j as int] != find@[j as int]);
                assert(s@.skip(i as int).take(find@.len() as int)[j as int] != find@[j as int]);
            }
            return false;
        }
        j = j + 1;
    }
    proof {
        assert forall|k: int| 0 <= k < fn_ implies s@.skip(i as int).take(find@.len() as int)[k]
            == find@[k] by {
            assert(s@[i + k] == find@[k]);
        }
        assert(s@.skip(i as int).take(find@.len() as int) =~= find@);
    }
    true
}

/// Replaces every occurrence of `find` in `s` by `rep`, scanning left to
/// right without overlap.
pub fn replace_all(s: &str, find: &str, rep: &str) -> (r: String)
    requires
        find@.len() > 0,
    ensures
        r@ == spec_replace_all(s@, find@, rep@),
{
    let n = s.unicode_len();
    let fn_ = find.unicode_len();
    let mut out = String::new();
    let mut i: usize = 0;
    proof {
        assert(s@.skip(0) =~= s@);
        assert(Seq::<char>::empty() + spec_replace_all(s@, find@, rep@) =~= spec_replace_all(
            s@,
            find@,
            rep@,
        ));
    }
    while i < n
        invariant
            i <= n,
            n == s@.len(),
            fn_ == find@.len(),
            fn_ > 0,
            spec_replace_all(s@, find@, rep@) == out@ + spec_replace_all(
                s@.skip(i as int),
                find@,
                rep@,
            ),
        decreases n - i,
    {
        let ghost pre_out = out@;
        if region_matches(s, i, find) {
            out.append(rep);
            proof {
                assert(s@.skip(i as int).len() > 0);
                assert(s@.skip(i as int).skip(find@.len() as int) =~= s@.skip(i + fn_));
                assert(spec_replace_all(s@.skip(i as int), find@, rep@) == rep@
                    + spec_replace_all(s@.skip(i + fn_), find@, rep@));
                assert(out@ + spec_replace_all(s@.skip(i + fn_), find@, rep@) =~= pre_out + (rep@
                    + spec_replace_all(s@.skip(i + fn_), find@, rep@)));
            }
            i = i + fn_;
        } else {
            let c = s.get_char(i);
            push_char(&mut out, c);
            proof {
                assert(s@.skip(i as int).len() > 0);
                assert(s@.skip(i as int)[0] == c);
                assert(s@.skip(i as int).drop_first() =~= s@.skip(i + 1));
                assert(spec_replace_all(s@.skip(i as int), find@, rep@) == seq![c]
                    + spec_replace_all(s@.skip(i + 1), find@, rep@));
                assert(out@ + spec_replace_all(s@.skip(i + 1), find@, rep@) =~= pre_out + (seq![c]
                    + spec_replace_all(s@.skip(i + 1), find@, rep@)));
            }
            i = i + 1;
        }
    }
    proof {
        assert(s@.skip(n as int).len() == 0);
        assert(out@ + spec_replace_all(s@.skip(n as int), find@, rep@) =~= out@);
    }
    out
}

/// `k` zero characters.
pub open spec fn zeros(k: int) -> Seq<char> {
    Seq::new(if k < 0 {
        0nat
    } else {
        k as nat
    }, |i: int| '0')
}

/// The decimal rendering of `n`, left-padded with zeros to `width`.
pub open spec fn spec_padded(n: nat, width: int) -> Seq<char> {
    zeros(width - dec_seq(n).len()) + dec_seq(n)
}

/// Renders `n` left-padded with zeros to `width` digits.
pub fn padded_decimal(n: u64, width: u32) -> (r: String)
    requires
        width <= 64,
    ensures
        r@ == spec_padded(n as nat, width as int),
{
    let digits = crate::text::u64_to_string(n);
    let dl = digits.as_str().unicode_len();
    let mut out = String::new();
    if dl < width as usize {
        let pad = width as usize - dl;
        let mut k: usize = 0;
        while k < pad
            invariant
                k <= pad,
                pad == width - dl,
                dl == dec_seq(n as nat).len(),
                out@ =~= zeros(k as int),
            decreases pad - k,
        {
            push_char(&mut out, '0');
            proof {
                assert(out@ =~= zeros(k + 1 as int));
            }
            k = k + 1;
        }
    }
    out.append(digits.as_str());
    proof {
        assert(out@ =~= spec_padded(n as nat, width as int));
    }
    out
}

/// Uppercases one ASCII character.
pub open spec fn ascii_upper_char(c: char) -> char {
    if 97 <= c as u32 && c as u32 <= 122 {
        ((c as u8) - 32) as char
    } else {
        c
    }
}

/// ASCII uppercase of a whole sequence.
pub open spec fn ascii_upper(s: Seq<char>) -> Seq<char> {
    s.map_values(|c: char| ascii_upper_char(c))
}

/// Title case: the first character and every character behind a space are
/// uppercased, all others lowercased.
pub open spec fn spec_title_case(s: Seq<char>) -> Seq<char> {
    Seq::new(
        s.len(),
        |i: int|
            if i == 0 || s[i - 1] == ' ' {
                ascii_upper_char(s[i])
            } else {
                ascii_lower_char(s[i])
            },
    )
}

/// Uppercases a string, ASCII letters only.
pub fn ascii_uppercase(s: &str) -> (r: String)
    ensures
        r@ == ascii_upper(s@),
{
    let n = s.unicode_len();
    let mut out = String::new();
    let mut i: usize = 0;
    while i < n
        invariant
            i <= n,
            n == s@.len(),
            out@ == ascii_upper(s@.take(i as int)),
        decreases n - i,
    {
        let c = s.get_char(i);
        let u = c as u32;
        let up = if 97 <= u && u <= 122 {
            ((c as u8) - 32) as char
        } else {
            c
        };
        push_char(&mut out, up);
        proof {
            assert(s@.take(i + 1 as int) =~= s@.take(i as int).push(s@[i as int]));
            assert(ascii_upper(s@.take(i + 1 as int)) =~= ascii_upper(s@.take(i as int)).push(
                ascii_upper_char(s@[i as int]),
            ));
        }
        i = i + 1;
    }
    proof {
        assert(s@.take(n as int) =~= s@);
    }
    out
}

/// Title-cases a string, ASCII letters only.
pub fn title_case(s: &str) -> (r: String)
    ensures
        r@ == spec_title_case(s@),
{
    let n = s.unicode_len();
    let mut out = String::new();
    let mut i: usize = 0;
    while i < n
        invariant
            i <= n,
            n == s@.len(),
            out@.len() == i,
            forall|j: int| 0 <= j < i ==> #[trigger] out@[j] == spec_title_case(s@)[j],
        decreases n - i,
    {
        let c = s.get_char(i);
        let upper_it = if i == 0 {
            true
        } else {
            s.get_char(i - 1) == ' '
        };
        let u = c as u32;
        let t = if upper_it {
            if 97 <= u && u <= 122 {
                ((c as u8) - 32) as char
            } else {
                c
            }
        } else {
            if 65 <= u && u <= 90 {
                ((c as u8) + 32) as char
            } else {
                c
            }
        };
        push_char(&mut out, t);
        i = i + 1;
    }
    proof {
        assert(out@ =~= spec_title_case(s@));
    }
    out
}

/// Whether a rule consumes the running sequence number.
pub open spec fn is_seq_rule(r: RenameRule) -> bool {
    r.rule_type@ == "sequence"@
}

/// The padding width of a sequence rule.
pub open spec fn spec_digit_width(r: RenameRule) -> int {
    match r.digit_count {
        Some(d) => d as int,
        None => 3,
    }
}

/// What one rule turns a stem into, given the file's date tag for that
/// rule and the running sequence number.
pub open spec fn spec_apply_rule(
    stem: Seq<char>,
    r: RenameRule,
    date_text: Seq<char>,
    counter: int,
) -> Seq<char> {
    if r.rule_type@ == "findReplace"@ {
        let find = crate::rules::opt_str(r.find_text);
        if find.len() > 0 {
            spec_replace_all(stem, find, crate::rules::opt_str(r.replace_text))
        } else {
            stem
        }
    } else if r.rule_type@ == "prefix"@ {
        crate::rules::opt_str(r.prefix) + stem
    } else if r.rule_type@ == "suffix"@ {
        stem + crate::rules::opt_str(r.suffix)
    } else if r.rule_type@ == "sequence"@ {
        stem + seq!['_'] + spec_padded(
            if counter >= 0 {
                counter as nat
            } else {
                0nat
            },
            spec_digit_width(r),
        )
    } else if r.rule_type@ == "date"@ {
        if date_text.len() > 0 {
            stem + seq!['_'] + date_text
        } else {
            stem
        }
    } else if r.rule_type@ == "case"@ {
        let ct = crate::rules::opt_str(r.case_type);
        if ct == "upper"@ {
            ascii_upper(stem)
        } else if ct == "title"@ {
            spec_title_case(stem)
        } else {
            ascii_lower(stem)
        }
    } else if r.rule_type@ == "regex"@ {
        regex_replace_of(
            crate::rules::opt_str(r.regex_pattern),
            crate::rules::opt_str(r.regex_replace),
            stem,
        )
    } else {
        stem
    }
}

/// A batch's rules are usable: sequence widths are small and nonnegative.
pub open spec fn rename_rules_wf(rules: Seq<RenameRule>) -> bool {
    forall|j: int|
        0 <= j < rules.len() ==> 0 <= spec_digit_width(#[trigger] rules[j]) <= 64
}

/// Applies one rule to a stem. The caller passes the rule's rendered date
/// tag for this file and the current sequence number, and advances the
/// number itself when the rule consumed it.
pub fn apply_rule(stem: &str, rule: &RenameRule, date_text: &str, counter: i64) -> (r: String)
    requires
        0 <= spec_digit_width(*rule) <= 64,
        counter >= 0,
    ensures
        r@ == spec_apply_rule(stem@, *rule, date_text@, counter as int),
{
    let rt = rule.rule_type.as_str();
    let ghost target = spec_apply_rule(stem@, *rule, date_text@, counter as int);
    if str_eq(rt, "findReplace") {
        match &rule.find_text {
            Some(f) => {
                if f.as_str().unicode_len() > 0 {
                    let rep: &str = match &rule.replace_text {
                        Some(rp) => rp.as_str(),
                        None => "",
                    };
                    proof {
                        reveal_strlit("");
                        assert(""@ =~= Seq::<char>::empty());
                    }
                    let rr = replace_all(stem, f.as_str(), rep);
                    proof {
                        assert(rr@ == target);
                    }
                    rr
                } else {
                    stem.to_owned()
                }
            },
            None => stem.to_owned(),
        }
    } else if str_eq(rt, "prefix") {
        let mut out = String::new();
        match &rule.prefix {
            Some(p) => out.append(p.as_str()),
            None => (),
        }
        out.append(stem);
        proof {
            assert(out@ =~= crate::rules::opt_str(rule.prefix) + stem@);
            assert(out@ == target);
        }
        out
    } else if str_eq(rt, "suffix") {
        let mut out = String::new();
        out.append(stem);
        match &rule.suffix {
            Some(sf) => out.append(sf.as_str()),
            None => (),
        }
        proof {
            assert(out@ =~= stem@ + crate::rules::opt_str(rule.suffix));
            assert(out@ == target);
        }
        out
    } else if str_eq(rt, "sequence") {
        let width: u32 = match rule.digit_count {
            Some(d) => d as u32,
            None => 3,
        };
        let num = padded_decimal(counter as u64, width);
        let mut out = String::new();
        out.append(stem);
        push_char(&mut out, '_');
        out.append(num.as_str());
        proof {
            assert(out@ =~= stem@ + seq!['_'] + spec_padded(
                counter as nat,
                spec_digit_width(*rule),
            ));
            assert(out@ == target);
        }
        out
    } else if str_eq(rt, "date") {
        if date_text.unicode_len() > 0 {
            let mut out = String::new();
            out.append(stem);
            push_char(&mut out, '_');
            out.append(date_text);
            proof {
                assert(out@ =~= stem@ + seq!['_'] + date_text@);
                assert(out@ == target);
            }
            out
        } else {
            stem.to_owned()
        }
    } else if str_eq(rt, "case") {
        let ct: &str = match &rule.case_type {
            Some(c) => c.as_str(),
            None => "",
        };
        proof {
            reveal_strlit("");
            assert(""@ =~= Seq::<char>::empty());
            assert(ct@ == crate::rules::opt_str(rule.case_type));
        }
        if str_eq(ct, "upper") {
            let rr = ascii_uppercase(stem);
            proof {
                assert(rr@ == target);
            }
            rr
        } else if str_eq(ct, "title") {
            let rr = title_case(stem);
            proof {
                assert(rr@ == target);
            }
            rr
        } else {
            let rr = crate::text::ascii_lowercase(stem);
            proof {
                assert(rr@ == target);
            }
            rr
        }
    } else if str_eq(rt, "regex") {
        let pat: &str = match &rule.regex_pattern {
            Some(p) => p.as_str(),
            None => "",
        };
        let rep: &str = match &rule.regex_replace {
            Some(p) => p.as_str(),
            None => "",
        };
        proof {
            reveal_strlit("");
            assert(""@ =~= Seq::<char>::empty());
        }
        let rr = regex_replace_all(pat, rep, stem);
        proof {
            assert(rr@ == target);
        }
        rr
    } else {
        let rr = stem.to_owned();
        proof {
            assert(rr@ == target);
        }
        rr
    }
}

/// How many of the first `j` rules consume the sequence number.
pub open spec fn seq_rule_count(rules: Seq<RenameRule>, j: int) -> int
    decreases j,
{
    if j <= 0 {
        0
    } else {
        seq_rule_count(rules, j - 1) + if is_seq_rule(rules[j - 1]) {
            1int
        } else {
            0int
        }
    }
}

/// The stem after the rules from position `j` on, starting from the given
/// sequence number.
pub open spec fn spec_apply_from(
    stem: Seq<char>,
    rules: Seq<RenameRule>,
    j: int,
    date_texts: Seq<String>,
    counter: int,
) -> Seq<char>
    decreases rules.len() - j,
{
    if j < 0 || j >= rules.len() {
        stem
    } else {
        spec_apply_from(
            spec_apply_rule(stem, rules[j], date_texts[j]@, counter),
            rules,
            j + 1,
            date_texts,
            counter + if is_seq_rule(rules[j]) {
                1int
            } else {
                0int
            },
        )
    }
}

/// The new name of the file at position `i` of a batch: all rules applied
/// to its stem, the batch's sequence number having advanced once per
/// sequence rule for every earlier file, then the extension.
pub open spec fn spec_new_name(
    f: RenameFile,
    i: int,
    rules: Seq<RenameRule>,
    start: int,
) -> Seq<char> {
    spec_apply_from(
        f.stem@,
        rules,
        0,
        f.date_texts@,
        start + i * seq_rule_count(rules, rules.len() as int),
    ) + f.extension@
}

/// The sequence start of a batch: the first sequence rule's start number,
/// or one.
pub open spec fn spec_seq_start(rules: Seq<RenameRule>) -> int
    decreases rules.len(),
{
    if rules.len() == 0 {
        1
    } else if is_seq_rule(rules[0]) {
        match rules[0].start_number {
            Some(s) => s as int,
            None => 1,
        }
    } else {
        spec_seq_start(rules.drop_first())
    }
}

/// The names of two batch positions collide.
pub open spec fn name_conflict(
    files: Seq<RenameFile>,
    rules: Seq<RenameRule>,
    start: int,
    k: int,
) -> bool {
    exists|k2: int|
        #![trigger files[k2]]
        0 <= k2 && k2 < k && spec_new_name(files[k2], k2, rules, start) == spec_new_name(
            files[k],
            k,
            rules,
            start,
        )
}

/// Counting sequence rules never exceeds the positions counted.
proof fn lemma_seq_count_bound(rules: Seq<RenameRule>, j: int)
    requires
        0 <= j <= rules.len(),
    ensures
        0 <= seq_rule_count(rules, j) <= j,
    decreases j,
{
    if j > 0 {
        lemma_seq_count_bound(rules, j - 1);
    }
}

/// Finds the sequence start of a batch: the first sequence rule's start
/// number, or one.
fn seq_start(rules: &Vec<RenameRule>) -> (r: i64)
    ensures
        r == spec_seq_start(rules@),
{
    let n = rules.len();
    let mut j: usize = 0;
    proof {
        assert(rules@.skip(0) =~= rules@);
    }
    while j < n
        invariant
            j <= n,
            n == rules@.len(),
            spec_seq_start(rules@) == spec_seq_start(rules@.skip(j as int)),
        decreases n - j,
    {
        proof {
            assert(rules@.skip(j as int)[0] == rules@[j as int]);
            assert(rules@.skip(j as int).drop_first() =~= rules@.skip(j + 1));
        }
        if str_eq(rules[j].rule_type.as_str(), "sequence") {
            let s: i64 = match rules[j].start_number {
                Some(v) => v as i64,
                None => 1,
            };
            return s;
        }
        j = j + 1;
    }
    proof {
        assert(rules@.skip(n as int).len() == 0);
    }
    1
}

/// Previews a batch rename: every file's new name is the rules applied to
/// its stem (the batch's sequence number advancing once per sequence rule
/// per file) plus its extension, and a name already produced for an
/// earlier file of the batch is flagged as a conflict.
pub fn preview_rename(files: &Vec<RenameFile>, rules: &Vec<RenameRule>) -> (r: Vec<RenamePreview>)
    requires
        rename_rules_wf(rules@),
        forall|k: int|
            0 <= k < files@.len() ==> (#[trigger] files@[k]).date_texts@.len() == rules@.len(),
        spec_seq_start(rules@) >= 0,
        spec_seq_start(rules@) + (files@.len() + 1) * (rules@.len() + 1) <= i64::MAX,
    ensures
        r@.len() == files@.len(),
        forall|k: int|
            0 <= k < r@.len() ==> {
                let p = #[trigger] r@[k];
                &&& p.original_path@ == files@[k].path@
                &&& p.original_name@ == files@[k].name@
                &&& p.new_name@ == spec_new_name(
                    files@[k],
                    k,
                    rules@,
                    spec_seq_start(rules@),
                )
                &&& p.has_conflict == name_conflict(files@, rules@, spec_seq_start(rules@), k)
                &&& if p.has_conflict {
                    p.conflict_message matches Some(m) && m@ == "이름이 중복됩니다"@
                } else {
                    p.conflict_message is None
                }
            },
{
    let start = seq_start(rules);
    let n = files.len();
    let rn = rules.len();
    let ghost nseq = seq_rule_count(rules@, rules@.len() as int);
    proof {
        lemma_seq_count_bound(rules@, rules@.len() as int);
    }
    proof {
        assert(rules@.len() <= (files@.len() + 1) * (rules@.len() + 1)) by (nonlinear_arith)
            requires
                files@.len() >= 0,
                rules@.len() >= 0,
        ;
    }
    let mut out: Vec<RenamePreview> = Vec::new();
    let mut base: i64 = start;
    let mut i: usize = 0;
    while i < n
        invariant
            i <= n,
            n == files@.len(),
            rn == rules@.len(),
            start == spec_seq_start(rules@),
            nseq == seq_rule_count(rules@, rules@.len() as int),
            0 <= nseq <= rn,
            start >= 0,
            start + (n + 1) * (rn + 1) <= i64::MAX,
            base == start + i * nseq,
            base >= 0,
            base + rn <= i64::MAX,
            out@.len() == i,
            rename_rules_wf(rules@),
            forall|k: int|
                0 <= k < files@.len() ==> (#[trigger] files@[k]).date_texts@.len() == rules@.len(),
            forall|k: int|
                0 <= k < i ==> {
                    let p = #[trigger] out@[k];
                    &&& p.original_path@ == files@[k].path@
                    &&& p.original_name@ == files@[k].name@
                    &&& p.new_name@ == spec_new_name(files@[k], k, rules@, start as int)
                    &&& p.has_conflict == name_conflict(files@, rules@, start as int, k)
                    &&& if p.has_conflict {
                        p.conflict_message matches Some(m) && m@ == "이름이 중복됩니다"@
                    } else {
                        p.conflict_message is None
                    }
                },
        decreases n - i,
    {
        let f = &files[i];
        let mut cur: String = f.stem.clone();
        let mut counter: i64 = base;
        let mut j: usize = 0;
        while j < rn
            invariant
                j <= rn,
                rn == rules@.len(),
                i < n,
                n == files@.len(),
                *f == files@[i as int],
                f.date_texts@.len() == rules@.len(),
                rename_rules_wf(rules@),
                base >= 0,
                base + rn <= i64::MAX,
                counter == base + seq_rule_count(rules@, j as int),
                spec_apply_from(files@[i as int].stem@, rules@, 0, f.date_texts@, base as int)
                    == spec_apply_from(cur@, rules@, j as int, f.date_texts@, counter as int),
            decreases rn - j,
        {
            proof {
                lemma_seq_count_bound(rules@, j as int);
            }
            let rule = &rules[j];
            let dt = &f.date_texts[j];
            let next = apply_rule(cur.as_str(), rule, dt.as_str(), counter);
            let is_seq = str_eq(rule.rule_type.as_str(), "sequence");
            proof {
                assert(spec_apply_from(cur@, rules@, j as int, f.date_texts@, counter as int)
                    == spec_apply_from(
                    spec_apply_rule(cur@, rules@[j as int], f.date_texts@[j as int]@, counter as int),
                    rules@,
                    j + 1,
                    f.date_texts@,
                    counter as int + if is_seq_rule(rules@[j as int]) {
                        1int
                    } else {
                        0int
                    },
                ));
            }
            cur = next;
            if is_seq {
                counter = counter + 1;
            }
            j = j + 1;
        }
        let mut new_name = cur;
        new_name.append(f.extension.as_str());
        proof {
            assert(new_name@ == spec_new_name(files@[i as int], i as int, rules@, start as int));
        }
        // A name an earlier file already produced is a conflict.
        let mut conflict = false;
        let mut k: usize = 0;
        while k < i && !conflict
            invariant
                k <= i,
                i < n,
                i == out@.len(),
                n == files@.len(),
                start == spec_seq_start(rules@),
                new_name@ == spec_new_name(files@[i as int], i as int, rules@, start as int),
                forall|k2: int|
                    0 <= k2 < i ==> (#[trigger] out@[k2]).new_name@ == spec_new_name(
                        files@[k2],
                        k2,
                        rules@,
                        start as int,
                    ),
                !conflict ==> forall|k2: int|
                    0 <= k2 < k ==> spec_new_name(#[trigger] files@[k2], k2, rules@, start as int)
                        != new_name@,
                conflict ==> name_conflict(files@, rules@, start as int, i as int),
            decreases i - k + (if conflict {
                0int
            } else {
                1int
            }),
        {
            if str_eq(out[k].new_name.as_str(), new_name.as_str()) {
                conflict = true;
                proof {
                    assert(spec_new_name(files@[k as int], k as int, rules@, start as int)
                        == new_name@);
                }
            } else {
                k = k + 1;
            }
        }
        proof {
            if !conflict && name_conflict(files@, rules@, start as int, i as int) {
                let w = choose|w: int|
                    #![trigger files@[w]]
                    0 <= w && w < i && spec_new_name(files@[w], w, rules@, start as int)
                        == spec_new_name(files@[i as int], i as int, rules@, start as int);
                assert(spec_new_name(files@[w], w, rules@, start as int) != new_name@);
            }
        }
        let conflict_message: Option<String> = if conflict {
            Some(String::from_str("이름이 중복됩니다"))
        } else {
            None
        };
        let p = RenamePreview {
            original_path: f.path.clone(),
            original_name: f.name.clone(),
            new_name,
            has_conflict: conflict,
            conflict_message,
        };
        out.push(p);
        proof {
            assert((i + 1) * nseq == i * nseq + nseq) by (nonlinear_arith);
            assert((i + 1) * nseq + rn <= (n + 1) * (rn + 1)) by (nonlinear_arith)
                requires
                    0 <= nseq <= rn,
                    0 <= i < n,
            ;
        }
        base = base + (counter - base);
        i = i + 1;
    }
    out
}

/// Assembles the outcome of a batch rename; it succeeded exactly when no
/// file failed.
pub fn rename_result(renamed_count: usize, failed_count: usize, errors: Vec<String>) -> (r:
    RenameResult)
    ensures
        r.success == (failed_count == 0),
        r.renamed_count == renamed_count,
        r.failed_count == failed_count,
        r.errors@ == errors@,
{
    let success = failed_count == 0;
    RenameResult { success, renamed_count, failed_count, errors }
}

} // verus!
