//! Match rules in priority order: the first rule whose every condition
//! holds names the category.

use crate::models::file_info::FileInfo;
use crate::text::{contains_seq, contains_text, is_listed, lowercase, lowercase_text};
use vstd::prelude::*;

verus! {

/// One matching clause. A condition that is absent holds of every file.
#[derive(Debug, Clone)]
pub struct Rule {
    pub match_extension: Option<Vec<String>>,
    pub match_mime: Option<String>,
    pub match_name_regex: Option<String>,
    pub move_to: String,
}

/// Rules in priority order.
#[derive(Debug, Clone)]
pub struct RulesConfig {
    pub rules: Vec<Rule>,
}

/// What the regex crate finds for a pattern in a text: `None` when it
/// refuses the pattern, otherwise whether the pattern matches somewhere in
/// the text.
pub uninterp spec fn regex_outcome(pattern: Seq<char>, text: Seq<char>) -> Option<bool>;

/// Calls `regex::Regex::new` and `Regex::is_match`. The contract only names
/// the outcome; a pattern that does not compile gives `None`.
#[verifier::external_body]
pub(crate) fn regex_search(pattern: &str, text: &str) -> (res: Option<bool>)
    ensures
        res == regex_outcome(pattern@, text@),
{
    match regex::Regex::new(pattern) {
        Ok(re) => Some(re.is_match(text)),
        Err(_) => None,
    }
}

/// The condition on names holds when the pattern compiled and matched; a
/// pattern that does not compile holds of no name.
pub fn name_condition_holds(outcome: Option<bool>) -> (res: bool)
    ensures
        res == (outcome == Some(true)),
{
    match outcome {
        Some(found) => found,
        None => false,
    }
}

/// `ext` is one of `accepted`, letter case aside.
pub open spec fn extension_accepted(accepted: Seq<String>, ext: Seq<char>) -> bool {
    exists|i: int|
        0 <= i < accepted.len() && #[trigger] lowercase_text(accepted[i]@) == lowercase_text(ext)
}

/// Every condition that the rule declares holds of the file.
pub open spec fn rule_matches(file: &FileInfo, rule: &Rule) -> bool {
    &&& rule.match_extension matches Some(accepted) ==> extension_accepted(
        accepted@,
        file.metadata.extension@,
    )
    &&& rule.match_mime matches Some(mime) ==> contains_seq(file.metadata.mime_type@, mime@)
    &&& rule.match_name_regex matches Some(pattern) ==> regex_outcome(pattern@, file.name@) == Some(
        true,
    )
}

/// The index of the first rule at or after `from` that matches the file, or
/// the number of rules when none does.
pub open spec fn first_match_from(file: &FileInfo, rules: Seq<Rule>, from: int) -> int
    decreases rules.len() - from,
{
    if from < 0 || from >= rules.len() {
        rules.len() as int
    } else if rule_matches(file, &rules[from]) {
        from
    } else {
        first_match_from(file, rules, from + 1)
    }
}

/// The category that the rules give a file: the target of the first
/// matching rule, if any rule matches.
pub open spec fn rules_category(file: &FileInfo, rules: Seq<Rule>) -> Option<Seq<char>> {
    let k = first_match_from(file, rules, 0);
    if k < rules.len() {
        Some(rules[k].move_to@)
    } else {
        None
    }
}

/// The texts of a list, each in lower case.
pub fn lowercase_all(list: &Vec<String>) -> (res: Vec<String>)
    ensures
        res@.len() == list@.len(),
        forall|i: int| 0 <= i < list@.len() ==> (#[trigger] res@[i])@ == lowercase_text(list@[i]@),
{
    let mut lowered: Vec<String> = Vec::new();
    let mut i: usize = 0;
    while i < list.len()
        invariant
            i <= list.len(),
            lowered@.len() == i,
            forall|k: int| 0 <= k < i ==> (#[trigger] lowered@[k])@ == lowercase_text(list@[k]@),
        decreases list.len() - i,
    {
        lowered.push(lowercase(list[i].as_str()));
        i += 1;
    }
    lowered
}

fn extension_in(accepted: &Vec<String>, ext: &str) -> (res: bool)
    ensures
        res == extension_accepted(accepted@, ext@),
{
    let wanted = lowercase(ext);
    let lowered = lowercase_all(accepted);
    let found = is_listed(&lowered, wanted.as_str());
    proof {
        if found {
            let i = choose|i: int| 0 <= i < lowered@.len() && (#[trigger] lowered@[i])@ == wanted@;
            assert(lowercase_text(accepted@[i]@) == lowercase_text(ext@));
        } else {
            assert forall|i: int| 0 <= i < accepted@.len() implies #[trigger] lowercase_text(
                accepted@[i]@,
            ) != lowercase_text(ext@) by {
                assert(lowered@[i]@ == lowercase_text(accepted@[i]@));
            }
        }
    }
    found
}

/// Whether the rule matches the file: each declared condition must hold.
pub fn match_rule(file: &FileInfo, rule: &Rule) -> (res: bool)
    ensures
        res == rule_matches(file, rule),
{
    if let Some(accepted) = &rule.match_extension {
        if !extension_in(accepted, file.metadata.extension.as_str()) {
            return false;
        }
    }
    if let Some(mime) = &rule.match_mime {
        if !contains_text(file.metadata.mime_type.as_str(), mime.as_str()) {
            return false;
        }
    }
    if let Some(pattern) = &rule.match_name_regex {
        if !name_condition_holds(regex_search(pattern.as_str(), file.name.as_str())) {
            return false;
        }
    }
    true
}

/// The category of the first matching rule, or `None` when no rule matches.
pub fn classify_by_rules(file: &FileInfo, config: &RulesConfig) -> (res: Option<String>)
    ensures
        match res {
            Some(c) => rules_category(file, config.rules@) == Some(c@),
            None => rules_category(file, config.rules@) is None,
        },
{
    let mut i: usize = 0;
    while i < config.rules.len()
        invariant
            i <= config.rules.len(),
            first_match_from(file, config.rules@, 0) == first_match_from(
                file,
                config.rules@,
                i as int,
            ),
        decreases config.rules.len() - i,
    {
        if match_rule(file, &config.rules[i]) {
            return Some(config.rules[i].move_to.clone());
        }
        i += 1;
    }
    None
}

/// Where the search for a matching rule ends: on a matching rule with none
/// matching between `from` and it, or past the last rule with none matching
/// from `from` on.
pub proof fn lemma_first_match(file: &FileInfo, rules: Seq<Rule>, from: int)
    requires
        0 <= from <= rules.len(),
    ensures
        from <= first_match_from(file, rules, from) <= rules.len(),
        first_match_from(file, rules, from) < rules.len() ==> rule_matches(
            file,
            &rules[first_match_from(file, rules, from)],
        ),
        forall|j: int|
            from <= j < first_match_from(file, rules, from) ==> !rule_matches(
                file,
                &#[trigger] rules[j],
            ),
    decreases rules.len() - from,
{
    if from < rules.len() && !rule_matches(file, &rules[from]) {
        lemma_first_match(file, rules, from + 1);
    }
}

/// Rule precedence: when two rules both match a file, the rules give it the
/// target of a matching rule that stands no later than the earlier of the
/// two, before which no rule matches; that is the earlier rule itself
/// whenever nothing before it matches.
pub proof fn rule_precedence(file: &FileInfo, rules: Seq<Rule>, i: int, j: int)
    requires
        0 <= i < j < rules.len(),
        rule_matches(file, &rules[i]),
        rule_matches(file, &rules[j]),
    ensures
        first_match_from(file, rules, 0) <= i,
        rules_category(file, rules) == Some(rules[first_match_from(file, rules, 0)].move_to@),
        rule_matches(file, &rules[first_match_from(file, rules, 0)]),
        forall|k: int|
            0 <= k < first_match_from(file, rules, 0) ==> !rule_matches(file, &#[trigger] rules[k]),
        (forall|k: int| 0 <= k < i ==> !rule_matches(file, &#[trigger] rules[k]))
            ==> rules_category(file, rules) == Some(rules[i].move_to@),
{
    lemma_first_match(file, rules, 0);
}

/// A ruleset in which no rule matches gives no category, and one in which
/// some rule matches gives one.
pub proof fn category_iff_some_rule_matches(file: &FileInfo, rules: Seq<Rule>)
    ensures
        rules_category(file, rules) is Some <==> exists|k: int|
            0 <= k < rules.len() && rule_matches(file, &#[trigger] rules[k]),
{
    lemma_first_match(file, rules, 0);
}

} // verus!
