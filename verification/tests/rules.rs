use ai_file_organizer::models::file_info::FileInfo;
use ai_file_organizer::organizer::ai::AIClassifier;
use ai_file_organizer::organizer::classifier::{ClassificationMode, Classifier, ClassifyStep};
use ai_file_organizer::organizer::rules::{
    classify_by_rules, match_rule, name_condition_holds, Rule, RulesConfig,
};
use ai_file_organizer::organizer::Organizer;

fn file(path: &str, ext: &str, mime: &str) -> FileInfo {
    let mut f = FileInfo::new(path.to_string());
    f.metadata.extension = ext.to_string();
    f.metadata.mime_type = mime.to_string();
    f
}

fn rule(ext: Option<&[&str]>, mime: Option<&str>, regex: Option<&str>, to: &str) -> Rule {
    Rule {
        match_extension: ext.map(|e| e.iter().map(|s| s.to_string()).collect()),
        match_mime: mime.map(|s| s.to_string()),
        match_name_regex: regex.map(|s| s.to_string()),
        move_to: to.to_string(),
    }
}

#[test]
fn pdf_rule_gives_finance() {
    let config = RulesConfig { rules: vec![rule(Some(&["pdf"]), None, None, "Finance")] };
    let f = file("/home/u/invoice.pdf", "pdf", "application/pdf");
    assert_eq!(classify_by_rules(&f, &config), Some("Finance".to_string()));
}

#[test]
fn first_matching_rule_wins() {
    let config = RulesConfig {
        rules: vec![
            rule(Some(&["txt"]), None, None, "Notes"),
            rule(None, Some("application/"), None, "Work"),
            rule(Some(&["pdf"]), None, None, "Finance"),
            rule(None, None, None, "Personal"),
        ],
    };
    let f = file("/home/u/invoice.pdf", "pdf", "application/pdf");
    assert_eq!(classify_by_rules(&f, &config), Some("Work".to_string()));
    let g = file("/home/u/a.txt", "txt", "text/plain");
    assert_eq!(classify_by_rules(&g, &config), Some("Notes".to_string()));
    let h = file("/home/u/a.bin", "bin", "unknown");
    assert_eq!(classify_by_rules(&h, &config), Some("Personal".to_string()));
}

#[test]
fn no_rule_matches_gives_none() {
    let config = RulesConfig { rules: vec![rule(Some(&["pdf"]), None, None, "Finance")] };
    let f = file("/home/u/a.txt", "txt", "text/plain");
    assert_eq!(classify_by_rules(&f, &config), None);
    let empty = RulesConfig { rules: vec![] };
    assert_eq!(classify_by_rules(&f, &empty), None);
}

#[test]
fn rule_without_conditions_matches_everything() {
    let r = rule(None, None, None, "Personal");
    assert!(match_rule(&file("/x/y", "", "unknown"), &r));
    assert!(match_rule(&file("a.pdf", "pdf", "application/pdf"), &r));
}

#[test]
fn conditions_are_conjoined() {
    let r = rule(Some(&["jpg", "png"]), Some("image/"), Some("^IMG_"), "Media");
    assert!(match_rule(&file("/p/IMG_001.jpg", "jpg", "image/jpeg"), &r));
    assert!(!match_rule(&file("/p/IMG_001.gif", "gif", "image/gif"), &r));
    assert!(!match_rule(&file("/p/IMG_001.jpg", "jpg", "application/pdf"), &r));
    assert!(!match_rule(&file("/p/holiday.jpg", "jpg", "image/jpeg"), &r));
}

#[test]
fn extension_match_ignores_case() {
    let r = rule(Some(&["pdf"]), None, None, "Finance");
    assert!(match_rule(&file("A.PDF", "PDF", "application/pdf"), &r));
    let upper = rule(Some(&["PDF"]), None, None, "Finance");
    assert!(match_rule(&file("a.pdf", "pdf", "application/pdf"), &upper));
    assert!(!match_rule(&file("a.pd", "pd", "application/pdf"), &r));
    let none = rule(Some(&[]), None, None, "Finance");
    assert!(!match_rule(&file("a.pdf", "pdf", "application/pdf"), &none));
}

#[test]
fn mime_match_is_substring() {
    let r = rule(None, Some("image/"), None, "Media");
    assert!(match_rule(&file("a.png", "png", "image/png"), &r));
    assert!(!match_rule(&file("a.png", "png", "imag"), &r));
    assert!(!match_rule(&file("a.png", "png", "video/mp4"), &r));
    let inner = rule(None, Some("pdf"), None, "Finance");
    assert!(match_rule(&file("a.pdf", "pdf", "application/pdf"), &inner));
    let empty = rule(None, Some(""), None, "Any");
    assert!(match_rule(&file("a.pdf", "pdf", ""), &empty));
}

#[test]
fn regex_matches_name_not_path() {
    let r = rule(None, None, Some("^report"), "Work");
    assert!(match_rule(&file("/data/report_2023.txt", "txt", "text/plain"), &r));
    assert!(!match_rule(&file("/report/notes.txt", "txt", "text/plain"), &r));
}

#[test]
fn malformed_regex_never_matches() {
    let r = rule(None, None, Some("foo(bar"), "Work");
    assert!(!match_rule(&file("/data/foo(bar", "", "unknown"), &r));
    let config = RulesConfig { rules: vec![r, rule(None, None, None, "Personal")] };
    assert_eq!(
        classify_by_rules(&file("/data/foo(bar", "", "unknown"), &config),
        Some("Personal".to_string())
    );
}

#[test]
fn name_condition_needs_a_match() {
    assert!(name_condition_holds(Some(true)));
    assert!(!name_condition_holds(Some(false)));
    assert!(!name_condition_holds(None));
}

fn decided(step: ClassifyStep) -> Option<String> {
    match step {
        ClassifyStep::Decided(c) => Some(c),
        ClassifyStep::AskRemote => None,
    }
}

#[test]
fn rules_only_falls_back_to_unknown() {
    let config = RulesConfig { rules: vec![rule(Some(&["pdf"]), None, None, "Finance")] };
    let c = Classifier { mode: ClassificationMode::Rules(config) };
    assert_eq!(decided(c.classify(&file("a.pdf", "pdf", "application/pdf"))), Some("Finance".to_string()));
    assert_eq!(decided(c.classify(&file("a.txt", "txt", "text/plain"))), Some("Unknown".to_string()));
    assert!(c.remote().is_none());
}

#[test]
fn remote_only_always_asks() {
    let c = Classifier { mode: ClassificationMode::AI(AIClassifier::new("k".to_string())) };
    assert!(matches!(c.classify(&file("a.pdf", "pdf", "application/pdf")), ClassifyStep::AskRemote));
    assert_eq!(c.remote().map(|r| r.api_key().to_string()), Some("k".to_string()));
}

#[test]
fn hybrid_asks_remote_only_without_match() {
    let config = RulesConfig { rules: vec![rule(Some(&["pdf"]), None, None, "Finance")] };
    let c = Classifier {
        mode: ClassificationMode::Hybrid(config, AIClassifier::new("key".to_string())),
    };
    assert_eq!(decided(c.classify(&file("a.pdf", "pdf", "application/pdf"))), Some("Finance".to_string()));
    assert!(matches!(c.classify(&file("a.txt", "txt", "text/plain")), ClassifyStep::AskRemote));
    assert_eq!(c.remote().map(|r| r.api_key().to_string()), Some("key".to_string()));
}

#[test]
fn remote_label_is_trimmed_and_failure_is_unknown() {
    let choices = vec!["  Media \n".to_string(), "Work".to_string()];
    assert_eq!(AIClassifier::label_from_choices(&choices), Some("Media".to_string()));
    assert_eq!(AIClassifier::label_from_choices(&vec![]), None);
    assert_eq!(Classifier::conclude(Some("Media".to_string())), "Media");
    assert_eq!(Classifier::conclude(None), "Unknown");
}

#[test]
fn organizer_picks_the_mode() {
    let config = RulesConfig { rules: vec![rule(Some(&["pdf"]), None, None, "Finance")] };
    let with_ai = Organizer::new(false, true, None);
    assert!(matches!(
        with_ai.classifier(Some(config.clone()), Some("k".to_string())).mode,
        ClassificationMode::Hybrid(_, _)
    ));
    assert!(matches!(with_ai.classifier(None, Some("k".to_string())).mode, ClassificationMode::AI(_)));
    assert!(matches!(with_ai.classifier(Some(config.clone()), None).mode, ClassificationMode::Rules(_)));
    let without = Organizer::new(true, false, Some("my.json".to_string()));
    assert!(without.dry_run);
    assert!(!without.use_ai);
    match without.classifier(Some(config), Some("k".to_string())).mode {
        ClassificationMode::Rules(c) => assert_eq!(c.rules.len(), 1),
        _ => panic!("rules expected"),
    }
    match without.classifier(None, None).mode {
        ClassificationMode::Rules(c) => assert_eq!(c.rules.len(), 0),
        _ => panic!("rules expected"),
    }
}

#[test]
fn rules_path_prefers_custom() {
    let custom = Organizer::new(false, false, Some("/etc/my_rules.json".to_string()));
    assert_eq!(custom.rules_path("/root"), "/etc/my_rules.json");
    let default = Organizer::new(false, false, None);
    assert_eq!(default.rules_path("/root"), "/root/config/default_rules.json");
}
