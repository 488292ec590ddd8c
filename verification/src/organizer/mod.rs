//! The organiser: rules, classification, relocation, journal, duplicates.

pub mod ai;
pub mod archives;
pub mod classifier;
pub mod duplicates;
pub mod metadata;
pub mod renamer;
pub mod rules;
pub mod scanner;
pub mod undo;
pub mod utils;

use crate::organizer::ai::AIClassifier;
use crate::organizer::classifier::{ClassificationMode, Classifier};
use crate::organizer::rules::RulesConfig;
use crate::text::{join_path, joined};
use vstd::prelude::*;

verus! {

/// The settings of an organize run.
#[derive(Debug, Clone)]
pub struct Organizer {
    pub dry_run: bool,
    pub use_ai: bool,
    pub custom_rules: Option<String>,
}

/// Where the rules of a root are looked for when no other place is given,
/// relative to the root.
pub open spec fn default_rules_file() -> Seq<char> {
    "config/default_rules.json"@
}

impl Organizer {
    pub fn new(dry_run: bool, use_ai: bool, custom_rules: Option<String>) -> (res: Self)
        ensures
            res.dry_run == dry_run,
            res.use_ai == use_ai,
            res.custom_rules == custom_rules,
    {
        Organizer { dry_run, use_ai, custom_rules }
    }

    /// The file to load the rules from: the one given to the run, or the
    /// conventional one below the root.
    pub fn rules_path(&self, root: &str) -> (res: String)
        ensures
            match self.custom_rules {
                Some(custom) => res@ == custom@,
                None => res@ == joined(root@, default_rules_file()),
            },
    {
        match &self.custom_rules {
            Some(custom) => custom.clone(),
            None => join_path(root, "config/default_rules.json"),
        }
    }

    /// The classifier of the run, from the rules that were loaded and the
    /// credential that was found. The remote classifier takes part only
    /// when the run asks for it and a credential is there; with rules too it
    /// comes after them. Without rules and without it every file is
    /// "Unknown".
    pub fn classifier(&self, rules: Option<RulesConfig>, credential: Option<String>) -> (res:
        Classifier)
        ensures
            match (self.use_ai, credential, rules) {
                (true, Some(key), Some(config)) => res.mode matches ClassificationMode::Hybrid(c, ai)
                    && c == config && ai.key() == key@,
                (true, Some(key), None) => res.mode matches ClassificationMode::AI(ai) && ai.key()
                    == key@,
                (_, _, Some(config)) => res.mode matches ClassificationMode::Rules(c) && c
                    == config,
                (_, _, None) => res.mode matches ClassificationMode::Rules(c) && c.rules@.len()
                    == 0,
            },
    {
        let remote = if self.use_ai {
            credential
        } else {
            None
        };
        let mode = match remote {
            Some(key) => match rules {
                Some(config) => ClassificationMode::Hybrid(config, AIClassifier::new(key)),
                None => ClassificationMode::AI(AIClassifier::new(key)),
            },
            None => match rules {
                Some(config) => ClassificationMode::Rules(config),
                None => ClassificationMode::Rules(RulesConfig { rules: Vec::new() }),
            },
        };
        Classifier { mode }
    }
}

} // verus!
