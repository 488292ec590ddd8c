//! Classification: rules alone, the remote classifier alone, or rules first
//! and the remote classifier for what they leave open.

use crate::models::file_info::FileInfo;
use crate::organizer::ai::AIClassifier;
use crate::organizer::rules::{
    category_iff_some_rule_matches, classify_by_rules, rule_matches, rules_category, RulesConfig,
};
use vstd::prelude::*;

verus! {

/// How files are classified.
#[derive(Debug, Clone)]
pub enum ClassificationMode {
    Rules(RulesConfig),
    AI(AIClassifier),
    Hybrid(RulesConfig, AIClassifier),
}

#[derive(Debug, Clone)]
pub struct Classifier {
    pub mode: ClassificationMode,
}

/// The first step of classifying a file: either the category is decided,
/// or the remote classifier has to be asked.
#[derive(Debug, Clone)]
pub enum ClassifyStep {
    Decided(String),
    AskRemote,
}

/// The category of a file that nothing classifies.
pub open spec fn unknown_category() -> Seq<char> {
    seq!['U', 'n', 'k', 'n', 'o', 'w', 'n']
}

/// The remote classifier is asked: always when it classifies alone, and in
/// hybrid mode exactly when no rule matches.
pub open spec fn needs_remote(mode: &ClassificationMode, file: &FileInfo) -> bool {
    match mode {
        ClassificationMode::Rules(_) => false,
        ClassificationMode::AI(_) => true,
        ClassificationMode::Hybrid(config, _) => rules_category(file, config.rules@) is None,
    }
}

/// The category decided without the remote classifier: that of the first
/// matching rule, or "Unknown" when rules alone classify and none matches.
pub open spec fn local_category(mode: &ClassificationMode, file: &FileInfo) -> Seq<char> {
    match mode {
        ClassificationMode::Rules(config) => match rules_category(file, config.rules@) {
            Some(c) => c,
            None => unknown_category(),
        },
        ClassificationMode::AI(_) => unknown_category(),
        ClassificationMode::Hybrid(config, _) => match rules_category(file, config.rules@) {
            Some(c) => c,
            None => unknown_category(),
        },
    }
}

/// Hybrid fallback: with rules and a remote classifier, the remote
/// classifier is asked exactly when no rule matches the file.
pub proof fn hybrid_asks_remote_iff_no_rule_matches(
    config: RulesConfig,
    ai: AIClassifier,
    file: &FileInfo,
)
    ensures
        needs_remote(&ClassificationMode::Hybrid(config, ai), file) <==> forall|k: int|
            0 <= k < config.rules@.len() ==> !rule_matches(file, &#[trigger] config.rules@[k]),
{
    category_iff_some_rule_matches(file, config.rules@);
}

/// The text "Unknown".
pub fn unknown() -> (res: String)
    ensures
        res@ == unknown_category(),
{
    proof {
        reveal_strlit("Unknown");
    }
    let text = "Unknown";
    assert(text@ =~= unknown_category());
    String::from_str(text)
}

impl Classifier {
    /// Takes the first step of classifying a file. The rules decide where
    /// the mode has rules and one matches; rules alone decide "Unknown"
    /// where none matches. The remote classifier is asked for exactly when
    /// `needs_remote` holds.
    pub fn classify(&self, file: &FileInfo) -> (res: ClassifyStep)
        ensures
            match res {
                ClassifyStep::Decided(category) => !needs_remote(&self.mode, file) && category@
                    == local_category(&self.mode, file),
                ClassifyStep::AskRemote => needs_remote(&self.mode, file),
            },
    {
        match &self.mode {
            ClassificationMode::Rules(config) => match classify_by_rules(file, config) {
                Some(category) => ClassifyStep::Decided(category),
                None => ClassifyStep::Decided(unknown()),
            },
            ClassificationMode::AI(_) => ClassifyStep::AskRemote,
            ClassificationMode::Hybrid(config, _) => match classify_by_rules(file, config) {
                Some(category) => ClassifyStep::Decided(category),
                None => ClassifyStep::AskRemote,
            },
        }
    }

    /// The handle of the remote classifier, where the mode has one.
    pub fn remote(&self) -> (res: Option<&AIClassifier>)
        ensures
            match self.mode {
                ClassificationMode::Rules(_) => res is None,
                ClassificationMode::AI(ai) => res == Some(&ai),
                ClassificationMode::Hybrid(_, ai) => res == Some(&ai),
            },
    {
        match &self.mode {
            ClassificationMode::Rules(_) => None,
            ClassificationMode::AI(ai) => Some(ai),
            ClassificationMode::Hybrid(_, ai) => Some(ai),
        }
    }

    /// The category after the remote classifier was asked: its label as
    /// it came, or "Unknown" when the call failed.
    pub fn conclude(label: Option<String>) -> (res: String)
        ensures
            match label {
                Some(l) => res == l,
                None => res@ == unknown_category(),
            },
    {
        match label {
            Some(l) => l,
            None => unknown(),
        }
    }
}

} // verus!
