//! Names and conventional places.

use vstd::prelude::*;

verus! {

pub const APP_NAME: &'static str = "AI File Organizer";

pub const APP_VERSION: &'static str = "0.1.0";

pub const DEFAULT_CONFIG_FILE: &'static str = "config/default_rules.json";

pub const UNDO_HISTORY_FILE: &'static str = ".undo_history.json";

pub const DEFAULT_MODELS_DIR: &'static str = "models";

/// The categories that files are sorted into, "Unknown" last.
pub fn categories() -> (res: Vec<&'static str>)
    ensures
        res@.len() == 9,
        res@[0]@ == "Work"@,
        res@[1]@ == "Personal"@,
        res@[2]@ == "Finance"@,
        res@[3]@ == "Media"@,
        res@[4]@ == "Code"@,
        res@[5]@ == "Screenshots"@,
        res@[6]@ == "Notes"@,
        res@[7]@ == "Archives"@,
        res@[8]@ == "Unknown"@,
{
    let mut all: Vec<&'static str> = Vec::new();
    all.push("Work");
    all.push("Personal");
    all.push("Finance");
    all.push("Media");
    all.push("Code");
    all.push("Screenshots");
    all.push("Notes");
    all.push("Archives");
    all.push("Unknown");
    all
}

} // verus!
