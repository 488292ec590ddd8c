//! Application settings.

use vstd::prelude::*;

verus! {

#[derive(Debug, Clone)]
pub struct AppConfig {
    pub openai_api_key: Option<String>,
    pub ignore_list: Vec<String>,
    pub default_output_pattern: String,
    pub thread_count: usize,
}

/// Calls `num_cpus::get`: the number of logical cores of this machine. It
/// differs from machine to machine, so nothing is stated of it.
#[verifier::external_body]
fn cpu_count() -> usize {
    num_cpus::get()
}

/// The settings in force when none are stored: no credential, version
/// control and package directories ignored, the category, year and month
/// layout.
pub open spec fn is_default_config(config: &AppConfig) -> bool {
    &&& config.openai_api_key is None
    &&& config.ignore_list@.len() == 2
    &&& config.ignore_list@[0]@ == ".git"@
    &&& config.ignore_list@[1]@ == "node_modules"@
    &&& config.default_output_pattern@ == "{category}/{year}/{month}"@
}

impl Default for AppConfig {
    fn default() -> (res: Self)
        ensures
            is_default_config(&res),
    {
        let mut ignore_list: Vec<String> = Vec::new();
        ignore_list.push(String::from_str(".git"));
        ignore_list.push(String::from_str("node_modules"));
        AppConfig {
            openai_api_key: None,
            ignore_list,
            default_output_pattern: String::from_str("{category}/{year}/{month}"),
            thread_count: cpu_count(),
        }
    }
}

/// The settings to run with: the default ones.
pub fn load_config() -> (res: AppConfig)
    ensures
        is_default_config(&res),
{
    AppConfig::default()
}

} // verus!
