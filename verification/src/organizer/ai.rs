//! The remote classifier's side of classification: its credential, and
//! what its answer comes to.

use crate::text::{trimmed, trimmed_text};
use vstd::prelude::*;

verus! {

/// The handle of the remote classification service.
#[derive(Debug, Clone)]
pub struct AIClassifier {
    api_key: String,
}

impl AIClassifier {
    /// The credential that this handle carries.
    pub closed spec fn key(&self) -> Seq<char> {
        self.api_key@
    }

    pub fn new(api_key: String) -> (res: Self)
        ensures
            res.key() == api_key@,
    {
        AIClassifier { api_key }
    }

    /// The credential to send with a request.
    pub fn api_key(&self) -> (res: &str)
        ensures
            res@ == self.key(),
    {
        self.api_key.as_str()
    }

    /// The label that an answer of the service comes to: its first choice
    /// without surrounding white space, or nothing when it offers no choice.
    pub fn label_from_choices(choices: &Vec<String>) -> (res: Option<String>)
        ensures
            match res {
                Some(label) => choices@.len() > 0 && label@ == trimmed_text(choices@[0]@),
                None => choices@.len() == 0,
            },
    {
        if choices.len() == 0 {
            None
        } else {
            Some(trimmed(choices[0].as_str()))
        }
    }
}

} // verus!
