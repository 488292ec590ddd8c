//! Archives: which ones can be unpacked, and where to.

use crate::text::{
    base_name, extension_of, file_name_of, lemma_last_index_bounds, path_body, same_text,
    split_name, trimmed_length,
};
use vstd::prelude::*;

verus! {

/// Why an archive is not unpacked.
#[derive(Debug, Clone, Copy, PartialEq, Eq, Structural)]
pub enum ArchiveError {
    /// Only zip archives are unpacked.
    UnsupportedFormat,
}

impl ArchiveError {
    /// The error in words.
    pub fn message(&self) -> (res: String)
        ensures
            res@ == "Unsupported archive format"@,
    {
        String::from_str("Unsupported archive format")
    }
}

/// The extension of the archives that are unpacked.
pub open spec fn zip_extension() -> Seq<char> {
    seq!['z', 'i', 'p']
}

/// Decides where an archive is unpacked: a zip archive goes to the
/// directory named like the archive without its extension; any other file
/// is refused.
pub fn extract_archive(path: &str) -> (res: Result<String, ArchiveError>)
    ensures
        match res {
            Ok(dest) => extension_of(base_name(path@)) == Some(zip_extension()) && path_body(
                path@,
            ).len() >= 4 && dest@ == path_body(path@).subrange(0, path_body(path@).len() - 4),
            Err(e) => extension_of(base_name(path@)) != Some(zip_extension()) && e
                == ArchiveError::UnsupportedFormat,
        },
{
    proof {
        reveal_strlit("zip");
    }
    let zip = "zip";
    assert(zip@ =~= zip_extension());
    let name = file_name_of(path);
    let parts = split_name(name.as_str());
    let is_zip = match &parts.1 {
        Some(ext) => same_text(ext.as_str(), zip),
        None => false,
    };
    if is_zip {
        let end = trimmed_length(path);
        proof {
            lemma_last_index_bounds(path_body(path@), '/');
            lemma_last_index_bounds(name@, '.');
        }
        Ok(String::from_str(path.substring_char(0, end).substring_char(0, end - 4)))
    } else {
        Err(ArchiveError::UnsupportedFormat)
    }
}

} // verus!
