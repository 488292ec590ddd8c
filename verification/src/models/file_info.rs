//! One discovered file and the attributes the organiser reads.

use crate::text::{base_name, file_name_of};
use std::fmt::Write;
use vstd::prelude::*;

verus! {

/// An instant as the file system reported it: seconds since the Unix epoch,
/// and the offset of the local zone east of UTC, in seconds, at that instant.
#[derive(Debug, Clone, Copy, PartialEq, Eq)]
pub struct Timestamp {
    pub secs: i64,
    pub offset: i32,
}

/// What chrono renders for an instant under a `strftime` pattern, in the zone
/// given by the offset; `None` where the instant or the offset is outside
/// chrono's range, or the pattern is not one that it accepts.
pub uninterp spec fn formatted_time(secs: int, offset: int, pattern: Seq<char>) -> Option<Seq<char>>;

/// The pattern of the year segment of a destination.
pub open spec fn year_pattern() -> Seq<char> {
    seq!['%', 'Y']
}

/// The pattern of the month segment of a destination.
pub open spec fn month_pattern() -> Seq<char> {
    seq!['%', 'm']
}

/// The year and month segments that a timestamp contributes to a
/// destination: both renderings, or nothing when either is unavailable.
pub open spec fn date_segments(stamp: Option<Timestamp>) -> Option<(Seq<char>, Seq<char>)> {
    match stamp {
        None => None,
        Some(t) => match (
            formatted_time(t.secs as int, t.offset as int, year_pattern()),
            formatted_time(t.secs as int, t.offset as int, month_pattern()),
        ) {
            (Some(y), Some(m)) => Some((y, m)),
            _ => None,
        },
    }
}

/// Calls chrono: `DateTime::from_timestamp`, `FixedOffset::east_opt`,
/// `DateTime::with_timezone` and `DateTime::format`. The contract only gives
/// the rendering its name: the same instant, offset and pattern always
/// render alike, and `None` comes back where chrono refuses one of them.
#[verifier::external_body]
fn format_time(secs: i64, offset: i32, pattern: &str) -> (res: Option<String>)
    ensures
        match res {
            Some(s) => formatted_time(secs as int, offset as int, pattern@) == Some(s@),
            None => formatted_time(secs as int, offset as int, pattern@) is None,
        },
{
    let utc = chrono::DateTime::from_timestamp(secs, 0)?;
    let zone = chrono::FixedOffset::east_opt(offset)?;
    let mut out = String::new();
    match write!(out, "{}", utc.with_timezone(&zone).format(pattern)) {
        Ok(()) => Some(out),
        Err(_) => None,
    }
}

impl Timestamp {
    /// The year and month of this instant as path segments.
    pub fn segments(&self) -> (res: Option<(String, String)>)
        ensures
            match res {
                Some(p) => date_segments(Some(*self)) == Some((p.0@, p.1@)),
                None => date_segments(Some(*self)) is None,
            },
    {
        proof {
            reveal_strlit("%Y");
            reveal_strlit("%m");
        }
        let yp = "%Y";
        let mp = "%m";
        assert(yp@ =~= year_pattern());
        assert(mp@ =~= month_pattern());
        match format_time(self.secs, self.offset, yp) {
            None => None,
            Some(year) => match format_time(self.secs, self.offset, mp) {
                None => None,
                Some(month) => Some((year, month)),
            },
        }
    }
}

/// The attributes of a file. `hash` is empty until the content hash has been
/// computed; `extra` holds further attributes as key and value pairs.
#[derive(Debug, Clone)]
pub struct FileMetadata {
    pub mime_type: String,
    pub extension: String,
    pub created: Option<Timestamp>,
    pub modified: Option<Timestamp>,
    pub size: u64,
    pub hash: String,
    pub extra: Vec<(String, String)>,
}

/// One discovered file.
#[derive(Debug, Clone)]
pub struct FileInfo {
    pub path: String,
    pub name: String,
    pub metadata: FileMetadata,
    pub category: Option<String>,
    pub suggested_name: Option<String>,
}

/// The MIME type of a file whose content has not been inspected.
pub open spec fn unknown_mime() -> Seq<char> {
    seq!['u', 'n', 'k', 'n', 'o', 'w', 'n']
}

impl FileInfo {
    /// A record for the file at `path`: the name is the path's base name,
    /// every attribute is still unset.
    pub fn new(path: String) -> (res: Self)
        ensures
            res.path@ == path@,
            res.name@ == base_name(path@),
            res.metadata.mime_type@ == unknown_mime(),
            res.metadata.extension@.len() == 0,
            res.metadata.created is None,
            res.metadata.modified is None,
            res.metadata.size == 0,
            res.metadata.hash@.len() == 0,
            res.metadata.extra@.len() == 0,
            res.category is None,
            res.suggested_name is None,
    {
        proof {
            reveal_strlit("unknown");
        }
        let name = file_name_of(path.as_str());
        let mime = "unknown";
        assert(mime@ =~= unknown_mime());
        FileInfo {
            path,
            name,
            metadata: FileMetadata {
                mime_type: String::from_str(mime),
                extension: String::new(),
                created: None,
                modified: None,
                size: 0,
                hash: String::new(),
                extra: Vec::new(),
            },
            category: None,
            suggested_name: None,
        }
    }
}

} // verus!
