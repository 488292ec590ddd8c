//! Attributes of a file: what a scan of the file system found, and the
//! hash of its content.

use crate::models::file_info::{FileInfo, Timestamp};
use crate::text::{lowercase, lowercase_text, same_text};
use vstd::prelude::*;

verus! {

/// The BLAKE3 digest of a byte string, as lower-case hexadecimal text.
pub uninterp spec fn blake3_hex(bytes: Seq<u8>) -> Seq<char>;

/// Calls `blake3::Hasher::new`, `update` and `finalize`, and renders the
/// digest with its `Display`. The contract names the digest and says that
/// its text has 64 characters: two for each of the 32 bytes.
#[verifier::external_body]
fn digest_hex(bytes: &[u8]) -> (res: String)
    ensures
        res@ == blake3_hex(bytes@),
        res@.len() == 64,
{
    let mut hasher = blake3::Hasher::new();
    hasher.update(bytes);
    hasher.finalize().to_string()
}

/// The record's content hash has not been computed yet.
pub open spec fn hash_missing(file: &FileInfo) -> bool {
    file.metadata.hash@.len() == 0
}

/// Whether the content of the file still has to be read for its hash.
pub fn needs_hash(file: &FileInfo) -> (res: bool)
    ensures
        res == hash_missing(file),
{
    file.metadata.hash.as_str().unicode_len() == 0
}

/// Stores the hash of the file's content in the record. The hash depends on
/// the content alone, and once stored it is no longer missing.
pub fn calculate_hash(file: &mut FileInfo, content: &[u8])
    ensures
        final(file).metadata.hash@ == blake3_hex(content@),
        !hash_missing(final(file)),
        final(file).path == old(file).path,
        final(file).name == old(file).name,
        final(file).category == old(file).category,
        final(file).suggested_name == old(file).suggested_name,
        final(file).metadata.mime_type == old(file).metadata.mime_type,
        final(file).metadata.extension == old(file).metadata.extension,
        final(file).metadata.created == old(file).metadata.created,
        final(file).metadata.modified == old(file).metadata.modified,
        final(file).metadata.size == old(file).metadata.size,
        final(file).metadata.extra == old(file).metadata.extra,
{
    file.metadata.hash = digest_hex(content);
}

/// Forgets the stored hash, so that it is computed anew when next needed.
/// Nothing else does so.
pub fn invalidate_hash(file: &mut FileInfo)
    ensures
        hash_missing(final(file)),
        final(file).path == old(file).path,
        final(file).name == old(file).name,
        final(file).category == old(file).category,
        final(file).suggested_name == old(file).suggested_name,
        final(file).metadata.mime_type == old(file).metadata.mime_type,
        final(file).metadata.extension == old(file).metadata.extension,
        final(file).metadata.created == old(file).metadata.created,
        final(file).metadata.modified == old(file).metadata.modified,
        final(file).metadata.size == old(file).metadata.size,
        final(file).metadata.extra == old(file).metadata.extra,
{
    file.metadata.hash = String::new();
}

/// What a look at the file system reports of a file.
#[derive(Debug, Clone)]
pub struct Attributes {
    pub size: u64,
    pub modified: Option<Timestamp>,
    pub created: Option<Timestamp>,
    pub extension: Option<String>,
    pub mime_type: Option<String>,
}

/// Whether files of this extension carry image attributes worth reading.
pub open spec fn is_image_extension(ext: Seq<char>) -> bool {
    ext == seq!['j', 'p', 'g'] || ext == seq!['j', 'p', 'e', 'g'] || ext == seq!['p', 'n', 'g']
}

/// Stores what was found of a file in its record: size and times as
/// found; the extension in lower case and the MIME type where one was
/// found, the earlier value otherwise. Returns whether image attributes are
/// to be read for the file.
pub fn extract_metadata(file: &mut FileInfo, found: &Attributes) -> (res: bool)
    ensures
        final(file).metadata.size == found.size,
        final(file).metadata.modified == found.modified,
        final(file).metadata.created == found.created,
        match found.extension {
            Some(ext) => final(file).metadata.extension@ == lowercase_text(ext@),
            None => final(file).metadata.extension == old(file).metadata.extension,
        },
        match found.mime_type {
            Some(mime) => final(file).metadata.mime_type@ == mime@,
            None => final(file).metadata.mime_type == old(file).metadata.mime_type,
        },
        res == is_image_extension(final(file).metadata.extension@),
        final(file).metadata.hash == old(file).metadata.hash,
        final(file).metadata.extra == old(file).metadata.extra,
        final(file).path == old(file).path,
        final(file).name == old(file).name,
        final(file).category == old(file).category,
        final(file).suggested_name == old(file).suggested_name,
{
    file.metadata.size = found.size;
    file.metadata.modified = found.modified;
    file.metadata.created = found.created;
    if let Some(ext) = &found.extension {
        file.metadata.extension = lowercase(ext.as_str());
    }
    if let Some(mime) = &found.mime_type {
        file.metadata.mime_type = mime.clone();
    }
    proof {
        reveal_strlit("jpg");
        reveal_strlit("jpeg");
        reveal_strlit("png");
    }
    let jpg = "jpg";
    let jpeg = "jpeg";
    let png = "png";
    assert(jpg@ =~= seq!['j', 'p', 'g']);
    assert(jpeg@ =~= seq!['j', 'p', 'e', 'g']);
    assert(png@ =~= seq!['p', 'n', 'g']);
    let ext = file.metadata.extension.as_str();
    same_text(ext, jpg) || same_text(ext, jpeg) || same_text(ext, png)
}

/// No key occurs twice among the extra attributes.
pub open spec fn keys_distinct(extra: Seq<(String, String)>) -> bool {
    forall|i: int, j: int|
        0 <= i < j < extra.len() ==> (#[trigger] extra[i]).0@ != (#[trigger] extra[j]).0@
}

/// The index of the first pair at or after `from` that has the key, or the
/// number of pairs when none has it.
pub open spec fn key_position(extra: Seq<(String, String)>, key: Seq<char>, from: int) -> int
    decreases extra.len() - from,
{
    if from < 0 || from >= extra.len() {
        extra.len() as int
    } else if extra[from].0@ == key {
        from
    } else {
        key_position(extra, key, from + 1)
    }
}

/// Where the search for a key ends: on the first pair that has it, or past
/// the last pair when none has it.
pub proof fn lemma_key_position(extra: Seq<(String, String)>, key: Seq<char>, from: int)
    requires
        0 <= from <= extra.len(),
    ensures
        from <= key_position(extra, key, from) <= extra.len(),
        key_position(extra, key, from) < extra.len() ==> extra[key_position(extra, key, from)].0@
            == key,
        forall|j: int|
            from <= j < key_position(extra, key, from) ==> (#[trigger] extra[j]).0@ != key,
    decreases extra.len() - from,
{
    if from < extra.len() && extra[from].0@ != key {
        lemma_key_position(extra, key, from + 1);
    }
}

/// Sets an extra attribute of the file, as a map would: the value of a key
/// that is there is replaced in its place, a new key is added after the
/// others. Keys that were distinct stay distinct.
pub fn add_extra(file: &mut FileInfo, key: &str, value: &str)
    ensures
        key_position(old(file).metadata.extra@, key@, 0) < old(file).metadata.extra@.len() ==> {
            let p = key_position(old(file).metadata.extra@, key@, 0);
            &&& final(file).metadata.extra@.len() == old(file).metadata.extra@.len()
            &&& final(file).metadata.extra@[p].0@ == key@
            &&& final(file).metadata.extra@[p].1@ == value@
            &&& forall|j: int|
                0 <= j < old(file).metadata.extra@.len() && j != p ==> final(file).metadata.extra@[j] == old(file).metadata.extra@[j]
        },
        key_position(old(file).metadata.extra@, key@, 0) >= old(file).metadata.extra@.len() ==> {
            &&& final(file).metadata.extra@.len() == old(file).metadata.extra@.len() + 1
            &&& final(file).metadata.extra@.drop_last() == old(file).metadata.extra@
            &&& final(file).metadata.extra@.last().0@ == key@
            &&& final(file).metadata.extra@.last().1@ == value@
        },
        keys_distinct(old(file).metadata.extra@) ==> keys_distinct(final(file).metadata.extra@),
        final(file).path == old(file).path,
        final(file).name == old(file).name,
        final(file).category == old(file).category,
        final(file).suggested_name == old(file).suggested_name,
        final(file).metadata.mime_type == old(file).metadata.mime_type,
        final(file).metadata.extension == old(file).metadata.extension,
        final(file).metadata.created == old(file).metadata.created,
        final(file).metadata.modified == old(file).metadata.modified,
        final(file).metadata.size == old(file).metadata.size,
        final(file).metadata.hash == old(file).metadata.hash,
{
    let ghost before = file.metadata.extra@;
    proof {
        lemma_key_position(before, key@, 0);
    }
    let pair = (String::from_str(key), String::from_str(value));
    let mut i: usize = 0;
    while i < file.metadata.extra.len()
        invariant
            *file == *old(file),
            before == file.metadata.extra@,
            pair.0@ == key@,
            pair.1@ == value@,
            i <= before.len(),
            key_position(before, key@, 0) == key_position(before, key@, i as int),
        decreases before.len() - i,
    {
        if same_text(file.metadata.extra[i].0.as_str(), key) {
            file.metadata.extra.set(i, pair);
            proof {
                let after = file.metadata.extra@;
                assert(key_position(before, key@, i as int) == i);
                assert(after[i as int] == pair);
                assert forall|x: int| 0 <= x < before.len() implies (#[trigger] after[x]).0@
                    == before[x].0@ by {}
                if keys_distinct(before) {
                    assert forall|a: int, b: int| 0 <= a < b < after.len() implies (
                    #[trigger] after[a]).0@ != (#[trigger] after[b]).0@ by {
                        assert(before[a].0@ != before[b].0@);
                    }
                }
            }
            return ;
        }
        i += 1;
    }
    file.metadata.extra.push(pair);
    proof {
        let after = file.metadata.extra@;
        assert(after.drop_last() =~= before);
        if keys_distinct(before) {
            assert forall|a: int, b: int| 0 <= a < b < after.len() implies (#[trigger] after[a]).0@
                != (#[trigger] after[b]).0@ by {
                if b < before.len() {
                    assert(before[a].0@ != before[b].0@);
                } else {
                    assert(before[a].0@ != key@);
                }
            }
        }
    }
}

} // verus!
