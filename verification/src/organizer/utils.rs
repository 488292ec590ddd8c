//! Small helpers: hidden files, screenshots, statistics of a scan.

use crate::models::file_info::FileInfo;
use crate::organizer::rules::{name_condition_holds, regex_outcome, regex_search};
use crate::text::{final_component, final_component_of, same_text};
use vstd::prelude::*;

verus! {

/// Whether the path names a hidden file: it has a final component, and
/// that component begins with a dot.
pub fn is_hidden(path: &str) -> (res: bool)
    ensures
        res == (final_component(path@) matches Some(name) && name.len() > 0 && name[0] == '.'),
{
    match final_component_of(path) {
        Some(name) => name.as_str().unicode_len() > 0 && name.as_str().get_char(0) == '.',
        None => false,
    }
}

/// The pattern by which screenshots are told from their names.
pub open spec fn screenshot_pattern() -> Seq<char> {
    "(?i)screenshot|scrnshot|capture"@
}

/// Whether the name is that of a screenshot: the pattern for screenshots
/// matches somewhere in it.
pub fn is_screenshot(name: &str) -> (res: bool)
    ensures
        res == (regex_outcome(screenshot_pattern(), name@) == Some(true)),
{
    name_condition_holds(regex_search("(?i)screenshot|scrnshot|capture", name))
}

/// Statistics of a scan: number and total size of the files, and the
/// number of files of each category that occurs.
#[derive(Debug, Clone)]
pub struct Stats {
    pub total_files: usize,
    pub total_size: u64,
    pub category_counts: Vec<(String, usize)>,
}

impl Default for Stats {
    /// The statistics of no files at all.
    fn default() -> (res: Self)
        ensures
            res.total_files == 0,
            res.total_size == 0,
            res.category_counts@.len() == 0,
    {
        Stats { total_files: 0, total_size: 0, category_counts: Vec::new() }
    }
}

/// The sizes of the files, added up.
pub open spec fn total_size(files: Seq<FileInfo>) -> nat
    decreases files.len(),
{
    if files.len() == 0 {
        0
    } else {
        total_size(files.drop_last()) + files.last().metadata.size as nat
    }
}

/// The file at index `i` has the category `category`.
pub open spec fn has_category(files: Seq<FileInfo>, i: int, category: Seq<char>) -> bool {
    files[i].category matches Some(c) && c@ == category
}

/// The number of files of a category.
pub open spec fn category_count(files: Seq<FileInfo>, category: Seq<char>) -> nat
    decreases files.len(),
{
    if files.len() == 0 {
        0
    } else {
        category_count(files.drop_last(), category) + if has_category(
            files,
            files.len() - 1,
            category,
        ) {
            1nat
        } else {
            0nat
        }
    }
}

/// Some file before index `i` has the category.
pub open spec fn occurs_before(files: Seq<FileInfo>, i: int, category: Seq<char>) -> bool {
    exists|j: int| 0 <= j < i && #[trigger] has_category(files, j, category)
}

/// Some entry counts the category.
pub open spec fn counted(counts: Seq<(String, usize)>, category: Seq<char>) -> bool {
    exists|x: int| 0 <= x < counts.len() && (#[trigger] counts[x]).0@ == category
}

/// `stats` are the statistics of `files`: the number of files, the sum of
/// their sizes, and for each category that occurs exactly one entry, with
/// the number of its files.
pub open spec fn stats_of(files: Seq<FileInfo>, stats: &Stats) -> bool {
    &&& stats.total_files == files.len()
    &&& stats.total_size == total_size(files)
    &&& forall|x: int|
        0 <= x < stats.category_counts@.len() ==> (#[trigger] stats.category_counts@[x]).1
            == category_count(files, stats.category_counts@[x].0@) && stats.category_counts@[x].1
            > 0
    &&& forall|x: int, y: int|
        0 <= x < y < stats.category_counts@.len() ==> (#[trigger] stats.category_counts@[x]).0@ != (
        #[trigger] stats.category_counts@[y]).0@
    &&& forall|i: int, c: Seq<char>|
        0 <= i < files.len() && #[trigger] has_category(files, i, c) ==> counted(
            stats.category_counts@,
            c,
        )
}

proof fn lemma_total_size_grows(files: Seq<FileInfo>, k: int)
    requires
        0 <= k <= files.len(),
    ensures
        total_size(files.take(k)) <= total_size(files),
    decreases files.len() - k,
{
    if k < files.len() {
        lemma_total_size_grows(files, k + 1);
        assert(files.take(k + 1).drop_last() =~= files.take(k));
    } else {
        assert(files.take(k) =~= files);
    }
}

fn sum_sizes(files: &Vec<FileInfo>) -> (res: u64)
    requires
        total_size(files@) <= u64::MAX,
    ensures
        res == total_size(files@),
{
    let mut total: u64 = 0;
    let mut i: usize = 0;
    assert(files@.take(0) =~= Seq::<FileInfo>::empty());
    while i < files.len()
        invariant
            i <= files.len(),
            total == total_size(files@.take(i as int)),
            total_size(files@) <= u64::MAX,
        decreases files.len() - i,
    {
        proof {
            lemma_total_size_grows(files@, i + 1);
            assert(files@.take(i + 1).drop_last() =~= files@.take(i as int));
        }
        total = total + files[i].metadata.size;
        i += 1;
    }
    assert(files@.take(i as int) =~= files@);
    total
}

fn category_seen_before(files: &Vec<FileInfo>, i: usize, category: &str) -> (res: bool)
    requires
        i <= files.len(),
    ensures
        res == occurs_before(files@, i as int, category@),
{
    let mut j: usize = 0;
    while j < i
        invariant
            j <= i <= files.len(),
            forall|k: int| 0 <= k < j ==> !#[trigger] has_category(files@, k, category@),
        decreases i - j,
    {
        if let Some(c) = &files[j].category {
            if same_text(c.as_str(), category) {
                assert(has_category(files@, j as int, category@));
                return true;
            }
        }
        j += 1;
    }
    false
}

fn count_category(files: &Vec<FileInfo>, category: &str) -> (res: usize)
    ensures
        res == category_count(files@, category@),
{
    let mut count: usize = 0;
    let mut k: usize = 0;
    assert(files@.take(0) =~= Seq::<FileInfo>::empty());
    while k < files.len()
        invariant
            k <= files.len(),
            count <= k,
            count == category_count(files@.take(k as int), category@),
        decreases files.len() - k,
    {
        proof {
            let next = files@.take(k + 1);
            assert(next.drop_last() =~= files@.take(k as int));
            assert(has_category(next, next.len() - 1, category@) == has_category(
                files@,
                k as int,
                category@,
            ));
        }
        if let Some(c) = &files[k].category {
            if same_text(c.as_str(), category) {
                count += 1;
            }
        }
        k += 1;
    }
    assert(files@.take(k as int) =~= files@);
    count
}

proof fn lemma_count_positive(files: Seq<FileInfo>, i: int, category: Seq<char>)
    requires
        0 <= i < files.len(),
        has_category(files, i, category),
    ensures
        category_count(files, category) > 0,
    decreases files.len(),
{
    if i < files.len() - 1 {
        lemma_count_positive(files.drop_last(), i, category);
    }
}

/// The statistics of a scan. The sizes must add up to a number that a
/// `u64` holds.
pub fn calculate_stats(files: &Vec<FileInfo>) -> (res: Stats)
    requires
        total_size(files@) <= u64::MAX,
    ensures
        stats_of(files@, &res),
{
    let total = sum_sizes(files);
    let mut counts: Vec<(String, usize)> = Vec::new();
    let mut i: usize = 0;
    while i < files.len()
        invariant
            i <= files.len(),
            forall|x: int|
                0 <= x < counts@.len() ==> (#[trigger] counts@[x]).1 == category_count(
                    files@,
                    counts@[x].0@,
                ) && counts@[x].1 > 0,
            forall|x: int|
                0 <= x < counts@.len() ==> occurs_before(
                    files@,
                    i as int,
                    (#[trigger] counts@[x]).0@,
                ),
            forall|x: int, y: int|
                0 <= x < y < counts@.len() ==> (#[trigger] counts@[x]).0@ != (
                #[trigger] counts@[y]).0@,
            forall|j: int, c: Seq<char>|
                0 <= j < i && #[trigger] has_category(files@, j, c) ==> counted(counts@, c),
        decreases files.len() - i,
    {
        let ghost before = counts@;
        if let Some(category) = &files[i].category {
            assert(has_category(files@, i as int, category@));
            let earlier = category_seen_before(files, i, category.as_str());
            if !earlier {
                let n = count_category(files, category.as_str());
                proof {
                    lemma_count_positive(files@, i as int, category@);
                    assert forall|x: int| 0 <= x < before.len() implies (#[trigger] before[x]).0@
                        != category@ by {
                        assert(occurs_before(files@, i as int, before[x].0@));
                    }
                }
                counts.push((category.clone(), n));
                proof {
                    assert(counts@[before.len() as int].0@ == category@);
                    assert(has_category(files@, i as int, counts@[before.len() as int].0@));
                }
            } else {
                proof {
                    let j = choose|j: int| 0 <= j < i && #[trigger] has_category(files@, j, category@);
                    assert(counted(before, category@));
                }
            }
            proof {
                assert(counted(counts@, category@)) by {
                    if earlier {
                        let x = choose|x: int|
                            0 <= x < before.len() && (#[trigger] before[x]).0@ == category@;
                        assert(counts@[x].0@ == category@);
                    } else {
                        assert(counts@[before.len() as int].0@ == category@);
                    }
                }
            }
        }
        proof {
            assert forall|x: int| 0 <= x < before.len() implies counts@[x] == before[x] by {}
            assert forall|x: int| 0 <= x < counts@.len() implies occurs_before(
                files@,
                i + 1,
                (#[trigger] counts@[x]).0@,
            ) by {
                if x < before.len() {
                    assert(occurs_before(files@, i as int, before[x].0@));
                    let j = choose|j: int|
                        0 <= j < i && #[trigger] has_category(files@, j, before[x].0@);
                    assert(has_category(files@, j, counts@[x].0@));
                } else {
                    assert(has_category(files@, i as int, counts@[x].0@));
                }
            }
            assert forall|j: int, c: Seq<char>|
                0 <= j < i + 1 && #[trigger] has_category(files@, j, c) implies counted(
                counts@,
                c,
            ) by {
                if j < i {
                    assert(counted(before, c));
                    let x = choose|x: int| 0 <= x < before.len() && (#[trigger] before[x]).0@ == c;
                    assert(counts@[x].0@ == c);
                }
            }
        }
        i += 1;
    }
    Stats { total_files: files.len(), total_size: total, category_counts: counts }
}

} // verus!
