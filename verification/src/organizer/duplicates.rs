//! Duplicate detection: files grouped by equal content hash.

use crate::models::file_info::FileInfo;
use crate::organizer::metadata::{blake3_hex, needs_hash};
use vstd::prelude::*;

verus! {

/// The files that share one content hash, as indices into the scanned list,
/// in increasing order.
#[derive(Debug, Clone)]
pub struct DuplicateGroup {
    pub hash: String,
    pub members: Vec<usize>,
}

/// The content hash of the file at index `i`.
pub open spec fn hash_at(files: Seq<FileInfo>, i: int) -> Seq<char> {
    files[i].metadata.hash@
}

/// Index `i` is one of `members`.
pub open spec fn has_member(members: Seq<usize>, i: int) -> bool {
    exists|k: int| 0 <= k < members.len() && #[trigger] members[k] == i
}

/// The indices in `members` increase, and every one of them is the index
/// of a file with hash `hash`.
pub open spec fn members_sound(files: Seq<FileInfo>, hash: Seq<char>, members: Seq<usize>) -> bool {
    &&& forall|k: int|
        0 <= k < members.len() ==> (#[trigger] members[k]) < files.len() && hash_at(
            files,
            members[k] as int,
        ) == hash
    &&& forall|a: int, b: int|
        0 <= a < b < members.len() ==> (#[trigger] members[a]) < (#[trigger] members[b])
}

/// The group stands for a hash that was computed, and holds exactly the
/// files with that hash, at least two.
pub open spec fn group_complete(files: Seq<FileInfo>, group: DuplicateGroup) -> bool {
    &&& group.hash@.len() > 0
    &&& group.members@.len() >= 2
    &&& members_sound(files, group.hash@, group.members@)
    &&& forall|i: int|
        0 <= i < files.len() && #[trigger] hash_at(files, i) == group.hash@ ==> has_member(
            group.members@,
            i,
        )
}

/// `groups` is the grouping of `files` by content hash: one complete group
/// for each hash that two or more files share, in the order in which the
/// hashes first occur, and no group for any other hash. A file whose hash
/// is still missing stands in no group.
pub open spec fn grouping_of(files: Seq<FileInfo>, groups: Seq<DuplicateGroup>) -> bool {
    &&& forall|x: int| 0 <= x < groups.len() ==> group_complete(files, #[trigger] groups[x])
    &&& forall|x: int, y: int|
        0 <= x < y < groups.len() ==> (#[trigger] groups[x]).hash@ != (#[trigger] groups[y]).hash@
    &&& forall|x: int, y: int|
        0 <= x < y < groups.len() ==> (#[trigger] groups[x]).members@[0] < (
        #[trigger] groups[y]).members@[0]
    &&& forall|i: int, j: int|
        0 <= i < files.len() && 0 <= j < files.len() && i != j && #[trigger] hash_at(files, i)
            == #[trigger] hash_at(files, j) && hash_at(files, i).len() > 0 ==> hash_grouped(
            groups,
            hash_at(files, i),
        )
}

/// Some group stands for `hash`.
pub open spec fn hash_grouped(groups: Seq<DuplicateGroup>, hash: Seq<char>) -> bool {
    exists|x: int| 0 <= x < groups.len() && (#[trigger] groups[x]).hash@ == hash
}

fn seen_before(files: &Vec<FileInfo>, i: usize) -> (res: bool)
    requires
        i < files.len(),
    ensures
        res == exists|j: int| 0 <= j < i && #[trigger] hash_at(files@, j) == hash_at(files@, i as int),
{
    let mut j: usize = 0;
    while j < i
        invariant
            j <= i,
            i < files.len(),
            forall|k: int| 0 <= k < j ==> #[trigger] hash_at(files@, k) != hash_at(files@, i as int),
        decreases i - j,
    {
        if files[j].metadata.hash == files[i].metadata.hash {
            assert(hash_at(files@, j as int) == hash_at(files@, i as int));
            return true;
        }
        j += 1;
    }
    false
}

fn indices_with_hash(files: &Vec<FileInfo>, i: usize) -> (res: Vec<usize>)
    requires
        i < files.len(),
    ensures
        res@.len() >= 1,
        res@[0] == i,
        members_sound(files@, hash_at(files@, i as int), res@),
        forall|k: int|
            i <= k < files.len() && #[trigger] hash_at(files@, k) == hash_at(files@, i as int)
                ==> has_member(res@, k),
{
    let mut members: Vec<usize> = Vec::new();
    members.push(i);
    let mut k: usize = i + 1;
    while k < files.len()
        invariant
            i < k <= files.len(),
            members@.len() >= 1,
            members@[0] == i,
            members_sound(files@, hash_at(files@, i as int), members@),
            forall|m: int| 0 <= m < members@.len() ==> (#[trigger] members@[m]) < k,
            forall|m: int|
                i <= m < k && #[trigger] hash_at(files@, m) == hash_at(files@, i as int)
                    ==> has_member(members@, m),
        decreases files.len() - k,
    {
        if files[k].metadata.hash == files[i].metadata.hash {
            let ghost before = members@;
            members.push(k);
            proof {
                assert forall|m: int|
                    i <= m < k + 1 && #[trigger] hash_at(files@, m) == hash_at(
                        files@,
                        i as int,
                    ) implies has_member(members@, m) by {
                    if m < k {
                        let w = choose|w: int| 0 <= w < before.len() && #[trigger] before[w] == m;
                        assert(members@[w] == m);
                    } else {
                        assert(members@[before.len() as int] == m);
                    }
                }
            }
        }
        k += 1;
    }
    members
}

/// Groups the files by content hash. Every hash that two or more files
/// carry gets one group, which lists all files with that hash; a hash that
/// one file alone carries gets none, and files without a hash are left
/// out.
pub fn find_duplicates(files: &Vec<FileInfo>) -> (res: Vec<DuplicateGroup>)
    ensures
        grouping_of(files@, res@),
{
    let mut groups: Vec<DuplicateGroup> = Vec::new();
    let mut i: usize = 0;
    while i < files.len()
        invariant
            i <= files.len(),
            forall|x: int| 0 <= x < groups@.len() ==> group_complete(files@, #[trigger] groups@[x]),
            forall|x: int| 0 <= x < groups@.len() ==> (#[trigger] groups@[x]).members@[0] < i,
            forall|x: int, y: int|
                0 <= x < y < groups@.len() ==> (#[trigger] groups@[x]).hash@ != (
                #[trigger] groups@[y]).hash@,
            forall|x: int, y: int|
                0 <= x < y < groups@.len() ==> (#[trigger] groups@[x]).members@[0] < (
                #[trigger] groups@[y]).members@[0],
            forall|a: int, b: int|
                0 <= a < i && 0 <= b < files.len() && a != b && #[trigger] hash_at(files@, a)
                    == #[trigger] hash_at(files@, b) && hash_at(files@, a).len() > 0
                    ==> hash_grouped(groups@, hash_at(files@, a)),
        decreases files.len() - i,
    {
        let ghost before = groups@;
        let ghost h = hash_at(files@, i as int);
        let unhashed = needs_hash(&files[i]);
        let earlier = seen_before(files, i);
        let mut pushed = false;
        if !unhashed && !earlier {
            let members = indices_with_hash(files, i);
            if members.len() >= 2 {
                let group = DuplicateGroup { hash: files[i].metadata.hash.clone(), members };
                proof {
                    assert forall|m: int| 0 <= m < files.len() && #[trigger] hash_at(files@, m)
                        == h implies has_member(group.members@, m) by {
                        if m < i {
                            assert(hash_at(files@, m) == hash_at(files@, i as int));
                        }
                    }
                    assert forall|x: int| 0 <= x < before.len() implies (#[trigger] before[x]).hash@
                        != h by {
                        let first = before[x].members@[0];
                        assert(hash_at(files@, first as int) == before[x].hash@);
                    }
                }
                groups.push(group);
                pushed = true;
                proof {
                    assert(groups@[before.len() as int].hash@ == h);
                }
            }
        }
        proof {
            assert forall|x: int| 0 <= x < before.len() implies groups@[x] == before[x] by {}
            assert forall|a: int, b: int|
                0 <= a < i + 1 && 0 <= b < files.len() && a != b && #[trigger] hash_at(files@, a)
                    == #[trigger] hash_at(files@, b) && hash_at(files@, a).len() > 0 implies hash_grouped(
                groups@,
                hash_at(files@, a),
            ) by {
                if a < i {
                    assert(hash_grouped(before, hash_at(files@, a)));
                    let x = choose|x: int|
                        0 <= x < before.len() && (#[trigger] before[x]).hash@ == hash_at(files@, a);
                    assert(groups@[x].hash@ == hash_at(files@, a));
                } else if earlier {
                    let j = choose|j: int|
                        0 <= j < i && #[trigger] hash_at(files@, j) == hash_at(files@, i as int);
                    assert(hash_at(files@, j) == hash_at(files@, i as int));
                    assert(hash_grouped(before, hash_at(files@, j)));
                    let x = choose|x: int|
                        0 <= x < before.len() && (#[trigger] before[x]).hash@ == hash_at(files@, j);
                    assert(groups@[x].hash@ == hash_at(files@, a));
                } else {
                    if !pushed {
                        // the file at `i` is the only one among those from `i` on
                        // with its hash, and none before `i` has it
                        if b < i {
                            assert(hash_at(files@, b) == hash_at(files@, i as int));
                        }
                    } else {
                        assert(groups@[before.len() as int].hash@ == hash_at(files@, a));
                    }
                }
            }
        }
        i += 1;
    }
    groups
}

/// The members of a group that are not kept: all but the first.
pub open spec fn surplus(members: Seq<usize>) -> Seq<usize> {
    if members.len() == 0 {
        members
    } else {
        members.subrange(1, members.len() as int)
    }
}

/// The files to delete so that one file of each group remains: every
/// member of every group but its first, group by group.
pub open spec fn removal_list(groups: Seq<DuplicateGroup>) -> Seq<usize>
    decreases groups.len(),
{
    if groups.len() == 0 {
        Seq::empty()
    } else {
        removal_list(groups.drop_last()) + surplus(groups.last().members@)
    }
}

/// What removing duplicates comes to: the files concerned, and whether
/// they are to be deleted or only reported.
#[derive(Debug, Clone)]
pub struct RemovalPlan {
    pub targets: Vec<usize>,
    pub delete: bool,
}

/// Plans the removal of duplicates: the first member of each group is
/// kept, all others are listed, group by group. A dry run lists them
/// without asking for their deletion.
pub fn remove_duplicates(groups: &Vec<DuplicateGroup>, dry_run: bool) -> (res: RemovalPlan)
    ensures
        res.targets@ == removal_list(groups@),
        res.delete == !dry_run,
{
    RemovalPlan { targets: surplus_members(groups), delete: !dry_run }
}

fn surplus_members(groups: &Vec<DuplicateGroup>) -> (res: Vec<usize>)
    ensures
        res@ == removal_list(groups@),
{
    let mut doomed: Vec<usize> = Vec::new();
    let mut g: usize = 0;
    assert(groups@.take(0) =~= Seq::<DuplicateGroup>::empty());
    while g < groups.len()
        invariant
            g <= groups.len(),
            doomed@ == removal_list(groups@.take(g as int)),
        decreases groups.len() - g,
    {
        let members = &groups[g].members;
        let n = members.len();
        let ghost base = doomed@;
        if n > 0 {
            let mut k: usize = 1;
            assert(doomed@ =~= base + members@.subrange(1, 1));
            while k < n
                invariant
                    1 <= k <= n,
                    n == members@.len(),
                    doomed@ == base + members@.subrange(1, k as int),
                decreases n - k,
            {
                doomed.push(members[k]);
                assert(doomed@ =~= base + members@.subrange(1, k + 1));
                k += 1;
            }
        } else {
            assert(doomed@ =~= base + surplus(members@));
        }
        proof {
            let upto = groups@.take(g + 1);
            assert(upto.drop_last() =~= groups@.take(g as int));
            assert(upto.last() == groups@[g as int]);
        }
        g += 1;
    }
    assert(groups@.take(g as int) =~= groups@);
    doomed
}

/// Files with the same content hash, once computed, stand together in one
/// group, and in no other.
pub proof fn duplicates_share_one_group(
    files: Seq<FileInfo>,
    groups: Seq<DuplicateGroup>,
    i: int,
    j: int,
)
    requires
        grouping_of(files, groups),
        0 <= i < files.len(),
        0 <= j < files.len(),
        i != j,
        hash_at(files, i) == hash_at(files, j),
        hash_at(files, i).len() > 0,
    ensures
        exists|x: int|
            0 <= x < groups.len() && has_member((#[trigger] groups[x]).members@, i) && has_member(
                groups[x].members@,
                j,
            ) && forall|y: int|
                0 <= y < groups.len() && y != x ==> !has_member((#[trigger] groups[y]).members@, i)
                    && !has_member(groups[y].members@, j),
{
    assert(hash_grouped(groups, hash_at(files, i)));
    let x = choose|x: int| 0 <= x < groups.len() && (#[trigger] groups[x]).hash@ == hash_at(files, i);
    assert(group_complete(files, groups[x]));
    assert forall|y: int| 0 <= y < groups.len() && y != x implies !has_member(
        (#[trigger] groups[y]).members@,
        i,
    ) && !has_member(groups[y].members@, j) by {
        assert(group_complete(files, groups[y]));
        assert(groups[y].hash@ != groups[x].hash@);
    }
}

/// Duplicate grouping by content: two files whose hashes were computed from
/// the same bytes stand together in one group, whatever their names and
/// places.
pub proof fn identical_content_shares_group(
    files: Seq<FileInfo>,
    contents: Seq<Seq<u8>>,
    groups: Seq<DuplicateGroup>,
    i: int,
    j: int,
)
    requires
        grouping_of(files, groups),
        contents.len() == files.len(),
        0 <= i < files.len(),
        0 <= j < files.len(),
        i != j,
        hash_at(files, i) == blake3_hex(contents[i]),
        hash_at(files, j) == blake3_hex(contents[j]),
        hash_at(files, i).len() > 0,
        contents[i] == contents[j],
    ensures
        exists|x: int|
            0 <= x < groups.len() && has_member((#[trigger] groups[x]).members@, i) && has_member(
                groups[x].members@,
                j,
            ),
{
    duplicates_share_one_group(files, groups, i, j);
}

/// Files with different content hashes never stand in the same group.
pub proof fn distinct_never_share(
    files: Seq<FileInfo>,
    groups: Seq<DuplicateGroup>,
    i: int,
    j: int,
    x: int,
)
    requires
        grouping_of(files, groups),
        0 <= x < groups.len(),
        0 <= i < files.len(),
        0 <= j < files.len(),
        hash_at(files, i) != hash_at(files, j),
    ensures
        !(has_member(groups[x].members@, i) && has_member(groups[x].members@, j)),
{
    assert(group_complete(files, groups[x]));
}

} // verus!
