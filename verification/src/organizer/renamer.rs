//! Relocation: where a file of a category goes, and which name it gets when
//! that place is taken.

use crate::models::file_info::{date_segments, FileInfo};
use crate::organizer::undo::{UndoEntry, UndoHistory};
use crate::text::{
    decimal, decimal_text, extension_of, is_listed, join_path, joined, lemma_decimal_injective,
    lemma_decimal_len, lemma_last_index_bounds, listed, split_name, stem_of,
};
use vstd::prelude::*;

verus! {

/// The highest counter that collision resolution tries.
pub const MAX_COLLISION_ATTEMPTS: u32 = 10000;

/// Computes destinations below `base_path`; with `dry_run` nothing is to be
/// moved.
#[derive(Debug, Clone)]
pub struct Renamer {
    pub dry_run: bool,
    pub base_path: String,
}

/// Why no destination could be given.
#[derive(Debug, Clone, Copy, PartialEq, Eq, Structural)]
pub enum RelocateError {
    /// Every candidate name up to the highest counter is taken.
    CollisionsExhausted,
}

impl RelocateError {
    /// The error in words.
    pub fn message(&self) -> (res: String)
        ensures
            res@ == "no free destination name left"@,
    {
        String::from_str("no free destination name left")
    }
}

/// The outcome of planning one relocation: the final path, and whether the
/// file is to be moved there.
#[derive(Debug, Clone)]
pub struct MovePlan {
    pub destination: String,
    pub perform: bool,
}

/// The directory of a destination: `base/category`, followed by year and
/// month where the file has them.
pub open spec fn dest_dir(
    base: Seq<char>,
    category: Seq<char>,
    segments: Option<(Seq<char>, Seq<char>)>,
) -> Seq<char> {
    match segments {
        None => joined(base, category),
        Some((year, month)) => joined(joined(joined(base, category), year), month),
    }
}

/// The destination of a file: its name below the destination directory.
pub open spec fn dest_path(
    base: Seq<char>,
    category: Seq<char>,
    segments: Option<(Seq<char>, Seq<char>)>,
    name: Seq<char>,
) -> Seq<char> {
    joined(dest_dir(base, category, segments), name)
}

/// What follows the stem in a file name: the dot and the extension, or
/// nothing when the name has no extension.
pub open spec fn name_tail(name: Seq<char>) -> Seq<char> {
    match extension_of(name) {
        Some(ext) => seq!['.'] + ext,
        None => Seq::empty(),
    }
}

/// The name tried at counter `k`: the name itself at 0, then the counter
/// between the stem and what follows it.
pub open spec fn candidate_name(name: Seq<char>, k: nat) -> Seq<char> {
    if k == 0 {
        name
    } else {
        stem_of(name) + seq!['_'] + decimal(k) + name_tail(name)
    }
}

/// The path tried at counter `k`.
pub open spec fn candidate(dir: Seq<char>, name: Seq<char>, k: nat) -> Seq<char> {
    joined(dir, candidate_name(name, k))
}

/// The paths that a list of existing paths holds.
pub open spec fn taken_paths(taken: Seq<String>) -> Set<Seq<char>> {
    Set::new(|p: Seq<char>| listed(taken, p))
}

/// The first counter from `k` on whose candidate is free, if there is one up
/// to the highest counter.
pub open spec fn first_free_from(
    dir: Seq<char>,
    name: Seq<char>,
    taken: Set<Seq<char>>,
    k: nat,
) -> Option<nat>
    decreases MAX_COLLISION_ATTEMPTS + 1 - k,
{
    if k > MAX_COLLISION_ATTEMPTS {
        None
    } else if !taken.contains(candidate(dir, name, k)) {
        Some(k)
    } else {
        first_free_from(dir, name, taken, k + 1)
    }
}

/// The final path of a file named `name` in `dir`: the first free
/// candidate, or nothing when all are taken.
pub open spec fn resolved(dir: Seq<char>, name: Seq<char>, taken: Set<Seq<char>>) -> Option<
    Seq<char>,
> {
    match first_free_from(dir, name, taken, 0) {
        Some(k) => Some(candidate(dir, name, k)),
        None => None,
    }
}

/// The directory below `base` for a category and optional date segments.
pub fn destination_dir(base: &str, category: &str, segments: &Option<(String, String)>) -> (res:
    String)
    ensures
        res@ == dest_dir(
            base@,
            category@,
            match segments {
                Some(p) => Some((p.0@, p.1@)),
                None => None,
            },
        ),
{
    let top = join_path(base, category);
    match segments {
        None => top,
        Some(p) => {
            let with_year = join_path(top.as_str(), p.0.as_str());
            join_path(with_year.as_str(), p.1.as_str())
        },
    }
}

/// Whether `path` is one of the existing paths.
pub fn path_taken(taken: &Vec<String>, path: &str) -> (res: bool)
    ensures
        res == taken_paths(taken@).contains(path@),
{
    is_listed(taken, path)
}

fn candidate_path(dir: &str, name: &str, stem: &str, tail: &str, k: u32) -> (res: String)
    requires
        stem@ == stem_of(name@),
        tail@ == name_tail(name@),
    ensures
        res@ == candidate(dir@, name@, k as nat),
{
    if k == 0 {
        join_path(dir, name)
    } else {
        proof {
            reveal_strlit("_");
        }
        let underscore = "_";
        assert(underscore@ =~= seq!['_']);
        let count = decimal_text(k);
        let numbered = String::from_str(stem).concat(underscore).concat(count.as_str()).concat(
            tail,
        );
        join_path(dir, numbered.as_str())
    }
}

/// The dot and the extension of a file name, as they follow its stem.
fn tail_text(ext: &Option<String>) -> (res: String)
    ensures
        res@ == match ext {
            Some(e) => seq!['.'] + e@,
            None => Seq::empty(),
        },
{
    match ext {
        Some(e) => {
            proof {
                reveal_strlit(".");
            }
            let dot = ".";
            assert(dot@ =~= seq!['.']);
            String::from_str(dot).concat(e.as_str())
        },
        None => String::new(),
    }
}

/// Finds the final path for a file named `name` in `dir`, given the paths
/// that exist there: the plain path when it is free, else the first free
/// numbered one; an error when the counter runs out.
pub fn resolve_collision(dir: &str, name: &str, taken: &Vec<String>) -> (res: Result<
    String,
    RelocateError,
>)
    ensures
        match res {
            Ok(p) => resolved(dir@, name@, taken_paths(taken@)) == Some(p@),
            Err(e) => resolved(dir@, name@, taken_paths(taken@)) is None && e
                == RelocateError::CollisionsExhausted,
        },
        taken@.len() <= MAX_COLLISION_ATTEMPTS ==> res is Ok,
{
    proof {
        lemma_taken_paths_bound(taken@);
        if taken@.len() <= MAX_COLLISION_ATTEMPTS {
            resolution_succeeds_with_room(dir@, name@, taken_paths(taken@));
        }
    }
    let parts = split_name(name);
    let tail = tail_text(&parts.1);
    let mut k: u32 = 0;
    while k <= MAX_COLLISION_ATTEMPTS
        invariant
            k <= MAX_COLLISION_ATTEMPTS + 1,
            parts.0@ == stem_of(name@),
            tail@ == name_tail(name@),
            first_free_from(dir@, name@, taken_paths(taken@), 0) == first_free_from(
                dir@,
                name@,
                taken_paths(taken@),
                k as nat,
            ),
        decreases MAX_COLLISION_ATTEMPTS + 1 - k,
    {
        let path = candidate_path(dir, name, parts.0.as_str(), tail.as_str(), k);
        if !path_taken(taken, path.as_str()) {
            return Ok(path);
        }
        k += 1;
    }
    Err(RelocateError::CollisionsExhausted)
}

impl Renamer {
    pub fn new(base_path: String, dry_run: bool) -> (res: Self)
        ensures
            res.base_path == base_path,
            res.dry_run == dry_run,
    {
        Renamer { base_path, dry_run }
    }

    /// The destination of a file of the given category:
    /// `base/category/name`, with year and month of the file's modification
    /// time between category and name where the file has one.
    pub fn get_dest_path(&self, file: &FileInfo, category: &str) -> (res: String)
        ensures
            res@ == dest_path(
                self.base_path@,
                category@,
                date_segments(file.metadata.modified),
                file.name@,
            ),
    {
        let dir = self.dest_dir_for(file, category);
        join_path(dir.as_str(), file.name.as_str())
    }

    /// The directory that `get_dest_path` places the file in.
    pub fn dest_dir_for(&self, file: &FileInfo, category: &str) -> (res: String)
        ensures
            res@ == dest_dir(self.base_path@, category@, date_segments(file.metadata.modified)),
    {
        let segments = match &file.metadata.modified {
            Some(stamp) => stamp.segments(),
            None => None,
        };
        destination_dir(self.base_path.as_str(), category, &segments)
    }

    /// Plans the relocation of a file. A dry run gives the destination as
    /// computed and asks for no move. Otherwise `taken` holds the paths that
    /// exist in the destination directory, and the plan names the first free
    /// candidate, to be moved to; when none is free the file is refused.
    pub fn apply(&self, file: &FileInfo, category: &str, taken: &Vec<String>) -> (res: Result<
        MovePlan,
        RelocateError,
    >)
        ensures
            self.dry_run ==> (res matches Ok(plan) && !plan.perform && plan.destination@
                == dest_path(
                self.base_path@,
                category@,
                date_segments(file.metadata.modified),
                file.name@,
            )),
            !self.dry_run ==> match resolved(
                dest_dir(self.base_path@, category@, date_segments(file.metadata.modified)),
                file.name@,
                taken_paths(taken@),
            ) {
                Some(p) => res matches Ok(plan) && plan.perform && plan.destination@ == p,
                None => res == Err::<MovePlan, RelocateError>(RelocateError::CollisionsExhausted),
            },
            taken@.len() <= MAX_COLLISION_ATTEMPTS ==> res is Ok,
    {
        let dir = self.dest_dir_for(file, category);
        if self.dry_run {
            Ok(MovePlan { destination: join_path(dir.as_str(), file.name.as_str()), perform: false })
        } else {
            match resolve_collision(dir.as_str(), file.name.as_str(), taken) {
                Ok(path) => Ok(MovePlan { destination: path, perform: true }),
                Err(e) => Err(e),
            }
        }
    }
}

/// Commits the outcome of one planned relocation. Only a move that was
/// asked for and succeeded is journalled, at the end of the journal, and
/// only then does the record take its new path; in every other case journal
/// and record stay as they are.
pub fn commit_move(history: &mut UndoHistory, file: &mut FileInfo, plan: &MovePlan, moved: bool)
    ensures
        plan.perform && moved ==> {
            &&& final(history).entries@.len() == old(history).entries@.len() + 1
            &&& final(history).entries@.drop_last() == old(history).entries@
            &&& final(history).entries@.last().original_path@ == old(file).path@
            &&& final(history).entries@.last().current_path@ == plan.destination@
            &&& final(file).path@ == plan.destination@
        },
        !(plan.perform && moved) ==> *final(history) == *old(history) && final(file).path == old(file).path,
        final(file).name == old(file).name,
        final(file).metadata == old(file).metadata,
        final(file).category == old(file).category,
        final(file).suggested_name == old(file).suggested_name,
{
    if plan.perform && moved {
        let entry = UndoEntry::new(file.path.as_str(), plan.destination.as_str());
        let ghost before = history.entries@;
        history.append(entry);
        assert(history.entries@.drop_last() =~= before);
        file.path = plan.destination.clone();
    }
}

/// A free candidate is found exactly when the search from `k` names a
/// counter; that counter's candidate is free, and every earlier one from `k`
/// on is taken.
pub proof fn lemma_first_free(dir: Seq<char>, name: Seq<char>, taken: Set<Seq<char>>, k: nat)
    ensures
        match first_free_from(dir, name, taken, k) {
            Some(n) => k <= n <= MAX_COLLISION_ATTEMPTS && !taken.contains(candidate(dir, name, n))
                && forall|j: nat| k <= j < n ==> taken.contains(#[trigger] candidate(dir, name, j)),
            None => forall|j: nat|
                k <= j <= MAX_COLLISION_ATTEMPTS ==> taken.contains(
                    #[trigger] candidate(dir, name, j),
                ),
        },
    decreases MAX_COLLISION_ATTEMPTS + 1 - k,
{
    if k <= MAX_COLLISION_ATTEMPTS && taken.contains(candidate(dir, name, k)) {
        lemma_first_free(dir, name, taken, k + 1);
    }
}

/// Different counters give different candidate paths.
pub proof fn lemma_candidates_distinct(dir: Seq<char>, name: Seq<char>, j: nat, k: nat)
    requires
        j != k,
    ensures
        candidate(dir, name, j) != candidate(dir, name, k),
{
    let cj = candidate_name(name, j);
    let ck = candidate_name(name, k);
    let head = stem_of(name) + seq!['_'];
    lemma_last_index_bounds(name, '.');
    lemma_decimal_len(j);
    lemma_decimal_len(k);
    if cj == ck {
        if j != 0 && k != 0 {
            assert(cj.len() == head.len() + decimal(j).len() + name_tail(name).len());
            assert(ck.len() == head.len() + decimal(k).len() + name_tail(name).len());
            assert(cj.subrange(head.len() as int, (head.len() + decimal(j).len()) as int) =~= decimal(j));
            assert(ck.subrange(head.len() as int, (head.len() + decimal(k).len()) as int) =~= decimal(k));
            lemma_decimal_injective(j, k);
        } else if j == 0 {
            assert(ck.len() == head.len() + decimal(k).len() + name_tail(name).len());
            assert(ck.len() > name.len());
        } else {
            assert(cj.len() == head.len() + decimal(j).len() + name_tail(name).len());
            assert(cj.len() > name.len());
        }
    }
    if candidate(dir, name, j) == candidate(dir, name, k) {
        let pj = candidate(dir, name, j);
        let pk = candidate(dir, name, k);
        assert(pj.subrange((dir.len() + 1) as int, pj.len() as int) =~= cj);
        assert(pk.subrange((dir.len() + 1) as int, pk.len() as int) =~= ck);
    }
}

/// The candidate paths of the counters below `n`.
pub open spec fn candidates_below(dir: Seq<char>, name: Seq<char>, n: nat) -> Set<Seq<char>>
    decreases n,
{
    if n == 0 {
        Set::empty()
    } else {
        candidates_below(dir, name, (n - 1) as nat).insert(candidate(dir, name, (n - 1) as nat))
    }
}

/// There are as many candidate paths below `n` as counters, and each of
/// them belongs to a counter below `n`.
pub proof fn lemma_candidates_below(dir: Seq<char>, name: Seq<char>, n: nat)
    ensures
        candidates_below(dir, name, n).finite(),
        candidates_below(dir, name, n).len() == n,
        forall|p: Seq<char>| #[trigger]
            candidates_below(dir, name, n).contains(p) ==> exists|k: nat|
                k < n && #[trigger] candidate(dir, name, k) == p,
    decreases n,
{
    if n > 0 {
        let m = (n - 1) as nat;
        let below = candidates_below(dir, name, m);
        let new = candidate(dir, name, m);
        lemma_candidates_below(dir, name, m);
        if below.contains(new) {
            let k = choose|k: nat| k < m && #[trigger] candidate(dir, name, k) == new;
            lemma_candidates_distinct(dir, name, k, m);
        }
        assert forall|p: Seq<char>| #[trigger]
            candidates_below(dir, name, n).contains(p) implies exists|k: nat|
            k < n && #[trigger] candidate(dir, name, k) == p by {
            if p == new {
                assert(candidate(dir, name, m) == p);
            } else {
                assert(below.contains(p));
                let k = choose|k: nat| k < m && #[trigger] candidate(dir, name, k) == p;
                assert(k < n && candidate(dir, name, k) == p);
            }
        }
    }
}

/// A free name is found whenever fewer paths are taken than there are
/// candidates.
pub proof fn resolution_succeeds_with_room(dir: Seq<char>, name: Seq<char>, taken: Set<Seq<char>>)
    requires
        taken.finite(),
        taken.len() <= MAX_COLLISION_ATTEMPTS,
    ensures
        resolved(dir, name, taken) is Some,
{
    lemma_first_free(dir, name, taken, 0);
    if first_free_from(dir, name, taken, 0) is None {
        let all = candidates_below(dir, name, (MAX_COLLISION_ATTEMPTS + 1) as nat);
        lemma_candidates_below(dir, name, (MAX_COLLISION_ATTEMPTS + 1) as nat);
        assert forall|p: Seq<char>| all.contains(p) implies taken.contains(p) by {
            let k = choose|k: nat|
                k < MAX_COLLISION_ATTEMPTS + 1 && #[trigger] candidate(dir, name, k) == p;
            assert(taken.contains(candidate(dir, name, k)));
        }
        assert(all.subset_of(taken));
        vstd::set_lib::lemma_len_subset(all, taken);
    }
}

/// A list of existing paths holds at most as many paths as it has entries.
pub proof fn lemma_taken_paths_bound(taken: Seq<String>)
    ensures
        taken_paths(taken).finite(),
        taken_paths(taken).len() <= taken.len(),
    decreases taken.len(),
{
    if taken.len() == 0 {
        assert(taken_paths(taken) =~= Set::<Seq<char>>::empty());
    } else {
        let init = taken.drop_last();
        lemma_taken_paths_bound(init);
        assert forall|p: Seq<char>| taken_paths(taken).contains(p) <==> taken_paths(init).insert(
            taken.last()@,
        ).contains(p) by {
            if taken_paths(taken).contains(p) {
                let i = choose|i: int| 0 <= i < taken.len() && (#[trigger] taken[i])@ == p;
                if i < init.len() {
                    assert(init[i]@ == p);
                }
            }
            if taken_paths(init).contains(p) {
                let i = choose|i: int| 0 <= i < init.len() && (#[trigger] init[i])@ == p;
                assert(taken[i]@ == p);
            }
            if p == taken.last()@ {
                assert(taken[taken.len() - 1]@ == p);
            }
        }
        assert(taken_paths(taken) =~= taken_paths(init).insert(taken.last()@));
    }
}

/// The outcomes of `n` relocations that all ask for the same name in the
/// same directory, one after the other: each final path joins the taken
/// paths before the next is resolved.
pub open spec fn successive(dir: Seq<char>, name: Seq<char>, taken: Set<Seq<char>>, n: nat) -> Seq<
    Option<Seq<char>>,
>
    decreases n,
{
    if n == 0 {
        Seq::empty()
    } else {
        match resolved(dir, name, taken) {
            Some(p) => seq![Some(p)] + successive(dir, name, taken.insert(p), (n - 1) as nat),
            None => seq![None] + successive(dir, name, taken, (n - 1) as nat),
        }
    }
}

/// While there is room, every one of the relocations that ask for one
/// destination gets a final path.
pub proof fn successive_all_resolved(dir: Seq<char>, name: Seq<char>, taken: Set<Seq<char>>, n: nat)
    requires
        taken.finite(),
        taken.len() + n <= MAX_COLLISION_ATTEMPTS + 1,
    ensures
        successive(dir, name, taken, n).len() == n,
        forall|a: int| 0 <= a < n ==> (#[trigger] successive(dir, name, taken, n)[a]) is Some,
    decreases n,
{
    if n > 0 {
        resolution_succeeds_with_room(dir, name, taken);
        lemma_first_free(dir, name, taken, 0);
        let p = resolved(dir, name, taken)->Some_0;
        let rest = successive(dir, name, taken.insert(p), (n - 1) as nat);
        successive_all_resolved(dir, name, taken.insert(p), (n - 1) as nat);
        assert(successive(dir, name, taken, n) =~= seq![Some(p)] + rest);
        assert forall|a: int| 0 <= a < n implies (#[trigger] successive(dir, name, taken, n)[a])
            is Some by {
            if a > 0 {
                assert(successive(dir, name, taken, n)[a] == rest[a - 1]);
            }
        }
    }
}

/// Collision safety: of the relocations that ask for one destination in one
/// run, no two get the same final path, and none gets a path that was
/// taken before.
pub proof fn collision_safety(dir: Seq<char>, name: Seq<char>, taken: Set<Seq<char>>, n: nat)
    ensures
        successive(dir, name, taken, n).len() == n,
        forall|a: int|
            0 <= a < n ==> (#[trigger] successive(dir, name, taken, n)[a] matches Some(p)
                ==> !taken.contains(p)),
        forall|a: int, b: int|
            0 <= a < b < n && successive(dir, name, taken, n)[a] is Some ==> #[trigger] successive(
                dir,
                name,
                taken,
                n,
            )[a] != #[trigger] successive(dir, name, taken, n)[b],
    decreases n,
{
    if n > 0 {
        let all = successive(dir, name, taken, n);
        lemma_first_free(dir, name, taken, 0);
        match resolved(dir, name, taken) {
            Some(p) => {
                let rest = successive(dir, name, taken.insert(p), (n - 1) as nat);
                collision_safety(dir, name, taken.insert(p), (n - 1) as nat);
                assert(all =~= seq![Some(p)] + rest);
                assert forall|a: int| 0 <= a < n implies (#[trigger] all[a] matches Some(q)
                    ==> !taken.contains(q)) by {
                    if a > 0 {
                        assert(all[a] == rest[a - 1]);
                    }
                }
                assert forall|a: int, b: int| 0 <= a < b < n && all[a] is Some implies #[trigger] all[a]
                    != #[trigger] all[b] by {
                    assert(all[b] == rest[b - 1]);
                    if a > 0 {
                        assert(all[a] == rest[a - 1]);
                    } else {
                        match rest[b - 1] {
                            Some(q) => {
                                assert(!taken.insert(p).contains(q));
                            },
                            None => {},
                        }
                    }
                }
            },
            None => {
                let rest = successive(dir, name, taken, (n - 1) as nat);
                collision_safety(dir, name, taken, (n - 1) as nat);
                assert(all =~= seq![None] + rest);
                assert forall|a: int| 0 <= a < n implies (#[trigger] all[a] matches Some(q)
                    ==> !taken.contains(q)) by {
                    if a > 0 {
                        assert(all[a] == rest[a - 1]);
                    }
                }
                assert forall|a: int, b: int| 0 <= a < b < n && all[a] is Some implies #[trigger] all[a]
                    != #[trigger] all[b] by {
                    assert(all[b] == rest[b - 1]);
                    if a > 0 {
                        assert(all[a] == rest[a - 1]);
                    }
                }
            },
        }
    }
}

} // verus!
