//! The undo journal: the relocations of a run in the order they were
//! committed, replayed most recent first.

use crate::constants::UNDO_HISTORY_FILE;
use crate::text::{join_path, joined, parent_dir, parent_of};
use vstd::prelude::*;

verus! {

/// One committed relocation: where the file was and where it went.
#[derive(Debug, Clone)]
pub struct UndoEntry {
    pub original_path: String,
    pub current_path: String,
}

/// The committed relocations of one root, oldest first.
#[derive(Debug, Clone)]
pub struct UndoHistory {
    pub entries: Vec<UndoEntry>,
}

/// What to do with one journal entry during an undo run.
#[derive(Debug, Clone)]
pub enum UndoAction {
    /// Move `from` back to `to`, after making sure that `parent`, the
    /// directory that `to` lies in, exists.
    Restore { from: String, to: String, parent: Option<String> },
    /// The relocated file is gone: leave the entry without effect.
    Skip,
}

impl Default for UndoHistory {
    fn default() -> (res: Self)
        ensures
            res.entries@.len() == 0,
    {
        UndoHistory { entries: Vec::new() }
    }
}

impl UndoEntry {
    /// The entry for a file that went from `original` to `current`.
    pub fn new(original: &str, current: &str) -> (res: Self)
        ensures
            res.original_path@ == original@,
            res.current_path@ == current@,
    {
        UndoEntry {
            original_path: String::from_str(original),
            current_path: String::from_str(current),
        }
    }
}

impl UndoHistory {
    /// An empty journal.
    pub fn new() -> (res: Self)
        ensures
            res.entries@.len() == 0,
    {
        UndoHistory { entries: Vec::new() }
    }

    /// The journal that stands for what was read from storage: the parsed
    /// history, or an empty one where nothing was stored or it was malformed.
    pub fn from_stored(stored: Option<UndoHistory>) -> (res: Self)
        ensures
            match stored {
                Some(h) => res == h,
                None => res.entries@.len() == 0,
            },
    {
        match stored {
            Some(h) => h,
            None => UndoHistory::new(),
        }
    }

    /// Appends an entry; the earlier entries keep their places.
    pub fn append(&mut self, entry: UndoEntry)
        ensures
            final(self).entries@ == old(self).entries@.push(entry),
    {
        self.entries.push(entry);
    }

    /// Whether no relocation is waiting to be undone.
    pub fn is_empty(&self) -> (res: bool)
        ensures
            res == (self.entries@.len() == 0),
    {
        self.entries.len() == 0
    }

    /// Takes the most recent entry out of the journal, for undoing it next.
    /// The older entries stay; an empty journal gives `None`.
    pub fn take_latest(&mut self) -> (res: Option<UndoEntry>)
        ensures
            old(self).entries@.len() == 0 ==> res is None && final(self).entries@ == old(self).entries@,
            old(self).entries@.len() > 0 ==> res == Some(old(self).entries@.last())
                && final(self).entries@ == old(self).entries@.drop_last(),
    {
        self.entries.pop()
    }

    /// Empties the journal, as at the end of an undo run.
    pub fn clear(&mut self)
        ensures
            final(self).entries@.len() == 0,
    {
        self.entries = Vec::new();
    }
}

/// The name of the file that holds the journal of a root, below that root.
pub open spec fn journal_file() -> Seq<char> {
    ".undo_history.json"@
}

/// Where the journal of a root is stored.
pub fn journal_path(root: &str) -> (res: String)
    ensures
        res@ == joined(root@, journal_file()),
{
    join_path(root, UNDO_HISTORY_FILE)
}

/// Decides what an undo run does with an entry, given whether the
/// relocated file is still where the entry says: if so the file goes back,
/// otherwise the entry is skipped.
pub fn undo_step(entry: &UndoEntry, current_exists: bool) -> (res: UndoAction)
    ensures
        current_exists ==> (res matches UndoAction::Restore { from, to, parent } && from@
            == entry.current_path@ && to@ == entry.original_path@ && match parent {
            Some(p) => parent_of(entry.original_path@) == Some(p@),
            None => parent_of(entry.original_path@) is None,
        }),
        !current_exists ==> res is Skip,
{
    if current_exists {
        UndoAction::Restore {
            from: entry.current_path.clone(),
            to: entry.original_path.clone(),
            parent: parent_dir(entry.original_path.as_str()),
        }
    } else {
        UndoAction::Skip
    }
}

/// Settles one entry of an undo run after its restore was tried. A restore
/// that succeeded leaves the journal as it is and the run goes on. One that
/// failed puts the entry back at the end of the journal, so that it and the
/// older entries stay to be undone, and the run stops.
pub fn undo_outcome(history: &mut UndoHistory, entry: UndoEntry, restored: bool) -> (go_on: bool)
    ensures
        restored ==> go_on && final(history).entries@ == old(history).entries@,
        !restored ==> !go_on && final(history).entries@ == old(history).entries@.push(entry),
{
    if restored {
        true
    } else {
        history.append(entry);
        false
    }
}

/// A directory tree as the journal sees it: which file stands at which path.
pub type Tree = Map<Seq<char>, int>;

/// The tree after moving the file at `from` to `to`; nothing changes when no
/// file stands at `from`.
pub open spec fn moved(tree: Tree, from: Seq<char>, to: Seq<char>) -> Tree {
    if tree.dom().contains(from) {
        tree.remove(from).insert(to, tree[from])
    } else {
        tree
    }
}

/// The tree after an entry is undone: the file goes back if it is still
/// where the entry says, otherwise nothing changes.
pub open spec fn restored(tree: Tree, entry: UndoEntry) -> Tree {
    moved(tree, entry.current_path@, entry.original_path@)
}

/// The tree after an action of an undo run has been carried out.
pub open spec fn action_effect(tree: Tree, action: UndoAction) -> Tree {
    match action {
        UndoAction::Restore { from, to, parent } => moved(tree, from@, to@),
        UndoAction::Skip => tree,
    }
}

/// Carrying out what `undo_step` decides undoes the entry: on every tree
/// in which the relocated file is there exactly when the step was told so,
/// the action leaves the tree that undoing the entry gives.
pub proof fn undo_step_restores(
    tree: Tree,
    entry: UndoEntry,
    current_exists: bool,
    action: UndoAction,
)
    requires
        current_exists == tree.dom().contains(entry.current_path@),
        current_exists ==> (action matches UndoAction::Restore { from, to, parent } && from@
            == entry.current_path@ && to@ == entry.original_path@),
        !current_exists ==> action is Skip,
    ensures
        action_effect(tree, action) == restored(tree, entry),
{
}

/// The tree after the relocations, oldest first.
pub open spec fn relocated(tree: Tree, entries: Seq<UndoEntry>) -> Tree
    decreases entries.len(),
{
    if entries.len() == 0 {
        tree
    } else {
        moved(
            relocated(tree, entries.drop_last()),
            entries.last().original_path@,
            entries.last().current_path@,
        )
    }
}

/// Appending an entry to the journal records one more move: the tree that
/// the longer journal describes is the one that the shorter describes, with
/// the entry's file moved.
pub proof fn append_records_move(tree: Tree, entries: Seq<UndoEntry>, entry: UndoEntry)
    ensures
        relocated(tree, entries.push(entry)) == moved(
            relocated(tree, entries),
            entry.original_path@,
            entry.current_path@,
        ),
{
    assert(entries.push(entry).drop_last() =~= entries);
}

/// Each relocation, in its turn, takes an existing file to a free path.
pub open spec fn relocations_valid(tree: Tree, entries: Seq<UndoEntry>) -> bool
    decreases entries.len(),
{
    if entries.len() == 0 {
        true
    } else {
        let before = relocated(tree, entries.drop_last());
        &&& relocations_valid(tree, entries.drop_last())
        &&& before.dom().contains(entries.last().original_path@)
        &&& !before.dom().contains(entries.last().current_path@)
    }
}

/// The tree after an undo run over the journal: the latest entry is taken
/// and its file moved back if it is still there, then the run goes on with
/// the entries that remain.
pub open spec fn undone(tree: Tree, entries: Seq<UndoEntry>) -> Tree
    decreases entries.len(),
{
    if entries.len() == 0 {
        tree
    } else {
        undone(restored(tree, entries.last()), entries.drop_last())
    }
}

/// Round trip: an undo run over the journal of a run puts every relocated
/// file back at its original path and leaves the rest of the tree as it
/// was.
pub proof fn undo_restores(tree: Tree, entries: Seq<UndoEntry>)
    requires
        relocations_valid(tree, entries),
    ensures
        undone(relocated(tree, entries), entries) == tree,
    decreases entries.len(),
{
    if entries.len() > 0 {
        let before = relocated(tree, entries.drop_last());
        let from = entries.last().original_path@;
        let to = entries.last().current_path@;
        undo_restores(tree, entries.drop_last());
        assert(moved(moved(before, from, to), to, from) =~= before);
    }
}

} // verus!
