//! The indexer's rule: which of the objects met on a walk become entries,
//! and when an object that cannot be read ends the indexing.

use crate::entry::all_entries_well_formed;
use crate::entry::Entry;
use crate::entry::entry_views;
use crate::entry::EntryView;
use crate::entry::Timestamp;
use crate::error::SyncError;
use crate::unix_path::UnixPath;
use vstd::prelude::*;

verus! {

/// One object met while walking the tree below the root.
#[derive(Debug)]
pub enum WalkItem {
    /// The walk could not read the object or its metadata.
    Unreadable,
    /// A directory: walked into, never indexed itself.
    Directory,
    /// Anything that is no directory, with its path below the root.
    File { path: UnixPath, size: u64, modified: Timestamp },
}

/// A walked object as a mathematical value.
pub enum WalkItemView {
    Unreadable,
    Directory,
    File { path: Seq<u8>, size: u64, modified: Timestamp },
}

impl View for WalkItem {
    type V = WalkItemView;

    open spec fn view(&self) -> WalkItemView {
        match self {
            WalkItem::Unreadable => WalkItemView::Unreadable,
            WalkItem::Directory => WalkItemView::Directory,
            WalkItem::File { path, size, modified } => WalkItemView::File {
                path: path@,
                size: *size,
                modified: *modified,
            },
        }
    }
}

impl WalkItemView {
    /// The entries that the object contributes: one for a file, none else.
    pub open spec fn entries(self) -> Seq<EntryView> {
        match self {
            WalkItemView::File { path, size, modified } => seq![
                EntryView { path, size, modified },
            ],
            WalkItemView::Unreadable => Seq::empty(),
            WalkItemView::Directory => Seq::empty(),
        }
    }
}

/// The walked objects of a list as mathematical values.
pub open spec fn walk_views(list: Seq<WalkItem>) -> Seq<WalkItemView> {
    list.map_values(|item: WalkItem| item@)
}

/// The entries of the first `n` walked objects, in the order of the walk.
pub open spec fn indexed_prefix(items: Seq<WalkItemView>, n: nat) -> Seq<EntryView>
    decreases n,
{
    if n == 0 {
        Seq::empty()
    } else {
        indexed_prefix(items, (n - 1) as nat) + items[n - 1].entries()
    }
}

/// Every file met on the walk gives a well-formed entry: its path is below
/// the root, neither empty nor absolute, and its time is well formed.
pub open spec fn walk_well_formed(items: Seq<WalkItemView>) -> bool {
    forall|k: int, i: int|
        0 <= k < items.len() && 0 <= i < (#[trigger] items[k]).entries().len() ==> (
        #[trigger] items[k].entries()[i]).well_formed()
}

/// Some object of the walk could not be read.
pub open spec fn any_unreadable(items: Seq<WalkItemView>) -> bool {
    exists|k: int| 0 <= k < items.len() && #[trigger] items[k] is Unreadable
}

/// Builds the index from what a walk met, in the order of the walk. Every
/// object that is no directory becomes an entry. An unreadable object is
/// passed over where `skip_failed` is set, and ends the indexing with an
/// error where it is not. The index keeps the invariant of entries: where
/// every file of the walk has a path below the root and a well-formed time,
/// every entry is well formed.
pub fn index_dir(walked: &Vec<WalkItem>, skip_failed: bool) -> (r: Result<Vec<Entry>, SyncError>)
    ensures
        match r {
            Ok(entries) => {
                &&& skip_failed || !any_unreadable(walk_views(walked@))
                &&& entry_views(entries@) == indexed_prefix(walk_views(walked@), walked@.len())
                &&& walk_well_formed(walk_views(walked@)) ==> all_entries_well_formed(
                    entry_views(entries@),
                )
            },
            Err(e) => e == SyncError::Io && !skip_failed && any_unreadable(walk_views(walked@)),
        },
{
    let ghost items = walk_views(walked@);
    let mut entries: Vec<Entry> = Vec::new();
    let mut i: usize = 0;
    assert(entry_views(entries@) =~= indexed_prefix(items, 0));
    while i < walked.len()
        invariant
            i <= walked.len(),
            items == walk_views(walked@),
            skip_failed || forall|k: int| 0 <= k < i ==> !(#[trigger] items[k] is Unreadable),
            entry_views(entries@) == indexed_prefix(items, i as nat),
            walk_well_formed(items) ==> all_entries_well_formed(entry_views(entries@)),
        decreases walked.len() - i,
    {
        let ghost before = entry_views(entries@);
        assert(items[i as int] == walked@[i as int]@);
        match &walked[i] {
            WalkItem::Unreadable => {
                if !skip_failed {
                    assert(items[i as int] is Unreadable);
                    return Err(SyncError::Io);
                }
                assert(entry_views(entries@) =~= before + items[i as int].entries());
            },
            WalkItem::Directory => {
                assert(entry_views(entries@) =~= before + items[i as int].entries());
            },
            WalkItem::File { path, size, modified } => {
                entries.push(Entry { path: path.clone(), size: *size, modified: *modified });
                assert(entry_views(entries@) =~= before + items[i as int].entries());
                assert(walk_well_formed(items) ==> items[i as int].entries()[0].well_formed());
            },
        }
        i += 1;
    }
    Ok(entries)
}

} // verus!
