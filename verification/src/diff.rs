//! The rule that selects what to transfer: an entry is sent when the
//! destination lacks the file, or holds another size, or, unless
//! modification times are ignored, another modification time.

use crate::entry::all_entries_well_formed;
use crate::entry::Entry;
use crate::entry::entry_views;
use crate::entry::EntryView;
use crate::entry::Timestamp;
use crate::error::SyncError;
use vstd::prelude::*;

verus! {

/// What stands at the destination path of an entry.
#[derive(Clone, Copy, Debug, PartialEq, Eq, Structural)]
pub enum DestState {
    /// Nothing exists there.
    Missing,
    /// Something exists there, and its metadata cannot be read.
    Unreadable,
    /// Something exists there, with this size and, where the file system
    /// tells it, this modification time.
    Present { size: u64, modified: Option<Timestamp> },
}

/// An entry of the index together with the state of its destination.
#[derive(Debug)]
pub struct Candidate {
    pub entry: Entry,
    pub dest: DestState,
}

/// A candidate as a mathematical value.
pub struct CandidateView {
    pub entry: EntryView,
    pub dest: DestState,
}

impl View for Candidate {
    type V = CandidateView;

    open spec fn view(&self) -> CandidateView {
        CandidateView { entry: self.entry@, dest: self.dest }
    }
}

/// The candidates of a list as mathematical values.
pub open spec fn candidate_views(list: Seq<Candidate>) -> Seq<CandidateView> {
    list.map_values(|c: Candidate| c@)
}

/// Whether an entry of this size and modification time must be transferred.
/// The checks run in this order and stop at the first that decides:
/// existence, size, modification time. Metadata that cannot be read is an
/// error only where the decision needs it.
pub open spec fn transfer_verdict(
    size: u64,
    modified: Timestamp,
    dest: DestState,
    ignore_mtime: bool,
) -> Result<bool, SyncError> {
    match dest {
        DestState::Missing => Ok(true),
        DestState::Unreadable => Err(SyncError::Io),
        DestState::Present { size: found_size, modified: found_modified } => {
            if found_size != size {
                Ok(true)
            } else if ignore_mtime {
                Ok(false)
            } else {
                match found_modified {
                    None => Err(SyncError::Io),
                    Some(found) => Ok(found != modified),
                }
            }
        },
    }
}

impl CandidateView {
    /// The verdict on this candidate.
    pub open spec fn verdict(self, ignore_mtime: bool) -> Result<bool, SyncError> {
        transfer_verdict(self.entry.size, self.entry.modified, self.dest, ignore_mtime)
    }

    /// The destination holds what a transfer of the entry leaves there: the
    /// entry's size and its modification time.
    pub open spec fn in_sync(self) -> bool {
        self.dest == (DestState::Present {
            size: self.entry.size,
            modified: Some(self.entry.modified),
        })
    }
}

/// The entries selected among the first `n` candidates, in their order.
pub open spec fn selected_prefix(candidates: Seq<CandidateView>, n: nat, ignore_mtime: bool)
    -> Seq<EntryView>
    decreases n,
{
    if n == 0 {
        Seq::empty()
    } else {
        selected_prefix(candidates, (n - 1) as nat, ignore_mtime) + if candidates[n
            - 1].verdict(ignore_mtime) == Ok::<bool, SyncError>(true) {
            seq![candidates[n - 1].entry]
        } else {
            Seq::empty()
        }
    }
}

/// The entries selected among all the candidates, in their order.
pub open spec fn selection(candidates: Seq<CandidateView>, ignore_mtime: bool) -> Seq<EntryView> {
    selected_prefix(candidates, candidates.len(), ignore_mtime)
}

/// The entry of every candidate is well formed.
pub open spec fn candidates_well_formed(candidates: Seq<CandidateView>) -> bool {
    forall|k: int| 0 <= k < candidates.len() ==> (#[trigger] candidates[k]).entry.well_formed()
}

/// No candidate's verdict is an error.
pub open spec fn all_decided(candidates: Seq<CandidateView>, ignore_mtime: bool) -> bool {
    forall|k: int|
        0 <= k < candidates.len() ==> (#[trigger] candidates[k]).verdict(ignore_mtime) is Ok
}

/// Decides whether one entry must be transferred.
pub fn needs_transfer(entry: &Entry, dest: &DestState, ignore_mtime: bool) -> (r: Result<
    bool,
    SyncError,
>)
    ensures
        r == transfer_verdict(entry.size, entry.modified, *dest, ignore_mtime),
{
    match dest {
        DestState::Missing => Ok(true),
        DestState::Unreadable => Err(SyncError::Io),
        DestState::Present { size, modified } => {
            if *size != entry.size {
                Ok(true)
            } else if ignore_mtime {
                Ok(false)
            } else {
                match modified {
                    None => Err(SyncError::Io),
                    Some(found) => Ok(
                        found.secs != entry.modified.secs || found.nanos != entry.modified.nanos,
                    ),
                }
            }
        },
    }
}

/// Selects the entries to transfer, keeping their order. Fails where the
/// verdict on some candidate needs metadata that could not be read. The
/// selection keeps the invariant of entries: where every candidate's entry
/// is well formed, so is every entry selected.
pub fn generate_send_list(candidates: &Vec<Candidate>, ignore_mtime: bool) -> (r: Result<
    Vec<Entry>,
    SyncError,
>)
    ensures
        match r {
            Ok(send_list) => {
                &&& all_decided(candidate_views(candidates@), ignore_mtime)
                &&& entry_views(send_list@) == selection(
                    candidate_views(candidates@),
                    ignore_mtime,
                )
                &&& candidates_well_formed(candidate_views(candidates@))
                    ==> all_entries_well_formed(entry_views(send_list@))
            },
            Err(e) => e == SyncError::Io && !all_decided(
                candidate_views(candidates@),
                ignore_mtime,
            ),
        },
{
    let ghost views = candidate_views(candidates@);
    let mut send_list: Vec<Entry> = Vec::new();
    let mut i: usize = 0;
    assert(entry_views(send_list@) =~= selected_prefix(views, 0, ignore_mtime));
    while i < candidates.len()
        invariant
            i <= candidates.len(),
            views == candidate_views(candidates@),
            forall|k: int| 0 <= k < i ==> (#[trigger] views[k]).verdict(ignore_mtime) is Ok,
            entry_views(send_list@) == selected_prefix(views, i as nat, ignore_mtime),
        decreases candidates.len() - i,
    {
        let candidate = &candidates[i];
        assert(views[i as int] == candidate@);
        let ghost before = entry_views(send_list@);
        match needs_transfer(&candidate.entry, &candidate.dest, ignore_mtime) {
            Ok(send) => {
                if send {
                    send_list.push(candidate.entry.clone());
                    assert(entry_views(send_list@) =~= before + seq![candidate@.entry]);
                } else {
                    assert(entry_views(send_list@) =~= before + Seq::<EntryView>::empty());
                }
            },
            Err(e) => {
                assert(!(views[i as int].verdict(ignore_mtime) is Ok));
                return Err(e);
            },
        }
        i += 1;
    }
    proof {
        if candidates_well_formed(views) {
            lemma_selection_is_well_formed(views, ignore_mtime);
        }
    }
    Ok(send_list)
}

/// Whether one entry is selected depends on that entry and its destination
/// alone: the selection from two lists joined is the two selections joined.
pub proof fn lemma_selection_independent(
    first: Seq<CandidateView>,
    second: Seq<CandidateView>,
    ignore_mtime: bool,
)
    ensures
        selection(first + second, ignore_mtime) == selection(first, ignore_mtime) + selection(
            second,
            ignore_mtime,
        ),
    decreases second.len(),
{
    let all = first + second;
    if second.len() == 0 {
        assert(all =~= first);
        assert(selection(first, ignore_mtime) + Seq::<EntryView>::empty() =~= selection(
            first,
            ignore_mtime,
        ));
    } else {
        let shorter = second.drop_last();
        lemma_selection_independent(first, shorter, ignore_mtime);
        lemma_selected_prefix_of_prefix(all, first + shorter, (all.len() - 1) as nat, ignore_mtime);
        lemma_selected_prefix_of_prefix(second, shorter, shorter.len(), ignore_mtime);
        assert(all[all.len() - 1] == second[second.len() - 1]);
        let tail = if second[second.len() - 1].verdict(ignore_mtime) == Ok::<bool, SyncError>(
            true,
        ) {
            seq![second[second.len() - 1].entry]
        } else {
            Seq::<EntryView>::empty()
        };
        assert((selection(first, ignore_mtime) + selection(shorter, ignore_mtime)) + tail
            =~= selection(first, ignore_mtime) + (selection(shorter, ignore_mtime) + tail));
    }
}

/// The selection among the first `n` candidates looks at those `n` alone.
pub proof fn lemma_selected_prefix_of_prefix(
    long: Seq<CandidateView>,
    short: Seq<CandidateView>,
    n: nat,
    ignore_mtime: bool,
)
    requires
        n <= short.len() <= long.len(),
        forall|k: int| 0 <= k < n ==> long[k] == short[k],
    ensures
        selected_prefix(long, n, ignore_mtime) == selected_prefix(short, n, ignore_mtime),
    decreases n,
{
    if n > 0 {
        lemma_selected_prefix_of_prefix(long, short, (n - 1) as nat, ignore_mtime);
    }
}

/// A list of one candidate selects its entry exactly where the verdict on
/// that candidate says so.
pub proof fn lemma_selection_of_one(candidate: CandidateView, ignore_mtime: bool)
    ensures
        selection(seq![candidate], ignore_mtime) == if candidate.verdict(ignore_mtime) == Ok::<
            bool,
            SyncError,
        >(true) {
            seq![candidate.entry]
        } else {
            Seq::<EntryView>::empty()
        },
{
    reveal_with_fuel(selected_prefix, 2);
    let one = seq![candidate];
    assert(selected_prefix(one, 0, ignore_mtime) + seq![candidate.entry] =~= seq![
        candidate.entry,
    ]);
    assert(selected_prefix(one, 0, ignore_mtime) + Seq::<EntryView>::empty()
        =~= Seq::<EntryView>::empty());
}

/// A second run transfers nothing: where every destination holds what a
/// transfer of its entry leaves there, no verdict is an error and no entry
/// is selected, whether modification times are ignored or not.
pub proof fn lemma_synced_selects_nothing(candidates: Seq<CandidateView>, ignore_mtime: bool)
    requires
        forall|k: int| 0 <= k < candidates.len() ==> (#[trigger] candidates[k]).in_sync(),
    ensures
        all_decided(candidates, ignore_mtime),
        selection(candidates, ignore_mtime) == Seq::<EntryView>::empty(),
{
    lemma_synced_prefix_selects_nothing(candidates, candidates.len(), ignore_mtime);
}

/// Among candidates that are in sync, no prefix selects anything.
pub proof fn lemma_synced_prefix_selects_nothing(
    candidates: Seq<CandidateView>,
    n: nat,
    ignore_mtime: bool,
)
    requires
        n <= candidates.len(),
        forall|k: int| 0 <= k < candidates.len() ==> (#[trigger] candidates[k]).in_sync(),
    ensures
        selected_prefix(candidates, n, ignore_mtime) == Seq::<EntryView>::empty(),
        forall|k: int|
            0 <= k < candidates.len() ==> (#[trigger] candidates[k]).verdict(ignore_mtime) is Ok,
    decreases n,
{
    assert forall|k: int| 0 <= k < candidates.len() implies (#[trigger] candidates[k]).verdict(
        ignore_mtime,
    ) is Ok by {
        assert(candidates[k].in_sync());
    }
    if n > 0 {
        lemma_synced_prefix_selects_nothing(candidates, (n - 1) as nat, ignore_mtime);
        assert(candidates[n - 1].in_sync());
        assert(Seq::<EntryView>::empty() + Seq::<EntryView>::empty() =~= Seq::<
            EntryView,
        >::empty());
    }
}

/// The selection keeps the invariant of entries: what is selected among
/// candidates whose entries are well formed is well formed.
pub proof fn lemma_selection_is_well_formed(candidates: Seq<CandidateView>, ignore_mtime: bool)
    requires
        candidates_well_formed(candidates),
    ensures
        all_entries_well_formed(selection(candidates, ignore_mtime)),
{
    lemma_selected_prefix_is_well_formed(candidates, candidates.len(), ignore_mtime);
}

/// What is selected among the first `n` candidates is well formed where
/// their entries are.
pub proof fn lemma_selected_prefix_is_well_formed(
    candidates: Seq<CandidateView>,
    n: nat,
    ignore_mtime: bool,
)
    requires
        n <= candidates.len(),
        candidates_well_formed(candidates),
    ensures
        all_entries_well_formed(selected_prefix(candidates, n, ignore_mtime)),
    decreases n,
{
    if n > 0 {
        lemma_selected_prefix_is_well_formed(candidates, (n - 1) as nat, ignore_mtime);
        let before = selected_prefix(candidates, (n - 1) as nat, ignore_mtime);
        let all = selected_prefix(candidates, n, ignore_mtime);
        assert forall|i: int| 0 <= i < all.len() implies (#[trigger] all[i]).well_formed() by {
            if i < before.len() {
                assert(all[i] == before[i]);
            } else {
                assert(all[i] == candidates[n - 1].entry);
                assert(candidates[n - 1].entry.well_formed());
            }
        }
    }
}

} // verus!
