use vstd::prelude::*;

use crate::branch::{contains_branch, distinct_branches, BranchKey, BranchKeyView};
use crate::connection::Credential;
use crate::host::Host;
use crate::merged_timeline::{upserted, MergedTimeline};
use crate::note_model::{DynNoteModel, DynNoteView, MiMergeError};
use crate::reaction::{
    host_qualified_name, is_local_emoji_name, qualified_name, qualify_reaction, qualify_reactions,
};

verus! {

/// The change `d` reported by server `host`, with its local custom-emoji
/// reaction names qualified by that server.
pub open spec fn qualified_change(d: DynNoteView, host: Seq<char>) -> DynNoteView {
    DynNoteView {
        reactions: d.reactions.map_values(|p: (Seq<char>, i32)| (qualified_name(p.0, host), p.1)),
        ..d
    }
}

/// Forwards the changes that one server's store reports into the merged column.
pub struct TimelineMerger {
    pub host: Host,
}

impl TimelineMerger {
    pub fn new(host: Host) -> (r: TimelineMerger)
        ensures
            r.host@ == host@,
    {
        TimelineMerger { host }
    }

    /// The name under which a reaction reported by this server is merged:
    /// `Some(:name@host:)` for a local custom-emoji name `:name@.:`, `None`
    /// for every other name, which is merged as it is.
    pub fn qualify_reaction(&self, reaction_name: &str) -> (r: Option<String>)
        ensures
            r is None <==> !is_local_emoji_name(reaction_name@),
            r matches Some(q) ==> q@ == host_qualified_name(reaction_name@, self.host@),
    {
        qualify_reaction(reaction_name, &self.host)
    }

    /// Merges one change of this server's store into `timeline` at time
    /// `now` (milliseconds), after qualifying its reaction names.
    pub fn merge(&self, timeline: &mut MergedTimeline, note: DynNoteModel, now: u64) -> (r: Result<
        (),
        MiMergeError,
    >)
        requires
            old(timeline).wf(),
        ensures
            final(timeline).wf(),
            match note@.key() {
                None => r == Err::<(), MiMergeError>(MiMergeError::InvalidNote) && final(timeline)@
                    == old(timeline)@,
                Some(k) => r is Ok && upserted(
                    old(timeline)@,
                    qualified_change(note@, self.host@),
                    k,
                    now,
                    final(timeline)@,
                ),
            },
    {
        let mut note = note;
        let ghost before = note@;
        qualify_reactions(&mut note.reactions, &self.host);
        assert(note@ == qualified_change(before, self.host@));
        timeline.upsert(note, now)
    }
}

/// The state shared by the servers' pipelines: the credentials, the merged
/// column, and the branches that configured channels feed, in the order they
/// were configured.
pub struct AppModel {
    pub credentials: Vec<Credential>,
    pub merged_timeline: MergedTimeline,
    /// Each branch once.
    pub branches: Vec<BranchKey>,
}

impl AppModel {
    pub open spec fn wf(&self) -> bool {
        self.merged_timeline.wf() && distinct_branches(self.branches@)
    }

    pub open spec fn branch_list(&self) -> Seq<BranchKeyView> {
        self.branches@.map_values(|b: BranchKey| b@)
    }

    pub fn new() -> (r: AppModel)
        ensures
            r.wf(),
            r.credentials@.len() == 0,
            r.merged_timeline@.len() == 0,
            r.branch_list().len() == 0,
    {
        let r = AppModel { credentials: Vec::new(), merged_timeline: MergedTimeline::new(), branches: Vec::new() };
        assert(r.branch_list() =~= Seq::<BranchKeyView>::empty());
        r
    }

    /// The configured branches, in the order they were first configured.
    pub fn branches(&self) -> (r: Vec<BranchKey>)
        ensures
            r@.map_values(|b: BranchKey| b@) == self.branch_list(),
    {
        let mut r: Vec<BranchKey> = Vec::new();
        let mut i: usize = 0;
        while i < self.branches.len()
            invariant
                i <= self.branches@.len(),
                r@.len() == i,
                forall|j: int| 0 <= j < i ==> r@[j]@ == self.branches@[j]@,
            decreases self.branches@.len() - i,
        {
            r.push(self.branches[i].clone());
            i = i + 1;
        }
        assert(r@.map_values(|b: BranchKey| b@) =~= self.branch_list());
        r
    }

    /// Appends `branch` to the configured branches unless it is already there.
    pub fn insert_branch(&mut self, branch: BranchKey)
        requires
            old(self).wf(),
        ensures
            final(self).wf(),
            final(self).credentials == old(self).credentials,
            final(self).merged_timeline == old(self).merged_timeline,
            old(self).branch_list().contains(branch@) ==> final(self).branch_list() == old(self).branch_list(),
            !old(self).branch_list().contains(branch@) ==> final(self).branch_list() == old(self).branch_list().push(branch@),
    {
        let ghost before = self.branches@;
        proof {
            if self.branch_list().contains(branch@) {
                let j = choose|j: int| 0 <= j < self.branch_list().len() && self.branch_list()[j] == branch@;
                assert(before[j]@ == branch@);
            }
        }
        if !contains_branch(&self.branches, &branch) {
            proof {
                if self.branch_list().contains(branch@) {
                    let j = choose|j: int| 0 <= j < self.branch_list().len() && self.branch_list()[j] == branch@;
                    assert(before[j]@ == branch@);
                }
            }
            self.branches.push(branch);
            proof {
                assert(self.branch_list() =~= before.map_values(|b: BranchKey| b@).push(branch@));
                assert forall|x: int, y: int| 0 <= x < y < self.branches@.len() implies self.branches@[x]@ != self.branches@[y]@ by {
                    if y == before.len() {
                        assert(self.branches@[x] == before[x]);
                    }
                }
            }
        } else {
            proof {
                let j = choose|j: int| 0 <= j < before.len() && before[j]@ == branch@;
                assert(self.branch_list()[j] == branch@);
            }
        }
    }
}

} // verus!
