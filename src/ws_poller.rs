use vstd::prelude::*;

use crate::branch::{branch_set, BranchKeyView};
use crate::host::Host;
use crate::note::{NoteUpdatedBody, WsMsg, WsMsgChannelBody};
use crate::note_model::{attributed, DynNoteModel, MiMergeError, NoteModel};
use crate::server_note_repo::{dyn_view_of, reaction_counted, upsert_result, ServerNoteRepo};
use crate::ws_msg_router::WsMsgRouter;

verus! {

/// What handling one inbound message did.
#[derive(Debug)]
pub enum PollOutcome {
    /// A note was stored: its change notification, and the note id to
    /// subscribe to for its reactions.
    Stored { note: DynNoteModel, subscribe: String },
    /// A reaction was counted: the change notification.
    Reacted(DynNoteModel),
    /// A note arrived on a subscription that no branch is registered for;
    /// it was dropped.
    UnknownChannel,
    /// A reaction arrived for a note that the store does not hold; it was ignored.
    UnknownNote,
    /// The note was refused.
    Rejected(MiMergeError),
}

/// Applies one inbound message of the server `host` to its store: a note is
/// stored under the branches that its subscription was registered for, a
/// reaction is counted on its note.
pub fn handle_message(repo: &mut ServerNoteRepo, router: &WsMsgRouter, host: &Host, msg: WsMsg) -> (r:
    PollOutcome)
    requires
        old(repo).wf(),
    ensures
        final(repo).wf(),
        match msg {
            WsMsg::Channel(WsMsgChannelBody::Note { id, body }) => {
                let m = attributed(body@, host@);
                if !router@.contains_key(id@) || router@[id@].is_empty() {
                    r is UnknownChannel && final(repo)@ == old(repo)@
                } else if m.key() is None {
                    r == PollOutcome::Rejected(MiMergeError::InvalidNote) && final(repo)@ == old(repo)@
                } else {
                    let stored = upsert_result(old(repo)@, m, router@[id@]);
                    &&& final(repo)@ == old(repo)@.insert(body@.id, stored)
                    &&& r matches PollOutcome::Stored { note, subscribe } && note@ == dyn_view_of(stored)
                        && subscribe@ == body@.id
                }
            },
            WsMsg::NoteUpdated(NoteUpdatedBody::NoteUpdatedBodyReacted { id, body }) => {
                if !old(repo)@.contains_key(id@) {
                    r is UnknownNote && final(repo)@ == old(repo)@
                } else {
                    &&& reaction_counted(old(repo)@, final(repo)@, id@, body.reaction@)
                    &&& r matches PollOutcome::Reacted(d) && d@ == dyn_view_of(final(repo)@[id@])
                }
            },
        },
{
    match msg {
        WsMsg::Channel(WsMsgChannelBody::Note { id, body }) => {
            let branches = router.solve_branches(id.as_str());
            if branches.len() == 0 {
                proof {
                    assert(branch_set(branches@) =~= Set::<BranchKeyView>::empty());
                }
                return PollOutcome::UnknownChannel;
            }
            proof {
                assert(branch_set(branches@).contains(branches@[0]@));
            }
            let note_id = body.id.clone();
            match repo.upsert(NoteModel::from_ws_model(body, host.clone()), branches) {
                Ok(note) => PollOutcome::Stored { note, subscribe: note_id },
                Err(e) => PollOutcome::Rejected(e),
            }
        },
        WsMsg::NoteUpdated(NoteUpdatedBody::NoteUpdatedBodyReacted { id, body }) => {
            match repo.incr_reaction(id.as_str(), body.reaction.as_str()) {
                Some(d) => PollOutcome::Reacted(d),
                None => PollOutcome::UnknownNote,
            }
        },
    }
}

} // verus!
