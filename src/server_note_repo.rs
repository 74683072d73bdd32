use vstd::prelude::*;

use crate::branch::{branch_set, clone_branches, union_branches, BranchKey, BranchKeyView};
use crate::note_model::{
    clone_reactions, reactions_view, DynNoteModel, DynNoteView, MiMergeError, NoteKey, NoteModel,
    NoteModelView,
};
use crate::reaction::{
    count_of, find_reaction, lemma_count_absent, lemma_count_push, lemma_count_raise,
};

verus! {

/// What one server's store holds of one note.
pub ghost struct StoredNoteView {
    pub model: NoteModelView,
    pub branches: Set<BranchKeyView>,
    pub reactions: Seq<(Seq<char>, i32)>,
}

/// The change notification for a stored note: the delivered copy with
/// everything observed of it so far.
pub open spec fn dyn_view_of(s: StoredNoteView) -> DynNoteView {
    DynNoteView {
        original_host: s.model.original_host,
        source_host: s.model.source_host,
        uri: s.model.uri,
        note: s.model.note,
        reactions: s.reactions,
        branches: s.branches,
    }
}

/// What the store holds for a note after a copy `m` seen in `branches` was upserted.
pub open spec fn upsert_result(
    before: Map<Seq<char>, StoredNoteView>,
    m: NoteModelView,
    branches: Set<BranchKeyView>,
) -> StoredNoteView {
    let id = m.note.id;
    StoredNoteView {
        model: m,
        branches: if before.contains_key(id) {
            before[id].branches.union(branches)
        } else {
            branches
        },
        reactions: if before.contains_key(id) {
            before[id].reactions
        } else {
            Seq::empty()
        },
    }
}

/// `after` is `before` with one more reaction `reaction` counted on the held note `id`.
pub open spec fn reaction_counted(
    before: Map<Seq<char>, StoredNoteView>,
    after: Map<Seq<char>, StoredNoteView>,
    id: Seq<char>,
    reaction: Seq<char>,
) -> bool {
    &&& after.dom() == before.dom()
    &&& forall|other: Seq<char>|
        #![trigger after[other]]
        before.contains_key(other) && other != id ==> after[other] == before[other]
    &&& after[id].model == before[id].model
    &&& after[id].branches == before[id].branches
    &&& count_of(after[id].reactions, reaction) == bumped(count_of(before[id].reactions, reaction))
    &&& forall|n: Seq<char>|
        n != reaction ==> #[trigger] count_of(after[id].reactions, n) == count_of(
            before[id].reactions,
            n,
        )
}

/// A reaction counter after one more reaction: one higher, up to `i32::MAX`.
pub open spec fn bumped(c: int) -> int {
    if c < i32::MAX {
        c + 1
    } else {
        c
    }
}

/// Reaction names occur once each, with positive counts.
pub open spec fn reactions_wf(rs: Seq<(Seq<char>, i32)>) -> bool {
    &&& forall|i: int, j: int| 0 <= i < j < rs.len() ==> rs[i].0 != rs[j].0
    &&& forall|i: int| 0 <= i < rs.len() ==> rs[i].1 >= 1
}

/// Each stored note sits under its own id, and its reaction names occur once
/// each, with positive counts.
pub open spec fn stored_notes_valid(m: Map<Seq<char>, StoredNoteView>) -> bool {
    forall|id: Seq<char>|
        #[trigger] m.contains_key(id) ==> m[id].model.note.id == id && reactions_wf(m[id].reactions)
}

/// In a list without repeated names, a name counts what its entry says.
pub proof fn lemma_count_unique(rs: Seq<(Seq<char>, i32)>, j: int)
    requires
        reactions_wf(rs),
        0 <= j < rs.len(),
    ensures
        count_of(rs, rs[j].0) == rs[j].1,
    decreases rs.len(),
{
    let n = rs[j].0;
    if j == rs.len() - 1 {
        let front = rs.drop_last();
        assert forall|i: int| 0 <= i < front.len() implies front[i].0 != n by {
            assert(front[i] == rs[i]);
        }
        lemma_count_absent(front, n);
    } else {
        let front = rs.drop_last();
        assert(front[j] == rs[j]);
        lemma_count_unique(front, j);
    }
}

struct StoredNote {
    model: NoteModel,
    branches: Vec<BranchKey>,
    reactions: Vec<(String, i32)>,
}

impl StoredNote {
    spec fn view(&self) -> StoredNoteView {
        StoredNoteView {
            model: self.model@,
            branches: branch_set(self.branches@),
            reactions: reactions_view(self.reactions@),
        }
    }

    spec fn id(&self) -> Seq<char> {
        self.model.note.id@
    }

    fn to_dyn(&self) -> (r: DynNoteModel)
        ensures
            r@ == dyn_view_of(self.view()),
    {
        let m = self.model.clone();
        DynNoteModel {
            original_host: m.original_host,
            source_host: m.source_host,
            uri: m.uri,
            note: m.note,
            reactions: clone_reactions(&self.reactions),
            branches: clone_branches(&self.branches),
        }
    }
}

spec fn holds_id(notes: Seq<StoredNote>, id: Seq<char>) -> bool {
    exists|i: int| 0 <= i < notes.len() && notes[i].id() == id
}

spec fn distinct_ids(notes: Seq<StoredNote>) -> bool {
    forall|x: int, y: int| 0 <= x < y < notes.len() ==> notes[x].id() != notes[y].id()
}

spec fn notes_map(notes: Seq<StoredNote>) -> Map<Seq<char>, StoredNoteView> {
    Map::new(
        |id: Seq<char>| holds_id(notes, id),
        |id: Seq<char>| notes[choose|i: int| 0 <= i < notes.len() && notes[i].id() == id].view(),
    )
}

proof fn lemma_map_at(notes: Seq<StoredNote>, i: int)
    requires
        distinct_ids(notes),
        0 <= i < notes.len(),
    ensures
        notes_map(notes).contains_key(notes[i].id()),
        notes_map(notes)[notes[i].id()] == notes[i].view(),
{
    let id = notes[i].id();
    assert(holds_id(notes, id));
    let c = choose|c: int| 0 <= c < notes.len() && notes[c].id() == id;
    assert(c == i);
}

/// After entry `i` alone changed, keeping its id, the map changed at that id alone.
proof fn lemma_map_replaced(before: Seq<StoredNote>, after: Seq<StoredNote>, i: int)
    requires
        0 <= i < before.len(),
        after == before.update(i, after[i]),
        after[i].id() == before[i].id(),
        distinct_ids(before),
    ensures
        distinct_ids(after),
        notes_map(after) == notes_map(before).insert(before[i].id(), after[i].view()),
{
    assert forall|x: int, y: int| 0 <= x < y < after.len() implies after[x].id() != after[y].id() by {
        if x != i {
            assert(after[x] == before[x]);
        }
        if y != i {
            assert(after[y] == before[y]);
        }
    }
    let m = notes_map(before).insert(before[i].id(), after[i].view());
    assert forall|id: Seq<char>| #[trigger] holds_id(after, id) == m.contains_key(id) by {
        if holds_id(before, id) {
            let j = choose|j: int| 0 <= j < before.len() && before[j].id() == id;
            if j != i {
                assert(after[j] == before[j]);
            }
        }
        if holds_id(after, id) {
            let j = choose|j: int| 0 <= j < after.len() && after[j].id() == id;
            if j != i {
                assert(after[j] == before[j]);
            }
        }
    }
    assert forall|id: Seq<char>| m.contains_key(id) implies notes_map(after)[id] == m[id] by {
        if id == before[i].id() {
            lemma_map_at(after, i);
        } else {
            let j = choose|j: int| 0 <= j < before.len() && before[j].id() == id;
            assert(after[j] == before[j]);
            lemma_map_at(after, j);
            lemma_map_at(before, j);
        }
    }
    assert(notes_map(after) =~= m);
}

/// Appending a note with a new id adds that id to the map.
proof fn lemma_map_pushed(before: Seq<StoredNote>, e: StoredNote)
    requires
        distinct_ids(before),
        !holds_id(before, e.id()),
    ensures
        distinct_ids(before.push(e)),
        notes_map(before.push(e)) == notes_map(before).insert(e.id(), e.view()),
{
    let after = before.push(e);
    assert forall|x: int, y: int| 0 <= x < y < after.len() implies after[x].id() != after[y].id() by {
        assert(after[x] == before[x]);
        if y < before.len() {
            assert(after[y] == before[y]);
        }
    }
    let m = notes_map(before).insert(e.id(), e.view());
    assert forall|id: Seq<char>| #[trigger] holds_id(after, id) == m.contains_key(id) by {
        if holds_id(before, id) {
            let j = choose|j: int| 0 <= j < before.len() && before[j].id() == id;
            assert(after[j] == before[j]);
        }
        if holds_id(after, id) {
            let j = choose|j: int| 0 <= j < after.len() && after[j].id() == id;
            if j < before.len() {
                assert(after[j] == before[j]);
            }
        }
        if id == e.id() {
            assert(after[before.len() as int] == e);
        }
    }
    assert forall|id: Seq<char>| m.contains_key(id) implies notes_map(after)[id] == m[id] by {
        if id == e.id() {
            lemma_map_at(after, before.len() as int);
        } else {
            let j = choose|j: int| 0 <= j < before.len() && before[j].id() == id;
            assert(after[j] == before[j]);
            lemma_map_at(after, j);
            lemma_map_at(before, j);
        }
    }
    assert(notes_map(after) =~= m);
}

/// The notes that one server delivered, by their id on that server, with the
/// branches they were seen in and the reactions counted for them.
pub struct ServerNoteRepo {
    notes: Vec<StoredNote>,
}

impl View for ServerNoteRepo {
    type V = Map<Seq<char>, StoredNoteView>;

    closed spec fn view(&self) -> Map<Seq<char>, StoredNoteView> {
        notes_map(self.notes@)
    }
}

impl ServerNoteRepo {
    pub closed spec fn wf(&self) -> bool {
        &&& distinct_ids(self.notes@)
        &&& forall|i: int| 0 <= i < self.notes@.len() ==> reactions_wf(#[trigger] self.notes@[i].view().reactions)
    }

    /// What well-formedness means for the notes a store holds.
    pub proof fn lemma_valid(&self)
        requires
            self.wf(),
        ensures
            stored_notes_valid(self@),
    {
        assert forall|id: Seq<char>| #[trigger] self@.contains_key(id) implies self@[id].model.note.id == id
            && reactions_wf(self@[id].reactions) by {
            let i = choose|i: int| 0 <= i < self.notes@.len() && self.notes@[i].id() == id;
            lemma_map_at(self.notes@, i);
            assert(reactions_wf(self.notes@[i].view().reactions));
        }
    }

    pub fn new() -> (r: ServerNoteRepo)
        ensures
            r.wf(),
            stored_notes_valid(r@),
            r@ == Map::<Seq<char>, StoredNoteView>::empty(),
    {
        let r = ServerNoteRepo { notes: Vec::new() };
        assert(r@ =~= Map::<Seq<char>, StoredNoteView>::empty());
        proof {
            r.lemma_valid();
        }
        r
    }

    fn index_of(&self, id: &String) -> (r: Option<usize>)
        requires
            self.wf(),
        ensures
            match r {
                Some(i) => i < self.notes@.len() && self.notes@[i as int].id() == id@,
                None => !self@.contains_key(id@),
            },
    {
        let mut i: usize = 0;
        while i < self.notes.len()
            invariant
                i <= self.notes@.len(),
                forall|j: int| 0 <= j < i ==> self.notes@[j].id() != id@,
            decreases self.notes@.len() - i,
        {
            if self.notes[i].model.note.id == *id {
                return Some(i);
            }
            i = i + 1;
        }
        None
    }

    /// The change notification for `note_id`: its delivered copy with the
    /// branches and reactions accumulated so far; none for an unknown id.
    pub fn send_dyn_note(&self, note_id: &str) -> (r: Option<DynNoteModel>)
        requires
            self.wf(),
        ensures
            stored_notes_valid(self@),
            match r {
                Some(d) => self@.contains_key(note_id@) && d@ == dyn_view_of(self@[note_id@]),
                None => !self@.contains_key(note_id@),
            },
    {
        proof {
            self.lemma_valid();
        }
        let id = note_id.to_string();
        match self.index_of(&id) {
            Some(i) => {
                proof {
                    lemma_map_at(self.notes@, i as int);
                }
                Some(self.notes[i].to_dyn())
            },
            None => None,
        }
    }

    /// Stores a delivered copy under its id on this server, replacing the
    /// copy stored before and adding `branches` to those it was seen in.
    /// Returns the change notification. A relayed copy without a URI is
    /// refused, and the store is left as it was.
    pub fn upsert(&mut self, entry: NoteModel, branches: Vec<BranchKey>) -> (r: Result<
        DynNoteModel,
        MiMergeError,
    >)
        requires
            old(self).wf(),
        ensures
            final(self).wf(),
            stored_notes_valid(final(self)@),
            entry@.key() is None ==> r == Err::<DynNoteModel, MiMergeError>(MiMergeError::InvalidNote)
                && final(self)@ == old(self)@,
            entry@.key() is Some ==> {
                let stored = upsert_result(old(self)@, entry@, branch_set(branches@));
                &&& final(self)@ == old(self)@.insert(entry@.note.id, stored)
                &&& r matches Ok(d) && d@ == dyn_view_of(stored)
            },
    {
        proof {
            self.lemma_valid();
        }
        match NoteKey::from_note_entry(&entry) {
            Err(e) => {
                return Err(e);
            },
            Ok(_) => {},
        }
        let ghost before = self.notes@;
        let id = entry.note.id.clone();
        match self.index_of(&id) {
            Some(i) => {
                proof {
                    lemma_map_at(before, i as int);
                }
                let mut merged = clone_branches(&self.notes[i].branches);
                union_branches(&mut merged, &branches);
                let reactions = clone_reactions(&self.notes[i].reactions);
                self.notes.set(i, StoredNote { model: entry, branches: merged, reactions });
                proof {
                    lemma_map_replaced(before, self.notes@, i as int);
                    assert forall|j: int| 0 <= j < self.notes@.len() implies reactions_wf(
                        #[trigger] self.notes@[j].view().reactions,
                    ) by {
                        if j != i {
                            assert(self.notes@[j] == before[j]);
                        }
                    }
                }
                proof {
                    self.lemma_valid();
                }
                Ok(self.notes[i].to_dyn())
            },
            None => {
                let stored = StoredNote { model: entry, branches: clone_branches(&branches), reactions: Vec::new() };
                proof {
                    assert(reactions_view(stored.reactions@) =~= Seq::<(Seq<char>, i32)>::empty());
                }
                let d = stored.to_dyn();
                self.notes.push(stored);
                proof {
                    lemma_map_pushed(before, stored);
                    assert forall|j: int| 0 <= j < self.notes@.len() implies reactions_wf(
                        #[trigger] self.notes@[j].view().reactions,
                    ) by {
                        if j < before.len() {
                            assert(self.notes@[j] == before[j]);
                        }
                    }
                }
                proof {
                    self.lemma_valid();
                }
                Ok(d)
            },
        }
    }

    /// Counts one more reaction `reaction` on the note `note_id` and returns
    /// the change notification. A reaction on a note that the store does not
    /// hold is ignored: the store is left as it was and `None` is returned.
    pub fn incr_reaction(&mut self, note_id: &str, reaction: &str) -> (r: Option<DynNoteModel>)
        requires
            old(self).wf(),
        ensures
            final(self).wf(),
            stored_notes_valid(final(self)@),
            !old(self)@.contains_key(note_id@) ==> r is None && final(self)@ == old(self)@,
            old(self)@.contains_key(note_id@) ==> {
                &&& reaction_counted(old(self)@, final(self)@, note_id@, reaction@)
                &&& r matches Some(d) && d@ == dyn_view_of(final(self)@[note_id@])
            },
    {
        proof {
            self.lemma_valid();
        }
        let id = note_id.to_string();
        let name = reaction.to_string();
        let ghost before = self.notes@;
        let i = match self.index_of(&id) {
            Some(i) => i,
            None => {
                return None;
            },
        };
        proof {
            lemma_map_at(before, i as int);
        }
        let mut reactions = clone_reactions(&self.notes[i].reactions);
        let ghost rs0 = reactions_view(reactions@);
        assert(reactions_wf(self.notes@[i as int].view().reactions));
        assert(rs0 == self.notes@[i as int].view().reactions);
        match find_reaction(&reactions, &name) {
            Some(j) => {
                let c = reactions[j].1;
                let bumped_count = if c < i32::MAX { c + 1 } else { c };
                reactions.set(j, (name, bumped_count));
                proof {
                    assert(reactions_view(reactions@) =~= rs0.update(j as int, (rs0[j as int].0, bumped_count)));
                    lemma_count_unique(rs0, j as int);
                    assert forall|n: Seq<char>| #[trigger]
                        count_of(reactions_view(reactions@), n) == if n == name@ {
                            bumped(count_of(rs0, n))
                        } else {
                            count_of(rs0, n)
                        } by {
                        lemma_count_raise(rs0, j as int, bumped_count, n);
                    }
                    let rs1 = reactions_view(reactions@);
                    assert(rs1.len() == rs0.len());
                    assert forall|x: int| 0 <= x < rs1.len() implies #[trigger] rs1[x].0 == rs0[x].0 && rs1[x].1 >= 1 by {
                        if x == j {
                            assert(rs0[x].1 >= 1);
                        }
                    }
                    assert forall|x: int, y: int| 0 <= x < y < rs1.len() implies rs1[x].0 != rs1[y].0 by {
                        assert(rs0[x].0 != rs0[y].0);
                    }
                }
            },
            None => {
                reactions.push((name, 1));
                proof {
                    assert(reactions_view(reactions@) =~= rs0.push((reaction@, 1i32)));
                    assert forall|k: int| 0 <= k < rs0.len() implies rs0[k].0 != reaction@ by {
                        assert(rs0[k].0 == reactions@[k].0@);
                    }
                    lemma_count_absent(rs0, reaction@);
                    assert forall|n: Seq<char>| #[trigger]
                        count_of(reactions_view(reactions@), n) == if n == name@ {
                            bumped(count_of(rs0, n))
                        } else {
                            count_of(rs0, n)
                        } by {
                        lemma_count_push(rs0, (reaction@, 1i32), n);
                    }
                }
            },
        }
        let model = self.notes[i].model.clone();
        let branches = clone_branches(&self.notes[i].branches);
        self.notes.set(i, StoredNote { model, branches, reactions });
        proof {
            lemma_map_replaced(before, self.notes@, i as int);
            let m0 = notes_map(before);
            let m1 = notes_map(self.notes@);
            assert(m1.dom() =~= m0.dom());
            assert(m1[note_id@].reactions == reactions_view(reactions@));
            assert(count_of(m1[note_id@].reactions, reaction@) == bumped(count_of(m0[note_id@].reactions, reaction@)));
            assert(reaction_counted(m0, m1, note_id@, reaction@));
            assert forall|j: int| 0 <= j < self.notes@.len() implies reactions_wf(
                #[trigger] self.notes@[j].view().reactions,
            ) by {
                if j != i {
                    assert(self.notes@[j] == before[j]);
                }
            }
        }
        proof {
            self.lemma_valid();
        }
        Some(self.notes[i].to_dyn())
    }
}

} // verus!
