use vstd::prelude::*;
use vstd::string::*;

use crate::branch::{clone_branches, union_branches};
use crate::note_model::{clone_reactions, note_key_of, DynNoteModel, DynNoteView, MiMergeError};
use crate::reaction::{
    counts_are_max_of, covered_in, covers, has_name, merge_reactions, names_distinct,
};

verus! {

/// How long, in milliseconds, a newly inserted entry still takes part in
/// ordering by timestamp; after that its position is frozen.
pub const SORT_WINDOW_MS: u64 = 500;

/// Why the merged column refused a note.
#[derive(Debug, Clone, Copy, PartialEq, Eq, Structural)]
pub enum MergedTimeLineError {
    InvalidNote,
}

impl MergedTimeLineError {
    pub fn message(&self) -> (r: String)
        ensures
            r@ == "invalid note"@,
    {
        "invalid note".to_string()
    }
}

/// `a` sorts strictly before `b`, character by character.
pub open spec fn lex_lt(a: Seq<char>, b: Seq<char>) -> bool
    decreases a.len(),
{
    if a.len() == 0 {
        b.len() > 0
    } else if b.len() == 0 {
        false
    } else if a[0] != b[0] {
        a[0] < b[0]
    } else {
        lex_lt(a.drop_first(), b.drop_first())
    }
}

/// Whether `a` sorts strictly before `b`, as `<` orders strings.
pub fn str_lt(a: &str, b: &str) -> (r: bool)
    ensures
        r == lex_lt(a@, b@),
{
    let la = a.unicode_len();
    let lb = b.unicode_len();
    let mut i: usize = 0;
    assert(a@.subrange(0, la as int) =~= a@);
    assert(b@.subrange(0, lb as int) =~= b@);
    while i < la && i < lb
        invariant
            la == a@.len(),
            lb == b@.len(),
            i <= la,
            i <= lb,
            lex_lt(a@, b@) == lex_lt(a@.subrange(i as int, la as int), b@.subrange(i as int, lb as int)),
        decreases la - i,
    {
        let ca = a.get_char(i);
        let cb = b.get_char(i);
        if ca != cb {
            return ca < cb;
        }
        assert(a@.subrange(i as int, la as int).drop_first() =~= a@.subrange(i + 1, la as int));
        assert(b@.subrange(i as int, lb as int).drop_first() =~= b@.subrange(i + 1, lb as int));
        i = i + 1;
    }
    i < lb
}

/// One entry of the merged column, as contracts see it.
pub ghost struct EntryView {
    pub key: Seq<char>,
    pub note: DynNoteView,
    /// When the entry entered the column, in milliseconds.
    pub inserted_at: u64,
}

/// Every entry sits under its note's identity key, and no key occurs twice.
pub open spec fn column_wf(col: Seq<EntryView>) -> bool {
    &&& forall|i: int| 0 <= i < col.len() ==> col[i].note.key() == Some(#[trigger] col[i].key)
    &&& forall|i: int, j: int| 0 <= i < j < col.len() ==> col[i].key != col[j].key
}

/// A new note whose note timestamp is `created_at`, arriving at `now`, goes
/// before entry `e` when it is at least as new as `e`, or when `e` has aged
/// past the ordering window.
pub open spec fn goes_before(e: EntryView, created_at: Seq<char>, now: u64) -> bool {
    !lex_lt(created_at, e.note.note.created_at) || (now >= e.inserted_at && now - e.inserted_at
        > SORT_WINDOW_MS)
}

/// `pos` is the first entry that the new note goes before, or the end of the column.
pub open spec fn is_insert_point(col: Seq<EntryView>, pos: int, created_at: Seq<char>, now: u64) -> bool {
    &&& 0 <= pos <= col.len()
    &&& forall|j: int| 0 <= j < pos ==> !goes_before(#[trigger] col[j], created_at, now)
    &&& pos < col.len() ==> goes_before(col[pos], created_at, now)
}

/// A copy replaces the stored one unless the stored copy is direct and the new one is relayed.
pub open spec fn replaces(current: DynNoteView, incoming: DynNoteView) -> bool {
    !current.is_direct() || incoming.is_direct()
}

/// `new_e` is entry `old_e` after `incoming` with the same key was merged into it.
pub open spec fn merged_entry(old_e: EntryView, incoming: DynNoteView, new_e: EntryView) -> bool {
    &&& new_e.key == old_e.key
    &&& new_e.inserted_at == old_e.inserted_at
    &&& new_e.note.base() == if replaces(old_e.note, incoming) {
        incoming.base()
    } else {
        old_e.note.base()
    }
    &&& new_e.note.branches == old_e.note.branches.union(incoming.branches)
    &&& reactions_merged(new_e.note.reactions, old_e.note.reactions, incoming.reactions)
}

/// `merged` is the stored reaction list `cur` with the list `more` added to it:
/// each name counts the larger of its counts, every name of either list is
/// kept, names stay unrepeated, every entry of `more` is matched, and a list
/// that already matches every entry of `more` stays as it was.
pub open spec fn reactions_merged(
    merged: Seq<(Seq<char>, i32)>,
    cur: Seq<(Seq<char>, i32)>,
    more: Seq<(Seq<char>, i32)>,
) -> bool {
    &&& counts_are_max_of(merged, cur, more)
    &&& forall|n: Seq<char>| #[trigger] has_name(merged, n) == (has_name(cur, n) || has_name(more, n))
    &&& names_distinct(cur) ==> names_distinct(merged)
    &&& covers(merged, more)
    &&& names_distinct(cur) && covers(cur, more) ==> merged == cur
}

pub open spec fn has_key(col: Seq<EntryView>, k: Seq<char>) -> bool {
    exists|i: int| 0 <= i < col.len() && col[i].key == k
}

/// `new_col` is `col` after a successful upsert of `incoming`, whose key is `k`, at time `now`.
pub open spec fn upserted(
    col: Seq<EntryView>,
    incoming: DynNoteView,
    k: Seq<char>,
    now: u64,
    new_col: Seq<EntryView>,
) -> bool {
    if has_key(col, k) {
        let i = choose|i: int| 0 <= i < col.len() && col[i].key == k;
        &&& new_col.len() == col.len()
        &&& forall|j: int| 0 <= j < col.len() && j != i ==> new_col[j] == col[j]
        &&& merged_entry(col[i], incoming, new_col[i])
    } else {
        exists|pos: int|
            is_insert_point(col, pos, incoming.note.created_at, now) && new_col == col.insert(
                pos,
                EntryView { key: k, note: incoming, inserted_at: now },
            )
    }
}

/// An upsert keeps the column well formed.
pub proof fn lemma_upserted_wf(
    col: Seq<EntryView>,
    incoming: DynNoteView,
    k: Seq<char>,
    now: u64,
    new_col: Seq<EntryView>,
)
    requires
        column_wf(col),
        incoming.key() == Some(k),
        upserted(col, incoming, k, now, new_col),
    ensures
        column_wf(new_col),
{
    if !has_key(col, k) {
        let pos = choose|pos: int|
            is_insert_point(col, pos, incoming.note.created_at, now) && new_col == col.insert(
                pos,
                EntryView { key: k, note: incoming, inserted_at: now },
            );
        assert forall|i: int, j: int| 0 <= i < j < new_col.len() implies new_col[i].key
            != new_col[j].key by {
            if i == pos {
                assert(new_col[j] == col[j - 1]);
            } else if j == pos {
                assert(new_col[i] == col[i]);
            } else if i < pos && j < pos {
                assert(new_col[i] == col[i] && new_col[j] == col[j]);
            } else if i < pos {
                assert(new_col[i] == col[i] && new_col[j] == col[j - 1]);
            } else {
                assert(new_col[i] == col[i - 1] && new_col[j] == col[j - 1]);
            }
        }
    }
}

/// An upsert removes no entry and takes no branch away from any note.
pub proof fn lemma_upsert_keeps_entries(
    col: Seq<EntryView>,
    incoming: DynNoteView,
    k: Seq<char>,
    now: u64,
    new_col: Seq<EntryView>,
)
    requires
        column_wf(col),
        incoming.key() == Some(k),
        upserted(col, incoming, k, now, new_col),
    ensures
        forall|i: int|
            0 <= i < col.len() ==> exists|j: int|
                0 <= j < new_col.len() && new_col[j].key == (#[trigger] col[i]).key
                    && col[i].note.branches.subset_of(new_col[j].note.branches),
{
    if has_key(col, k) {
        let c = choose|c: int| 0 <= c < col.len() && col[c].key == k;
        assert forall|i: int| 0 <= i < col.len() implies exists|j: int|
            0 <= j < new_col.len() && new_col[j].key == (#[trigger] col[i]).key
                && col[i].note.branches.subset_of(new_col[j].note.branches) by {
            if i == c {
                assert(new_col[c].note.branches == col[c].note.branches.union(incoming.branches));
            } else {
                assert(new_col[i] == col[i]);
            }
        }
    } else {
        let pos = choose|pos: int|
            is_insert_point(col, pos, incoming.note.created_at, now) && new_col == col.insert(
                pos,
                EntryView { key: k, note: incoming, inserted_at: now },
            );
        assert forall|i: int| 0 <= i < col.len() implies exists|j: int|
            0 <= j < new_col.len() && new_col[j].key == (#[trigger] col[i]).key
                && col[i].note.branches.subset_of(new_col[j].note.branches) by {
            if i < pos {
                assert(new_col[i] == col[i]);
            } else {
                assert(new_col[i + 1] == col[i]);
            }
        }
    }
}

/// Two copies that share an identity key, upserted one after the other, in
/// either order, into a column that lacks the key, leave exactly one entry
/// under that key, and its branches are the union of both copies' branches.
pub proof fn lemma_same_key_single_entry(
    col0: Seq<EntryView>,
    a: DynNoteView,
    b: DynNoteView,
    k: Seq<char>,
    now1: u64,
    now2: u64,
    col1: Seq<EntryView>,
    col2: Seq<EntryView>,
)
    requires
        column_wf(col0),
        !has_key(col0, k),
        a.key() == Some(k),
        b.key() == Some(k),
        upserted(col0, a, k, now1, col1),
        upserted(col1, b, k, now2, col2),
    ensures
        col2.len() == col0.len() + 1,
        exists|i: int|
            0 <= i < col2.len() && col2[i].key == k && col2[i].note.branches == a.branches.union(
                b.branches,
            ),
        forall|i: int, j: int|
            0 <= i < col2.len() && 0 <= j < col2.len() && col2[i].key == k && col2[j].key == k
                ==> i == j,
{
    let pos = choose|pos: int|
        is_insert_point(col0, pos, a.note.created_at, now1) && col1 == col0.insert(
            pos,
            EntryView { key: k, note: a, inserted_at: now1 },
        );
    assert(col1[pos].key == k);
    assert forall|j: int| 0 <= j < col1.len() && j != pos implies col1[j].key != k by {
        if j < pos {
            assert(col1[j] == col0[j]);
        } else {
            assert(col1[j] == col0[j - 1]);
        }
    }
    assert(has_key(col1, k));
    let i = choose|i: int| 0 <= i < col1.len() && col1[i].key == k;
    assert(i == pos);
    assert(col2[pos].key == k);
    assert forall|x: int, y: int|
        0 <= x < col2.len() && 0 <= y < col2.len() && col2[x].key == k && col2[y].key == k implies x
        == y by {
        if x != pos {
            assert(col2[x] == col1[x]);
        }
        if y != pos {
            assert(col2[y] == col1[y]);
        }
    }
}

/// When one of two copies with the same key came from the author's home
/// server and the other was relayed, the entry that results from upserting
/// both, in either order, into a column that lacks the key holds the direct
/// copy.
pub proof fn lemma_direct_copy_wins(
    col0: Seq<EntryView>,
    first: DynNoteView,
    second: DynNoteView,
    k: Seq<char>,
    now1: u64,
    now2: u64,
    col1: Seq<EntryView>,
    col2: Seq<EntryView>,
)
    requires
        column_wf(col0),
        !has_key(col0, k),
        first.key() == Some(k),
        second.key() == Some(k),
        first.is_direct() != second.is_direct(),
        upserted(col0, first, k, now1, col1),
        upserted(col1, second, k, now2, col2),
    ensures
        exists|i: int|
            0 <= i < col2.len() && col2[i].key == k && col2[i].note.base() == if first.is_direct() {
                first.base()
            } else {
                second.base()
            },
{
    lemma_same_key_single_entry(col0, first, second, k, now1, now2, col1, col2);
    let pos = choose|pos: int|
        is_insert_point(col0, pos, first.note.created_at, now1) && col1 == col0.insert(
            pos,
            EntryView { key: k, note: first, inserted_at: now1 },
        );
    assert(col1[pos].key == k);
    assert(has_key(col1, k));
    let i = choose|i: int| 0 <= i < col1.len() && col1[i].key == k;
    assert forall|j: int| 0 <= j < col1.len() && j != pos implies col1[j].key != k by {
        if j < pos {
            assert(col1[j] == col0[j]);
        } else {
            assert(col1[j] == col0[j - 1]);
        }
    }
    assert(i == pos);
    assert(col2[pos].key == k);
}

/// Upserting the same copy a second time leaves the column exactly as the
/// first upsert left it: same entries in the same order, with the same
/// delivered copies, branches and reaction lists. Reaction lists here name
/// each reaction once, as the stores produce them.
pub proof fn lemma_redelivery_is_noop(
    col0: Seq<EntryView>,
    a: DynNoteView,
    k: Seq<char>,
    now1: u64,
    now2: u64,
    col1: Seq<EntryView>,
    col2: Seq<EntryView>,
)
    requires
        column_wf(col0),
        names_distinct(a.reactions),
        forall|i: int| 0 <= i < col0.len() ==> names_distinct(#[trigger] col0[i].note.reactions),
        a.key() == Some(k),
        upserted(col0, a, k, now1, col1),
        upserted(col1, a, k, now2, col2),
    ensures
        col2 == col1,
{
    lemma_upserted_wf(col0, a, k, now1, col1);
    let e1: EntryView;
    if has_key(col0, k) {
        let i0 = choose|i: int| 0 <= i < col0.len() && col0[i].key == k;
        assert(col1[i0].key == k);
        e1 = col1[i0];
        assert(names_distinct(col0[i0].note.reactions));
        assert(names_distinct(e1.note.reactions));
        assert(covers(e1.note.reactions, a.reactions));
    } else {
        let pos = choose|pos: int|
            is_insert_point(col0, pos, a.note.created_at, now1) && col1 == col0.insert(
                pos,
                EntryView { key: k, note: a, inserted_at: now1 },
            );
        assert(col1[pos].key == k);
        e1 = col1[pos];
        assert forall|j: int| 0 <= j < a.reactions.len() implies #[trigger] covered_in(
            a.reactions,
            a.reactions[j],
        ) by {
            assert(a.reactions[j].0 == a.reactions[j].0);
        }
        assert(covers(e1.note.reactions, a.reactions));
    }
    assert(has_key(col1, k));
    let i = choose|i: int| 0 <= i < col1.len() && col1[i].key == k;
    assert(col1[i] == e1);
    assert(col2[i].note.branches =~= col1[i].note.branches);
    assert(col2[i].note.reactions == col1[i].note.reactions);
    assert(col2[i] == col1[i]);
    assert(col2 =~= col1);
}

struct ColumnEntry {
    key: String,
    model: DynNoteModel,
    inserted_at: u64,
}

impl ColumnEntry {
    spec fn view(&self) -> EntryView {
        EntryView { key: self.key@, note: self.model@, inserted_at: self.inserted_at }
    }
}

/// The single feed that the notes of every server are merged into: one entry
/// per identity key, newest first as far as the ordering window allows.
pub struct MergedTimeline {
    column: Vec<ColumnEntry>,
}

impl View for MergedTimeline {
    type V = Seq<EntryView>;

    closed spec fn view(&self) -> Seq<EntryView> {
        self.column@.map_values(|e: ColumnEntry| e.view())
    }
}

/// Merges `other` into `winner`, whose delivered copy is kept: branches are
/// united and reaction counts take the larger of the two.
/// The stored note `cur` after `incoming` with the same key arrived: the
/// delivered copy of `base`, the branches of both, and the reactions of
/// `incoming` added to those stored.
fn merge_into(base: DynNoteModel, cur: &DynNoteModel, incoming: &DynNoteModel) -> (r: DynNoteModel)
    ensures
        r@.base() == base@.base(),
        r@.branches == cur@.branches.union(incoming@.branches),
        reactions_merged(r@.reactions, cur@.reactions, incoming@.reactions),
{
    let mut reactions = clone_reactions(&cur.reactions);
    merge_reactions(&mut reactions, &incoming.reactions);
    let mut branches = clone_branches(&cur.branches);
    union_branches(&mut branches, &incoming.branches);
    let mut r = base;
    r.reactions = reactions;
    r.branches = branches;
    r
}

impl MergedTimeline {
    pub open spec fn wf(&self) -> bool {
        column_wf(self@)
    }

    pub fn new() -> (r: MergedTimeline)
        ensures
            r.wf(),
            r@.len() == 0,
    {
        let r = MergedTimeline { column: Vec::new() };
        assert(r@ =~= Seq::<EntryView>::empty());
        r
    }

    pub fn len(&self) -> (r: usize)
        ensures
            r == self@.len(),
    {
        self.column.len()
    }

    fn find(&self, key: &String) -> (r: Option<usize>)
        ensures
            match r {
                Some(i) => i < self@.len() && self@[i as int].key == key@,
                None => !has_key(self@, key@),
            },
    {
        let mut i: usize = 0;
        while i < self.column.len()
            invariant
                i <= self.column@.len(),
                forall|j: int| 0 <= j < i ==> self@[j].key != key@,
            decreases self.column@.len() - i,
        {
            if self.column[i].key == *key {
                return Some(i);
            }
            i = i + 1;
        }
        None
    }

    /// Where a new note with timestamp `created_at`, arriving at `now`, is inserted.
    fn insert_position(&self, created_at: &String, now: u64) -> (r: usize)
        ensures
            is_insert_point(self@, r as int, created_at@, now),
    {
        let mut i: usize = 0;
        while i < self.column.len()
            invariant
                i <= self.column@.len(),
                forall|j: int| 0 <= j < i ==> !goes_before(#[trigger] self@[j], created_at@, now),
            decreases self.column@.len() - i,
        {
            let e = &self.column[i];
            let newer = !str_lt(created_at.as_str(), e.model.note.created_at.as_str());
            let aged = now >= e.inserted_at && now - e.inserted_at > SORT_WINDOW_MS;
            if newer || aged {
                return i;
            }
            i = i + 1;
        }
        i
    }

    /// Merges a note into the column at time `now` (milliseconds). A note
    /// whose identity key is already present is merged into that entry; a new
    /// one is inserted before the first entry it goes before. A relayed note
    /// without a URI is refused and the column is left as it was.
    pub fn upsert(&mut self, incoming: DynNoteModel, now: u64) -> (r: Result<(), MiMergeError>)
        requires
            old(self).wf(),
        ensures
            final(self).wf(),
            match incoming@.key() {
                None => r == Err::<(), MiMergeError>(MiMergeError::InvalidNote) && final(self)@
                    == old(self)@,
                Some(k) => r is Ok && upserted(old(self)@, incoming@, k, now, final(self)@),
            },
    {
        let key = match note_key_of(&incoming.original_host, &incoming.source_host, &incoming.note) {
            Ok(key) => key,
            Err(e) => {
                return Err(e);
            },
        };
        let ghost k = key.uri@;
        let ghost col = self@;
        match self.find(&key.uri) {
            Some(i) => {
                proof {
                    let c = choose|c: int| 0 <= c < col.len() && col[c].key == k;
                    assert(col[i as int].key == k);
                    assert(c == i);
                }
                let cur = &self.column[i].model;
                let replace = !(cur.source_host == cur.original_host) || incoming.source_host
                    == incoming.original_host;
                let inserted_at = self.column[i].inserted_at;
                let base = if replace {
                    incoming.clone()
                } else {
                    cur.clone()
                };
                let model = merge_into(base, cur, &incoming);
                self.column.set(i, ColumnEntry { key: key.uri, model, inserted_at });
                proof {
                    assert(self@ =~= col.update(i as int, self@[i as int]));
                    assert(merged_entry(col[i as int], incoming@, self@[i as int]));
                    assert(column_wf(self@));
                }
            },
            None => {
                let pos = self.insert_position(&incoming.note.created_at, now);
                self.column.insert(pos, ColumnEntry { key: key.uri, model: incoming, inserted_at: now });
                proof {
                    assert(self@ =~= col.insert(pos as int, EntryView { key: k, note: incoming@, inserted_at: now }));
                    assert(column_wf(self@));
                }
            },
        }
        Ok(())
    }

    /// The notes of the column, in column order.
    pub fn notes(&self) -> (r: Vec<DynNoteModel>)
        ensures
            r@.len() == self@.len(),
            forall|i: int| 0 <= i < self@.len() ==> r@[i]@ == self@[i].note,
    {
        let mut r: Vec<DynNoteModel> = Vec::new();
        let mut i: usize = 0;
        while i < self.column.len()
            invariant
                i <= self.column@.len(),
                r@.len() == i,
                forall|j: int| 0 <= j < i ==> r@[j]@ == self@[j].note,
            decreases self.column@.len() - i,
        {
            r.push(self.column[i].model.clone());
            i = i + 1;
        }
        r
    }
}

} // verus!
