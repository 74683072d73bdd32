use vstd::prelude::*;
use vstd::string::*;

use crate::branch::{branch_set, clone_branches, BranchKey, BranchKeyView};
use crate::host::Host;
use crate::note::{Note, NoteView};

verus! {

/// A note is not representable: it was relayed by another server and carries no canonical URI.
#[derive(Debug, Clone, Copy, PartialEq, Eq, Structural)]
pub enum MiMergeError {
    InvalidNote,
}

impl MiMergeError {
    pub fn message(&self) -> (r: String)
        ensures
            r@ == "invalid note"@,
    {
        "invalid note".to_string()
    }
}

/// The URI of note `id` on the server `host`.
pub open spec fn local_note_uri(host: Seq<char>, id: Seq<char>) -> Seq<char> {
    "https://"@ + host + "/notes/"@ + id
}

pub fn make_local_note_uri(host: &Host, id: &String) -> (r: String)
    ensures
        r@ == local_note_uri(host@, id@),
{
    let mut r = "https://".to_string();
    r.append(host.as_str());
    r.append("/notes/");
    r.append(id.as_str());
    r
}

/// The key that identifies a note on every server: a copy that its home server
/// delivered is named by its home URI, a relayed copy by the URI it carries.
pub open spec fn identity_key(original: Seq<char>, source: Seq<char>, note: NoteView) -> Option<
    Seq<char>,
> {
    if source == original {
        Some(local_note_uri(original, note.id))
    } else {
        note.uri
    }
}

/// The author's home server: the one the note names, else the delivering one.
pub open spec fn home_host(note: NoteView, source: Seq<char>) -> Seq<char> {
    match note.user_host {
        Some(h) => h,
        None => source,
    }
}

/// The canonical URI of a delivered note: its URI on the delivering server
/// when its author lives there, else the URI it carries (and, lacking one,
/// its URI on the delivering server).
pub open spec fn canonical_uri(note: NoteView, source: Seq<char>) -> Seq<char> {
    if home_host(note, source) == source {
        local_note_uri(source, note.id)
    } else {
        match note.uri {
            Some(u) => u,
            None => local_note_uri(source, note.id),
        }
    }
}

/// A note as one server delivered it, with the hosts it is attributed to.
#[derive(Debug)]
pub struct NoteModel {
    pub original_host: Host,
    pub source_host: Host,
    pub uri: String,
    pub note: Note,
}

pub ghost struct NoteModelView {
    pub original_host: Seq<char>,
    pub source_host: Seq<char>,
    pub uri: Seq<char>,
    pub note: NoteView,
}

impl View for NoteModel {
    type V = NoteModelView;

    open spec fn view(&self) -> NoteModelView {
        NoteModelView {
            original_host: self.original_host@,
            source_host: self.source_host@,
            uri: self.uri@,
            note: self.note@,
        }
    }
}

/// A note delivered by `source`, attributed to its home server.
pub open spec fn attributed(note: NoteView, source: Seq<char>) -> NoteModelView {
    NoteModelView {
        original_host: home_host(note, source),
        source_host: source,
        uri: canonical_uri(note, source),
        note,
    }
}

impl NoteModelView {
    pub open spec fn key(self) -> Option<Seq<char>> {
        identity_key(self.original_host, self.source_host, self.note)
    }
}

impl Clone for NoteModel {
    fn clone(&self) -> (r: NoteModel)
        ensures
            r@ == self@,
    {
        NoteModel {
            original_host: self.original_host.clone(),
            source_host: self.source_host.clone(),
            uri: self.uri.clone(),
            note: self.note.clone(),
        }
    }
}

fn home_host_of(ws_note: &Note, source_host: &Host) -> (r: Host)
    ensures
        r@ == home_host(ws_note@, source_host@),
{
    match &ws_note.user.host {
        Some(h) => Host(h.clone()),
        None => source_host.clone(),
    }
}

fn canonical_uri_of(ws_note: &Note, original_host: &Host, source_host: &Host) -> (r: String)
    requires
        original_host@ == home_host(ws_note@, source_host@),
    ensures
        r@ == canonical_uri(ws_note@, source_host@),
{
    if *original_host == *source_host {
        return make_local_note_uri(source_host, &ws_note.id);
    }
    match &ws_note.uri {
        Some(u) => u.clone(),
        None => make_local_note_uri(source_host, &ws_note.id),
    }
}

impl NoteModel {
    /// Attributes a delivered note to its home server and to the server that delivered it.
    pub fn from_ws_model(ws_note: Note, source_host: Host) -> (r: NoteModel)
        ensures
            r@ == attributed(ws_note@, source_host@),
            r.note == ws_note,
    {
        let original_host = home_host_of(&ws_note, &source_host);
        let uri = canonical_uri_of(&ws_note, &original_host, &source_host);
        NoteModel { original_host, source_host, uri, note: ws_note }
    }
}

/// A note together with what has been observed of it so far: reactions and branches.
#[derive(Debug)]
pub struct DynNoteModel {
    pub original_host: Host,
    pub source_host: Host,
    pub uri: String,
    pub note: Note,
    /// Count of each reaction, by reaction name.
    pub reactions: Vec<(String, i32)>,
    /// The branches the note has been seen in, each once.
    pub branches: Vec<BranchKey>,
}

pub ghost struct DynNoteView {
    pub original_host: Seq<char>,
    pub source_host: Seq<char>,
    pub uri: Seq<char>,
    pub note: NoteView,
    pub reactions: Seq<(Seq<char>, i32)>,
    pub branches: Set<BranchKeyView>,
}

pub open spec fn reactions_view(rs: Seq<(String, i32)>) -> Seq<(Seq<char>, i32)> {
    rs.map_values(|p: (String, i32)| (p.0@, p.1))
}

impl View for DynNoteModel {
    type V = DynNoteView;

    open spec fn view(&self) -> DynNoteView {
        DynNoteView {
            original_host: self.original_host@,
            source_host: self.source_host@,
            uri: self.uri@,
            note: self.note@,
            reactions: reactions_view(self.reactions@),
            branches: branch_set(self.branches@),
        }
    }
}

impl DynNoteView {
    pub open spec fn key(self) -> Option<Seq<char>> {
        identity_key(self.original_host, self.source_host, self.note)
    }

    /// The delivered copy: hosts, URI and note, without what was observed of it.
    pub open spec fn base(self) -> NoteModelView {
        NoteModelView {
            original_host: self.original_host,
            source_host: self.source_host,
            uri: self.uri,
            note: self.note,
        }
    }

    /// The copy came from the author's home server.
    pub open spec fn is_direct(self) -> bool {
        self.source_host == self.original_host
    }
}

pub fn clone_reactions(rs: &Vec<(String, i32)>) -> (r: Vec<(String, i32)>)
    ensures
        reactions_view(r@) == reactions_view(rs@),
{
    let mut r: Vec<(String, i32)> = Vec::new();
    let mut i: usize = 0;
    while i < rs.len()
        invariant
            i <= rs@.len(),
            r@.len() == i,
            forall|j: int| 0 <= j < i ==> r@[j].0@ == rs@[j].0@ && r@[j].1 == rs@[j].1,
        decreases rs@.len() - i,
    {
        let name = rs[i].0.clone();
        r.push((name, rs[i].1));
        i = i + 1;
    }
    assert(reactions_view(r@) =~= reactions_view(rs@));
    r
}

impl Clone for DynNoteModel {
    fn clone(&self) -> (r: DynNoteModel)
        ensures
            r@ == self@,
    {
        DynNoteModel {
            original_host: self.original_host.clone(),
            source_host: self.source_host.clone(),
            uri: self.uri.clone(),
            note: self.note.clone(),
            reactions: clone_reactions(&self.reactions),
            branches: clone_branches(&self.branches),
        }
    }
}

impl DynNoteModel {
    /// A delivered note, attributed as `NoteModel::from_ws_model` does, with
    /// no reactions and no branches observed yet.
    pub fn from_ws_entity(ws_model: Note, source_host: Host) -> (r: DynNoteModel)
        ensures
            r@.original_host == home_host(ws_model@, source_host@),
            r@.source_host == source_host@,
            r@.uri == canonical_uri(ws_model@, source_host@),
            r.note == ws_model,
            r@.reactions.len() == 0,
            r@.branches == Set::<BranchKeyView>::empty(),
            r.branches@.len() == 0,
    {
        let original_host = home_host_of(&ws_model, &source_host);
        let uri = canonical_uri_of(&ws_model, &original_host, &source_host);
        let r = DynNoteModel {
            original_host,
            source_host,
            uri,
            note: ws_model,
            reactions: Vec::new(),
            branches: Vec::new(),
        };
        assert(branch_set(r.branches@) =~= Set::<BranchKeyView>::empty());
        r
    }
}

/// The identity of a note across servers.
#[derive(Debug, Clone)]
pub struct NoteKey {
    pub uri: String,
}

/// The identity key of a copy delivered by `source` of a note whose author lives on `original`.
pub fn note_key_of(original: &Host, source: &Host, note: &Note) -> (r: Result<NoteKey, MiMergeError>)
    ensures
        match identity_key(original@, source@, note@) {
            Some(k) => r matches Ok(key) && key.uri@ == k,
            None => r == Err::<NoteKey, MiMergeError>(MiMergeError::InvalidNote),
        },
{
    if *source == *original {
        Ok(NoteKey { uri: make_local_note_uri(original, &note.id) })
    } else {
        match &note.uri {
            Some(u) => Ok(NoteKey { uri: u.clone() }),
            None => Err(MiMergeError::InvalidNote),
        }
    }
}

impl NoteKey {
    /// The identity key of a delivered copy; a relayed copy without a URI has none.
    pub fn from_note_entry(entry: &NoteModel) -> (r: Result<NoteKey, MiMergeError>)
        ensures
            match entry@.key() {
                Some(k) => r matches Ok(key) && key.uri@ == k,
                None => r == Err::<NoteKey, MiMergeError>(MiMergeError::InvalidNote),
            },
    {
        note_key_of(&entry.original_host, &entry.source_host, &entry.note)
    }
}

} // verus!
