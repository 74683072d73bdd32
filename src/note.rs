use vstd::prelude::*;

verus! {

/// A post as a server sends it over the wire.
#[derive(Debug, PartialEq, Eq)]
pub struct Note {
    pub id: String,
    pub created_at: String,
    pub text: Option<String>,
    pub cw: Option<String>,
    pub user: User,
    pub user_id: String,
    pub reply: Option<Box<Note>>,
    pub reply_id: Option<String>,
    pub renote: Option<Box<Note>>,
    pub renote_id: Option<String>,
    pub files: Vec<DriveFile>,
    pub file_ids: Vec<String>,
    pub visibility: Visibility,
    pub visible_user_ids: Option<Vec<String>>,
    pub local_only: Option<bool>,
    pub my_reaction: Option<String>,
    /// Count of each reaction, by reaction name.
    pub reactions: Vec<(String, i64)>,
    pub renote_count: i64,
    pub replies_count: i64,
    pub poll: Option<Poll>,
    /// Canonical URI; present when the author does not live on the delivering server.
    pub uri: Option<String>,
    pub url: Option<String>,
    pub is_hidden: Option<String>,
    pub mentions: Option<Vec<String>>,
}

#[derive(Debug, PartialEq, Eq)]
pub struct User {
    pub id: String,
    pub username: String,
    /// The author's home server; `None` when it is the delivering server.
    pub host: Option<String>,
    pub name: Option<String>,
    pub online_status: OnlineStatus,
    pub avatar_url: String,
    pub avatar_blurhash: Option<String>,
    pub instance: Option<UserInstance>,
}

#[derive(Debug, Clone, Copy, PartialEq, Eq)]
pub enum OnlineStatus {
    Online,
    Active,
    Offline,
    Unknown,
}

#[derive(Debug, PartialEq, Eq)]
pub struct UserInstance {
    pub name: Option<String>,
    pub software_name: Option<String>,
    pub software_version: Option<String>,
    pub icon_url: Option<String>,
    pub favicon_url: Option<String>,
    pub theme_color: Option<String>,
}

#[derive(Debug, PartialEq, Eq)]
pub struct DriveFile {
    pub id: String,
    pub created_at: String,
    pub is_sensitive: bool,
    pub name: String,
    pub thumbnail_url: Option<String>,
    pub url: String,
    pub type_: String,
    pub size: i64,
    pub md5: String,
    pub blur_hash: Option<String>,
    pub comment: Option<String>,
}

#[derive(Debug, Clone, Copy, PartialEq, Eq)]
pub enum Visibility {
    Public,
    Home,
    Followers,
    Specified,
}

#[derive(Debug, PartialEq, Eq)]
pub struct Poll {
    pub expires_at: Option<String>,
    pub multiple: bool,
    pub choices: Vec<PollChoice>,
}

#[derive(Debug, PartialEq, Eq)]
pub struct PollChoice {
    pub is_voted: bool,
    pub text: String,
    pub votes: i64,
}

#[derive(Debug, Clone, PartialEq, Eq)]
pub struct EmojiSimple {
    pub name: String,
    pub url: String,
}

#[derive(Debug, Clone, PartialEq, Eq)]
pub struct Emoji {
    pub id: String,
    pub aliases: Vec<String>,
    pub name: String,
    pub category: Option<String>,
    pub host: Option<String>,
    pub url: String,
    pub license: Option<String>,
    pub is_sensitive: bool,
    pub local_only: bool,
    pub role_ids_that_can_be_used_this_emoji_as_reaction: Vec<String>,
}

/// An inbound realtime message of a known shape.
#[derive(Debug, Clone)]
pub enum WsMsg {
    Channel(WsMsgChannelBody),
    NoteUpdated(NoteUpdatedBody),
}

#[derive(Debug, Clone)]
pub enum WsMsgChannelBody {
    /// A note delivered on the subscription `id`.
    Note { id: String, body: Note },
}

#[derive(Debug, Clone)]
pub enum NoteUpdatedBody {
    /// A reaction added to the note `id`.
    NoteUpdatedBodyReacted { id: String, body: NoteUpdatedBodyReactedBody },
}

#[derive(Debug, Clone)]
pub struct NoteUpdatedBodyReactedBody {
    pub emoji: Option<EmojiSimple>,
    pub reaction: String,
    pub user_id: String,
}

/// A note as contracts see it: every field, with lists as sequences and
/// nested notes as their views. The identity fields are also given as text.
pub ghost struct NoteView {
    pub id: Seq<char>,
    pub created_at: Seq<char>,
    pub user_host: Option<Seq<char>>,
    pub uri: Option<Seq<char>>,
    pub text: Option<String>,
    pub cw: Option<String>,
    pub user: User,
    pub user_id: String,
    pub reply: Option<Box<NoteView>>,
    pub reply_id: Option<String>,
    pub renote: Option<Box<NoteView>>,
    pub renote_id: Option<String>,
    pub files: Seq<DriveFile>,
    pub file_ids: Seq<String>,
    pub visibility: Visibility,
    pub visible_user_ids: Option<Seq<String>>,
    pub local_only: Option<bool>,
    pub my_reaction: Option<String>,
    pub reactions: Seq<(String, i64)>,
    pub renote_count: i64,
    pub replies_count: i64,
    pub poll: Option<PollView>,
    pub url: Option<String>,
    pub is_hidden: Option<String>,
    pub mentions: Option<Seq<String>>,
}

pub ghost struct PollView {
    pub expires_at: Option<String>,
    pub multiple: bool,
    pub choices: Seq<PollChoice>,
}

pub open spec fn opt_view(o: Option<String>) -> Option<Seq<char>> {
    match o {
        Some(s) => Some(s@),
        None => None,
    }
}

pub open spec fn opt_seq_view(o: Option<Vec<String>>) -> Option<Seq<String>> {
    match o {
        Some(v) => Some(v@),
        None => None,
    }
}

pub open spec fn poll_view(p: Poll) -> PollView {
    PollView { expires_at: p.expires_at, multiple: p.multiple, choices: p.choices@ }
}

pub open spec fn note_view(n: Note) -> NoteView
    decreases n,
{
    NoteView {
        id: n.id@,
        created_at: n.created_at@,
        user_host: opt_view(n.user.host),
        uri: opt_view(n.uri),
        text: n.text,
        cw: n.cw,
        user: n.user,
        user_id: n.user_id,
        reply: match n.reply {
            Some(b) => Some(Box::new(note_view(*b))),
            None => None,
        },
        reply_id: n.reply_id,
        renote: match n.renote {
            Some(b) => Some(Box::new(note_view(*b))),
            None => None,
        },
        renote_id: n.renote_id,
        files: n.files@,
        file_ids: n.file_ids@,
        visibility: n.visibility,
        visible_user_ids: opt_seq_view(n.visible_user_ids),
        local_only: n.local_only,
        my_reaction: n.my_reaction,
        reactions: n.reactions@,
        renote_count: n.renote_count,
        replies_count: n.replies_count,
        poll: match n.poll {
            Some(p) => Some(poll_view(p)),
            None => None,
        },
        url: n.url,
        is_hidden: n.is_hidden,
        mentions: opt_seq_view(n.mentions),
    }
}

impl View for Note {
    type V = NoteView;

    open spec fn view(&self) -> NoteView {
        note_view(*self)
    }
}

/// A copy of an optional text, equal to it.
pub fn copy_opt_string(o: &Option<String>) -> (r: Option<String>)
    ensures
        r == *o,
{
    match o {
        Some(s) => Some(s.clone()),
        None => None,
    }
}

pub fn clone_opt_string(o: &Option<String>) -> (r: Option<String>)
    ensures
        opt_view(r) == opt_view(*o),
{
    copy_opt_string(o)
}

fn copy_strings(v: &Vec<String>) -> (r: Vec<String>)
    ensures
        r@ == v@,
{
    let mut r: Vec<String> = Vec::new();
    let mut i: usize = 0;
    while i < v.len()
        invariant
            i <= v@.len(),
            r@ == v@.subrange(0, i as int),
        decreases v@.len() - i,
    {
        r.push(v[i].clone());
        assert(r@ =~= v@.subrange(0, i + 1));
        i = i + 1;
    }
    assert(v@.subrange(0, v@.len() as int) =~= v@);
    r
}

fn copy_opt_strings(o: &Option<Vec<String>>) -> (r: Option<Vec<String>>)
    ensures
        opt_seq_view(r) == opt_seq_view(*o),
{
    match o {
        Some(v) => Some(copy_strings(v)),
        None => None,
    }
}

fn copy_counts(v: &Vec<(String, i64)>) -> (r: Vec<(String, i64)>)
    ensures
        r@ == v@,
{
    let mut r: Vec<(String, i64)> = Vec::new();
    let mut i: usize = 0;
    while i < v.len()
        invariant
            i <= v@.len(),
            r@ == v@.subrange(0, i as int),
        decreases v@.len() - i,
    {
        r.push((v[i].0.clone(), v[i].1));
        assert(r@ =~= v@.subrange(0, i + 1));
        i = i + 1;
    }
    assert(v@.subrange(0, v@.len() as int) =~= v@);
    r
}

fn copy_files(v: &Vec<DriveFile>) -> (r: Vec<DriveFile>)
    ensures
        r@ == v@,
{
    let mut r: Vec<DriveFile> = Vec::new();
    let mut i: usize = 0;
    while i < v.len()
        invariant
            i <= v@.len(),
            r@ == v@.subrange(0, i as int),
        decreases v@.len() - i,
    {
        r.push(v[i].clone());
        assert(r@ =~= v@.subrange(0, i + 1));
        i = i + 1;
    }
    assert(v@.subrange(0, v@.len() as int) =~= v@);
    r
}

fn copy_choices(v: &Vec<PollChoice>) -> (r: Vec<PollChoice>)
    ensures
        r@ == v@,
{
    let mut r: Vec<PollChoice> = Vec::new();
    let mut i: usize = 0;
    while i < v.len()
        invariant
            i <= v@.len(),
            r@ == v@.subrange(0, i as int),
        decreases v@.len() - i,
    {
        r.push(v[i].clone());
        assert(r@ =~= v@.subrange(0, i + 1));
        i = i + 1;
    }
    assert(v@.subrange(0, v@.len() as int) =~= v@);
    r
}

impl Clone for UserInstance {
    fn clone(&self) -> (r: UserInstance)
        ensures
            r == *self,
    {
        UserInstance {
            name: copy_opt_string(&self.name),
            software_name: copy_opt_string(&self.software_name),
            software_version: copy_opt_string(&self.software_version),
            icon_url: copy_opt_string(&self.icon_url),
            favicon_url: copy_opt_string(&self.favicon_url),
            theme_color: copy_opt_string(&self.theme_color),
        }
    }
}

impl Clone for User {
    fn clone(&self) -> (r: User)
        ensures
            r == *self,
    {
        User {
            id: self.id.clone(),
            username: self.username.clone(),
            host: copy_opt_string(&self.host),
            name: copy_opt_string(&self.name),
            online_status: self.online_status,
            avatar_url: self.avatar_url.clone(),
            avatar_blurhash: copy_opt_string(&self.avatar_blurhash),
            instance: match &self.instance {
                Some(i) => Some(i.clone()),
                None => None,
            },
        }
    }
}

impl Clone for DriveFile {
    fn clone(&self) -> (r: DriveFile)
        ensures
            r == *self,
    {
        DriveFile {
            id: self.id.clone(),
            created_at: self.created_at.clone(),
            is_sensitive: self.is_sensitive,
            name: self.name.clone(),
            thumbnail_url: copy_opt_string(&self.thumbnail_url),
            url: self.url.clone(),
            type_: self.type_.clone(),
            size: self.size,
            md5: self.md5.clone(),
            blur_hash: copy_opt_string(&self.blur_hash),
            comment: copy_opt_string(&self.comment),
        }
    }
}

impl Clone for PollChoice {
    fn clone(&self) -> (r: PollChoice)
        ensures
            r == *self,
    {
        PollChoice { is_voted: self.is_voted, text: self.text.clone(), votes: self.votes }
    }
}

impl Clone for Poll {
    fn clone(&self) -> (r: Poll)
        ensures
            poll_view(r) == poll_view(*self),
    {
        Poll {
            expires_at: copy_opt_string(&self.expires_at),
            multiple: self.multiple,
            choices: copy_choices(&self.choices),
        }
    }
}

impl Note {
    fn copy_nested(n: &Option<Box<Note>>) -> (r: Option<Box<Note>>)
        ensures
            match (r, *n) {
                (Some(a), Some(b)) => note_view(*a) == note_view(*b),
                (None, None) => true,
                _ => false,
            },
        decreases n,
    {
        match n {
            Some(b) => Some(Box::new((**b).clone())),
            None => None,
        }
    }
}

impl Clone for Note {
    /// A copy with the same view: the whole record.
    fn clone(&self) -> (r: Note)
        ensures
            r@ == self@,
        decreases self,
    {
        let r = Note {
            id: self.id.clone(),
            created_at: self.created_at.clone(),
            text: copy_opt_string(&self.text),
            cw: copy_opt_string(&self.cw),
            user: self.user.clone(),
            user_id: self.user_id.clone(),
            reply: Note::copy_nested(&self.reply),
            reply_id: copy_opt_string(&self.reply_id),
            renote: Note::copy_nested(&self.renote),
            renote_id: copy_opt_string(&self.renote_id),
            files: copy_files(&self.files),
            file_ids: copy_strings(&self.file_ids),
            visibility: self.visibility,
            visible_user_ids: copy_opt_strings(&self.visible_user_ids),
            local_only: self.local_only,
            my_reaction: copy_opt_string(&self.my_reaction),
            reactions: copy_counts(&self.reactions),
            renote_count: self.renote_count,
            replies_count: self.replies_count,
            poll: match &self.poll {
                Some(p) => Some(p.clone()),
                None => None,
            },
            uri: copy_opt_string(&self.uri),
            url: copy_opt_string(&self.url),
            is_hidden: copy_opt_string(&self.is_hidden),
            mentions: copy_opt_strings(&self.mentions),
        };
        r
    }
}

} // verus!
