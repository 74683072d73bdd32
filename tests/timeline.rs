use mi_merge::{
    BranchKey, BranchTimeline, DynNoteModel, Host, MergedTimeline, MiMergeError, Note, NoteKey,
    NoteModel, OnlineStatus, ServerNoteRepo, TimelineMerger, User, Visibility,
};

fn user(host: Option<&str>) -> User {
    User {
        id: "u1".to_string(),
        username: "alice".to_string(),
        host: host.map(|h| h.to_string()),
        name: None,
        online_status: OnlineStatus::Unknown,
        avatar_url: "https://example.com/a.png".to_string(),
        avatar_blurhash: None,
        instance: None,
    }
}

fn note(id: &str, created_at: &str, user_host: Option<&str>, uri: Option<&str>) -> Note {
    Note {
        id: id.to_string(),
        created_at: created_at.to_string(),
        text: Some("hello".to_string()),
        cw: None,
        user: user(user_host),
        user_id: "u1".to_string(),
        reply: None,
        reply_id: None,
        renote: None,
        renote_id: None,
        files: Vec::new(),
        file_ids: Vec::new(),
        visibility: Visibility::Public,
        visible_user_ids: None,
        local_only: None,
        my_reaction: None,
        reactions: Vec::new(),
        renote_count: 0,
        replies_count: 0,
        poll: None,
        uri: uri.map(|u| u.to_string()),
        url: None,
        is_hidden: None,
        mentions: None,
    }
}

fn host(h: &str) -> Host {
    Host(h.to_string())
}

fn home(h: &str) -> BranchKey {
    BranchKey { host: host(h), timeline: BranchTimeline::Home }
}

fn dyn_note(n: Note, source: &str, branches: Vec<BranchKey>) -> DynNoteModel {
    let mut d = DynNoteModel::from_ws_entity(n, host(source));
    d.branches = branches;
    d
}

fn ids(t: &MergedTimeline) -> Vec<String> {
    t.notes().into_iter().map(|d| d.note.id).collect()
}

#[test]
fn direct_copy_key_is_home_uri() {
    let m = NoteModel::from_ws_model(note("42", "2024-01-01T00:00:00.000Z", None, None), host("b.example"));
    assert_eq!(m.original_host, host("b.example"));
    assert_eq!(m.uri, "https://b.example/notes/42");
    let key = NoteKey::from_note_entry(&m).unwrap();
    assert_eq!(key.uri, "https://b.example/notes/42");
}

#[test]
fn direct_copy_uri_ignores_carried_uri() {
    let m = NoteModel::from_ws_model(
        note("42", "2024-01-01T00:00:00.000Z", None, Some("https://elsewhere.example/x")),
        host("b.example"),
    );
    assert_eq!(m.uri, "https://b.example/notes/42");
    let m = NoteModel::from_ws_model(
        note("42", "2024-01-01T00:00:00.000Z", Some("b.example"), Some("https://elsewhere.example/x")),
        host("b.example"),
    );
    assert_eq!(m.uri, "https://b.example/notes/42");
    let d = DynNoteModel::from_ws_entity(
        note("42", "2024-01-01T00:00:00.000Z", None, Some("https://elsewhere.example/x")),
        host("b.example"),
    );
    assert_eq!(d.uri, "https://b.example/notes/42");
    assert_eq!(d.note.text, Some("hello".to_string()));
}

#[test]
fn relayed_copy_key_is_carried_uri() {
    let m = NoteModel::from_ws_model(
        note("9x", "2024-01-01T00:00:00.000Z", Some("b.example"), Some("https://b.example/notes/42")),
        host("a.example"),
    );
    assert_eq!(m.original_host, host("b.example"));
    assert_eq!(m.source_host, host("a.example"));
    let key = NoteKey::from_note_entry(&m).unwrap();
    assert_eq!(key.uri, "https://b.example/notes/42");
}

#[test]
fn relayed_note_without_uri_is_rejected() {
    let n = note("9x", "2024-01-01T00:00:00.000Z", Some("b.example"), None);
    let m = NoteModel::from_ws_model(n.clone(), host("a.example"));
    assert!(matches!(NoteKey::from_note_entry(&m), Err(MiMergeError::InvalidNote)));

    let mut repo = ServerNoteRepo::new();
    assert!(matches!(repo.upsert(m, vec![home("a.example")]), Err(MiMergeError::InvalidNote)));
    assert!(repo.send_dyn_note("9x").is_none());

    let mut t = MergedTimeline::new();
    t.upsert(dyn_note(note("1", "2024-01-01T00:00:00.000Z", None, None), "a.example", vec![]), 0)
        .unwrap();
    let r = t.upsert(dyn_note(n, "a.example", vec![home("a.example")]), 10);
    assert_eq!(r, Err(MiMergeError::InvalidNote));
    assert_eq!(ids(&t), vec!["1".to_string()]);
}

#[test]
fn newer_note_within_window_goes_first() {
    let mut t = MergedTimeline::new();
    t.upsert(dyn_note(note("n1", "2024-01-01T00:00:00.000Z", None, None), "a.example", vec![]), 1_000)
        .unwrap();
    t.upsert(dyn_note(note("n2", "2024-01-01T00:00:05.000Z", None, None), "a.example", vec![]), 1_200)
        .unwrap();
    assert_eq!(ids(&t), vec!["n2".to_string(), "n1".to_string()]);
}

#[test]
fn late_note_goes_ahead_of_frozen_entry() {
    let mut t = MergedTimeline::new();
    t.upsert(dyn_note(note("n1", "2024-01-01T00:00:05.000Z", None, None), "a.example", vec![]), 1_000)
        .unwrap();
    t.upsert(dyn_note(note("n2", "2024-01-01T00:00:00.000Z", None, None), "a.example", vec![]), 1_501)
        .unwrap();
    assert_eq!(ids(&t), vec!["n2".to_string(), "n1".to_string()]);
}

#[test]
fn older_note_within_window_goes_after() {
    let mut t = MergedTimeline::new();
    t.upsert(dyn_note(note("n1", "2024-01-01T00:00:05.000Z", None, None), "a.example", vec![]), 1_000)
        .unwrap();
    t.upsert(dyn_note(note("n2", "2024-01-01T00:00:00.000Z", None, None), "a.example", vec![]), 1_500)
        .unwrap();
    assert_eq!(ids(&t), vec!["n1".to_string(), "n2".to_string()]);
}

fn relayed_42() -> DynNoteModel {
    dyn_note(
        note("9x", "2024-01-01T00:00:00.000Z", Some("b.example"), Some("https://b.example/notes/42")),
        "a.example",
        vec![home("a.example")],
    )
}

fn direct_42() -> DynNoteModel {
    dyn_note(note("42", "2024-01-01T00:00:00.000Z", None, None), "b.example", vec![home("b.example")])
}

fn check_single_42(t: &MergedTimeline) {
    let notes = t.notes();
    assert_eq!(notes.len(), 1);
    let d = &notes[0];
    assert_eq!(d.source_host, host("b.example"));
    assert_eq!(d.original_host, host("b.example"));
    assert_eq!(d.branches.len(), 2);
    assert!(d.branches.contains(&home("a.example")));
    assert!(d.branches.contains(&home("b.example")));
}

#[test]
fn same_key_in_either_order_gives_one_entry() {
    let mut t = MergedTimeline::new();
    t.upsert(relayed_42(), 0).unwrap();
    t.upsert(direct_42(), 100).unwrap();
    check_single_42(&t);

    let mut t = MergedTimeline::new();
    t.upsert(direct_42(), 0).unwrap();
    t.upsert(relayed_42(), 100).unwrap();
    check_single_42(&t);
}

#[test]
fn redelivery_changes_nothing() {
    let mut t = MergedTimeline::new();
    let mut a = direct_42();
    a.reactions = vec![("👍".to_string(), 3)];
    t.upsert(a.clone(), 0).unwrap();
    t.upsert(dyn_note(note("7", "2024-01-01T00:00:09.000Z", None, None), "b.example", vec![]), 10)
        .unwrap();
    let before = ids(&t);
    t.upsert(a, 20).unwrap();
    assert_eq!(ids(&t), before);
    let notes = t.notes();
    let d = notes.iter().find(|d| d.note.id == "42").unwrap();
    assert_eq!(d.reactions, vec![("👍".to_string(), 3)]);
    assert_eq!(d.branches.len(), 1);
}

#[test]
fn reaction_counts_are_not_lost_on_replacement() {
    let mut t = MergedTimeline::new();
    let mut relayed = relayed_42();
    relayed.reactions = vec![(":smile@b.example:".to_string(), 2), ("👍".to_string(), 5)];
    let mut direct = direct_42();
    direct.reactions = vec![("👍".to_string(), 4)];
    t.upsert(relayed, 0).unwrap();
    t.upsert(direct, 10).unwrap();
    let notes = t.notes();
    let mut rs = notes[0].reactions.clone();
    rs.sort();
    assert_eq!(rs, vec![(":smile@b.example:".to_string(), 2), ("👍".to_string(), 5)]);
    assert_eq!(notes[0].source_host, host("b.example"));
}

#[test]
fn merger_qualifies_reactions_of_its_server() {
    let merger = TimelineMerger::new(host("example.com"));
    let mut t = MergedTimeline::new();
    let mut d = dyn_note(note("1", "2024-01-01T00:00:00.000Z", None, None), "example.com", vec![]);
    d.reactions = vec![
        (":smile@.:".to_string(), 1),
        (":smile@other.org:".to_string(), 2),
        ("👍".to_string(), 3),
    ];
    merger.merge(&mut t, d, 0).unwrap();
    let notes = t.notes();
    assert_eq!(
        notes[0].reactions,
        vec![
            (":smile@example.com:".to_string(), 1),
            (":smile@other.org:".to_string(), 2),
            ("👍".to_string(), 3),
        ]
    );
}
