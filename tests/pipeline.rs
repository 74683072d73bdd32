use mi_merge::connection::{find_credential, subscription_plan};
use mi_merge::merged_timeline::str_lt;
use mi_merge::reaction::{merge_reactions, qualify_reaction};
use mi_merge::server_cxn::{
    backfill_request, connect_command, stream_url, sub_note_command, subscribe_command,
};
use mi_merge::{
    handle_message, AppModel, BranchKey, BranchTimeline, Channel, ChannelChannel, Connection,
    Credential, CxnHalves, EmojiService, EmojiSimple, HalfState, Host, MergedTimeline, Note,
    NoteUpdatedBody, NoteUpdatedBodyReactedBody, OnlineStatus, PollOutcome, ServerNoteRepo,
    TimelineMerger, User, Visibility, WsMsg, WsMsgChannelBody, WsMsgRouter,
};

fn note(id: &str, created_at: &str, user_host: Option<&str>, uri: Option<&str>) -> Note {
    Note {
        id: id.to_string(),
        created_at: created_at.to_string(),
        text: None,
        cw: None,
        user: User {
            id: "u1".to_string(),
            username: "bob".to_string(),
            host: user_host.map(|h| h.to_string()),
            name: None,
            online_status: OnlineStatus::Online,
            avatar_url: String::new(),
            avatar_blurhash: None,
            instance: None,
        },
        user_id: "u1".to_string(),
        reply: None,
        reply_id: None,
        renote: None,
        renote_id: None,
        files: Vec::new(),
        file_ids: Vec::new(),
        visibility: Visibility::Home,
        visible_user_ids: None,
        local_only: Some(false),
        my_reaction: None,
        reactions: Vec::new(),
        renote_count: 0,
        replies_count: 0,
        poll: None,
        uri: uri.map(|u| u.to_string()),
        url: None,
        is_hidden: None,
        mentions: None,
    }
}

fn host(h: &str) -> Host {
    Host(h.to_string())
}

fn key(h: &str, t: BranchTimeline) -> BranchKey {
    BranchKey { host: host(h), timeline: t }
}

fn note_msg(sub: &str, n: Note) -> WsMsg {
    WsMsg::Channel(WsMsgChannelBody::Note { id: sub.to_string(), body: n })
}

fn reaction_msg(note_id: &str, reaction: &str) -> WsMsg {
    WsMsg::NoteUpdated(NoteUpdatedBody::NoteUpdatedBodyReacted {
        id: note_id.to_string(),
        body: NoteUpdatedBodyReactedBody {
            emoji: None,
            reaction: reaction.to_string(),
            user_id: "u2".to_string(),
        },
    })
}

#[test]
fn qualify_reaction_examples() {
    let h = host("example.com");
    assert_eq!(qualify_reaction(":smile@.:", &h), Some(":smile@example.com:".to_string()));
    assert_eq!(qualify_reaction(":smile@other.org:", &h), None);
    assert_eq!(qualify_reaction("👍", &h), None);
    assert_eq!(qualify_reaction(":@.:", &h), Some(":@example.com:".to_string()));
    assert_eq!(qualify_reaction(":a@b@.:", &h), Some(":a@b@example.com:".to_string()));
    assert_eq!(qualify_reaction("smile@.:", &h), None);
    let m = TimelineMerger::new(h);
    assert_eq!(m.qualify_reaction(":blob@.:"), Some(":blob@example.com:".to_string()));
}

#[test]
fn merged_reactions_take_larger_counts() {
    let mut acc = vec![("a".to_string(), 2), ("b".to_string(), 7)];
    merge_reactions(&mut acc, &vec![("b".to_string(), 3), ("c".to_string(), 1), ("a".to_string(), 4)]);
    assert_eq!(acc, vec![("a".to_string(), 4), ("b".to_string(), 7), ("c".to_string(), 1)]);
}

#[test]
fn router_resolves_registered_branches() {
    let mut r = WsMsgRouter::new();
    assert!(r.solve_branches("s1").is_empty());
    r.extend("s1".to_string(), vec![key("a.example", BranchTimeline::Home)]);
    r.extend("s1".to_string(), vec![
        key("a.example", BranchTimeline::Home),
        key("a.example", BranchTimeline::Antenna("x".to_string())),
    ]);
    r.extend("s2".to_string(), vec![key("a.example", BranchTimeline::Local)]);
    let b = r.solve_branches("s1");
    assert_eq!(b.len(), 2);
    assert!(b.contains(&key("a.example", BranchTimeline::Home)));
    assert!(b.contains(&key("a.example", BranchTimeline::Antenna("x".to_string()))));
    assert_eq!(r.solve_branches("s2"), vec![key("a.example", BranchTimeline::Local)]);
    assert!(r.solve_branches("unknown").is_empty());
    assert!(r.knows("s2"));
    assert!(!r.knows("s3"));
}

#[test]
fn store_accumulates_branches_and_reactions() {
    let mut repo = ServerNoteRepo::new();
    let h = host("a.example");
    let n = note("n1", "2024-01-01T00:00:00.000Z", None, None);
    let d = repo
        .upsert(mi_merge::NoteModel::from_ws_model(n.clone(), h.clone()), vec![key("a.example", BranchTimeline::Home)])
        .unwrap();
    assert_eq!(d.branches.len(), 1);
    let d = repo.incr_reaction("n1", "👍").unwrap();
    assert_eq!(d.reactions, vec![("👍".to_string(), 1)]);
    let d = repo.incr_reaction("n1", "👍").unwrap();
    assert_eq!(d.reactions, vec![("👍".to_string(), 2)]);
    let d = repo
        .upsert(mi_merge::NoteModel::from_ws_model(n, h), vec![key("a.example", BranchTimeline::Local)])
        .unwrap();
    assert_eq!(d.branches.len(), 2);
    assert_eq!(d.reactions, vec![("👍".to_string(), 2)]);
    assert!(repo.incr_reaction("missing", "👍").is_none());
    assert!(repo.send_dyn_note("missing").is_none());
    assert_eq!(repo.send_dyn_note("n1").unwrap().reactions, vec![("👍".to_string(), 2)]);
}

#[test]
fn dead_server_keeps_delivered_notes() {
    let h = host("a.example");
    let mut router = WsMsgRouter::new();
    router.extend("sub".to_string(), vec![key("a.example", BranchTimeline::Home)]);
    let mut repo = ServerNoteRepo::new();
    let inbound = vec![
        note_msg("sub", note("n1", "2024-01-01T00:00:01.000Z", None, None)),
        note_msg("sub", note("n2", "2024-01-01T00:00:02.000Z", None, None)),
        note_msg("sub", note("n3", "2024-01-01T00:00:03.000Z", None, None)),
    ];
    let mut changes = Vec::new();
    for m in inbound {
        match handle_message(&mut repo, &router, &h, m) {
            PollOutcome::Stored { note, subscribe } => {
                assert_eq!(subscribe, note.note.id);
                changes.push(note);
            }
            other => panic!("unexpected outcome {:?}", other),
        }
    }
    assert_eq!(changes.len(), 3);
    for id in ["n1", "n2", "n3"] {
        assert!(repo.send_dyn_note(id).is_some());
    }
    assert!(repo.send_dyn_note("n4").is_none());
    let merger = TimelineMerger::new(h);
    let mut t = MergedTimeline::new();
    for (i, c) in changes.into_iter().enumerate() {
        merger.merge(&mut t, c, i as u64).unwrap();
    }
    assert_eq!(t.len(), 3);
}

#[test]
fn poller_drops_unknown_traffic() {
    let h = host("a.example");
    let router = WsMsgRouter::new();
    let mut repo = ServerNoteRepo::new();
    let r = handle_message(&mut repo, &router, &h, note_msg("nope", note("n1", "2024", None, None)));
    assert!(matches!(r, PollOutcome::UnknownChannel));
    assert!(repo.send_dyn_note("n1").is_none());
    let r = handle_message(&mut repo, &router, &h, reaction_msg("n1", "👍"));
    assert!(matches!(r, PollOutcome::UnknownNote));
    let mut router = WsMsgRouter::new();
    router.extend("sub".to_string(), vec![]);
    router.extend("sub".to_string(), vec![key("a.example", BranchTimeline::Home)]);
    let r = handle_message(&mut repo, &router, &h, note_msg("sub", note("n1", "2024", Some("b.example"), None)));
    assert!(matches!(r, PollOutcome::Rejected(mi_merge::MiMergeError::InvalidNote)));
    let r = handle_message(&mut repo, &router, &h, reaction_msg("n1", "👍"));
    assert!(matches!(r, PollOutcome::UnknownNote));
}

#[test]
fn two_servers_merge_into_direct_copy() {
    let a = host("A");
    let b = host("B");
    let mut router_a = WsMsgRouter::new();
    router_a.extend("ha".to_string(), vec![key("A", BranchTimeline::Home)]);
    let mut router_b = WsMsgRouter::new();
    router_b.extend("hb".to_string(), vec![key("B", BranchTimeline::Home)]);
    let mut repo_a = ServerNoteRepo::new();
    let mut repo_b = ServerNoteRepo::new();
    let mut t = MergedTimeline::new();

    let relayed = note("r7", "2024-01-01T00:00:00.000Z", Some("B"), Some("https://B/notes/42"));
    let direct = note("42", "2024-01-01T00:00:00.000Z", None, None);
    let ca = match handle_message(&mut repo_a, &router_a, &a, note_msg("ha", relayed)) {
        PollOutcome::Stored { note, .. } => note,
        other => panic!("unexpected outcome {:?}", other),
    };
    let cb = match handle_message(&mut repo_b, &router_b, &b, note_msg("hb", direct)) {
        PollOutcome::Stored { note, .. } => note,
        other => panic!("unexpected outcome {:?}", other),
    };
    TimelineMerger::new(a).merge(&mut t, ca, 0).unwrap();
    TimelineMerger::new(b).merge(&mut t, cb, 50).unwrap();

    let notes = t.notes();
    assert_eq!(notes.len(), 1);
    assert_eq!(notes[0].source_host, host("B"));
    assert_eq!(notes[0].original_host, host("B"));
    assert_eq!(notes[0].uri, "https://B/notes/42");
    assert!(notes[0].branches.contains(&key("A", BranchTimeline::Home)));
    assert!(notes[0].branches.contains(&key("B", BranchTimeline::Home)));
}

#[test]
fn commands_are_json_frames() {
    assert_eq!(
        connect_command(&ChannelChannel::HomeTimeline, "id-1"),
        r#"{"type":"connect","body":{"id":"id-1","channel":"homeTimeline","params":{}}}"#
    );
    assert_eq!(
        connect_command(&ChannelChannel::LocalTimeline, "id-2"),
        r#"{"type":"connect","body":{"id":"id-2","channel":"localTimeline","params":{}}}"#
    );
    assert_eq!(
        connect_command(&ChannelChannel::Channel { channel_id: "c\"9".to_string() }, "id-3"),
        r#"{"type":"connect","body":{"id":"id-3","channel":"channel","params":{"channelId":"c\"9"}}}"#
    );
    assert_eq!(sub_note_command("9abc"), r#"{"type":"subNote","body":{"id":"9abc"}}"#);
    assert_eq!(sub_note_command("a\nb\u{1}/é"), r#"{"type":"subNote","body":{"id":"a\nb\u0001/é"}}"#);
    let v: serde_json::Value = serde_json::from_str(&sub_note_command("a\\b")).unwrap();
    assert_eq!(v["body"]["id"], "a\\b");
}

#[test]
fn subscription_ids_are_fresh_uuids() {
    let (a, frame) = subscribe_command(&ChannelChannel::LocalTimeline);
    let (b, _) = subscribe_command(&ChannelChannel::LocalTimeline);
    assert_eq!(a.len(), 36);
    assert_ne!(a, b);
    assert_eq!(frame, connect_command(&ChannelChannel::LocalTimeline, &a));
}

#[test]
fn requests_address_the_server() {
    let h = host("misskey.io");
    assert_eq!(stream_url(&h, "k1"), "wss://misskey.io/stream?i=k1");
    let (u, body) = backfill_request(&h, "k1", &ChannelChannel::HomeTimeline);
    assert_eq!(u, "https://misskey.io/api/notes/timeline");
    assert_eq!(body, r#"{"i":"k1"}"#);
    let (u, _) = backfill_request(&h, "k1", &ChannelChannel::LocalTimeline);
    assert_eq!(u, "https://misskey.io/api/notes/local-timeline");
    let (u, body) = backfill_request(&h, "k1", &ChannelChannel::Channel { channel_id: "ch".to_string() });
    assert_eq!(u, "https://misskey.io/api/channels/timeline");
    assert_eq!(body, r#"{"channelId":"ch","i":"k1"}"#);
}

#[test]
fn plan_joins_each_channel_once() {
    let conn = Connection {
        host: "a.example".to_string(),
        user: "me".to_string(),
        channels: vec![
            Channel { channel: ChannelChannel::HomeTimeline, branches: vec![key("a.example", BranchTimeline::Home)] },
            Channel { channel: ChannelChannel::LocalTimeline, branches: vec![] },
            Channel {
                channel: ChannelChannel::HomeTimeline,
                branches: vec![
                    key("a.example", BranchTimeline::Antenna("x".to_string())),
                    key("a.example", BranchTimeline::Home),
                ],
            },
            Channel {
                channel: ChannelChannel::Channel { channel_id: "c1".to_string() },
                branches: vec![key("a.example", BranchTimeline::Channel("c1".to_string()))],
            },
        ],
        disable: false,
    };
    let plan = subscription_plan(&conn);
    assert_eq!(plan.len(), 3);
    assert!(matches!(plan[0].0, ChannelChannel::HomeTimeline));
    assert_eq!(
        plan[0].1,
        vec![key("a.example", BranchTimeline::Home), key("a.example", BranchTimeline::Antenna("x".to_string()))]
    );
    assert!(matches!(plan[1].0, ChannelChannel::LocalTimeline));
    assert!(plan[1].1.is_empty());
    assert_eq!(plan[2].1, vec![key("a.example", BranchTimeline::Channel("c1".to_string()))]);
}

#[test]
fn subscription_without_branches_drops_notes() {
    let h = host("a.example");
    let mut router = WsMsgRouter::new();
    router.extend("empty".to_string(), vec![]);
    let mut repo = ServerNoteRepo::new();
    let r = handle_message(&mut repo, &router, &h, note_msg("empty", note("n1", "2024", None, None)));
    assert!(matches!(r, PollOutcome::UnknownChannel));
    assert!(repo.send_dyn_note("n1").is_none());
}

#[test]
fn merger_leaves_other_names_alone() {
    let m = TimelineMerger::new(host("example.com"));
    assert_eq!(m.qualify_reaction(":smile@other.org:"), None);
    assert_eq!(m.qualify_reaction("👍"), None);
    assert_eq!(m.qualify_reaction(":smile@.:"), Some(":smile@example.com:".to_string()));
}

#[test]
fn merged_reactions_keep_every_name() {
    let mut acc = vec![("a".to_string(), 0)];
    merge_reactions(&mut acc, &vec![("b".to_string(), 0), ("a".to_string(), -1)]);
    assert_eq!(acc, vec![("a".to_string(), 0), ("b".to_string(), 0)]);
    let before = acc.clone();
    merge_reactions(&mut acc, &vec![("b".to_string(), 0)]);
    assert_eq!(acc, before);
}

#[test]
fn credentials_are_found_by_host() {
    let creds = vec![
        Credential { host: "a.example".to_string(), api_key: "x".to_string(), disable: true },
        Credential { host: "b.example".to_string(), api_key: "y".to_string(), disable: false },
        Credential { host: "a.example".to_string(), api_key: "z".to_string(), disable: false },
    ];
    assert_eq!(find_credential(&creds, "a.example"), Some(2));
    assert_eq!(find_credential(&creds, "b.example"), Some(1));
    assert_eq!(find_credential(&creds, "c.example"), None);
}

#[test]
fn branches_keep_first_configured_order() {
    let mut app = AppModel::new();
    app.insert_branch(key("a", BranchTimeline::Home));
    app.insert_branch(key("b", BranchTimeline::Local));
    app.insert_branch(key("a", BranchTimeline::Home));
    assert_eq!(app.branches(), vec![key("a", BranchTimeline::Home), key("b", BranchTimeline::Local)]);
}

#[test]
fn emoji_cache_remembers_first_answer() {
    let mut s = EmojiService::new();
    let h = host("a.example");
    assert!(s.cached(&h, "blob").is_none());
    s.remember(&h, "blob", EmojiSimple { name: "blob".to_string(), url: "u1".to_string() });
    s.remember(&h, "blob", EmojiSimple { name: "blob".to_string(), url: "u2".to_string() });
    assert_eq!(s.cached(&h, "blob").unwrap().url, "u1");
    assert!(s.cached(&host("b.example"), "blob").is_none());
}

#[test]
fn timestamps_compare_as_strings() {
    assert!(str_lt("2024-01-01T00:00:00.000Z", "2024-01-01T00:00:01.000Z"));
    assert!(!str_lt("2024-01-02", "2024-01-01T23"));
    assert!(str_lt("2024", "2024-01"));
    assert!(!str_lt("abc", "abc"));
}

#[test]
fn halves_start_once() {
    let mut h = CxnHalves::new();
    assert!(!h.is_started());
    h.start();
    assert!(h.is_started());
    assert_eq!(h.inbound, HalfState::Running);
    assert_eq!(h.outbound, HalfState::Running);
}
