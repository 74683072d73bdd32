use mi_merge::{
    DynNoteModel, EmojiServiceError, Host, MergedTimeLineError, MiMergeError, Note, OnlineStatus,
    ServerCxnError, User, Visibility,
};

fn bare_note(id: &str, user_host: Option<&str>, uri: Option<&str>) -> Note {
    Note {
        id: id.to_string(),
        created_at: "2024-05-01T10:00:00.000Z".to_string(),
        text: None,
        cw: Some("cw".to_string()),
        user: User {
            id: "u9".to_string(),
            username: "carol".to_string(),
            host: user_host.map(|h| h.to_string()),
            name: Some("Carol".to_string()),
            online_status: OnlineStatus::Active,
            avatar_url: String::new(),
            avatar_blurhash: None,
            instance: None,
        },
        user_id: "u9".to_string(),
        reply: Some(Box::new(Note {
            id: "parent".to_string(),
            created_at: "2024-05-01T09:00:00.000Z".to_string(),
            text: Some("first".to_string()),
            cw: None,
            user: User {
                id: "u8".to_string(),
                username: "dan".to_string(),
                host: None,
                name: None,
                online_status: OnlineStatus::Offline,
                avatar_url: String::new(),
                avatar_blurhash: None,
                instance: None,
            },
            user_id: "u8".to_string(),
            reply: None,
            reply_id: None,
            renote: None,
            renote_id: None,
            files: Vec::new(),
            file_ids: Vec::new(),
            visibility: Visibility::Followers,
            visible_user_ids: None,
            local_only: None,
            my_reaction: None,
            reactions: vec![("👍".to_string(), 2)],
            renote_count: 0,
            replies_count: 1,
            poll: None,
            uri: None,
            url: None,
            is_hidden: None,
            mentions: None,
        })),
        reply_id: Some("parent".to_string()),
        renote: None,
        renote_id: None,
        files: Vec::new(),
        file_ids: Vec::new(),
        visibility: Visibility::Specified,
        visible_user_ids: Some(vec!["u8".to_string()]),
        local_only: None,
        my_reaction: None,
        reactions: Vec::new(),
        renote_count: 0,
        replies_count: 0,
        poll: None,
        uri: uri.map(|u| u.to_string()),
        url: None,
        is_hidden: None,
        mentions: None,
    }
}

#[test]
fn note_clone_is_equal() {
    let n = bare_note("n1", Some("x.example"), Some("https://x.example/notes/1"));
    assert_eq!(n.clone(), n);
}

#[test]
fn dyn_model_from_delivered_note() {
    let d = DynNoteModel::from_ws_entity(bare_note("n1", None, None), Host::from("a.example".to_string()));
    assert_eq!(d.original_host, Host("a.example".to_string()));
    assert_eq!(d.source_host, Host("a.example".to_string()));
    assert_eq!(d.uri, "https://a.example/notes/n1");
    assert!(d.reactions.is_empty());
    assert!(d.branches.is_empty());

    let d = DynNoteModel::from_ws_entity(
        bare_note("n1", Some("x.example"), Some("https://x.example/notes/77")),
        Host::from("a.example".to_string()),
    );
    assert_eq!(d.original_host, Host("x.example".to_string()));
    assert_eq!(d.uri, "https://x.example/notes/77");
    assert_eq!(d.note.reply.as_ref().unwrap().id, "parent");
}

#[test]
fn host_reads_back() {
    let h = Host::from("misskey.io".to_string());
    assert_eq!(h.as_str(), "misskey.io");
}

#[test]
fn errors_have_messages() {
    assert_eq!(MiMergeError::InvalidNote.message(), "invalid note");
    assert_eq!(MergedTimeLineError::InvalidNote.message(), "invalid note");
    assert_eq!(ServerCxnError::ConnectError.message(), "failed to connect to the server");
    assert_eq!(
        ServerCxnError::SendToClosedServerError.message(),
        "tried to send to eventually disconnected server"
    );
    assert_eq!(ServerCxnError::HttpRequestError.message(), "http request error");
    assert_eq!(EmojiServiceError::HttpRequestError.message(), "http request error");
    assert_eq!(EmojiServiceError::InvalidFormatResponse.message(), "invalid format response");
}
