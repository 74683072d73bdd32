use vstd::prelude::*;
use vstd::string::*;

use crate::connection::ChannelChannel;
use crate::host::Host;

verus! {

/// Why talking to a server failed.
#[derive(Debug, Clone, Copy, PartialEq, Eq, Structural)]
pub enum ServerCxnError {
    ConnectError,
    SendToClosedServerError,
    HttpRequestError,
}

impl ServerCxnError {
    pub fn message(&self) -> (r: String)
        ensures
            r@.len() > 0,
    {
        let r = match self {
            ServerCxnError::ConnectError => "failed to connect to the server".to_string(),
            ServerCxnError::SendToClosedServerError => "tried to send to eventually disconnected server".to_string(),
            ServerCxnError::HttpRequestError => "http request error".to_string(),
        };
        proof {
            reveal_strlit("failed to connect to the server");
            reveal_strlit("tried to send to eventually disconnected server");
            reveal_strlit("http request error");
        }
        r
    }
}

/// How a JSON string literal writes the character `c`: a quote, a backslash
/// and the control characters below U+0020 are escaped, the short forms
/// where JSON has them, else as `\u00` and two lowercase hex digits.
pub open spec fn json_escape_char(c: char) -> Seq<char> {
    if c == '"' {
        seq!['\\', '"']
    } else if c == '\\' {
        seq!['\\', '\\']
    } else if c == '\u{8}' {
        seq!['\\', 'b']
    } else if c == '\t' {
        seq!['\\', 't']
    } else if c == '\n' {
        seq!['\\', 'n']
    } else if c == '\u{c}' {
        seq!['\\', 'f']
    } else if c == '\r' {
        seq!['\\', 'r']
    } else if (c as u32) < 0x20 {
        seq!['\\', 'u', '0', '0', hex_digit((c as u32) / 16), hex_digit((c as u32) % 16)]
    } else {
        seq![c]
    }
}

pub open spec fn hex_digit(d: u32) -> char {
    if d == 0 { '0' } else if d == 1 { '1' } else if d == 2 { '2' } else if d == 3 { '3' }
    else if d == 4 { '4' } else if d == 5 { '5' } else if d == 6 { '6' } else if d == 7 { '7' }
    else if d == 8 { '8' } else if d == 9 { '9' } else if d == 10 { 'a' } else if d == 11 { 'b' }
    else if d == 12 { 'c' } else if d == 13 { 'd' } else if d == 14 { 'e' } else { 'f' }
}

/// The characters of `s`, each written as `json_escape_char` says.
pub open spec fn json_escaped(s: Seq<char>) -> Seq<char>
    decreases s.len(),
{
    if s.len() == 0 {
        Seq::empty()
    } else {
        json_escaped(s.drop_last()) + json_escape_char(s.last())
    }
}

/// The JSON string literal for `s`: its escaped characters between quotes.
pub open spec fn json_string_of(s: Seq<char>) -> Seq<char> {
    seq!['"'] + json_escaped(s) + seq!['"']
}

/// Relies on serde_json::to_string on a `str`: it writes the text between
/// quotes, escaping characters as its `ESCAPE` table and `write_char_escape`
/// do, and serialising a `str` does not fail.
#[verifier::external_body]
fn json_string(s: &str) -> (r: String)
    ensures
        r@ == json_string_of(s@),
{
    match serde_json::to_string(s) {
        Ok(q) => q,
        Err(_) => String::new(),
    }
}

/// Relies on uuid::Uuid::new_v4 and its hyphenated `Display`: a random id of
/// 36 characters.
#[verifier::external_body]
fn new_subscription_id() -> (r: String)
    ensures
        r@.len() == 36,
{
    uuid::Uuid::new_v4().to_string()
}

/// The realtime channel name and parameters of a channel, as JSON text.
pub open spec fn channel_fields(c: ChannelChannel) -> Seq<char> {
    match c {
        ChannelChannel::HomeTimeline => "\"channel\":\"homeTimeline\",\"params\":{}"@,
        ChannelChannel::LocalTimeline => "\"channel\":\"localTimeline\",\"params\":{}"@,
        ChannelChannel::Channel { channel_id } => "\"channel\":\"channel\",\"params\":{\"channelId\":"@
            + json_string_of(channel_id@) + "}"@,
    }
}

/// The command that joins channel `c` under the subscription id `id`.
pub open spec fn connect_frame(c: ChannelChannel, id: Seq<char>) -> Seq<char> {
    "{\"type\":\"connect\",\"body\":{\"id\":"@ + json_string_of(id) + ","@ + channel_fields(c) + "}}"@
}

/// The command that asks for the reactions to note `note_id`.
pub open spec fn sub_note_frame(note_id: Seq<char>) -> Seq<char> {
    "{\"type\":\"subNote\",\"body\":{\"id\":"@ + json_string_of(note_id) + "}}"@
}

/// The command that joins `channel` under the subscription id `id`.
pub fn connect_command(channel: &ChannelChannel, id: &str) -> (r: String)
    ensures
        r@ == connect_frame(*channel, id@),
{
    let mut r = "{\"type\":\"connect\",\"body\":{\"id\":".to_string();
    r.append(json_string(id).as_str());
    r.append(",");
    match channel {
        ChannelChannel::HomeTimeline => r.append("\"channel\":\"homeTimeline\",\"params\":{}"),
        ChannelChannel::LocalTimeline => r.append("\"channel\":\"localTimeline\",\"params\":{}"),
        ChannelChannel::Channel { channel_id } => {
            r.append("\"channel\":\"channel\",\"params\":{\"channelId\":");
            r.append(json_string(channel_id.as_str()).as_str());
            r.append("}");
        },
    }
    r.append("}}");
    r
}

/// A fresh random subscription id, and the command that joins `channel` under it.
pub fn subscribe_command(channel: &ChannelChannel) -> (r: (String, String))
    ensures
        r.0@.len() == 36,
        r.1@ == connect_frame(*channel, r.0@),
{
    let id = new_subscription_id();
    let frame = connect_command(channel, id.as_str());
    (id, frame)
}

/// The command that asks for the reactions to note `note_id`.
pub fn sub_note_command(note_id: &str) -> (r: String)
    ensures
        r@ == sub_note_frame(note_id@),
{
    let mut r = "{\"type\":\"subNote\",\"body\":{\"id\":".to_string();
    r.append(json_string(note_id).as_str());
    r.append("}}");
    r
}

/// The address of the realtime socket of `host`, authenticated by `api_key`.
pub fn stream_url(host: &Host, api_key: &str) -> (r: String)
    ensures
        r@ == "wss://"@ + host@ + "/stream?i="@ + api_key@,
{
    let mut r = "wss://".to_string();
    r.append(host.as_str());
    r.append("/stream?i=");
    r.append(api_key);
    r
}

/// The history endpoint for a channel, below `/api/`.
pub open spec fn backfill_path(c: ChannelChannel) -> Seq<char> {
    match c {
        ChannelChannel::HomeTimeline => "notes/timeline"@,
        ChannelChannel::LocalTimeline => "notes/local-timeline"@,
        ChannelChannel::Channel { .. } => "channels/timeline"@,
    }
}

/// The JSON body of a history request.
pub open spec fn backfill_body(c: ChannelChannel, api_key: Seq<char>) -> Seq<char> {
    match c {
        ChannelChannel::Channel { channel_id } => "{\"channelId\":"@ + json_string_of(channel_id@)
            + ",\"i\":"@ + json_string_of(api_key) + "}"@,
        _ => "{\"i\":"@ + json_string_of(api_key) + "}"@,
    }
}

/// The address and JSON body of the request for the recent history of
/// `channel` on `host`.
pub fn backfill_request(host: &Host, api_key: &str, channel: &ChannelChannel) -> (r: (String, String))
    ensures
        r.0@ == "https://"@ + host@ + "/api/"@ + backfill_path(*channel),
        r.1@ == backfill_body(*channel, api_key@),
{
    let mut url = "https://".to_string();
    url.append(host.as_str());
    url.append("/api/");
    let mut body = "{".to_string();
    match channel {
        ChannelChannel::HomeTimeline => url.append("notes/timeline"),
        ChannelChannel::LocalTimeline => url.append("notes/local-timeline"),
        ChannelChannel::Channel { channel_id } => {
            url.append("channels/timeline");
            body.append("\"channelId\":");
            body.append(json_string(channel_id.as_str()).as_str());
            body.append(",");
        },
    }
    body.append("\"i\":");
    body.append(json_string(api_key).as_str());
    body.append("}");
    proof {
        reveal_strlit("{");
        reveal_strlit(",");
        reveal_strlit("\"i\":");
        reveal_strlit("{\"i\":");
        reveal_strlit("\"channelId\":");
        reveal_strlit("{\"channelId\":");
        reveal_strlit(",\"i\":");
        assert("{\"i\":"@ =~= "{"@ + "\"i\":"@);
        assert("{\"channelId\":"@ =~= "{"@ + "\"channelId\":"@);
        assert(",\"i\":"@ =~= ","@ + "\"i\":"@);
        assert(body@ =~= backfill_body(*channel, api_key@));
    }
    (url, body)
}

/// Whether one half of a connection, inbound or outbound, has been started.
#[derive(Debug, Clone, Copy, PartialEq, Eq, Structural)]
pub enum HalfState {
    NotStarted,
    Running,
}

/// The two halves of a realtime connection. Each is started exactly once,
/// and both together.
#[derive(Debug, Clone, Copy, PartialEq, Eq, Structural)]
pub struct CxnHalves {
    pub inbound: HalfState,
    pub outbound: HalfState,
}

impl CxnHalves {
    pub fn new() -> (r: CxnHalves)
        ensures
            r.inbound == HalfState::NotStarted,
            r.outbound == HalfState::NotStarted,
    {
        CxnHalves { inbound: HalfState::NotStarted, outbound: HalfState::NotStarted }
    }

    pub fn is_started(&self) -> (r: bool)
        ensures
            r == (self.inbound == HalfState::Running || self.outbound == HalfState::Running),
    {
        self.inbound == HalfState::Running || self.outbound == HalfState::Running
    }

    /// Starts both halves; starting a half twice is not allowed.
    pub fn start(&mut self)
        requires
            old(self).inbound == HalfState::NotStarted,
            old(self).outbound == HalfState::NotStarted,
        ensures
            final(self).inbound == HalfState::Running,
            final(self).outbound == HalfState::Running,
    {
        self.inbound = HalfState::Running;
        self.outbound = HalfState::Running;
    }
}

} // verus!
