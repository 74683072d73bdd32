pub mod app_model;
pub mod branch;
pub mod connection;
pub mod emoji_service;
pub mod host;
pub mod merged_timeline;
pub mod note;
pub mod note_model;
pub mod reaction;
pub mod server_cxn;
pub mod server_note_repo;
pub mod ws_msg_router;
pub mod ws_poller;

pub use branch::{Branch, BranchKey, BranchTimeline};
pub use host::Host;
pub use note::{
    DriveFile, Emoji, EmojiSimple, Note, NoteUpdatedBody, NoteUpdatedBodyReactedBody, OnlineStatus,
    Poll, PollChoice, User, UserInstance, Visibility, WsMsg, WsMsgChannelBody,
};
pub use note_model::{DynNoteModel, MiMergeError, NoteKey, NoteModel};
pub use merged_timeline::{MergedTimeLineError, MergedTimeline};
pub use ws_msg_router::WsMsgRouter;
pub use server_note_repo::ServerNoteRepo;
pub use ws_poller::{handle_message, PollOutcome};
pub use connection::{Channel, ChannelChannel, Connection, Credential};
pub use server_cxn::{CxnHalves, HalfState, ServerCxnError};
pub use app_model::{AppModel, TimelineMerger};
pub use emoji_service::{EmojiService, EmojiServiceError};
