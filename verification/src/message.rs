//! Messages as the channel hands them on and takes them in.

use crate::adapter::ChannelType;
use crate::json::{members_view, Json, JsonView};
use crate::outside::Timestamp;
use crate::text::{opt_text, texts};
use vstd::prelude::*;

verus! {

/// What a message says.
#[derive(Debug, PartialEq, Eq)]
pub enum ChannelContent {
    Text(String),
    Image { url: String, caption: Option<String> },
    File { url: String, filename: String },
    Command { name: String, args: Vec<String> },
}

/// What a message says, as the specifications see it.
pub enum ContentView {
    Text(Seq<char>),
    Image { url: Seq<char>, caption: Option<Seq<char>> },
    File { url: Seq<char>, filename: Seq<char> },
    Command { name: Seq<char>, args: Seq<Seq<char>> },
}

impl View for ChannelContent {
    type V = ContentView;

    open spec fn view(&self) -> ContentView {
        match self {
            ChannelContent::Text(s) => ContentView::Text(s@),
            ChannelContent::Image { url, caption } => ContentView::Image {
                url: url@,
                caption: opt_text(*caption),
            },
            ChannelContent::File { url, filename } => ContentView::File {
                url: url@,
                filename: filename@,
            },
            ChannelContent::Command { name, args } => ContentView::Command {
                name: name@,
                args: texts(args@),
            },
        }
    }
}

/// Who sent a message, or is to get one: in a Matrix channel the room, with
/// the sender's id as the name to show.
#[derive(Debug, PartialEq, Eq)]
pub struct ChannelUser {
    pub platform_id: String,
    pub display_name: String,
    pub openfang_user: Option<String>,
}

/// A message that came in.
#[derive(Debug, PartialEq, Eq)]
pub struct ChannelMessage {
    pub channel: ChannelType,
    pub platform_message_id: String,
    pub sender: ChannelUser,
    pub content: ChannelContent,
    pub target_agent: Option<String>,
    pub timestamp: Timestamp,
    pub is_group: bool,
    pub thread_id: Option<String>,
    /// Further facts about the message, each key at most once.
    pub metadata: Vec<(String, Json)>,
}

/// A message that came in, as the specifications see it.
pub struct MessageView {
    pub channel: ChannelType,
    pub platform_message_id: Seq<char>,
    pub room_id: Seq<char>,
    pub sender: Seq<char>,
    pub openfang_user: Option<Seq<char>>,
    pub content: ContentView,
    pub target_agent: Option<Seq<char>>,
    pub timestamp: Timestamp,
    pub is_group: bool,
    pub thread_id: Option<Seq<char>>,
    pub metadata: Seq<(Seq<char>, JsonView)>,
}

impl View for ChannelMessage {
    type V = MessageView;

    open spec fn view(&self) -> MessageView {
        MessageView {
            channel: self.channel,
            platform_message_id: self.platform_message_id@,
            room_id: self.sender.platform_id@,
            sender: self.sender.display_name@,
            openfang_user: opt_text(self.sender.openfang_user),
            content: self.content@,
            target_agent: opt_text(self.target_agent),
            timestamp: self.timestamp,
            is_group: self.is_group,
            thread_id: opt_text(self.thread_id),
            metadata: members_view(self.metadata@),
        }
    }
}

/// What a message says is seen in full.
pub proof fn law_contents_are_seen_in_full(c: ChannelContent)
    ensures
        c matches ChannelContent::Text(s) ==> c@ == ContentView::Text(s@),
        c matches ChannelContent::Image { url, caption: None } ==> c@ == (ContentView::Image {
            url: url@,
            caption: None,
        }),
        c matches ChannelContent::Image { url, caption: Some(s) } ==> c@ == (ContentView::Image {
            url: url@,
            caption: Some(s@),
        }),
        c matches ChannelContent::File { url, filename } ==> c@ == (ContentView::File {
            url: url@,
            filename: filename@,
        }),
        c matches ChannelContent::Command { name, args } ==> {
            &&& c@ is Command
            &&& c@->name == name@
            &&& c@->args.len() == args@.len()
            &&& forall|i: int| 0 <= i < args@.len() ==> #[trigger] c@->args[i] == args@[i]@
        },
{
}

/// A message is seen with all its fields, the sender's among them.
pub proof fn law_messages_are_seen_in_full(m: ChannelMessage)
    ensures
        m@.channel == m.channel,
        m@.platform_message_id == m.platform_message_id@,
        m@.room_id == m.sender.platform_id@,
        m@.sender == m.sender.display_name@,
        m@.content == m.content@,
        m@.timestamp == m.timestamp,
        m@.is_group == m.is_group,
        m@.openfang_user is Some <==> m.sender.openfang_user is Some,
        m.sender.openfang_user matches Some(s) ==> m@.openfang_user == Some(s@),
        m@.target_agent is Some <==> m.target_agent is Some,
        m.target_agent matches Some(s) ==> m@.target_agent == Some(s@),
        m@.thread_id is Some <==> m.thread_id is Some,
        m.thread_id matches Some(s) ==> m@.thread_id == Some(s@),
        m@.metadata.len() == m.metadata@.len(),
        forall|i: int|
            0 <= i < m.metadata@.len() ==> #[trigger] m@.metadata[i] == (
                m.metadata@[i].0@,
                m.metadata@[i].1@,
            ),
{
}

} // verus!
