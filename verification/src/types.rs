//! Messages and users as every channel sees them.

use crate::json;
use crate::json::{Json, Tree};
use crate::text;
use vstd::prelude::*;

verus! {

/// The platform that a message came from.
#[derive(Clone, Copy, Debug, PartialEq, Eq, Structural)]
pub enum ChannelType {
    Telegram,
    Discord,
    Slack,
}

/// An instant: seconds since the Unix epoch, and nanoseconds within the second.
#[derive(Clone, Copy, Debug, PartialEq, Eq, Structural)]
pub struct Timestamp {
    pub secs: i64,
    pub nanos: u32,
}

/// A user on a channel.
#[derive(Debug)]
pub struct ChannelUser {
    /// Where to answer. On Discord this is the channel, not the user.
    pub platform_id: String,
    pub display_name: String,
    pub openfang_user: Option<String>,
}

/// What a message says.
#[derive(Debug)]
pub enum ChannelContent {
    Text(String),
    Image { url: String, caption: Option<String> },
    File { url: String, filename: String },
    Voice { url: String, duration_seconds: u32 },
    /// A place; its coordinates in decimal notation.
    Location { lat: String, lon: String },
    Command { name: String, args: Vec<String> },
    Interactive { message: String, components: Vec<MessageComponent> },
    Rich { blocks: Vec<RichBlock>, fallback_text: String },
}

/// An interactive component, on any platform.
#[derive(Debug)]
pub enum MessageComponent {
    Button { label: String, custom_id: String, style: u8 },
    SelectMenu {
        custom_id: String,
        placeholder: Option<String>,
        options: Vec<MenuOption>,
        min_values: u32,
        max_values: u32,
    },
}

/// An option of a select menu, on any platform.
#[derive(Debug)]
pub struct MenuOption {
    pub label: String,
    pub value: String,
    pub description: Option<String>,
}

/// A block of rich output.
#[derive(Debug)]
pub enum RichBlock {
    Embed {
        title: Option<String>,
        description: String,
        color: Option<u32>,
        /// Name, value, and whether the field stands beside others.
        fields: Vec<(String, String, bool)>,
        image_url: Option<String>,
        footer: Option<String>,
    },
    Buttons {
        text: String,
        /// Label and identifier of each button.
        buttons: Vec<(String, String)>,
    },
    PlainText(String),
    ImageGallery {
        /// Address and caption of each image.
        images: Vec<(String, Option<String>)>,
    },
    Section { text: String, thumbnail_url: Option<String> },
}

/// A reaction that shows how far the agent has come.
#[derive(Debug)]
pub struct LifecycleReaction {
    pub emoji: String,
    pub remove_previous: bool,
}

/// A message from a channel.
#[derive(Debug)]
pub struct ChannelMessage {
    pub channel: ChannelType,
    pub platform_message_id: String,
    pub sender: ChannelUser,
    pub content: ChannelContent,
    pub target_agent: Option<String>,
    pub timestamp: Timestamp,
    pub is_group: bool,
    pub thread_id: Option<String>,
    pub metadata: Vec<(String, Json)>,
}

/// What a received message says: text or a command.
pub enum Incoming {
    Text(Seq<char>),
    Command { name: Seq<char>, args: Seq<Seq<char>> },
}

/// What a message says, if it is of a kind that can be received.
pub open spec fn incoming(c: ChannelContent) -> Option<Incoming> {
    match c {
        ChannelContent::Text(s) => Some(Incoming::Text(s@)),
        ChannelContent::Command { name, args } => Some(
            Incoming::Command { name: name@, args: text::strings(args@) },
        ),
        _ => None,
    }
}

/// What a user holds.
pub struct UserView {
    pub platform_id: Seq<char>,
    pub display_name: Seq<char>,
    pub openfang_user: Option<Seq<char>>,
}

impl View for ChannelUser {
    type V = UserView;

    open spec fn view(&self) -> UserView {
        UserView {
            platform_id: self.platform_id@,
            display_name: self.display_name@,
            openfang_user: text::opt_text(self.openfang_user),
        }
    }
}

/// What a received message holds.
pub struct MessageView {
    pub channel: ChannelType,
    pub platform_message_id: Seq<char>,
    pub sender: UserView,
    pub content: Option<Incoming>,
    pub target_agent: Option<Seq<char>>,
    pub timestamp: Timestamp,
    pub is_group: bool,
    pub thread_id: Option<Seq<char>>,
    pub metadata: Map<Seq<char>, Tree>,
}

impl View for ChannelMessage {
    type V = MessageView;

    open spec fn view(&self) -> MessageView {
        MessageView {
            channel: self.channel,
            platform_message_id: self.platform_message_id@,
            sender: self.sender@,
            content: incoming(self.content),
            target_agent: text::opt_text(self.target_agent),
            timestamp: self.timestamp,
            is_group: self.is_group,
            thread_id: text::opt_text(self.thread_id),
            metadata: json::members(self.metadata@),
        }
    }
}

} // verus!
