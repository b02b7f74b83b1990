//! What goes out: messages, reactions and signs of typing.

use crate::adapter::DiscordAdapter;
use crate::components;
use crate::discord_types;
use crate::discord_types::{DiscordEmbed, EmbedView};
use crate::requests;
use crate::requests::{ApiRequest, RequestView};
use crate::rich;
use crate::rich::{BlockView, PlanView, RichPlan};
use crate::text;
use crate::types::{ChannelContent, ChannelUser, LifecycleReaction, RichBlock};
use vstd::prelude::*;

verus! {

/// How a message is sent.
pub enum SendPlan {
    /// There is nothing to send.
    Nothing,
    /// Send a text, split into messages.
    Text(String),
    /// Make a request.
    Request(ApiRequest),
    /// Fetch a file and upload it with a caption. If it cannot be fetched, send a text instead.
    Upload { url: String, filename: String, caption: String, otherwise: String },
    /// Send blocks. If a layout fails, the blocks go out one by one, and if none of them does, the
    /// text.
    Rich { plan: RichPlan, blocks: Vec<RichBlock>, fallback_text: String },
}

/// What a plan holds.
pub enum SendView {
    Nothing,
    Text(Seq<char>),
    Request(RequestView),
    Upload {
        url: Seq<char>,
        filename: Seq<char>,
        caption: Seq<char>,
        otherwise: Seq<char>,
    },
    Rich { plan: PlanView, blocks: Seq<BlockView>, fallback_text: Seq<char> },
}

impl View for SendPlan {
    type V = SendView;

    open spec fn view(&self) -> SendView {
        match *self {
            SendPlan::Nothing => SendView::Nothing,
            SendPlan::Text(t) => SendView::Text(t@),
            SendPlan::Request(r) => SendView::Request(r@),
            SendPlan::Upload { url, filename, caption, otherwise } => SendView::Upload {
                url: url@,
                filename: filename@,
                caption: caption@,
                otherwise: otherwise@,
            },
            SendPlan::Rich { plan, blocks, fallback_text } => SendView::Rich {
                plan: plan@,
                blocks: rich::block_views(blocks@),
                fallback_text: fallback_text@,
            },
        }
    }
}

/// The text that stands for a voice message.
pub open spec fn voice_text(duration_seconds: u32) -> Seq<char> {
    "🎤 Voice message ("@ + text::decimal(duration_seconds as nat) + "s)"@
}

/// The embed that shows a place.
pub open spec fn location_embed(lat: Seq<char>, lon: Seq<char>) -> EmbedView {
    EmbedView {
        title: Some("📍 Location"@),
        description: Some(lat + ", "@ + lon),
        url: Some("https://www.google.com/maps?q="@ + lat + ","@ + lon),
        color: Some(0x2ECC71u32),
        ..discord_types::empty_embed()
    }
}

/// How a message to a channel is sent.
pub open spec fn send_plan(
    token: Seq<char>,
    channel_id: Seq<char>,
    content: ChannelContent,
) -> SendView {
    match content {
        ChannelContent::Text(t) => SendView::Text(t@),
        ChannelContent::Image { url, caption } => SendView::Request(
            requests::post_message(
                token,
                channel_id,
                requests::embed_body(
                    None,
                    requests::image_embed(url@, text::opt_text(caption)),
                ),
            ),
        ),
        ChannelContent::File { url, filename } => SendView::Upload {
            url: url@,
            filename: filename@,
            caption: filename@,
            otherwise: "📎 ["@ + filename@ + "]("@ + url@ + ")"@,
        },
        ChannelContent::Voice { url, duration_seconds } => SendView::Upload {
            url: url@,
            filename: "voice_message.ogg"@,
            caption: voice_text(duration_seconds),
            otherwise: voice_text(duration_seconds),
        },
        ChannelContent::Location { lat, lon } => SendView::Request(
            requests::post_message(
                token,
                channel_id,
                requests::embed_body(None, location_embed(lat@, lon@)),
            ),
        ),
        ChannelContent::Interactive { message, components } => SendView::Request(
            requests::post_message(
                token,
                channel_id,
                requests::rows_body(
                    message@,
                    components::action_rows(components::discord_components(components@)),
                ),
            ),
        ),
        ChannelContent::Rich { blocks, fallback_text } => SendView::Rich {
            plan: rich::rich_plan(token, channel_id, rich::block_views(blocks@)),
            blocks: rich::block_views(blocks@),
            fallback_text: fallback_text@,
        },
        ChannelContent::Command { .. } => SendView::Nothing,
    }
}

fn voice_line(duration_seconds: u32) -> (r: String)
    ensures
        r@ == voice_text(duration_seconds),
{
    let mut t = text::chars_of("🎤 Voice message (");
    text::extend(&mut t, text::number(duration_seconds as u128).as_slice());
    text::extend_str(&mut t, "s)");
    text::string_of(t.as_slice())
}

/// How a reaction is set: the bot's earlier ones may have to go first, and a failure of that is
/// ignored.
pub struct ReactionPlan {
    pub clear: Option<ApiRequest>,
    pub react: ApiRequest,
}

impl DiscordAdapter {
    /// Sends a message to a channel. On Discord the user's platform identifier is the channel.
    pub fn send(&self, user: &ChannelUser, content: ChannelContent) -> (r: SendPlan)
        ensures
            r@ == send_plan(self@.token, user.platform_id@, content),
    {
        let channel_id = user.platform_id.as_str();
        match content {
            ChannelContent::Text(t) => SendPlan::Text(t),
            ChannelContent::Image { url, caption } => SendPlan::Request(
                self.api_send_image_embed(channel_id, url.as_str(), &caption),
            ),
            ChannelContent::File { url, filename } => {
                let mut otherwise = text::concat("📎 [", filename.as_str());
                otherwise.append("](");
                otherwise.append(url.as_str());
                otherwise.append(")");
                SendPlan::Upload { url, caption: filename.clone(), filename, otherwise }
            },
            ChannelContent::Voice { url, duration_seconds } => SendPlan::Upload {
                url,
                filename: "voice_message.ogg".to_string(),
                caption: voice_line(duration_seconds),
                otherwise: voice_line(duration_seconds),
            },
            ChannelContent::Location { lat, lon } => {
                let mut place = text::concat(lat.as_str(), ", ");
                place.append(lon.as_str());
                let mut url = text::concat("https://www.google.com/maps?q=", lat.as_str());
                url.append(",");
                url.append(lon.as_str());
                let mut embed = DiscordEmbed::default();
                embed.title = Some("📍 Location".to_string());
                embed.description = Some(place);
                embed.url = Some(url);
                embed.color = Some(0x2ECC71);
                SendPlan::Request(self.api_send_embed(channel_id, &None, &embed))
            },
            ChannelContent::Interactive { message, components } => SendPlan::Request(
                self.api_send_with_components(channel_id, message.as_str(), &components),
            ),
            ChannelContent::Rich { blocks, fallback_text } => {
                let plan = self.send_rich_blocks(channel_id, &blocks);
                SendPlan::Rich { plan, blocks, fallback_text }
            },
            ChannelContent::Command { .. } => SendPlan::Nothing,
        }
    }

    /// Reacts to a message.
    pub fn send_reaction(
        &self,
        user: &ChannelUser,
        message_id: &str,
        reaction: &LifecycleReaction,
    ) -> (r: ReactionPlan)
        ensures
            r.react@ == requests::reaction_set(
                self@.token,
                user.platform_id@,
                message_id@,
                reaction.emoji@,
            ),
            match r.clear {
                Some(c) => reaction.remove_previous && c@ == requests::reactions_removed(
                    self@.token,
                    user.platform_id@,
                    message_id@,
                ),
                None => !reaction.remove_previous,
            },
    {
        let channel_id = user.platform_id.as_str();
        let clear = if reaction.remove_previous {
            Some(self.api_remove_all_own_reactions(channel_id, message_id))
        } else {
            None
        };
        let react = self.api_add_reaction(channel_id, message_id, reaction.emoji.as_str());
        ReactionPlan { clear, react }
    }

    /// Shows that the bot is typing.
    pub fn send_typing(&self, user: &ChannelUser) -> (r: ApiRequest)
        ensures
            r@ == requests::typing(self@.token, user.platform_id@),
    {
        self.api_send_typing(user.platform_id.as_str())
    }
}

} // verus!
