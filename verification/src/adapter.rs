//! The Discord adapter: the bot's credentials and what it listens to.

use crate::text;
use crate::types::ChannelType;
use vstd::prelude::*;

verus! {

/// A bot's token in a `zeroize::Zeroizing<String>`, which overwrites its memory when it is dropped.
///
/// That the bytes are overwritten is not stated: Verus sees what a text holds, not the memory
/// behind it.
#[verifier::external_body]
pub struct Token {
    text: zeroize::Zeroizing<String>,
}

/// The text that a token holds.
pub uninterp spec fn token_text(token: Token) -> Seq<char>;

/// `zeroize::Zeroizing::new` takes the text as it is.
#[verifier::external_body]
fn new_token(text: String) -> (r: Token)
    ensures
        token_text(r) == text@,
{
    Token { text: zeroize::Zeroizing::new(text) }
}

/// `zeroize::Zeroizing` derefs to the text that it was made of.
#[verifier::external_body]
fn read_token(token: &Token) -> (r: &str)
    ensures
        r@ == token_text(*token),
{
    &token.text
}

/// The Discord adapter.
///
/// SECURITY: the token is zeroized on drop to prevent memory disclosure.
pub struct DiscordAdapter {
    token: Token,
    allowed_guilds: Vec<String>,
    intents: u64,
}

/// What the adapter holds.
pub struct AdapterView {
    pub token: Seq<char>,
    /// Messages of other guilds are dropped, unless there are none here.
    pub allowed_guilds: Seq<Seq<char>>,
    /// What the gateway is asked to report.
    pub intents: u64,
}

impl View for DiscordAdapter {
    type V = AdapterView;

    closed spec fn view(&self) -> AdapterView {
        AdapterView {
            token: token_text(self.token),
            allowed_guilds: text::strings(self.allowed_guilds@),
            intents: self.intents,
        }
    }
}

impl DiscordAdapter {
    /// An adapter for a bot.
    pub fn new(token: String, allowed_guilds: Vec<String>, intents: u64) -> (r: DiscordAdapter)
        ensures
            r@ == (AdapterView {
                token: token@,
                allowed_guilds: text::strings(allowed_guilds@),
                intents,
            }),
    {
        DiscordAdapter { token: new_token(token), allowed_guilds, intents }
    }

    /// The adapter's name.
    pub fn name(&self) -> (r: &str)
        ensures
            r@ == "discord"@,
    {
        "discord"
    }

    /// The platform that the adapter serves.
    pub fn channel_type(&self) -> (r: ChannelType)
        ensures
            r == ChannelType::Discord,
    {
        ChannelType::Discord
    }

    /// The bot's token.
    pub(crate) fn token(&self) -> (r: &str)
        ensures
            r@ == self@.token,
    {
        read_token(&self.token)
    }

    /// The guilds whose messages are let through.
    pub(crate) fn allowed_guilds(&self) -> (r: &Vec<String>)
        ensures
            text::strings(r@) == self@.allowed_guilds,
    {
        &self.allowed_guilds
    }

    /// What the gateway is asked to report.
    pub(crate) fn intents(&self) -> (r: u64)
        ensures
            r == self@.intents,
    {
        self.intents
    }
}

} // verus!
