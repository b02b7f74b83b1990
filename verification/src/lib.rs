//! Discord channel support: message formatting, gateway session, rich output, streaming and voice.

pub mod adapter;
pub mod commands;
pub mod components;
pub mod discord_laws;
pub mod discord_markdown;
pub mod discord_types;
pub mod emphasis;
pub mod formatter;
pub mod formatter_laws;
pub mod gateway;
pub mod gateway_laws;
pub mod json;
pub mod literal;
pub mod literal_laws;
pub mod markup_laws;
pub mod message_laws;
pub mod parse;
pub mod plain_laws;
pub mod registry;
pub mod request_laws;
pub mod requests;
pub mod rich;
pub mod rich_laws;
pub mod send;
pub mod session_laws;
pub mod speech;
pub mod stream;
pub mod stream_laws;
pub mod table_laws;
pub mod text;
pub mod text_laws;
pub mod types;
pub mod view_laws;
pub mod voice;
pub mod voice_laws;
pub mod wire_laws;
