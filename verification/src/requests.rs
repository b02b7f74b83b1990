//! Requests to Discord's REST interface.

use crate::adapter::DiscordAdapter;
use crate::components;
use crate::discord_types;
use crate::discord_types::{ActionRow, DiscordEmbed, EmbedMedia, EmbedView, RowView};
use crate::json;
use crate::json::{Json, Tree};
use crate::text;
use crate::types::MessageComponent;
use vstd::prelude::*;

verus! {

// ---------------------------------------------------------------- requests

/// The method of a request.
#[derive(Clone, Copy, Debug, PartialEq, Eq, Structural)]
pub enum Method {
    Get,
    Post,
    Put,
    Patch,
    Delete,
}

/// The body of a request.
#[derive(Debug)]
pub enum Body {
    Empty,
    Json(Json),
    /// A form with a file, and with a text field `payload_json` if there is one.
    File {
        part: String,
        filename: String,
        mime: String,
        bytes: Vec<u8>,
        payload_json: Option<String>,
    },
}

/// A request.
#[derive(Debug)]
pub struct ApiRequest {
    pub method: Method,
    pub url: String,
    pub headers: Vec<(String, String)>,
    pub body: Body,
}

/// What the body of a request holds.
pub enum BodyView {
    Empty,
    Json(Tree),
    File {
        part: Seq<char>,
        filename: Seq<char>,
        mime: Seq<char>,
        bytes: Seq<u8>,
        payload_json: Option<Seq<char>>,
    },
}

/// What a request holds.
pub struct RequestView {
    pub method: Method,
    pub url: Seq<char>,
    pub headers: Seq<(Seq<char>, Seq<char>)>,
    pub body: BodyView,
}

impl View for Body {
    type V = BodyView;

    open spec fn view(&self) -> BodyView {
        match *self {
            Body::Empty => BodyView::Empty,
            Body::Json(j) => BodyView::Json(j@),
            Body::File { part, filename, mime, bytes, payload_json } => BodyView::File {
                part: part@,
                filename: filename@,
                mime: mime@,
                bytes: bytes@,
                payload_json: text::opt_text(payload_json),
            },
        }
    }
}

impl View for ApiRequest {
    type V = RequestView;

    open spec fn view(&self) -> RequestView {
        RequestView {
            method: self.method,
            url: self.url@,
            headers: self.headers@.map_values(|h: (String, String)| (h.0@, h.1@)),
            body: self.body@,
        }
    }
}

/// What a list of requests holds.
pub open spec fn request_views(rs: Seq<ApiRequest>) -> Seq<RequestView> {
    rs.map_values(|r: ApiRequest| r@)
}

/// An address of the interface.
pub open spec fn api_url(path: Seq<char>) -> Seq<char> {
    "https://discord.com/api/v10"@ + path
}

/// The header that identifies the bot.
pub open spec fn bot_header(token: Seq<char>) -> Seq<(Seq<char>, Seq<char>)> {
    seq![("Authorization"@, "Bot "@ + token)]
}

/// A request that the bot makes under its own name.
pub open spec fn bot_request(
    token: Seq<char>,
    method: Method,
    path: Seq<char>,
    body: BodyView,
) -> RequestView {
    RequestView { method, url: api_url(path), headers: bot_header(token), body }
}

/// The path of a channel's messages.
pub open spec fn messages_path(channel_id: Seq<char>) -> Seq<char> {
    "/channels/"@ + channel_id + "/messages"@
}

/// The request that posts a message.
pub open spec fn post_message(token: Seq<char>, channel_id: Seq<char>, body: Tree) -> RequestView {
    bot_request(token, Method::Post, messages_path(channel_id), BodyView::Json(body))
}

/// A message that is only text.
pub open spec fn content_body(content: Seq<char>) -> Tree {
    json::obj().with("content"@, Tree::Str(content))
}

pub(crate) fn header(name: &str, value: String) -> (r: Vec<(String, String)>)
    ensures
        r@.map_values(|h: (String, String)| (h.0@, h.1@)) == seq![(name@, value@)],
{
    let mut out: Vec<(String, String)> = Vec::new();
    out.push((name.to_string(), value));
    assert(out@.map_values(|h: (String, String)| (h.0@, h.1@)) =~= seq![(name@, value@)]);
    out
}

pub(crate) fn with_header(headers: Vec<(String, String)>, name: &str, value: &str) -> (r: Vec<
    (String, String),
>)
    ensures
        r@.map_values(|h: (String, String)| (h.0@, h.1@)) == headers@.map_values(
            |h: (String, String)| (h.0@, h.1@),
        ).push((name@, value@)),
{
    let mut out: Vec<(String, String)> = headers;
    let h = (name.to_string(), value.to_string());
    out.push(h);
    assert(out@.map_values(|h: (String, String)| (h.0@, h.1@)) =~= headers@.map_values(
        |h: (String, String)| (h.0@, h.1@),
    ).push((name@, value@)));
    out
}

fn api(path: &str) -> (r: String)
    ensures
        r@ == api_url(path@),
{
    text::concat("https://discord.com/api/v10", path)
}

fn path_of_messages(channel_id: &str) -> (r: String)
    ensures
        r@ == messages_path(channel_id@),
{
    let mut p: String = text::concat("/channels/", channel_id);
    p.append("/messages");
    p
}

/// A request that the bot with the given token makes under its own name.
pub(crate) fn as_bot(token: &str, method: Method, path: &str, body: Body) -> (r: ApiRequest)
    ensures
        r@ == bot_request(token@, method, path@, body@),
{
    ApiRequest {
        method,
        url: api(path),
        headers: header("Authorization", text::concat("Bot ", token)),
        body,
    }
}

// ---------------------------------------------------------------- emoji

/// The hexadecimal digit of a number below sixteen.
pub open spec fn hex_digit(n: int) -> char {
    if n < 10 {
        (48 + n) as char
    } else {
        (55 + n) as char
    }
}

/// A byte in percent-encoding.
pub open spec fn percent(b: u8) -> Seq<char> {
    seq!['%', hex_digit(b as int / 16), hex_digit(b as int % 16)]
}

/// Bytes in percent-encoding.
pub open spec fn percent_encoded(bytes: Seq<u8>) -> Seq<char>
    decreases bytes.len(),
{
    if bytes.len() == 0 {
        Seq::empty()
    } else {
        percent_encoded(bytes.drop_last()) + percent(bytes.last())
    }
}

fn hex(n: u8) -> (r: char)
    requires
        n < 16,
    ensures
        r == hex_digit(n as int),
{
    if n < 10 {
        (48u8 + n) as char
    } else {
        (55u8 + n) as char
    }
}

/// URL-encode an emoji for Discord reaction endpoints: every byte of it.
pub fn url_encode_emoji(emoji: &str) -> (r: String)
    ensures
        r@ == percent_encoded(vstd::utf8::encode_utf8(emoji@)),
{
    let bytes = emoji.as_bytes();
    let mut out: String = String::new();
    let mut i: usize = 0;
    assert(bytes@.take(0) =~= Seq::<u8>::empty());
    while i < bytes.len()
        invariant
            i <= bytes@.len(),
            out@ == percent_encoded(bytes@.take(i as int)),
        decreases bytes@.len() - i,
    {
        let b: u8 = bytes[i];
        let ghost before = out@;
        out.push('%');
        out.push(hex(b / 16));
        out.push(hex(b % 16));
        proof {
            assert(bytes@.take(i + 1).drop_last() =~= bytes@.take(i as int));
            assert(out@ =~= before + percent(b));
        }
        i += 1;
    }
    assert(bytes@.take(bytes@.len() as int) =~= bytes@);
    out
}

/// An encoded emoji is three characters per byte.
pub proof fn encoded_length(bytes: Seq<u8>)
    ensures
        percent_encoded(bytes).len() == 3 * bytes.len(),
    decreases bytes.len(),
{
    if bytes.len() > 0 {
        encoded_length(bytes.drop_last());
    }
}

/// Two emoji that are encoded alike are alike.
pub proof fn encoding_is_injective(a: Seq<u8>, b: Seq<u8>)
    requires
        percent_encoded(a) == percent_encoded(b),
    ensures
        a == b,
    decreases a.len(),
{
    encoded_length(a);
    encoded_length(b);
    if a.len() > 0 {
        let ea = percent_encoded(a);
        let eb = percent_encoded(b);
        encoded_length(a.drop_last());
        encoded_length(b.drop_last());
        assert(percent_encoded(a.drop_last()) =~= ea.take(ea.len() - 3));
        assert(percent_encoded(b.drop_last()) =~= eb.take(eb.len() - 3));
        encoding_is_injective(a.drop_last(), b.drop_last());
        assert(ea[ea.len() - 2] == hex_digit(a.last() as int / 16));
        assert(eb[eb.len() - 2] == hex_digit(b.last() as int / 16));
        assert(ea[ea.len() - 1] == hex_digit(a.last() as int % 16));
        assert(eb[eb.len() - 1] == hex_digit(b.last() as int % 16));
        assert(a.last() == b.last());
        assert(a =~= a.drop_last().push(a.last()));
        assert(b =~= b.drop_last().push(b.last()));
    } else {
        assert(a =~= b);
    }
}

// ---------------------------------------------------------------- bodies

/// A message with an embed, and with a text if there is one.
pub open spec fn embed_body(content: Option<Seq<char>>, embed: EmbedView) -> Tree {
    discord_types::with_opt(
        json::obj().with("embeds"@, Tree::Array(seq![discord_types::embed_tree(embed)])),
        "content"@,
        discord_types::opt_str(content),
    )
}

/// The embed that shows an image.
pub open spec fn image_embed(image_url: Seq<char>, caption: Option<Seq<char>>) -> EmbedView {
    EmbedView {
        image: Some(image_url),
        description: caption,
        color: Some(0x5865F2u32),
        ..discord_types::empty_embed()
    }
}

/// A message that is made of components of the second version.
pub open spec fn v2_body(parts: Seq<Tree>) -> Tree {
    json::obj().with("flags"@, json::num(32768)).with("components"@, Tree::Array(parts))
}

/// A message with rows of components.
pub open spec fn rows_body(content: Seq<char>, rows: Seq<RowView>) -> Tree {
    json::obj().with("content"@, Tree::Str(content)).with(
        "components"@,
        Tree::Array(rows.map_values(|r: RowView| discord_types::row_tree(r))),
    )
}

/// The answer to an interaction that is its kind alone.
pub open spec fn ack_body(kind: int) -> Tree {
    json::obj().with("type"@, json::num(kind))
}

/// The answer to an interaction that is a message.
pub open spec fn respond_body(content: Seq<char>) -> Tree {
    json::obj().with("type"@, json::num(4)).with("data"@, content_body(content))
}

/// A request that answers an interaction. It needs no credentials.
pub open spec fn callback(id: Seq<char>, token: Seq<char>, body: Tree) -> RequestView {
    RequestView {
        method: Method::Post,
        url: api_url("/interactions/"@ + id + "/"@ + token + "/callback"@),
        headers: Seq::empty(),
        body: BodyView::Json(body),
    }
}

/// A row of a form with one text field: identifier, label, and whether it must be filled in.
pub open spec fn form_row(field: (Seq<char>, Seq<char>, bool)) -> Tree {
    json::obj().with("type"@, json::num(1)).with(
        "components"@,
        Tree::Array(
            seq![
                json::obj().with("type"@, json::num(4)).with("custom_id"@, Tree::Str(field.0)).with(
                    "label"@,
                    Tree::Str(field.1),
                ).with("style"@, json::num(2)).with("required"@, Tree::Bool(field.2)),
            ],
        ),
    )
}

/// The fields of a form.
pub open spec fn form_fields(fields: Seq<(String, String, bool)>) -> Seq<
    (Seq<char>, Seq<char>, bool),
> {
    fields.map_values(|f: (String, String, bool)| (f.0@, f.1@, f.2))
}

/// The answer to an interaction that is a form.
pub open spec fn modal_body(
    custom_id: Seq<char>,
    title: Seq<char>,
    fields: Seq<(Seq<char>, Seq<char>, bool)>,
) -> Tree {
    json::obj().with("type"@, json::num(9)).with(
        "data"@,
        json::obj().with("custom_id"@, Tree::Str(custom_id)).with("title"@, Tree::Str(title)).with(
            "components"@,
            Tree::Array(fields.map_values(|f: (Seq<char>, Seq<char>, bool)| form_row(f))),
        ),
    )
}

/// The path of the bot's own reaction to a message.
pub open spec fn reaction_path(
    channel_id: Seq<char>,
    message_id: Seq<char>,
    emoji: Seq<char>,
) -> Seq<char> {
    messages_path(channel_id) + "/"@ + message_id + "/reactions/"@ + percent_encoded(
        vstd::utf8::encode_utf8(emoji),
    ) + "/@me"@
}

/// The request that asks for the gateway's address.
pub open spec fn gateway_question(token: Seq<char>) -> RequestView {
    bot_request(token, Method::Get, "/gateway/bot"@, BodyView::Empty)
}

/// The requests that post texts, one message each.
pub open spec fn text_posts(
    token: Seq<char>,
    channel_id: Seq<char>,
    chunks: Seq<Seq<char>>,
) -> Seq<RequestView> {
    chunks.map_values(|c: Seq<char>| post_message(token, channel_id, content_body(c)))
}

/// The request that shows that the bot is typing.
pub open spec fn typing(token: Seq<char>, channel_id: Seq<char>) -> RequestView {
    bot_request(
        token,
        Method::Post,
        "/channels/"@ + channel_id + "/typing"@,
        BodyView::Empty,
    )
}

/// The request that uploads a file, with a caption if there is one.
pub open spec fn file_post(
    token: Seq<char>,
    channel_id: Seq<char>,
    bytes: Seq<u8>,
    filename: Seq<char>,
    caption: Option<Seq<char>>,
) -> RequestView {
    bot_request(
        token,
        Method::Post,
        messages_path(channel_id),
        BodyView::File {
            part: "files[0]"@,
            filename,
            mime: "application/octet-stream"@,
            bytes,
            payload_json: match caption {
                Some(c) => Some(json::written(content_body(c))),
                None => None,
            },
        },
    )
}

/// The request that gives a message another text.
pub open spec fn edit(
    token: Seq<char>,
    channel_id: Seq<char>,
    message_id: Seq<char>,
    content: Seq<char>,
) -> RequestView {
    bot_request(
        token,
        Method::Patch,
        messages_path(channel_id) + "/"@ + message_id,
        BodyView::Json(content_body(content)),
    )
}

/// The texts that do not go into the edited message.
pub open spec fn further_texts(chunks: Seq<Seq<char>>) -> Seq<Seq<char>> {
    chunks.drop_first()
}

/// The request that sets a reaction of the bot.
pub open spec fn reaction_set(
    token: Seq<char>,
    channel_id: Seq<char>,
    message_id: Seq<char>,
    emoji: Seq<char>,
) -> RequestView {
    RequestView {
        headers: bot_header(token).push(("Content-Length"@, "0"@)),
        ..bot_request(
            token,
            Method::Put,
            reaction_path(channel_id, message_id, emoji),
            BodyView::Empty,
        )
    }
}

/// The request that removes a reaction of the bot.
pub open spec fn reaction_removed(
    token: Seq<char>,
    channel_id: Seq<char>,
    message_id: Seq<char>,
    emoji: Seq<char>,
) -> RequestView {
    bot_request(
        token,
        Method::Delete,
        reaction_path(channel_id, message_id, emoji),
        BodyView::Empty,
    )
}

/// The request that removes all reactions of the bot.
pub open spec fn reactions_removed(
    token: Seq<char>,
    channel_id: Seq<char>,
    message_id: Seq<char>,
) -> RequestView {
    bot_request(
        token,
        Method::Delete,
        messages_path(channel_id) + "/"@ + message_id + "/reactions/@me"@,
        BodyView::Empty,
    )
}

fn content_json(content: &str) -> (r: Json)
    ensures
        r@ == content_body(content@),
        json::writable(r),
{
    Json::object().with("content", Json::string(content))
}

fn path_of_reaction(channel_id: &str, message_id: &str, emoji: &str) -> (r: String)
    ensures
        r@ == reaction_path(channel_id@, message_id@, emoji@),
{
    let mut p: String = path_of_messages(channel_id);
    p.append("/");
    p.append(message_id);
    p.append("/reactions/");
    p.append(url_encode_emoji(emoji).as_str());
    p.append("/@me");
    p
}

fn answer(id: &str, token: &str, body: Json) -> (r: ApiRequest)
    ensures
        r@ == callback(id@, token@, body@),
{
    let mut p: String = text::concat("/interactions/", id);
    p.append("/");
    p.append(token);
    p.append("/callback");
    let headers: Vec<(String, String)> = Vec::new();
    assert(headers@.map_values(|h: (String, String)| (h.0@, h.1@)) =~= Seq::empty());
    ApiRequest { method: Method::Post, url: api(p.as_str()), headers, body: Body::Json(body) }
}

/// The identifier of the message that the interface reports as created.
pub open spec fn created_id(reply: Tree) -> Seq<char> {
    reply.str_or("id"@, "0"@)
}

/// The identifier of the message that the interface reports as created.
pub fn message_id(reply: &Json) -> (r: String)
    ensures
        r@ == created_id(reply@),
{
    reply.str_or("id", "0")
}

/// The gateway's address, as the interface reports it.
pub open spec fn gateway_address(reply: Tree) -> Option<Seq<char>> {
    match reply.str_at("url"@) {
        Some(url) => Some(url + "/?v=10&encoding=json"@),
        None => None,
    }
}

/// The gateway's address, as the interface reports it.
pub fn gateway_url(reply: &Json) -> (r: Result<String, String>)
    ensures
        match r {
            Ok(url) => gateway_address(reply@) == Some(url@),
            Err(e) => gateway_address(reply@) is None && e@ == "Missing 'url' in gateway response"@,
        },
{
    match reply.str_at("url") {
        Some(url) => Ok(text::concat(url, "/?v=10&encoding=json")),
        None => Err("Missing 'url' in gateway response".to_string()),
    }
}

/// Why the gateway's address is not known.
#[derive(Clone, Copy, Debug, PartialEq, Eq)]
pub enum GatewayUrlError {
    /// The reply is no JSON.
    Unreadable,
    /// The reply names no address.
    MissingUrl,
}

impl GatewayUrlError {
    /// What is reported of the error.
    pub open spec fn text(self) -> Seq<char> {
        match self {
            GatewayUrlError::Unreadable => "Gateway response is not valid JSON"@,
            GatewayUrlError::MissingUrl => "Missing 'url' in gateway response"@,
        }
    }

    /// What is reported of the error.
    pub fn message(self) -> (r: String)
        ensures
            r@ == self.text(),
    {
        match self {
            GatewayUrlError::Unreadable => "Gateway response is not valid JSON".to_string(),
            GatewayUrlError::MissingUrl => "Missing 'url' in gateway response".to_string(),
        }
    }
}

/// Reads the gateway's address from the text of the reply.
pub fn read_gateway_url(text: &str) -> (r: Result<String, GatewayUrlError>)
    ensures
        match r {
            Ok(url) => json::parsed(text@) matches Some(t) && gateway_address(t) == Some(url@),
            Err(GatewayUrlError::MissingUrl) => json::parsed(text@) matches Some(t)
                && gateway_address(t) is None,
            Err(GatewayUrlError::Unreadable) => json::parsed(text@) is None,
        },
{
    match json::parse_json(text) {
        Some(reply) => match gateway_url(&reply) {
            Ok(url) => Ok(url),
            Err(_) => Err(GatewayUrlError::MissingUrl),
        },
        None => Err(GatewayUrlError::Unreadable),
    }
}

fn row_items(rows: &Vec<ActionRow>) -> (r: Vec<Json>)
    ensures
        json::trees(r@) == discord_types::row_views(rows@).map_values(
            |v: RowView| discord_types::row_tree(v),
        ),
{
    let mut items: Vec<Json> = Vec::new();
    let mut i: usize = 0;
    let ghost want = discord_types::row_views(rows@).map_values(
        |v: RowView| discord_types::row_tree(v),
    );
    assert(json::trees(items@) =~= want.take(0));
    while i < rows.len()
        invariant
            i <= rows@.len(),
            want == discord_types::row_views(rows@).map_values(
                |v: RowView| discord_types::row_tree(v),
            ),
            json::trees(items@) == want.take(i as int),
        decreases rows@.len() - i,
    {
        let item = rows[i].to_json();
        proof {
            json::lemma_trees_push(items@, item);
            assert(want.take(i + 1) =~= want.take(i as int).push(want[i as int]));
        }
        items.push(item);
        i += 1;
    }
    assert(want.take(want.len() as int) =~= want);
    items
}

/// The rows with the fields of a form.
fn form_items(fields: &Vec<(String, String, bool)>) -> (r: Vec<Json>)
    ensures
        json::trees(r@) == form_fields(fields@).map_values(
            |f: (Seq<char>, Seq<char>, bool)| form_row(f),
        ),
{
    let mut items: Vec<Json> = Vec::new();
    let mut i: usize = 0;
    let ghost want = form_fields(fields@).map_values(
        |f: (Seq<char>, Seq<char>, bool)| form_row(f),
    );
    assert(json::trees(items@) =~= want.take(0));
    while i < fields.len()
        invariant
            i <= fields@.len(),
            want == form_fields(fields@).map_values(
                |f: (Seq<char>, Seq<char>, bool)| form_row(f),
            ),
            json::trees(items@) == want.take(i as int),
        decreases fields@.len() - i,
    {
        let f = &fields[i];
        let input = Json::object().with("type", Json::number(4)).with(
            "custom_id",
            Json::string(f.0.as_str()),
        ).with("label", Json::string(f.1.as_str())).with("style", Json::number(2)).with(
            "required",
            Json::Bool(f.2),
        );
        let item = Json::object().with("type", Json::number(1)).with(
            "components",
            Json::single(input),
        );
        proof {
            json::lemma_trees_push(items@, item);
            assert(want.take(i + 1) =~= want.take(i as int).push(want[i as int]));
        }
        items.push(item);
        i += 1;
    }
    assert(want.take(want.len() as int) =~= want);
    items
}

// ---------------------------------------------------------------- the adapter's requests

impl DiscordAdapter {
    /// Asks for the gateway's address.
    pub fn get_gateway_url(&self) -> (r: ApiRequest)
        ensures
            r@ == gateway_question(self@.token),
    {
        as_bot(self.token(), Method::Get, "/gateway/bot", Body::Empty)
    }

    /// Sends a text that has been split into chunks, one message each.
    pub fn api_send_message(&self, channel_id: &str, chunks: &Vec<String>) -> (r: Vec<ApiRequest>)
        ensures
            request_views(r@) == text_posts(self@.token, channel_id@, text::strings(chunks@)),
    {
        let mut out: Vec<ApiRequest> = Vec::new();
        let mut i: usize = 0;
        let ghost want = text_posts(self@.token, channel_id@, text::strings(chunks@));
        assert(request_views(out@) =~= want.take(0));
        while i < chunks.len()
            invariant
                i <= chunks@.len(),
                want == text_posts(self@.token, channel_id@, text::strings(chunks@)),
                request_views(out@) == want.take(i as int),
            decreases chunks@.len() - i,
        {
            let request = self.api_create_message(channel_id, chunks[i].as_str());
            proof {
                assert(request_views(out@.push(request)) =~= request_views(out@).push(request@));
                assert(want.take(i + 1) =~= want.take(i as int).push(want[i as int]));
            }
            out.push(request);
            i += 1;
        }
        assert(want.take(want.len() as int) =~= want);
        out
    }

    /// Shows that the bot is typing.
    pub fn api_send_typing(&self, channel_id: &str) -> (r: ApiRequest)
        ensures
            r@ == typing(self@.token, channel_id@),
    {
        let mut p: String = text::concat("/channels/", channel_id);
        p.append("/typing");
        as_bot(self.token(), Method::Post, p.as_str(), Body::Empty)
    }

    /// Sends a message with an embed.
    pub fn api_send_embed(
        &self,
        channel_id: &str,
        content: &Option<String>,
        embed: &DiscordEmbed,
    ) -> (r: ApiRequest)
        ensures
            r@ == post_message(
                self@.token,
                channel_id@,
                embed_body(text::opt_text(*content), embed@),
            ),
    {
        let body = discord_types::with_opt_str(
            Json::object().with("embeds", Json::single(embed.to_json())),
            "content",
            content,
        );
        as_bot(
            self.token(),
            Method::Post,
            path_of_messages(channel_id).as_str(),
            Body::Json(body),
        )
    }

    /// Uploads a file as an attachment, with a caption if there is one.
    pub fn api_send_file(
        &self,
        channel_id: &str,
        file_bytes: Vec<u8>,
        filename: &str,
        caption: Option<&str>,
    ) -> (r: ApiRequest)
        ensures
            r@ == file_post(
                self@.token,
                channel_id@,
                file_bytes@,
                filename@,
                match caption {
                    Some(c) => Some(c@),
                    None => None,
                },
            ),
    {
        let payload_json: Option<String> = match caption {
            Some(c) => Some(json::write_json(&content_json(c))),
            None => None,
        };
        as_bot(
            self.token(),
            Method::Post,
            path_of_messages(channel_id).as_str(),
            Body::File {
                part: "files[0]".to_string(),
                filename: filename.to_string(),
                mime: "application/octet-stream".to_string(),
                bytes: file_bytes,
                payload_json,
            },
        )
    }

    /// Sends an image as an embed with the image's address.
    pub fn api_send_image_embed(
        &self,
        channel_id: &str,
        image_url: &str,
        caption: &Option<String>,
    ) -> (r: ApiRequest)
        ensures
            r@ == post_message(
                self@.token,
                channel_id@,
                embed_body(None, image_embed(image_url@, text::opt_text(*caption))),
            ),
    {
        let mut embed = DiscordEmbed::default();
        embed.image = Some(EmbedMedia { url: image_url.to_string() });
        embed.description = discord_types::copy_opt(caption);
        embed.color = Some(0x5865F2);
        self.api_send_embed(channel_id, &None, &embed)
    }

    /// Creates a message. The reply gives its identifier, for later edits.
    pub fn api_create_message(&self, channel_id: &str, content: &str) -> (r: ApiRequest)
        ensures
            r@ == post_message(self@.token, channel_id@, content_body(content@)),
    {
        as_bot(
            self.token(),
            Method::Post,
            path_of_messages(channel_id).as_str(),
            Body::Json(content_json(content)),
        )
    }

    /// Edits a message. The new text has been split into chunks: the first becomes the message's,
    /// the others are to be sent as new messages.
    pub fn api_edit_message(
        &self,
        channel_id: &str,
        message_id: &str,
        chunks: &Vec<String>,
    ) -> (r: (ApiRequest, Vec<String>))
        requires
            chunks@.len() > 0,
        ensures
            r.0@ == edit(self@.token, channel_id@, message_id@, chunks@[0]@),
            text::strings(r.1@) == further_texts(text::strings(chunks@)),
    {
        let mut p: String = path_of_messages(channel_id);
        p.append("/");
        p.append(message_id);
        let edit = as_bot(
            self.token(),
            Method::Patch,
            p.as_str(),
            Body::Json(content_json(chunks[0].as_str())),
        );
        let mut rest: Vec<String> = Vec::new();
        let mut i: usize = 1;
        let ghost want = further_texts(text::strings(chunks@));
        assert(text::strings(rest@) =~= want.take(0));
        while i < chunks.len()
            invariant
                1 <= i <= chunks@.len(),
                want == further_texts(text::strings(chunks@)),
                text::strings(rest@) == want.take(i - 1),
            decreases chunks@.len() - i,
        {
            let chunk = chunks[i].clone();
            proof {
                text::lemma_strings_push(rest@, chunk);
                assert(want.take(i as int) =~= want.take(i - 1).push(want[i - 1]));
            }
            rest.push(chunk);
            i += 1;
        }
        assert(want.take(want.len() as int) =~= want);
        (edit, rest)
    }

    /// Adds a reaction to a message.
    pub fn api_add_reaction(
        &self,
        channel_id: &str,
        message_id: &str,
        emoji: &str,
    ) -> (r: ApiRequest)
        ensures
            r@ == reaction_set(self@.token, channel_id@, message_id@, emoji@),
    {
        let p = path_of_reaction(channel_id, message_id, emoji);
        let r = as_bot(self.token(), Method::Put, p.as_str(), Body::Empty);
        ApiRequest {
            method: r.method,
            url: r.url,
            headers: with_header(r.headers, "Content-Length", "0"),
            body: r.body,
        }
    }

    /// Removes a reaction of the bot from a message.
    pub fn api_remove_reaction(
        &self,
        channel_id: &str,
        message_id: &str,
        emoji: &str,
    ) -> (r: ApiRequest)
        ensures
            r@ == reaction_removed(self@.token, channel_id@, message_id@, emoji@),
    {
        let p = path_of_reaction(channel_id, message_id, emoji);
        as_bot(self.token(), Method::Delete, p.as_str(), Body::Empty)
    }

    /// Removes all reactions of the bot from a message.
    pub fn api_remove_all_own_reactions(
        &self,
        channel_id: &str,
        message_id: &str,
    ) -> (r: ApiRequest)
        ensures
            r@ == reactions_removed(self@.token, channel_id@, message_id@),
    {
        let mut p: String = path_of_messages(channel_id);
        p.append("/");
        p.append(message_id);
        p.append("/reactions/@me");
        as_bot(self.token(), Method::Delete, p.as_str(), Body::Empty)
    }

    /// Sends a message that is made of components of the second version. Such a message has no text
    /// and no embeds of its own.
    pub fn api_send_v2(&self, channel_id: &str, components: Vec<Json>) -> (r: ApiRequest)
        ensures
            r@ == post_message(self@.token, channel_id@, v2_body(json::trees(components@))),
    {
        let body = Json::object().with("flags", Json::number(32768)).with(
            "components",
            Json::Array(components),
        );
        as_bot(
            self.token(),
            Method::Post,
            path_of_messages(channel_id).as_str(),
            Body::Json(body),
        )
    }

    /// Sends a message with interactive components.
    pub fn api_send_with_components(
        &self,
        channel_id: &str,
        content: &str,
        components: &Vec<MessageComponent>,
    ) -> (r: ApiRequest)
        ensures
            r@ == post_message(
                self@.token,
                channel_id@,
                rows_body(
                    content@,
                    components::action_rows(components::discord_components(components@)),
                ),
            ),
    {
        let rows = components::group_components(components);
        let body = Json::object().with("content", Json::string(content)).with(
            "components",
            Json::Array(row_items(&rows)),
        );
        as_bot(
            self.token(),
            Method::Post,
            path_of_messages(channel_id).as_str(),
            Body::Json(body),
        )
    }
}

/// The request that acknowledges an interaction without a visible answer.
pub open spec fn silent_ack(id: Seq<char>, token: Seq<char>) -> RequestView {
    callback(id, token, ack_body(6))
}

/// Acknowledges an interaction without a visible answer.
pub fn api_ack_interaction(interaction_id: &str, interaction_token: &str) -> (r: ApiRequest)
    ensures
        r@ == silent_ack(interaction_id@, interaction_token@),
{
    answer(interaction_id, interaction_token, Json::object().with("type", Json::number(6)))
}

/// Acknowledges an interaction with an answer that is its kind alone.
pub fn api_ack_as(interaction_id: &str, interaction_token: &str, kind: u64) -> (r: ApiRequest)
    ensures
        r@ == callback(interaction_id@, interaction_token@, ack_body(kind as int)),
{
    answer(interaction_id, interaction_token, Json::object().with("type", Json::number(kind)))
}

/// Answers an interaction with a message.
pub fn api_interaction_respond(
    interaction_id: &str,
    interaction_token: &str,
    content: &str,
) -> (r: ApiRequest)
    ensures
        r@ == callback(interaction_id@, interaction_token@, respond_body(content@)),
{
    let body = Json::object().with("type", Json::number(4)).with("data", content_json(content));
    answer(interaction_id, interaction_token, body)
}

/// Answers an interaction with a form.
pub fn api_send_modal(
    interaction_id: &str,
    interaction_token: &str,
    custom_id: &str,
    title: &str,
    fields: &Vec<(String, String, bool)>,
) -> (r: ApiRequest)
    ensures
        r@ == callback(
            interaction_id@,
            interaction_token@,
            modal_body(custom_id@, title@, form_fields(fields@)),
        ),
{
    let data = Json::object().with("custom_id", Json::string(custom_id)).with(
        "title",
        Json::string(title),
    ).with("components", Json::Array(form_items(fields)));
    answer(
        interaction_id,
        interaction_token,
        Json::object().with("type", Json::number(9)).with("data", data),
    )
}

} // verus!
