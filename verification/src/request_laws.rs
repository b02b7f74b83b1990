//! What holds of the requests that go out, down to their addresses, headers and bodies.

use crate::commands;
use crate::components;
use crate::discord_types;
use crate::discord_types::{ComponentView, RowView};
use crate::json;
use crate::json::Tree;
use crate::requests;
use crate::requests::{BodyView, Method, RequestView};
use crate::rich_laws;
use crate::send;
use crate::send::SendView;
use crate::speech;
use crate::stream;
use crate::text;
use crate::text_laws;
use crate::types::{ChannelContent, MenuOption, MessageComponent};
use crate::voice;
use crate::voice::{AudioView, ConnectError, ConnectionView, VoiceTarget};
use crate::wire_laws;
use vstd::prelude::*;

verus! {

// ---------------------------------------------------------------- addresses and bodies

/// What the bot asks of the interface goes to its tenth version, under the bot's own token, with the
/// body as it is.
pub proof fn requests_are_made_by_the_bot(
    token: Seq<char>,
    method: Method,
    path: Seq<char>,
    body: BodyView,
)
    ensures
        ({
            let r = requests::bot_request(token, method, path, body);
            &&& r.method == method
            &&& r.url == "https://discord.com/api/v10"@ + path
            &&& r.headers == seq![("Authorization"@, "Bot "@ + token)]
            &&& r.body == body
        }),
{
}

/// A message goes to its channel; it holds its text, its components or its rows, all of them in
/// order, and nothing else.
pub proof fn messages_go_to_their_channel(
    token: Seq<char>,
    channel: Seq<char>,
    body: Tree,
    content: Seq<char>,
    parts: Seq<Tree>,
    rows: Seq<RowView>,
)
    ensures
        requests::messages_path(channel) == "/channels/"@ + channel + "/messages"@,
        rich_laws::posts(requests::post_message(token, channel, body), token, channel, body),
        requests::content_body(content) == Tree::Object(map!["content"@ => Tree::Str(content)]),
        requests::v2_body(parts) == Tree::Object(
            map!["flags"@ => Tree::Number(Some(32768u64)), "components"@ => Tree::Array(parts)],
        ),
        requests::rows_body(content, rows) == Tree::Object(
            map![
                "content"@ => Tree::Str(content),
                "components"@ => Tree::Array(
                    Seq::new(rows.len(), |i: int| discord_types::row_tree(rows[i])),
                ),
            ],
        ),
{
    assert(rows.map_values(|r: RowView| discord_types::row_tree(r)) =~= Seq::new(
        rows.len(),
        |i: int| discord_types::row_tree(rows[i]),
    ));
}

/// An interaction is answered at its own address, without credentials.
pub proof fn interactions_are_answered_at_their_address(
    id: Seq<char>,
    token: Seq<char>,
    kind: u64,
    content: Seq<char>,
    body: Tree,
)
    ensures
        ({
            let r = requests::callback(id, token, body);
            &&& r.method == Method::Post
            &&& r.url == "https://discord.com/api/v10"@ + ("/interactions/"@ + id + "/"@ + token
                + "/callback"@)
            &&& r.headers.len() == 0
            &&& r.body == BodyView::Json(body)
        }),
        requests::ack_body(kind as int) == Tree::Object(
            map!["type"@ => Tree::Number(Some(kind))],
        ),
        requests::silent_ack(id, token).url == "https://discord.com/api/v10"@ + ("/interactions/"@
            + id + "/"@ + token + "/callback"@),
        requests::silent_ack(id, token).method == Method::Post,
        requests::silent_ack(id, token).headers.len() == 0,
        requests::silent_ack(id, token).body == BodyView::Json(
            Tree::Object(map!["type"@ => Tree::Number(Some(6u64))]),
        ),
        requests::respond_body(content) == Tree::Object(
            map![
                "type"@ => Tree::Number(Some(4u64)),
                "data"@ => Tree::Object(map!["content"@ => Tree::Str(content)]),
            ],
        ),
{
}

/// The row of a form that asks for one text.
pub open spec fn question(id: Seq<char>, label: Seq<char>, required: bool) -> Tree {
    Tree::Object(
        map![
            "type"@ => Tree::Number(Some(1u64)),
            "components"@ => Tree::Array(
                seq![
                    Tree::Object(
                        map![
                            "type"@ => Tree::Number(Some(4u64)),
                            "custom_id"@ => Tree::Str(id),
                            "label"@ => Tree::Str(label),
                            "style"@ => Tree::Number(Some(2u64)),
                            "required"@ => Tree::Bool(required),
                        ],
                    ),
                ],
            ),
        ],
    )
}

/// A form has its identifier, its title, and a row for every field, in order, with the field's
/// identifier, label, and whether it must be filled in.
pub proof fn forms_ask_for_every_field(
    id: Seq<char>,
    title: Seq<char>,
    fields: Seq<(Seq<char>, Seq<char>, bool)>,
)
    ensures
        requests::modal_body(id, title, fields) == Tree::Object(
            map![
                "type"@ => Tree::Number(Some(9u64)),
                "data"@ => Tree::Object(
                    map![
                        "custom_id"@ => Tree::Str(id),
                        "title"@ => Tree::Str(title),
                        "components"@ => Tree::Array(
                            Seq::new(
                                fields.len(),
                                |i: int| question(fields[i].0, fields[i].1, fields[i].2),
                            ),
                        ),
                    ],
                ),
            ],
        ),
{
    assert(fields.map_values(|f: (Seq<char>, Seq<char>, bool)| requests::form_row(f)) =~= Seq::new(
        fields.len(),
        |i: int| question(fields[i].0, fields[i].1, fields[i].2),
    ));
}

/// The fields that a form is given are taken one by one, as they are.
pub proof fn fields_are_taken_one_by_one(fields: Seq<(String, String, bool)>, i: int)
    requires
        0 <= i < fields.len(),
    ensures
        requests::form_fields(fields).len() == fields.len(),
        requests::form_fields(fields)[i] == (fields[i].0@, fields[i].1@, fields[i].2),
{
}

/// The hexadecimal digits.
pub open spec fn hexadecimal() -> Seq<char> {
    seq!['0', '1', '2', '3', '4', '5', '6', '7', '8', '9', 'A', 'B', 'C', 'D', 'E', 'F']
}

proof fn lemma_hex_digit(n: int)
    requires
        0 <= n < 16,
    ensures
        requests::hex_digit(n) == hexadecimal()[n],
{
}

/// Every byte is encoded by itself: a percent sign and its two hexadecimal digits.
pub proof fn bytes_are_encoded_one_by_one(bytes: Seq<u8>, b: u8)
    ensures
        requests::percent_encoded(Seq::empty()) == Seq::<char>::empty(),
        requests::percent_encoded(bytes.push(b)) == requests::percent_encoded(bytes) + seq![
            '%',
            hexadecimal()[b as int / 16],
            hexadecimal()[b as int % 16],
        ],
{
    assert(bytes.push(b).drop_last() =~= bytes);
    lemma_hex_digit(b as int / 16);
    lemma_hex_digit(b as int % 16);
}

/// A reaction stands below its message, under the encoded emoji, as the bot's own.
pub proof fn reactions_stand_below_their_message(
    channel: Seq<char>,
    message: Seq<char>,
    emoji: Seq<char>,
)
    ensures
        requests::reaction_path(channel, message, emoji) == "/channels/"@ + channel + "/messages"@
            + "/"@ + message + "/reactions/"@ + requests::percent_encoded(
            vstd::utf8::encode_utf8(emoji),
        ) + "/@me"@,
{
}

/// The identifier of a created message and the gateway's address are read from the reply.
pub proof fn replies_are_read(reply: Tree, id: Seq<char>, url: Seq<char>)
    ensures
        reply.str_at("id"@) == Some(id) ==> requests::created_id(reply) == id,
        reply.str_at("id"@) is None ==> requests::created_id(reply) == "0"@,
        reply.str_at("url"@) == Some(url) ==> requests::gateway_address(reply) == Some(
            url + "/?v=10&encoding=json"@,
        ),
        reply.str_at("url"@) is None ==> requests::gateway_address(reply) is None,
{
}

/// The path of a message.
pub open spec fn message_address(channel: Seq<char>, message: Seq<char>) -> Seq<char> {
    "/channels/"@ + channel + "/messages"@ + "/"@ + message
}

/// The request is made by the bot, at the path below the interface's address, with the body.
pub open spec fn asks(
    r: RequestView,
    token: Seq<char>,
    method: Method,
    path: Seq<char>,
    body: BodyView,
) -> bool {
    &&& r.method == method
    &&& r.url == "https://discord.com/api/v10"@ + path
    &&& r.headers == seq![("Authorization"@, "Bot "@ + token)]
    &&& r.body == body
}

/// Every text is posted, one message each, in order.
pub proof fn every_text_is_posted(token: Seq<char>, channel: Seq<char>, chunks: Seq<Seq<char>>)
    ensures
        requests::text_posts(token, channel, chunks).len() == chunks.len(),
        forall|i: int|
            0 <= i < chunks.len() ==> rich_laws::posts(
                #[trigger] requests::text_posts(token, channel, chunks)[i],
                token,
                channel,
                Tree::Object(map!["content"@ => Tree::Str(chunks[i])]),
            ),
{
}

/// Of the texts that a message is edited to, all but the first go into further messages, in order.
pub proof fn further_texts_are_kept(first: Seq<char>, others: Seq<Seq<char>>)
    ensures
        requests::further_texts(seq![first] + others) == others,
{
    assert((seq![first] + others).drop_first() =~= others);
}

/// Typing, editing, uploading and asking for the gateway each go to their own address, with all that
/// they are given.
pub proof fn each_request_goes_to_its_address(
    token: Seq<char>,
    channel: Seq<char>,
    message: Seq<char>,
    content: Seq<char>,
    bytes: Seq<u8>,
    filename: Seq<char>,
    caption: Option<Seq<char>>,
)
    ensures
        asks(
            requests::gateway_question(token),
            token,
            Method::Get,
            "/gateway/bot"@,
            BodyView::Empty,
        ),
        asks(
            requests::typing(token, channel),
            token,
            Method::Post,
            "/channels/"@ + channel + "/typing"@,
            BodyView::Empty,
        ),
        asks(
            requests::edit(token, channel, message, content),
            token,
            Method::Patch,
            message_address(channel, message),
            BodyView::Json(Tree::Object(map!["content"@ => Tree::Str(content)])),
        ),
        asks(
            requests::file_post(token, channel, bytes, filename, caption),
            token,
            Method::Post,
            "/channels/"@ + channel + "/messages"@,
            BodyView::File {
                part: "files[0]"@,
                filename,
                mime: "application/octet-stream"@,
                bytes,
                payload_json: match caption {
                    Some(c) => Some(
                        json::written(Tree::Object(map!["content"@ => Tree::Str(c)])),
                    ),
                    None => None,
                },
            },
        ),
{
}

/// Reactions are set and removed at the same address, by the method alone; all are removed above it.
pub proof fn reactions_are_set_and_removed(
    token: Seq<char>,
    channel: Seq<char>,
    message: Seq<char>,
    emoji: Seq<char>,
)
    ensures
        ({
            let path = message_address(channel, message) + "/reactions/"@
                + requests::percent_encoded(vstd::utf8::encode_utf8(emoji)) + "/@me"@;
            let set = requests::reaction_set(token, channel, message, emoji);
            &&& set.method == Method::Put
            &&& set.url == "https://discord.com/api/v10"@ + path
            &&& set.headers == seq![
                ("Authorization"@, "Bot "@ + token),
                ("Content-Length"@, "0"@),
            ]
            &&& set.body == BodyView::Empty
            &&& asks(
                requests::reaction_removed(token, channel, message, emoji),
                token,
                Method::Delete,
                path,
                BodyView::Empty,
            )
            &&& asks(
                requests::reactions_removed(token, channel, message),
                token,
                Method::Delete,
                message_address(channel, message) + "/reactions/@me"@,
                BodyView::Empty,
            )
        }),
{
    assert(requests::bot_header(token).push(("Content-Length"@, "0"@)) =~= seq![
        ("Authorization"@, "Bot "@ + token),
        ("Content-Length"@, "0"@),
    ]);
}

// ---------------------------------------------------------------- components

/// A component is taken as it is: a button with its style, label and identifier; a select menu with
/// its identifier, placeholder and bounds.
pub proof fn components_are_taken_as_they_are(c: MessageComponent)
    ensures
        c matches MessageComponent::Button { label, custom_id, style }
            ==> components::discord_component(c) == (ComponentView::Button {
            component_type: 2,
            style,
            label: label@,
            custom_id: custom_id@,
        }),
        c matches MessageComponent::SelectMenu {
            custom_id,
            placeholder,
            options,
            min_values,
            max_values,
        } ==> components::discord_component(c) == (ComponentView::SelectMenu {
            component_type: 3,
            custom_id: custom_id@,
            placeholder: match placeholder {
                Some(p) => Some(p@),
                None => None,
            },
            options: components::menu_options(options@),
            min_values: Some(min_values),
            max_values: Some(max_values),
        }),
{
}

/// Every component and every option of a menu is taken, in order.
pub proof fn every_component_is_taken(cs: Seq<MessageComponent>, os: Seq<MenuOption>)
    ensures
        components::discord_components(cs).len() == cs.len(),
        forall|i: int|
            0 <= i < cs.len() ==> #[trigger] components::discord_components(cs)[i]
                == components::discord_component(cs[i]),
        components::menu_options(os).len() == os.len(),
        forall|i: int|
            0 <= i < os.len() ==> {
                let o = #[trigger] components::menu_options(os)[i];
                &&& o.label == os[i].label@
                &&& o.value == os[i].value@
                &&& o.description == match os[i].description {
                    Some(d) => Some(d@),
                    None => None,
                }
                &&& o.default is None
            },
{
}

// ---------------------------------------------------------------- commands

/// The object is a command with its description and options.
pub open spec fn offers(
    t: Tree,
    name: Seq<char>,
    description: Seq<char>,
    options: Seq<(Seq<char>, Seq<char>, bool)>,
) -> bool {
    if options.len() == 0 {
        t == Tree::Object(
            map!["name"@ => Tree::Str(name), "description"@ => Tree::Str(description)],
        )
    } else {
        t == Tree::Object(
            map![
                "name"@ => Tree::Str(name),
                "description"@ => Tree::Str(description),
                "options"@ => Tree::Array(
                    Seq::new(
                        options.len(),
                        |i: int|
                            Tree::Object(
                                map![
                                    "name"@ => Tree::Str(options[i].0),
                                    "description"@ => Tree::Str(options[i].1),
                                    "type"@ => Tree::Number(Some(3u64)),
                                    "required"@ => Tree::Bool(options[i].2),
                                ],
                            ),
                    ),
                ),
            ],
        )
    }
}

/// A command is offered with its name, its description and all its options, each of which takes a
/// text.
pub proof fn commands_are_offered_with_their_options(
    name: Seq<char>,
    description: Seq<char>,
    options: Seq<(Seq<char>, Seq<char>, bool)>,
)
    ensures
        offers(commands::command(name, description), name, description, Seq::empty()),
        options.len() > 0 ==> offers(
            commands::command_with(
                name,
                description,
                Seq::new(
                    options.len(),
                    |i: int|
                        commands::text_option(options[i].0, options[i].1, options[i].2),
                ),
            ),
            name,
            description,
            options,
        ),
{
    assert(Seq::new(
        options.len(),
        |i: int| commands::text_option(options[i].0, options[i].1, options[i].2),
    ) =~= Seq::new(
        options.len(),
        |i: int|
            Tree::Object(
                map![
                    "name"@ => Tree::Str(options[i].0),
                    "description"@ => Tree::Str(options[i].1),
                    "type"@ => Tree::Number(Some(3u64)),
                    "required"@ => Tree::Bool(options[i].2),
                ],
            ),
    ));
}

/// The application's commands are put in place of any others: all nine, each with what it asks for.
pub proof fn all_commands_are_registered(token: Seq<char>, app: Seq<char>)
    ensures
        ({
            let r = commands::registration(token, app);
            &&& r.method == Method::Put
            &&& r.url == "https://discord.com/api/v10"@ + ("/applications/"@ + app + "/commands"@)
            &&& r.headers == seq![("Authorization"@, "Bot "@ + token)]
            &&& r.body matches BodyView::Json(Tree::Array(cs)) && {
                &&& cs.len() == 9
                &&& offers(
                    cs[0],
                    "ask"@,
                    "Ask the AI agent a question"@,
                    seq![("prompt"@, "Your question"@, true)],
                )
                &&& offers(
                    cs[1],
                    "agent"@,
                    "Route to a specific agent"@,
                    seq![("name"@, "Agent name"@, true), ("prompt"@, "Your message"@, true)],
                )
                &&& offers(
                    cs[2],
                    "research"@,
                    "Start a deep research task"@,
                    seq![("query"@, "Research topic"@, true)],
                )
                &&& offers(
                    cs[3],
                    "code"@,
                    "Generate or analyze code"@,
                    seq![("task"@, "What to code"@, true)],
                )
                &&& offers(cs[4], "status"@, "Show agent status and system info"@, Seq::empty())
                &&& offers(
                    cs[5],
                    "model"@,
                    "Show or switch the current model"@,
                    seq![("name"@, "Model name (leave empty to show current)"@, false)],
                )
                &&& offers(cs[6], "reset"@, "Reset conversation context"@, Seq::empty())
                &&& offers(cs[7], "join"@, "Join your current voice channel"@, Seq::empty())
                &&& offers(cs[8], "leave"@, "Leave the voice channel"@, Seq::empty())
            }
        }),
{
    lemma_one_option("ask"@, "Ask the AI agent a question"@, ("prompt"@, "Your question"@, true));
    lemma_one_option(
        "research"@,
        "Start a deep research task"@,
        ("query"@, "Research topic"@, true),
    );
    lemma_one_option("code"@, "Generate or analyze code"@, ("task"@, "What to code"@, true));
    lemma_one_option(
        "model"@,
        "Show or switch the current model"@,
        ("name"@, "Model name (leave empty to show current)"@, false),
    );
    let two = seq![("name"@, "Agent name"@, true), ("prompt"@, "Your message"@, true)];
    commands_are_offered_with_their_options("agent"@, "Route to a specific agent"@, two);
    assert(Seq::new(
        two.len(),
        |i: int| commands::text_option(two[i].0, two[i].1, two[i].2),
    ) =~= seq![
        commands::text_option("name"@, "Agent name"@, true),
        commands::text_option("prompt"@, "Your message"@, true),
    ]);
}

proof fn lemma_one_option(
    name: Seq<char>,
    description: Seq<char>,
    option: (Seq<char>, Seq<char>, bool),
)
    ensures
        offers(
            commands::command_with(
                name,
                description,
                seq![commands::text_option(option.0, option.1, option.2)],
            ),
            name,
            description,
            seq![option],
        ),
{
    let one = seq![option];
    commands_are_offered_with_their_options(name, description, one);
    assert(Seq::new(
        one.len(),
        |i: int| commands::text_option(one[i].0, one[i].1, one[i].2),
    ) =~= seq![commands::text_option(option.0, option.1, option.2)]);
}

// ---------------------------------------------------------------- contents

/// The request posts one embed with just these parts, and no text beside it.
pub open spec fn posts_parts(
    r: RequestView,
    token: Seq<char>,
    channel: Seq<char>,
    title: Option<Seq<char>>,
    description: Option<Seq<char>>,
    color: u32,
    image: Option<Seq<char>>,
    url: Option<Seq<char>>,
) -> bool {
    exists|body: Tree, embed: Tree| #[trigger]
        rich_laws::posts(r, token, channel, body) && #[trigger] rich_laws::holds_embed(
            body,
            None,
            embed,
        ) && {
            &&& wire_laws::has_member(embed, "title"@, wire_laws::maybe_text(title))
            &&& wire_laws::has_member(embed, "description"@, wire_laws::maybe_text(description))
            &&& wire_laws::has_member(embed, "color"@, wire_laws::maybe_number(Some(color)))
            &&& wire_laws::has_member(embed, "image"@, wire_laws::maybe_address(image))
            &&& wire_laws::has_member(embed, "url"@, wire_laws::maybe_text(url))
            &&& wire_laws::has_member(embed, "fields"@, None)
            &&& wire_laws::has_member(embed, "thumbnail"@, None)
            &&& wire_laws::has_member(embed, "footer"@, None)
        }
}

proof fn lemma_posts_parts(token: Seq<char>, channel: Seq<char>, e: discord_types::EmbedView)
    requires
        e.fields.len() == 0,
        e.thumbnail is None,
        e.footer is None,
        e.color is Some,
    ensures
        posts_parts(
            requests::post_message(token, channel, requests::embed_body(None, e)),
            token,
            channel,
            e.title,
            e.description,
            e.color->0,
            e.image,
            e.url,
        ),
{
    wire_laws::embeds_are_written_whole(e, "title"@);
    let body = requests::embed_body(None, e);
    let embed = discord_types::embed_tree(e);
    let r = requests::post_message(token, channel, body);
    assert(rich_laws::posts(r, token, channel, body));
    assert(rich_laws::holds_embed(body, None, embed));
}

/// A text is sent as it is; an image and a place as an embed; a file and a voice message are
/// uploaded, or told of with a text; components go with their message; a command sends nothing.
pub proof fn contents_are_sent_as_they_are(
    token: Seq<char>,
    channel: Seq<char>,
    content: ChannelContent,
)
    ensures
        ({
            let plan = send::send_plan(token, channel, content);
            &&& content matches ChannelContent::Text(t) ==> plan == SendView::Text(t@)
            &&& content is Command ==> plan == SendView::Nothing
            &&& content matches ChannelContent::Image { url, caption } ==> (
            plan matches SendView::Request(r) && posts_parts(
                r,
                token,
                channel,
                None,
                match caption {
                    Some(c) => Some(c@),
                    None => None,
                },
                0x5865F2,
                Some(url@),
                None,
            ))
            &&& content matches ChannelContent::Location { lat, lon } ==> (
            plan matches SendView::Request(r) && posts_parts(
                r,
                token,
                channel,
                Some("📍 Location"@),
                Some(lat@ + ", "@ + lon@),
                0x2ECC71,
                None,
                Some("https://www.google.com/maps?q="@ + lat@ + ","@ + lon@),
            ))
            &&& content matches ChannelContent::File { url, filename } ==> plan == (
            SendView::Upload {
                url: url@,
                filename: filename@,
                caption: filename@,
                otherwise: "📎 ["@ + filename@ + "]("@ + url@ + ")"@,
            })
            &&& content matches ChannelContent::Voice { url, duration_seconds } ==> plan == (
            SendView::Upload {
                url: url@,
                filename: "voice_message.ogg"@,
                caption: "🎤 Voice message ("@ + text::decimal(duration_seconds as nat) + "s)"@,
                otherwise: "🎤 Voice message ("@ + text::decimal(duration_seconds as nat) + "s)"@,
            })
            &&& content matches ChannelContent::Interactive { message, components: cs } ==> (
            plan matches SendView::Request(r) && rich_laws::posts(
                r,
                token,
                channel,
                requests::rows_body(
                    message@,
                    components::action_rows(components::discord_components(cs@)),
                ),
            ))
            &&& content matches ChannelContent::Rich { blocks, fallback_text } ==> plan == (
            SendView::Rich {
                plan: crate::rich::rich_plan(token, channel, crate::rich::block_views(blocks@)),
                blocks: crate::rich::block_views(blocks@),
                fallback_text: fallback_text@,
            })
        }),
{
    match content {
        ChannelContent::Image { url, caption } => {
            lemma_posts_parts(token, channel, requests::image_embed(url@, text::opt_text(caption)));
        },
        ChannelContent::Location { lat, lon } => {
            lemma_posts_parts(token, channel, send::location_embed(lat@, lon@));
        },
        _ => {},
    }
}

// ---------------------------------------------------------------- speech

/// A recording is the user's if the user is known, else the source's, and its file says whose it is
/// and of when.
pub proof fn recordings_are_told_apart(e: AudioView, speaker: u64, millis: u128)
    ensures
        e.user_id matches Some(u) ==> speech::speaker(e) == u,
        e.user_id is None ==> speech::speaker(e) == e.ssrc,
        speech::recording_file(speaker, millis) == "/tmp/openfang_voice_"@ + text::decimal(
            speaker as nat,
        ) + "_"@ + text::decimal(millis as nat) + ".wav"@,
        speech::speech_file(millis) == "/tmp/openfang_tts_"@ + text::decimal(millis as nat)
            + ".wav"@,
{
}

/// What was transcribed is what the program wrote, but for the white space around it.
pub proof fn transcripts_lose_white_space(output: Seq<u8>, before: Seq<char>, after: Seq<char>)
    requires
        text_laws::all_white(before),
        text_laws::all_white(after),
    ensures
        forall|words: Seq<char>| #[trigger]
            text_laws::is_tight(words) && stream::lossy(output) == before + words + after
                ==> speech::transcribed(output) == words,
        text_laws::all_white(stream::lossy(output)) ==> speech::transcribed(output).len() == 0,
{
    assert forall|words: Seq<char>| #[trigger]
        text_laws::is_tight(words) && stream::lossy(output) == before + words
            + after implies speech::transcribed(output) == words by {
        text_laws::trimming_leaves_the_text(before, words, after);
    }
    if text_laws::all_white(stream::lossy(output)) {
        text_laws::trimming_white_space_leaves_nothing(stream::lossy(output));
    }
}

/// What was heard is asked, and what was answered is said, word for word, unless it is blank.
pub proof fn blank_texts_are_neither_asked_nor_said(
    base: Seq<char>,
    agent: Seq<char>,
    key: Seq<char>,
    heard: Seq<char>,
    reply: Option<Tree>,
)
    ensures
        text_laws::all_white(heard) ==> speech::asked(base, agent, key, heard) is None,
        !text_laws::all_white(heard) ==> speech::asked(base, agent, key, heard) == Some(
            speech::agent_question(base, agent, key, heard),
        ),
        text_laws::all_white(speech::answer_in(reply)) ==> speech::said(reply) is None,
        !text_laws::all_white(speech::answer_in(reply)) ==> speech::said(reply) == Some(
            speech::answer_in(reply),
        ),
{
    let p = text_laws::trimmed_text_stands_in_the_text(heard);
    let q = text_laws::trimmed_text_stands_in_the_text(speech::answer_in(reply));
}

/// The speech program is given the model and the file to write.
pub proof fn speech_is_asked_for(model: Seq<char>, file: Seq<char>)
    ensures
        ({
            let args = speech::speaker_args(model, file);
            &&& args.len() == 4
            &&& args[0] == "-m"@ && args[1] == model
            &&& args[2] == "-f"@ && args[3] == file
        }),
{
}

/// The transcription program is given the model, the recording, and as many threads as there are
/// processors, but at most eight, or four if their number is not known; it is told to leave out time
/// stamps and progress.
pub proof fn transcription_is_asked_for(
    model: Seq<char>,
    recording: Seq<char>,
    available: Option<usize>,
)
    ensures
        ({
            let args = speech::transcriber_args(model, recording, available);
            let n = speech::threads(available);
            &&& args.len() == 8
            &&& args[0] == "-m"@ && args[1] == model
            &&& args[2] == "-f"@ && args[3] == recording
            &&& args[4] == "--no-timestamps"@ && args[5] == "-np"@
            &&& args[6] == "-t"@ && args[7] == text::decimal(n as nat)
            &&& available is None ==> n == 4
            &&& available matches Some(k) ==> n <= 8 && n <= k && (n == 8 || n == k)
        }),
{
}

/// An agent is asked what was heard, word for word, and its answer is what it responds, else what it
/// gives as content.
pub proof fn agents_are_asked_and_heard(
    base: Seq<char>,
    agent: Seq<char>,
    key: Seq<char>,
    question: Seq<char>,
    reply: Tree,
    answer: Seq<char>,
)
    ensures
        ({
            let r = speech::agent_question(base, agent, key, question);
            &&& r.method == Method::Post
            &&& r.url == base + "/api/agents/"@ + agent + "/message"@
            &&& r.headers == seq![("Authorization"@, "Bearer "@ + key)]
            &&& r.body == BodyView::Json(Tree::Object(map!["message"@ => Tree::Str(question)]))
        }),
        reply.str_at("response"@) == Some(answer) ==> speech::answer_in(Some(reply)) == answer,
        reply.str_at("response"@) is None && reply.str_at("content"@) == Some(answer)
            ==> speech::answer_in(Some(reply)) == answer,
        reply.str_at("response"@) is None && reply.str_at("content"@) is None ==> speech::answer_in(
            Some(reply),
        ).len() == 0,
        speech::answer_in(None).len() == 0,
{
    reveal_strlit("");
}

/// A connection is made if guild and channel are numbers above zero, the bot's user is known, and so
/// are endpoint, session and token; otherwise the first of these that is missing is reported.
pub proof fn connections_need_all_their_parts(c: ConnectionView, bot: u64)
    ensures
        ({
            let g = text::parsed_number(c.guild_id);
            let h = text::parsed_number(c.channel_id);
            let e = voice::connect_error(c, bot);
            let numbered = g is Some && g != Some(0u64) && h is Some && h != Some(0u64) && bot != 0;
            &&& e is None <==> numbered && c.endpoint is Some && c.session_id is Some
                && c.token is Some
            &&& e == Some(ConnectError::GuildIdNotANumber) <==> g is None
            &&& e == Some(ConnectError::GuildIdZero) <==> g == Some(0u64)
            &&& e == Some(ConnectError::ChannelIdNotANumber) <==> g is Some && g != Some(0u64)
                && h is None
            &&& e == Some(ConnectError::ChannelIdZero) <==> g is Some && g != Some(0u64) && h
                == Some(0u64)
            &&& e == Some(ConnectError::BotUserIdZero) <==> g is Some && g != Some(0u64)
                && h is Some && h != Some(0u64) && bot == 0
            &&& e == Some(ConnectError::MissingEndpoint) <==> numbered && c.endpoint is None
            &&& e == Some(ConnectError::MissingSessionId) <==> numbered && c.endpoint is Some
                && c.session_id is None
            &&& e == Some(ConnectError::MissingToken) <==> numbered && c.endpoint is Some
                && c.session_id is Some && c.token is None
        }),
{
}

/// A target holds the numbers of its connection's guild and channel, the bot's, and the connection's
/// endpoint, session and token, each in its own place.
pub proof fn targets_hold_all_their_parts(c: ConnectionView, bot: u64, t: VoiceTarget, u: VoiceTarget)
    requires
        voice::leads_to(c, bot, t),
    ensures
        text::parsed_number(c.guild_id) == Some(t.guild_id),
        text::parsed_number(c.channel_id) == Some(t.channel_id),
        t.user_id == bot,
        c.endpoint == Some(t.endpoint@),
        c.session_id == Some(t.session_id@),
        c.token == Some(t.token@),
        voice::leads_to(c, bot, u) ==> u.guild_id == t.guild_id && u.channel_id == t.channel_id
            && u.user_id == t.user_id && u.endpoint@ == t.endpoint@ && u.session_id@
            == t.session_id@ && u.token@ == t.token@,
{
}

/// A reason says what is wrong: what is no number, what is zero, or what is missing.
pub proof fn reasons_say_what_is_wrong()
    ensures
        voice::connect_error_text(ConnectError::GuildIdNotANumber) == "guild_id is not a number"@,
        voice::connect_error_text(ConnectError::GuildIdZero) == "guild_id is zero"@,
        voice::connect_error_text(ConnectError::ChannelIdNotANumber)
            == "channel_id is not a number"@,
        voice::connect_error_text(ConnectError::ChannelIdZero) == "channel_id is zero"@,
        voice::connect_error_text(ConnectError::BotUserIdZero) == "bot_user_id is zero"@,
        voice::connect_error_text(ConnectError::MissingEndpoint) == "missing voice endpoint"@,
        voice::connect_error_text(ConnectError::MissingSessionId) == "missing voice session_id"@,
        voice::connect_error_text(ConnectError::MissingToken) == "missing voice token"@,
{
}

/// No two reasons why a connection cannot be made are reported in the same words.
pub proof fn reasons_are_told_apart(a: ConnectError, b: ConnectError)
    requires
        voice::connect_error_text(a) == voice::connect_error_text(b),
    ensures
        a == b,
{
    reveal_strlit("guild_id is not a number");
    reveal_strlit("guild_id is zero");
    reveal_strlit("channel_id is not a number");
    reveal_strlit("channel_id is zero");
    reveal_strlit("bot_user_id is zero");
    reveal_strlit("missing voice endpoint");
    reveal_strlit("missing voice session_id");
    reveal_strlit("missing voice token");
    assert("guild_id is not a number"@.len() == 24);
    assert("guild_id is zero"@.len() == 16);
    assert("channel_id is not a number"@.len() == 26);
    assert("channel_id is zero"@.len() == 18);
    assert("bot_user_id is zero"@.len() == 19 && "bot_user_id is zero"@[0] == 'b');
    assert("missing voice endpoint"@.len() == 22);
    assert("missing voice session_id"@.len() == 24 && "missing voice session_id"@[0] == 'm');
    assert("missing voice token"@.len() == 19 && "missing voice token"@[0] == 'm');
    assert("guild_id is not a number"@[0] == 'g');
}

} // verus!
