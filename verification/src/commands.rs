//! The slash commands that the bot offers.

use crate::json;
use crate::json::{Json, Tree};
use crate::requests;
use crate::requests::{ApiRequest, Body, BodyView, Method, RequestView};
use crate::text;
use vstd::prelude::*;

verus! {

/// An option of a command that takes a text.
pub open spec fn text_option(name: Seq<char>, description: Seq<char>, required: bool) -> Tree {
    json::obj().with("name"@, Tree::Str(name)).with("description"@, Tree::Str(description)).with(
        "type"@,
        json::num(3),
    ).with("required"@, Tree::Bool(required))
}

/// A command without options.
pub open spec fn command(name: Seq<char>, description: Seq<char>) -> Tree {
    json::obj().with("name"@, Tree::Str(name)).with("description"@, Tree::Str(description))
}

/// A command with options.
pub open spec fn command_with(
    name: Seq<char>,
    description: Seq<char>,
    options: Seq<Tree>,
) -> Tree {
    command(name, description).with("options"@, Tree::Array(options))
}

/// The commands.
pub open spec fn slash_commands() -> Seq<Tree> {
    seq![
        command_with(
            "ask"@,
            "Ask the AI agent a question"@,
            seq![text_option("prompt"@, "Your question"@, true)],
        ),
        command_with(
            "agent"@,
            "Route to a specific agent"@,
            seq![
                text_option("name"@, "Agent name"@, true),
                text_option("prompt"@, "Your message"@, true),
            ],
        ),
        command_with(
            "research"@,
            "Start a deep research task"@,
            seq![text_option("query"@, "Research topic"@, true)],
        ),
        command_with(
            "code"@,
            "Generate or analyze code"@,
            seq![text_option("task"@, "What to code"@, true)],
        ),
        command("status"@, "Show agent status and system info"@),
        command_with(
            "model"@,
            "Show or switch the current model"@,
            seq![text_option("name"@, "Model name (leave empty to show current)"@, false)],
        ),
        command("reset"@, "Reset conversation context"@),
        command("join"@, "Join your current voice channel"@),
        command("leave"@, "Leave the voice channel"@),
    ]
}

fn option(name: &str, description: &str, required: bool) -> (r: Json)
    ensures
        r@ == text_option(name@, description@, required),
{
    Json::object().with("name", Json::string(name)).with(
        "description",
        Json::string(description),
    ).with("type", Json::number(3)).with("required", Json::Bool(required))
}

fn plain(name: &str, description: &str) -> (r: Json)
    ensures
        r@ == command(name@, description@),
{
    Json::object().with("name", Json::string(name)).with("description", Json::string(description))
}

fn with_options(name: &str, description: &str, options: Json) -> (r: Json)
    ensures
        r@ == command(name@, description@).with("options"@, options@),
{
    plain(name, description).with("options", options)
}

fn command_list() -> (r: Json)
    ensures
        r@ == Tree::Array(slash_commands()),
{
    let mut items: Vec<Json> = Vec::new();
    json::push_item(
        &mut items,
        with_options(
            "ask",
            "Ask the AI agent a question",
            Json::single(option("prompt", "Your question", true)),
        ),
    );
    let mut two: Vec<Json> = Vec::new();
    json::push_item(&mut two, option("name", "Agent name", true));
    json::push_item(&mut two, option("prompt", "Your message", true));
    assert(json::trees(two@) =~= seq![
        text_option("name"@, "Agent name"@, true),
        text_option("prompt"@, "Your message"@, true),
    ]);
    json::push_item(
        &mut items,
        with_options("agent", "Route to a specific agent", Json::Array(two)),
    );
    json::push_item(
        &mut items,
        with_options(
            "research",
            "Start a deep research task",
            Json::single(option("query", "Research topic", true)),
        ),
    );
    json::push_item(
        &mut items,
        with_options(
            "code",
            "Generate or analyze code",
            Json::single(option("task", "What to code", true)),
        ),
    );
    json::push_item(&mut items, plain("status", "Show agent status and system info"));
    json::push_item(
        &mut items,
        with_options(
            "model",
            "Show or switch the current model",
            Json::single(option("name", "Model name (leave empty to show current)", false)),
        ),
    );
    json::push_item(&mut items, plain("reset", "Reset conversation context"));
    json::push_item(&mut items, plain("join", "Join your current voice channel"));
    json::push_item(&mut items, plain("leave", "Leave the voice channel"));
    assert(json::trees(items@) =~= slash_commands());
    Json::Array(items)
}

/// The request that registers the commands.
pub open spec fn registration(token: Seq<char>, app_id: Seq<char>) -> RequestView {
    requests::bot_request(
        token,
        Method::Put,
        "/applications/"@ + app_id + "/commands"@,
        BodyView::Json(Tree::Array(slash_commands())),
    )
}

/// Registers the slash commands.
pub fn register_slash_commands(token: &str, app_id: &str) -> (r: ApiRequest)
    ensures
        r@ == registration(token@, app_id@),
{
    let mut p: String = text::concat("/applications/", app_id);
    p.append("/commands");
    requests::as_bot(token, Method::Put, p.as_str(), Body::Json(command_list()))
}

} // verus!
