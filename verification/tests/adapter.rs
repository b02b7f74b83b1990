use openfang_channels::adapter::DiscordAdapter;
use openfang_channels::commands::register_slash_commands;
use openfang_channels::discord_types::{
    ActionRow, Component, DiscordEmbed, EmbedField, EmbedFooter, EmbedMedia, SelectOption,
};
use openfang_channels::json::{json_text, parse_json, write_json, Json};
use openfang_channels::requests::{
    api_ack_as, api_ack_interaction, api_interaction_respond, api_send_modal, gateway_url,
    message_id, read_gateway_url, url_encode_emoji, ApiRequest, Body, GatewayUrlError, Method,
};
use openfang_channels::send::SendPlan;
use openfang_channels::types::{
    ChannelContent, ChannelType, ChannelUser, LifecycleReaction, MenuOption, MessageComponent,
};

fn adapter() -> DiscordAdapter {
    DiscordAdapter::new("tok".to_string(), vec![], 5)
}

fn user() -> ChannelUser {
    ChannelUser {
        platform_id: "c1".to_string(),
        display_name: "n".to_string(),
        openfang_user: None,
    }
}

fn header(r: &ApiRequest, name: &str) -> Option<String> {
    r.headers.iter().find(|h| h.0 == name).map(|h| h.1.clone())
}

fn body(r: &ApiRequest) -> String {
    match &r.body {
        Body::Json(j) => write_json(j),
        _ => panic!("no JSON"),
    }
}

fn same_json(r: &ApiRequest, expected: &str) {
    assert_eq!(body(r), write_json(&parse_json(expected).unwrap()));
}

#[test]
fn test_discord_adapter_creation() {
    let adapter = DiscordAdapter::new(
        "test-token".to_string(),
        vec!["123".to_string(), "456".to_string()],
        37376,
    );
    assert_eq!(adapter.name(), "discord");
    assert_eq!(adapter.channel_type(), ChannelType::Discord);
}

#[test]
fn test_url_encode_emoji() {
    assert_eq!(url_encode_emoji("😊"), "%F0%9F%98%8A");
    assert_eq!(url_encode_emoji("✅"), "%E2%9C%85");
}

#[test]
fn encoding_is_three_characters_per_byte() {
    assert_eq!(url_encode_emoji(""), "");
    assert_eq!(url_encode_emoji("az09\n\u{7f}"), "%61%7A%30%39%0A%7F");
    assert_eq!(url_encode_emoji("éa").len(), 9);
    assert_ne!(url_encode_emoji("⚙️"), url_encode_emoji("⚙"));
}

#[test]
fn requests_carry_the_token() {
    let a = DiscordAdapter::new("é tok".to_string(), vec![], 0);
    assert_eq!(header(&a.get_gateway_url(), "Authorization").unwrap(), "Bot é tok");
}

#[test]
fn gateway_address_is_read_from_the_reply() {
    let url = read_gateway_url(r#" {"shards": 1.5, "url": "wss://g"} "#);
    assert_eq!(url, Ok("wss://g/?v=10&encoding=json".to_string()));
    assert_eq!(read_gateway_url("{}"), Err(GatewayUrlError::MissingUrl));
    assert_eq!(read_gateway_url(r#"{"url":1}"#), Err(GatewayUrlError::MissingUrl));
    assert_eq!(read_gateway_url("<html>"), Err(GatewayUrlError::Unreadable));
    assert_eq!(GatewayUrlError::MissingUrl.message(), "Missing 'url' in gateway response");
    assert_eq!(GatewayUrlError::Unreadable.message(), "Gateway response is not valid JSON");
}

#[test]
fn fractions_are_not_written() {
    let text = r#"{"a":[1,{"b":"\n"}],"c":null,"d":true}"#;
    assert_eq!(json_text(&parse_json(text).unwrap()), Some(text.to_string()));
    assert_eq!(json_text(&parse_json("[0,-1]").unwrap()), None);
    assert_eq!(json_text(&parse_json(r#"{"a":{"b":0.5}}"#).unwrap()), None);
    assert_eq!(json_text(&Json::Number(None)), None);
}

#[test]
fn gateway_address_is_asked_for() {
    let r = adapter().get_gateway_url();
    assert_eq!(r.method, Method::Get);
    assert_eq!(r.url, "https://discord.com/api/v10/gateway/bot");
    assert!(matches!(r.body, Body::Empty));
    let reply = parse_json(r#"{"url":"wss://g"}"#).unwrap();
    assert_eq!(gateway_url(&reply), Ok("wss://g/?v=10&encoding=json".to_string()));
    assert_eq!(gateway_url(&Json::Null), Err("Missing 'url' in gateway response".to_string()));
}

#[test]
fn texts_are_sent_chunk_by_chunk() {
    let rs = adapter().api_send_message("c1", &vec!["a".to_string(), "b\"".to_string()]);
    assert_eq!(rs.len(), 2);
    assert_eq!(rs[1].method, Method::Post);
    assert_eq!(rs[1].url, "https://discord.com/api/v10/channels/c1/messages");
    assert_eq!(body(&rs[0]), r#"{"content":"a"}"#);
    assert_eq!(body(&rs[1]), r#"{"content":"b\""}"#);
    assert!(adapter().api_send_message("c1", &vec![]).is_empty());
}

#[test]
fn edits_leave_the_rest_for_new_messages() {
    let (edit, rest) =
        adapter().api_edit_message("c1", "m1", &vec!["a".to_string(), "b".to_string(), "c".to_string()]);
    assert_eq!(edit.method, Method::Patch);
    assert_eq!(edit.url, "https://discord.com/api/v10/channels/c1/messages/m1");
    assert_eq!(body(&edit), r#"{"content":"a"}"#);
    assert_eq!(rest, vec!["b".to_string(), "c".to_string()]);
}

#[test]
fn reactions_are_encoded() {
    let a = adapter();
    let add = a.api_add_reaction("c1", "m1", "✅");
    assert_eq!(add.method, Method::Put);
    assert_eq!(
        add.url,
        "https://discord.com/api/v10/channels/c1/messages/m1/reactions/%E2%9C%85/@me"
    );
    assert_eq!(header(&add, "Content-Length").unwrap(), "0");
    assert_eq!(header(&add, "Authorization").unwrap(), "Bot tok");
    let gone = a.api_remove_reaction("c1", "m1", "✅");
    assert_eq!(gone.method, Method::Delete);
    assert_eq!(gone.url, add.url);
    assert_eq!(gone.headers.len(), 1);
    let all = a.api_remove_all_own_reactions("c1", "m1");
    assert_eq!(all.method, Method::Delete);
    assert_eq!(all.url, "https://discord.com/api/v10/channels/c1/messages/m1/reactions/@me");
    let plan = a.send_reaction(
        &user(),
        "m1",
        &LifecycleReaction { emoji: "✅".to_string(), remove_previous: true },
    );
    assert_eq!(plan.clear.unwrap().url, all.url);
    assert_eq!(plan.react.url, add.url);
    let plan = a.send_reaction(
        &user(),
        "m1",
        &LifecycleReaction { emoji: "✅".to_string(), remove_previous: false },
    );
    assert!(plan.clear.is_none());
}

#[test]
fn typing_is_shown() {
    let r = adapter().send_typing(&user());
    assert_eq!(r.method, Method::Post);
    assert_eq!(r.url, "https://discord.com/api/v10/channels/c1/typing");
}

#[test]
fn created_messages_are_identified() {
    assert_eq!(message_id(&parse_json(r#"{"id":"9"}"#).unwrap()), "9");
    assert_eq!(message_id(&Json::Null), "0");
    let r = adapter().api_create_message("c1", "x");
    assert_eq!(body(&r), r#"{"content":"x"}"#);
}

#[test]
fn embeds_have_only_what_there_is() {
    let embed = DiscordEmbed {
        title: Some("t".to_string()),
        description: None,
        color: Some(7),
        fields: vec![EmbedField {
            name: "n".to_string(),
            value: "v".to_string(),
            inline: Some(true),
        }],
        image: Some(EmbedMedia { url: "i".to_string() }),
        thumbnail: Some(EmbedMedia { url: "th".to_string() }),
        footer: Some(EmbedFooter { text: "f".to_string(), icon_url: Some("ic".to_string()) }),
        url: Some("u".to_string()),
    };
    let r = adapter().api_send_embed("c1", &Some("hi".to_string()), &embed);
    same_json(
        &r,
        r#"{"content":"hi","embeds":[{"title":"t","color":7,
            "fields":[{"name":"n","value":"v","inline":true}],"image":{"url":"i"},
            "thumbnail":{"url":"th"},"footer":{"text":"f","icon_url":"ic"},"url":"u"}]}"#,
    );
    let r = adapter().api_send_embed("c1", &None, &DiscordEmbed::default());
    same_json(&r, r#"{"embeds":[{}]}"#);
    let r = adapter().api_send_image_embed("c1", "http://i", &Some("cap".to_string()));
    same_json(
        &r,
        r#"{"embeds":[{"image":{"url":"http://i"},"description":"cap","color":5793266}]}"#,
    );
}

#[test]
fn files_go_out_as_forms() {
    let r = adapter().api_send_file("c1", vec![1, 2], "a.txt", Some("cap"));
    match r.body {
        Body::File { part, filename, mime, bytes, payload_json } => {
            assert_eq!(part, "files[0]");
            assert_eq!(filename, "a.txt");
            assert_eq!(mime, "application/octet-stream");
            assert_eq!(bytes, vec![1, 2]);
            assert_eq!(payload_json.unwrap(), r#"{"content":"cap"}"#);
        }
        _ => panic!("no file"),
    }
    let r = adapter().api_send_file("c1", vec![], "a.txt", None);
    assert!(matches!(r.body, Body::File { payload_json: None, .. }));
}

#[test]
fn layouts_are_flagged() {
    let r = adapter().api_send_v2("c1", vec![Json::string("x")]);
    assert_eq!(body(&r), r#"{"components":["x"],"flags":32768}"#);
}

#[test]
fn interactions_are_answered_without_credentials() {
    let r = api_ack_interaction("i", "t");
    assert_eq!(r.url, "https://discord.com/api/v10/interactions/i/t/callback");
    assert!(r.headers.is_empty());
    assert_eq!(body(&r), r#"{"type":6}"#);
    assert_eq!(body(&api_ack_as("i", "t", 5)), r#"{"type":5}"#);
    assert_eq!(
        body(&api_interaction_respond("i", "t", "hey")),
        r#"{"data":{"content":"hey"},"type":4}"#
    );
    let r = api_send_modal("i", "t", "form", "Title", &vec![("a".to_string(), "A".to_string(), true)]);
    same_json(
        &r,
        r#"{"type":9,"data":{"custom_id":"form","title":"Title","components":[{"type":1,
            "components":[{"type":4,"custom_id":"a","label":"A","style":2,"required":true}]}]}}"#,
    );
}

#[test]
fn slash_commands_are_registered() {
    let r = register_slash_commands("tok", "app");
    assert_eq!(r.method, Method::Put);
    assert_eq!(r.url, "https://discord.com/api/v10/applications/app/commands");
    assert_eq!(header(&r, "Authorization").unwrap(), "Bot tok");
    same_json(
        &r,
        r#"[
        {"name":"ask","description":"Ask the AI agent a question",
         "options":[{"name":"prompt","description":"Your question","type":3,"required":true}]},
        {"name":"agent","description":"Route to a specific agent",
         "options":[{"name":"name","description":"Agent name","type":3,"required":true},
                    {"name":"prompt","description":"Your message","type":3,"required":true}]},
        {"name":"research","description":"Start a deep research task",
         "options":[{"name":"query","description":"Research topic","type":3,"required":true}]},
        {"name":"code","description":"Generate or analyze code",
         "options":[{"name":"task","description":"What to code","type":3,"required":true}]},
        {"name":"status","description":"Show agent status and system info"},
        {"name":"model","description":"Show or switch the current model",
         "options":[{"name":"name","description":"Model name (leave empty to show current)","type":3,"required":false}]},
        {"name":"reset","description":"Reset conversation context"},
        {"name":"join","description":"Join your current voice channel"},
        {"name":"leave","description":"Leave the voice channel"}]"#,
    );
}

fn button(label: &str) -> MessageComponent {
    MessageComponent::Button { label: label.to_string(), custom_id: label.to_string(), style: 1 }
}

#[test]
fn buttons_stand_five_in_a_row() {
    let mut components: Vec<MessageComponent> = Vec::new();
    for i in 0..6 {
        components.push(button(&i.to_string()));
    }
    components.push(MessageComponent::SelectMenu {
        custom_id: "m".to_string(),
        placeholder: None,
        options: vec![MenuOption {
            label: "l".to_string(),
            value: "v".to_string(),
            description: Some("d".to_string()),
        }],
        min_values: 1,
        max_values: 2,
    });
    components.push(button("last"));
    let r = adapter().api_send_with_components("c1", "pick", &components);
    let j = match r.body {
        Body::Json(j) => j,
        _ => panic!("no JSON"),
    };
    assert_eq!(j.str_at("content"), Some("pick"));
    let rows = j.array_at("components").unwrap();
    let sizes: Vec<usize> = rows.iter().map(|r| r.array_at("components").unwrap().len()).collect();
    assert_eq!(sizes, vec![5, 1, 1, 1]);
    let menu = &rows[2].array_at("components").unwrap()[0];
    assert_eq!(
        write_json(menu),
        r#"{"custom_id":"m","max_values":2,"min_values":1,"options":[{"description":"d","label":"l","value":"v"}],"type":3}"#
    );
    assert_eq!(write_json(&rows[3]), r#"{"components":[{"custom_id":"last","label":"last","style":1,"type":2}],"type":1}"#);
}

#[test]
fn components_have_only_what_there_is() {
    let row = ActionRow {
        component_type: 1,
        components: vec![Component::SelectMenu {
            component_type: 3,
            custom_id: "m".to_string(),
            placeholder: Some("p".to_string()),
            options: vec![SelectOption {
                label: "l".to_string(),
                value: "v".to_string(),
                description: None,
                default: Some(true),
            }],
            min_values: None,
            max_values: None,
        }],
    };
    assert_eq!(
        write_json(&row.to_json()),
        r#"{"components":[{"custom_id":"m","options":[{"default":true,"label":"l","value":"v"}],"placeholder":"p","type":3}],"type":1}"#
    );
}

#[test]
fn contents_are_sent_each_in_its_way() {
    let a = adapter();
    match a.send(&user(), ChannelContent::Text("x".to_string())) {
        SendPlan::Text(t) => assert_eq!(t, "x"),
        _ => panic!(),
    }
    match a.send(&user(), ChannelContent::Image { url: "u".to_string(), caption: None }) {
        SendPlan::Request(r) => same_json(&r, r#"{"embeds":[{"image":{"url":"u"},"color":5793266}]}"#),
        _ => panic!(),
    }
    match a.send(&user(), ChannelContent::File { url: "u".to_string(), filename: "f".to_string() }) {
        SendPlan::Upload { url, filename, caption, otherwise } => {
            assert_eq!((url.as_str(), filename.as_str(), caption.as_str()), ("u", "f", "f"));
            assert_eq!(otherwise, "📎 [f](u)");
        }
        _ => panic!(),
    }
    match a.send(&user(), ChannelContent::Voice { url: "u".to_string(), duration_seconds: 12 }) {
        SendPlan::Upload { filename, caption, otherwise, .. } => {
            assert_eq!(filename, "voice_message.ogg");
            assert_eq!(caption, "🎤 Voice message (12s)");
            assert_eq!(otherwise, "🎤 Voice message (12s)");
        }
        _ => panic!(),
    }
    match a.send(&user(), ChannelContent::Location { lat: "1.5".to_string(), lon: "-2".to_string() }) {
        SendPlan::Request(r) => {
            assert_eq!(r.url, "https://discord.com/api/v10/channels/c1/messages");
            same_json(
                &r,
                r#"{"embeds":[{"title":"📍 Location","description":"1.5, -2",
                    "url":"https://www.google.com/maps?q=1.5,-2","color":3066993}]}"#,
            )
        }
        _ => panic!(),
    }
    match a.send(
        &user(),
        ChannelContent::Interactive { message: "m".to_string(), components: vec![button("b")] },
    ) {
        SendPlan::Request(r) => assert_eq!(
            body(&r),
            r#"{"components":[{"components":[{"custom_id":"b","label":"b","style":1,"type":2}],"type":1}],"content":"m"}"#
        ),
        _ => panic!(),
    }
    assert!(matches!(
        a.send(&user(), ChannelContent::Command { name: "n".to_string(), args: vec![] }),
        SendPlan::Nothing
    ));
    assert!(matches!(
        a.send(&user(), ChannelContent::Rich { blocks: vec![], fallback_text: "f".to_string() }),
        SendPlan::Rich { .. }
    ));
}
