use openfang_channels::json::{parse_json, Json};
use openfang_channels::parse::{
    attachment_sizes, parse_discord_message, parse_discord_message_at, parse_interaction,
    parse_interaction_at, parse_modal_submit, parse_modal_submit_at, size_unit, SizeUnit,
};
use openfang_channels::types::{ChannelContent, ChannelMessage, ChannelType, Timestamp};

fn s(v: &str) -> Json {
    Json::string(v)
}

fn some(v: &str) -> Option<String> {
    Some(v.to_string())
}

fn parse(d: &Json, bot: &Option<String>, guilds: &Vec<String>) -> Option<ChannelMessage> {
    parse_discord_message(d, bot, guilds, &vec![])
}

const NOW: Timestamp = Timestamp { secs: 77, nanos: 5 };

fn command(m: &ChannelMessage) -> (String, Vec<String>) {
    match &m.content {
        ChannelContent::Command { name, args } => (name.clone(), args.clone()),
        other => panic!("Expected Command, got {other:?}"),
    }
}

fn text(m: &ChannelMessage) -> String {
    match &m.content {
        ChannelContent::Text(t) => t.clone(),
        other => panic!("Expected Text, got {other:?}"),
    }
}

#[test]
fn test_parse_discord_message_basic() {
    let bot_id = some("bot123");
    let d = Json::object()
        .with("id", s("msg1"))
        .with("channel_id", s("ch1"))
        .with("content", s("Hello agent!"))
        .with(
            "author",
            Json::object()
                .with("id", s("user456"))
                .with("username", s("alice"))
                .with("discriminator", s("0"))
                .with("bot", Json::Bool(false)),
        )
        .with("timestamp", s("2024-01-01T00:00:00+00:00"));

    let msg = parse(&d, &bot_id, &vec![]).unwrap();
    assert_eq!(msg.channel, ChannelType::Discord);
    assert_eq!(msg.sender.display_name, "alice");
    assert_eq!(msg.sender.platform_id, "ch1");
    assert!(matches!(msg.content, ChannelContent::Text(ref t) if t == "Hello agent!"));
    assert_eq!(msg.timestamp, Timestamp { secs: 1704067200, nanos: 0 });
    assert_eq!(msg.platform_message_id, "msg1");
    assert!(msg.is_group);
    assert!(msg.metadata.is_empty());
}

#[test]
fn test_parse_discord_message_filters_bot() {
    let bot_id = some("bot123");
    let d = Json::object()
        .with("id", s("msg1"))
        .with("channel_id", s("ch1"))
        .with("content", s("My own message"))
        .with(
            "author",
            Json::object()
                .with("id", s("bot123"))
                .with("username", s("openfang"))
                .with("discriminator", s("0")),
        )
        .with("timestamp", s("2024-01-01T00:00:00+00:00"));

    let msg = parse(&d, &bot_id, &vec![]);
    assert!(msg.is_none());
}

#[test]
fn test_parse_discord_message_filters_other_bots() {
    let bot_id = some("bot123");
    let d = Json::object()
        .with("id", s("msg1"))
        .with("channel_id", s("ch1"))
        .with("content", s("Bot message"))
        .with(
            "author",
            Json::object()
                .with("id", s("other_bot"))
                .with("username", s("somebot"))
                .with("discriminator", s("0"))
                .with("bot", Json::Bool(true)),
        )
        .with("timestamp", s("2024-01-01T00:00:00+00:00"));

    let msg = parse(&d, &bot_id, &vec![]);
    assert!(msg.is_none());
}

#[test]
fn test_parse_discord_message_guild_filter() {
    let bot_id = some("bot123");
    let d = Json::object()
        .with("id", s("msg1"))
        .with("channel_id", s("ch1"))
        .with("guild_id", s("999"))
        .with("content", s("Hello"))
        .with(
            "author",
            Json::object()
                .with("id", s("user1"))
                .with("username", s("bob"))
                .with("discriminator", s("0")),
        )
        .with("timestamp", s("2024-01-01T00:00:00+00:00"));

    // Not in allowed guilds
    let msg = parse(&d, &bot_id, &vec!["111".into(), "222".into()]);
    assert!(msg.is_none());

    // In allowed guilds
    let msg = parse(&d, &bot_id, &vec!["999".into()]);
    assert!(msg.is_some());
}

#[test]
fn test_parse_discord_command() {
    let bot_id = None;
    let d = Json::object()
        .with("id", s("msg1"))
        .with("channel_id", s("ch1"))
        .with("content", s("/agent hello-world"))
        .with(
            "author",
            Json::object()
                .with("id", s("user1"))
                .with("username", s("alice"))
                .with("discriminator", s("0")),
        )
        .with("timestamp", s("2024-01-01T00:00:00+00:00"));

    let msg = parse(&d, &bot_id, &vec![]).unwrap();
    match &msg.content {
        ChannelContent::Command { name, args } => {
            assert_eq!(name, "agent");
            assert_eq!(args, &["hello-world"]);
        }
        other => panic!("Expected Command, got {other:?}"),
    }
}

#[test]
fn test_parse_discord_empty_content() {
    let bot_id = None;
    let d = Json::object()
        .with("id", s("msg1"))
        .with("channel_id", s("ch1"))
        .with("content", s(""))
        .with(
            "author",
            Json::object()
                .with("id", s("user1"))
                .with("username", s("alice"))
                .with("discriminator", s("0")),
        )
        .with("timestamp", s("2024-01-01T00:00:00+00:00"));

    let msg = parse(&d, &bot_id, &vec![]);
    assert!(msg.is_none());
}

#[test]
fn test_parse_discord_discriminator() {
    let bot_id = None;
    let d = Json::object()
        .with("id", s("msg1"))
        .with("channel_id", s("ch1"))
        .with("content", s("Hi"))
        .with(
            "author",
            Json::object()
                .with("id", s("user1"))
                .with("username", s("alice"))
                .with("discriminator", s("1234")),
        )
        .with("timestamp", s("2024-01-01T00:00:00+00:00"));

    let msg = parse(&d, &bot_id, &vec![]).unwrap();
    assert_eq!(msg.sender.display_name, "alice#1234");
}

#[test]
fn test_parse_discord_message_update() {
    let bot_id = some("bot123");
    let d = Json::object()
        .with("id", s("msg1"))
        .with("channel_id", s("ch1"))
        .with("content", s("Edited message content"))
        .with(
            "author",
            Json::object()
                .with("id", s("user456"))
                .with("username", s("alice"))
                .with("discriminator", s("0"))
                .with("bot", Json::Bool(false)),
        )
        .with("timestamp", s("2024-01-01T00:00:00+00:00"))
        .with("edited_timestamp", s("2024-01-01T00:01:00+00:00"));

    // MESSAGE_UPDATE uses the same parse function as MESSAGE_CREATE
    let msg = parse(&d, &bot_id, &vec![]).unwrap();
    assert_eq!(msg.channel, ChannelType::Discord);
    assert!(matches!(msg.content, ChannelContent::Text(ref t) if t == "Edited message content"));
}

#[test]
fn test_parse_interaction_slash_command() {
    let bot_id = some("bot123");
    let d = Json::object()
        .with("id", s("interaction1"))
        .with("type", Json::number(2))
        .with("channel_id", s("ch1"))
        .with("token", s("token123"))
        .with("user", Json::object().with("id", s("user456")).with("username", s("alice")))
        .with(
            "data",
            Json::object().with("name", s("ask")).with(
                "options",
                Json::single(
                    Json::object()
                        .with("name", s("prompt"))
                        .with("value", s("What is AI?"))
                        .with("type", Json::number(3)),
                ),
            ),
        );

    let msg = parse_interaction(&d, &bot_id, 2).unwrap();
    assert_eq!(msg.channel, ChannelType::Discord);
    match &msg.content {
        ChannelContent::Command { name, args } => {
            assert_eq!(name, "ask");
            assert_eq!(args, &["What is AI?"]);
        }
        other => panic!("Expected Command, got {other:?}"),
    }
}

#[test]
fn test_parse_interaction_button_click() {
    let bot_id = some("bot123");
    let d = Json::object()
        .with("id", s("interaction1"))
        .with("type", Json::number(3))
        .with("channel_id", s("ch1"))
        .with("token", s("token123"))
        .with("user", Json::object().with("id", s("user456")).with("username", s("alice")))
        .with(
            "data",
            Json::object()
                .with("custom_id", s("button_confirm"))
                .with("component_type", Json::number(2)),
        );

    let msg = parse_interaction(&d, &bot_id, 3).unwrap();
    match &msg.content {
        ChannelContent::Command { name, args } => {
            assert_eq!(name, "button_confirm");
            assert!(args.is_empty());
        }
        other => panic!("Expected Command, got {other:?}"),
    }
}

#[test]
fn test_parse_modal_submit() {
    let bot_id = some("bot123");
    let d = Json::object()
        .with("id", s("interaction1"))
        .with("type", Json::number(5))
        .with("channel_id", s("ch1"))
        .with("user", Json::object().with("id", s("user456")).with("username", s("alice")))
        .with(
            "data",
            Json::object().with("custom_id", s("feedback_form")).with(
                "components",
                Json::single(
                    Json::object().with("type", Json::number(1)).with(
                        "components",
                        Json::single(
                            Json::object()
                                .with("type", Json::number(4))
                                .with("custom_id", s("feedback_text"))
                                .with("value", s("Great bot!")),
                        ),
                    ),
                ),
            ),
        );

    let msg = parse_modal_submit(&d, &bot_id).unwrap();
    match &msg.content {
        ChannelContent::Command { name, args } => {
            assert_eq!(name, "feedback_form");
            assert_eq!(args, &["Great bot!"]);
        }
        other => panic!("Expected Command, got {other:?}"),
    }
}

fn read(t: &str) -> Json {
    parse_json(t).unwrap()
}

#[test]
fn attachments_become_lines() {
    let d = read(
        r#"{"channel_id":"c","content":"see","author":{"id":"u"},"attachments":[
            {"filename":"a.png","url":"http://x/a","content_type":"image/png","size":5},
            {"url":"http://x/b","size":1000},
            {"filename":"none","size":3},
            {"filename":"c.zip","url":"http://x/c","content_type":"application/zip","size":2500000}]}"#,
    );
    assert_eq!(attachment_sizes(&d), vec![5, 1000, 3, 2500000]);
    let labels: Vec<String> = vec!["l0", "l1", "l2", "2.5MB"].into_iter().map(String::from).collect();
    let m = parse_discord_message_at(&d, &None, &vec![], &labels, NOW).unwrap();
    assert_eq!(
        text(&m),
        "see\n\n[Attached image: a.png](http://x/a)\n[Attached file: file (1000B)](http://x/b)\n[Attached file: c.zip (2.5MB)](http://x/c)"
    );
    assert_eq!(m.timestamp, NOW);
    assert_eq!(m.platform_message_id, "0");
    assert_eq!(m.sender.display_name, "Unknown#0000");
}

#[test]
fn attachments_alone_are_a_message() {
    let d = read(
        r#"{"channel_id":"c","author":{"id":"u"},"attachments":[{"url":"http://x/b"}]}"#,
    );
    let m = parse_discord_message_at(&d, &None, &vec![], &vec![String::new()], NOW).unwrap();
    assert_eq!(text(&m), "[Attached file: file (0B)](http://x/b)");
    let empty = read(r#"{"channel_id":"c","author":{"id":"u"},"attachments":[{"size":3}]}"#);
    assert!(parse_discord_message_at(&empty, &None, &vec![], &vec![String::new()], NOW).is_none());
    assert!(attachment_sizes(&read("{}")).is_empty());
}

#[test]
fn messages_without_author_or_channel_are_dropped() {
    for t in [
        r#"{"channel_id":"c","content":"x"}"#,
        r#"{"channel_id":"c","content":"x","author":{}}"#,
        r#"{"channel_id":"c","content":"x","author":{"id":7}}"#,
        r#"{"content":"x","author":{"id":"u"}}"#,
        r#"[]"#,
        "null",
    ] {
        assert!(parse(&read(t), &None, &vec![]).is_none(), "{t}");
    }
}

#[test]
fn guild_list_lets_direct_messages_through() {
    let d = read(r#"{"channel_id":"c","content":"x","author":{"id":"u"}}"#);
    assert!(parse(&d, &None, &vec!["111".into()]).is_some());
    let g = read(r#"{"channel_id":"c","content":"x","author":{"id":"u"},"guild_id":"5"}"#);
    assert!(parse(&g, &None, &vec![]).is_some());
    assert!(parse(&g, &None, &vec!["4".into()]).is_none());
}

#[test]
fn commands_are_split_at_white_space() {
    let say = |content: &str| {
        let d = Json::object()
            .with("channel_id", s("c"))
            .with("content", s(content))
            .with("author", Json::object().with("id", s("u")));
        command(&parse(&d, &None, &vec![]).unwrap())
    };
    assert_eq!(say("/"), (String::new(), vec![]));
    assert_eq!(say("/reset"), ("reset".to_string(), vec![]));
    assert_eq!(
        say("/ask  what\tis\n it "),
        ("ask".to_string(), vec!["what".to_string(), "is".to_string(), "it".to_string()])
    );
    assert_eq!(say("/a\tb c"), ("a\tb".to_string(), vec!["c".to_string()]));
}

#[test]
fn times_are_read() {
    let at = |t: &str| {
        let d = Json::object()
            .with("channel_id", s("c"))
            .with("content", s("x"))
            .with("author", Json::object().with("id", s("u")))
            .with("timestamp", s(t));
        parse_discord_message_at(&d, &None, &vec![], &vec![], NOW).unwrap().timestamp
    };
    assert_eq!(at("1970-01-01T00:00:01.5Z"), Timestamp { secs: 1, nanos: 500_000_000 });
    assert_eq!(at("1970-01-01T01:00:00+01:00"), Timestamp { secs: 0, nanos: 0 });
    assert_eq!(at("yesterday"), NOW);
}

#[test]
fn the_current_time_is_taken_where_none_is_given() {
    let d = read(r#"{"channel_id":"c","content":"x","author":{"id":"u"}}"#);
    let m = parse(&d, &None, &vec![]).unwrap();
    assert!(m.timestamp.secs > 1_700_000_000);
    assert!(m.timestamp.nanos < 1_000_000_000);
}

#[test]
fn interactions_need_a_user_and_a_channel() {
    let ok = read(
        r#"{"channel_id":"c","member":{"user":{"id":"u","username":"n"}},"user":{"id":"v"},
            "data":{"custom_id":"m","values":["a",1,"b"]},"guild_id":null,"id":"i","token":"t"}"#,
    );
    let m = parse_interaction_at(&ok, &some("v"), 3, NOW).unwrap();
    assert_eq!(command(&m), ("m".to_string(), vec!["a".to_string(), "b".to_string()]));
    assert_eq!(m.sender.display_name, "n");
    assert!(m.is_group);
    assert_eq!(m.timestamp, NOW);
    assert_eq!(m.metadata.len(), 2);
    assert_eq!(m.metadata[0].0, "interaction_id");
    assert_eq!(m.metadata[0].1.as_str(), Some("i"));
    assert_eq!(m.metadata[1].0, "interaction_token");
    assert_eq!(m.metadata[1].1.as_str(), Some("t"));
    assert!(parse_interaction_at(&ok, &some("u"), 3, NOW).is_none());
    assert!(parse_interaction_at(&ok, &None, 2, NOW).is_none());
    assert!(parse_interaction_at(&ok, &None, 4, NOW).is_none());
    for t in [
        r#"{"user":{"id":"u"},"data":{"custom_id":"m"}}"#,
        r#"{"channel_id":"c","data":{"custom_id":"m"}}"#,
        r#"{"channel_id":"c","user":{},"data":{"custom_id":"m"}}"#,
        r#"{"channel_id":"c","user":{"id":"u"}}"#,
        r#"{"channel_id":"c","user":{"id":"u"},"data":{}}"#,
    ] {
        assert!(parse_interaction_at(&read(t), &None, 3, NOW).is_none(), "{t}");
        assert!(parse_modal_submit_at(&read(t), &None, NOW).is_none(), "{t}");
    }
}

#[test]
fn slash_options_keep_texts_only() {
    let d = read(
        r#"{"channel_id":"c","user":{"id":"u"},"data":{"name":"n",
            "options":[{"value":"a"},{"value":5},{},{"value":"b"}]}}"#,
    );
    let m = parse_interaction_at(&d, &None, 2, NOW).unwrap();
    assert_eq!(command(&m), ("n".to_string(), vec!["a".to_string(), "b".to_string()]));
    assert_eq!(m.sender.display_name, "Unknown");
    assert!(!m.is_group);
    let now = parse_interaction(&d, &None, 2).unwrap();
    assert!(now.timestamp.secs > 1_700_000_000);
}

#[test]
fn forms_are_read_row_by_row() {
    let d = read(
        r#"{"channel_id":"c","user":{"id":"u"},"data":{"custom_id":"f","components":[
            {"components":[{"value":"1"},{"value":"2"}]},{},{"components":[{"value":"3"},{}]}]}}"#,
    );
    let m = parse_modal_submit_at(&d, &None, NOW).unwrap();
    let args: Vec<String> = vec!["1", "2", "3"].into_iter().map(String::from).collect();
    assert_eq!(command(&m), ("f".to_string(), args));
    assert!(parse_modal_submit_at(&d, &some("u"), NOW).is_none());
}

#[test]
fn sizes_have_units() {
    assert_eq!(size_unit(0), SizeUnit::Bytes);
    assert_eq!(size_unit(1000), SizeUnit::Bytes);
    assert_eq!(size_unit(1001), SizeUnit::Kilobytes);
    assert_eq!(size_unit(1_000_000), SizeUnit::Kilobytes);
    assert_eq!(size_unit(1_000_001), SizeUnit::Megabytes);
    assert_eq!(size_unit(u64::MAX), SizeUnit::Megabytes);
}
