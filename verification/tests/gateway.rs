use openfang_channels::adapter::DiscordAdapter;
use openfang_channels::gateway::{receive, Action, Beat, GatewaySession};
use openfang_channels::json::{parse_json, write_json, Json};
use openfang_channels::requests::{ApiRequest, Body};
use openfang_channels::types::{ChannelContent, Timestamp};

const NOW: Timestamp = Timestamp { secs: 9, nanos: 0 };

fn adapter() -> DiscordAdapter {
    DiscordAdapter::new("tok".to_string(), vec!["g1".to_string()], 513)
}

fn session() -> GatewaySession {
    let mut s = GatewaySession::new("wss://first".to_string());
    s.connected();
    s
}

fn take(s: &mut GatewaySession, payload: &str) -> Vec<Action> {
    let got = receive(payload).unwrap();
    let labels: Vec<String> = got.sizes.iter().map(|n| format!("<{n}>")).collect();
    s.on_payload(&adapter(), &got.payload, &labels, NOW)
}

fn same(frame: &str, expected: &str) {
    assert_eq!(frame, write_json(&parse_json(expected).unwrap()));
}

fn opening(s: &mut GatewaySession) -> String {
    match &take(s, r#"{"op":10,"d":{"heartbeat_interval":41250}}"#)[..] {
        [Action::Handshake { frame, interval }] => {
            assert_eq!(*interval, 41250);
            frame.clone()
        }
        _ => panic!("no handshake"),
    }
}

fn request(a: &Action) -> (String, String) {
    match a {
        Action::Request(ApiRequest { url, body: Body::Json(j), .. }) => (url.clone(), write_json(j)),
        _ => panic!("no request"),
    }
}

const READY: &str = r#"{"op":0,"s":1,"t":"READY","d":{"user":{"id":"42","username":"bot"},
    "session_id":"sess","resume_gateway_url":"wss://resume","application":{"id":"app"},
    "guilds":[{"id":"g1","voice_states":[{"user_id":"u1","channel_id":"vc"},{"channel_id":"vc"}]},{}]}}"#;

#[test]
fn a_session_begins_with_identify() {
    let mut s = session();
    same(
        &opening(&mut s),
        r#"{"op":2,"d":{"token":"tok","intents":513,
            "properties":{"os":"linux","browser":"openfang","device":"openfang"}}}"#,
    );
    assert!(!s.heartbeat_active());
    s.handshake_sent();
    assert!(s.heartbeat_active());
}

#[test]
fn the_interval_has_a_default() {
    let mut s = session();
    match &take(&mut s, r#"{"op":10}"#)[..] {
        [Action::Handshake { interval, .. }] => assert_eq!(*interval, 45000),
        _ => panic!(),
    }
}

#[test]
fn a_lost_session_is_resumed() {
    let mut s = session();
    let actions = take(&mut s, READY);
    assert_eq!(actions.len(), 1);
    assert_eq!(request(&actions[0]).0, "https://discord.com/api/v10/applications/app/commands");
    assert_eq!(s.bot_user_id(), &Some("42".to_string()));
    assert!(take(&mut s, r#"{"op":0,"s":7,"t":"TYPING_START","d":{}}"#).is_empty());
    assert_eq!(s.connect_url(), "wss://first");
    assert_eq!(s.disconnected(), 1);
    assert_eq!(s.connect_url(), "wss://resume/?v=10&encoding=json");
    s.connected();
    same(
        &opening(&mut s),
        r#"{"op":6,"d":{"token":"tok","session_id":"sess","seq":7}}"#,
    );
}

#[test]
fn an_invalid_session_begins_anew() {
    let mut s = session();
    take(&mut s, READY);
    assert!(matches!(take(&mut s, r#"{"op":9,"d":true}"#)[..], [Action::Reconnect]));
    assert!(opening(&mut s).contains("\"op\":6"));
    assert!(matches!(take(&mut s, r#"{"op":9,"d":false}"#)[..], [Action::Reconnect]));
    assert!(opening(&mut s).contains("\"op\":2"));
    assert!(matches!(take(&mut s, r#"{"op":7,"d":null}"#)[..], [Action::Reconnect]));
}

#[test]
fn waits_double_up_to_a_minute() {
    let mut s = GatewaySession::new("u".to_string());
    let waits: Vec<u64> = (0..8).map(|_| s.connect_failed()).collect();
    assert_eq!(waits, vec![1, 2, 4, 8, 16, 32, 60, 60]);
    s.connected();
    assert_eq!(s.disconnected(), 1);
    assert_eq!(s.disconnected(), 2);
    assert_eq!(s.connect_url(), "u");
}

#[test]
fn an_unanswered_heartbeat_is_fatal() {
    let mut s = session();
    match s.heartbeat_due() {
        Beat::Send(f) => same(&f, r#"{"op":1,"d":null}"#),
        Beat::Dead => panic!(),
    }
    s.heartbeat_sent();
    take(&mut s, r#"{"op":0,"s":3,"t":"RESUMED"}"#);
    assert!(matches!(s.heartbeat_due(), Beat::Dead));
    assert!(take(&mut s, r#"{"op":11}"#).is_empty());
    match s.heartbeat_due() {
        Beat::Send(f) => same(&f, r#"{"op":1,"d":3}"#),
        Beat::Dead => panic!(),
    }
    match &take(&mut s, r#"{"op":1}"#)[..] {
        [Action::Send(f)] => same(f, r#"{"op":1,"d":3}"#),
        _ => panic!(),
    }
}

#[test]
fn unknown_payloads_are_passed_over() {
    let mut s = session();
    assert!(take(&mut s, r#"{"op":77,"s":4}"#).is_empty());
    assert!(take(&mut s, r#"{}"#).is_empty());
    assert!(take(&mut s, r#"[]"#).is_empty());
    assert!(receive("not json").is_none());
    match s.heartbeat_due() {
        Beat::Send(f) => same(&f, r#"{"op":1,"d":4}"#),
        Beat::Dead => panic!(),
    }
}

#[test]
fn messages_are_passed_on_or_dropped() {
    let mut s = session();
    take(&mut s, READY);
    let say = |author: &str, guild: &str, name: &str| {
        format!(
            r#"{{"op":0,"s":5,"t":"{name}","d":{{"id":"m","channel_id":"c","guild_id":"{guild}",
               "content":"hi","author":{{"id":"{author}","bot":{}}},
               "attachments":[{{"url":"a","size":1500}}]}}}}"#,
            author == "robot"
        )
    };
    match &take(&mut s, &say("u", "g1", "MESSAGE_CREATE"))[..] {
        [Action::Deliver(m)] => {
            assert!(matches!(&m.content, ChannelContent::Text(t) if t == "hi\n\n[Attached file: file (<1500>)](a)"));
            assert_eq!(m.timestamp, NOW);
        }
        _ => panic!(),
    }
    assert_eq!(take(&mut s, &say("u", "g1", "MESSAGE_UPDATE")).len(), 1);
    assert!(take(&mut s, &say("u", "g2", "MESSAGE_CREATE")).is_empty());
    assert!(take(&mut s, &say("42", "g1", "MESSAGE_CREATE")).is_empty());
    assert!(take(&mut s, &say("robot", "g1", "MESSAGE_CREATE")).is_empty());
    assert!(take(&mut s, &say("u", "g1", "MESSAGE_DELETE")).is_empty());
}

#[test]
fn received_payloads_carry_the_current_time() {
    let mut s = session();
    let got = receive(
        r#"{"op":0,"t":"MESSAGE_CREATE","d":{"channel_id":"c","content":"hi","author":{"id":"u"}}}"#,
    )
    .unwrap();
    match &s.on_received(&adapter(), &got.payload, &vec![])[..] {
        [Action::Deliver(m)] => assert!(m.timestamp.secs > 1_700_000_000),
        _ => panic!(),
    }
}

fn interaction(kind: u64, data: &str) -> String {
    format!(
        r#"{{"op":0,"t":"INTERACTION_CREATE","d":{{"id":"i","token":"t","type":{kind},"channel_id":"c",
           "guild_id":"g1","member":{{"user":{{"id":"u1","username":"ann"}}}},"data":{data}}}}}"#
    )
}

#[test]
fn interactions_are_acknowledged_and_passed_on() {
    let mut s = session();
    let url = "https://discord.com/api/v10/interactions/i/t/callback";
    for (kind, data, ack) in [
        (2, r#"{"name":"ask","options":[{"value":"q"}]}"#, r#"{"type":5}"#),
        (3, r#"{"custom_id":"ask","values":["q"]}"#, r#"{"type":6}"#),
        (5, r#"{"custom_id":"ask","components":[{"components":[{"value":"q"}]}]}"#, r#"{"type":6}"#),
    ] {
        let actions = take(&mut s, &interaction(kind, data));
        assert_eq!(actions.len(), 2);
        assert_eq!(request(&actions[0]), (url.to_string(), ack.to_string()));
        match &actions[1] {
            Action::Deliver(m) => match &m.content {
                ChannelContent::Command { name, args } => {
                    assert_eq!(name, "ask");
                    assert_eq!(args, &["q"]);
                }
                _ => panic!(),
            },
            _ => panic!(),
        }
    }
    assert!(take(&mut s, &interaction(2, "{}")).is_empty());
    assert!(take(&mut s, &interaction(4, r#"{"name":"ask"}"#)).is_empty());
    assert!(take(&mut s, &interaction(1, r#"{"name":"join"}"#)).is_empty());
    assert!(take(&mut s, &interaction(5, "{}")).is_empty());
}

#[test]
fn a_confirmed_join_connects() {
    let mut s = session();
    take(&mut s, READY);
    let join = interaction(2, r#"{"name":"join"}"#);
    let actions = take(&mut s, &join);
    assert_eq!(actions.len(), 2);
    match &actions[0] {
        Action::Send(f) => same(
            f,
            r#"{"op":4,"d":{"guild_id":"g1","channel_id":"vc","self_mute":false,"self_deaf":false}}"#,
        ),
        _ => panic!(),
    }
    assert_eq!(request(&actions[1]).1, r#"{"data":{"content":"Joining your voice channel..."},"type":4}"#);
    assert!(take(
        &mut s,
        r#"{"op":0,"t":"VOICE_STATE_UPDATE","d":{"guild_id":"g1","user_id":"42","channel_id":"vc","session_id":"vs"}}"#
    )
    .is_empty());
    let server = r#"{"op":0,"t":"VOICE_SERVER_UPDATE","d":{"guild_id":"g1","endpoint":"e","token":"vt"}}"#;
    match &take(&mut s, server)[..] {
        [Action::ConnectVoice { connection, bot_user_id }] => {
            assert_eq!(*bot_user_id, 42);
            assert_eq!(connection.guild_id, "g1");
            assert_eq!(connection.channel_id, "vc");
            assert_eq!(connection.session_id.as_deref(), Some("vs"));
            assert_eq!(connection.endpoint.as_deref(), Some("e"));
            assert_eq!(connection.token.as_deref(), Some("vt"));
            assert_eq!(connection.ssrc, None);
        }
        _ => panic!(),
    }
    let actions = take(&mut s, &interaction(2, r#"{"name":"leave"}"#));
    assert_eq!(actions.len(), 3);
    assert!(matches!(&actions[0], Action::LeaveVoice(g) if g == "g1"));
    match &actions[1] {
        Action::Send(f) => same(
            f,
            r#"{"op":4,"d":{"guild_id":"g1","channel_id":null,"self_mute":false,"self_deaf":false}}"#,
        ),
        _ => panic!(),
    }
    assert_eq!(request(&actions[2]).1, r#"{"data":{"content":"Left voice channel."},"type":4}"#);
    assert!(take(&mut s, server).is_empty());
}

#[test]
fn one_who_is_in_no_channel_is_told_so() {
    let mut s = session();
    let join = interaction(3, r#"{"name":"join"}"#);
    let actions = take(&mut s, &join);
    assert_eq!(actions.len(), 1);
    assert_eq!(
        request(&actions[0]).1,
        r#"{"data":{"content":"You need to be in a voice channel first! (Try leaving and rejoining your voice channel)"},"type":4}"#
    );
    take(&mut s, r#"{"op":0,"t":"GUILD_CREATE","d":{"id":"g1","voice_states":[{"user_id":"u1","channel_id":"x","self_mute":true}]}}"#);
    assert_eq!(take(&mut s, &join).len(), 2);
    take(&mut s, r#"{"op":0,"t":"VOICE_STATE_UPDATE","d":{"guild_id":"g1","user_id":"u1","channel_id":null}}"#);
    assert_eq!(take(&mut s, &join).len(), 1);
}

#[test]
fn connections_need_all_parts() {
    let mut s = session();
    take(&mut s, READY);
    take(&mut s, &interaction(2, r#"{"name":"join"}"#));
    let server = r#"{"op":0,"t":"VOICE_SERVER_UPDATE","d":{"guild_id":"g1","endpoint":"e","token":"vt"}}"#;
    assert!(take(&mut s, server).is_empty());
    take(&mut s, r#"{"op":0,"t":"VOICE_STATE_UPDATE","d":{"guild_id":"g1","user_id":"u9","session_id":"other"}}"#);
    assert!(take(&mut s, server).is_empty());
    take(&mut s, r#"{"op":0,"t":"VOICE_STATE_UPDATE","d":{"guild_id":"g1","user_id":"42","session_id":"vs"}}"#);
    assert!(take(&mut s, r#"{"op":0,"t":"VOICE_SERVER_UPDATE","d":{"guild_id":"g1","endpoint":null,"token":"vt"}}"#).is_empty());
    assert_eq!(take(&mut s, server).len(), 1);
}

#[test]
fn a_bot_without_a_number_joins_no_voice() {
    let mut s = session();
    take(&mut s, r#"{"op":0,"t":"READY","d":{"user":{"id":"abc"},"guilds":[{"id":"g1","voice_states":[{"user_id":"u1","channel_id":"vc"}]}]}}"#);
    take(&mut s, &interaction(2, r#"{"name":"join"}"#));
    take(&mut s, r#"{"op":0,"t":"VOICE_STATE_UPDATE","d":{"guild_id":"g1","user_id":"abc","session_id":"vs"}}"#);
    assert!(take(&mut s, r#"{"op":0,"t":"VOICE_SERVER_UPDATE","d":{"guild_id":"g1","endpoint":"e","token":"vt"}}"#).is_empty());
}

#[test]
fn json_is_read_and_written() {
    let j = parse_json(r#" {"b":[1,-2,1.5,true,null,"é"],"a":{"x":18446744073709551615}} "#).unwrap();
    assert_eq!(j.get("a").unwrap().u64_at("x"), Some(u64::MAX));
    let items = j.array_at("b").unwrap();
    assert!(matches!(items[0], Json::Number(Some(1))));
    assert!(matches!(items[1], Json::Number(None)));
    assert!(matches!(items[2], Json::Number(None)));
    assert!(matches!(items[3], Json::Bool(true)));
    assert!(matches!(items[4], Json::Null));
    assert_eq!(items[5].as_str(), Some("é"));
    assert!(parse_json("{").is_none());
    assert!(parse_json(r#"{"a":1,"a":2}"#).unwrap().u64_at("a") == Some(2));
    let w = Json::object().with("k", Json::string("v\n")).with("k", Json::Array(vec![Json::Null, Json::Bool(false)]));
    assert_eq!(write_json(&w), r#"{"k":[null,false]}"#);
    assert_eq!(w.array_at("k").unwrap().len(), 2);
    assert_eq!(w.bool_at("k"), None);
    assert_eq!(w.str_or("nothing", "or"), "or");
}
