use openfang_channels::json::{parse_json, write_json};
use openfang_channels::requests::{Body, Method};
use openfang_channels::stream::{
    decode, edit_due, interpret, opening_reaction, opening_text, stream_request, StreamAction, StreamEvent,
    StreamInput, StreamingState,
};

fn show(a: &StreamAction) -> String {
    match a {
        StreamAction::Edit(s) => format!("edit {s}"),
        StreamAction::Final(s) => format!("final {s}"),
        StreamAction::React(s) => format!("+{s}"),
        StreamAction::Unreact(s) => format!("-{s}"),
    }
}

fn apply(s: &mut StreamingState, input: StreamInput, due: bool) -> (Vec<String>, bool) {
    let (actions, done) = s.apply(&input, due);
    (actions.iter().map(show).collect(), done)
}

fn events(s: &mut StreamingState) -> Vec<(String, String)> {
    let mut out = Vec::new();
    while let Some(e) = s.next_event() {
        out.push((e.kind, e.data));
    }
    out
}

fn pair(a: &str, b: &str) -> (String, String) {
    (a.to_string(), b.to_string())
}

#[test]
fn events_come_in_any_pieces() {
    let stream = "event: chunk\ndata: {\"content\":\"é\"}\n\n: note\nevent: a\nevent: b\r\ndata: 1\ndata: 2\n\nevent: done";
    let whole = vec![pair("chunk", "{\"content\":\"é\"}"), pair("b", "2")];
    let mut at_once = StreamingState::new();
    at_once.feed(stream.as_bytes());
    assert_eq!(events(&mut at_once), whole);
    let mut piecewise = StreamingState::new();
    let mut got = Vec::new();
    for c in stream.chars() {
        piecewise.feed_text(&c.to_string());
        got.extend(events(&mut piecewise));
    }
    assert_eq!(got, whole);
    piecewise.feed_text("\n\n");
    assert_eq!(events(&mut piecewise), vec![pair("done", "")]);
    piecewise.feed_text("\n\n\n\n");
    assert_eq!(events(&mut piecewise), vec![pair("", ""), pair("", "")]);
}

#[test]
fn broken_bytes_are_replaced() {
    let mut s = StreamingState::new();
    s.feed(b"event: x\xff\n\n");
    assert_eq!(events(&mut s), vec![pair("x\u{fffd}", "")]);
}

fn said(kind: &str, data: &str) -> String {
    let e = StreamEvent { kind: kind.to_string(), data: data.to_string() };
    match decode(&e) {
        StreamInput::Content(s) => format!("content {s}"),
        StreamInput::Tool(s) => format!("tool {s}"),
        StreamInput::Phase(s) => format!("phase {s}"),
        StreamInput::Done => "done".to_string(),
        StreamInput::Ignored => "ignored".to_string(),
    }
}

#[test]
fn events_are_decoded() {
    assert_eq!(said("chunk", r#"{"content":"x"}"#), "content x");
    assert_eq!(said("chunk", r#"{"content":1}"#), "ignored");
    assert_eq!(said("chunk", "no json"), "ignored");
    assert_eq!(said("tool_use", r#"{"tool":"web"}"#), "tool web");
    assert_eq!(said("tool_use", "{}"), "ignored");
    assert_eq!(said("phase", r#"{"phase":"streaming"}"#), "phase streaming");
    assert_eq!(said("phase", "{}"), "phase ");
    assert_eq!(said("phase", "no json"), "ignored");
    assert_eq!(said("done", "no json"), "done");
    assert_eq!(said("other", "{}"), "ignored");
    assert!(matches!(interpret("done", &None), StreamInput::Done));
    assert!(matches!(interpret("chunk", &parse_json("{}")), StreamInput::Ignored));
}

#[test]
fn the_message_follows_the_answer() {
    let mut s = StreamingState::new();
    let content = |t: &str| StreamInput::Content(t.to_string());
    assert_eq!(apply(&mut s, content("Hel"), false), (vec![], false));
    assert_eq!(apply(&mut s, content("lo"), true), (vec!["edit Hello▌".to_string()], false));
    assert_eq!(
        apply(&mut s, StreamInput::Tool("web".to_string()), false).0,
        vec!["-🤔".to_string(), "+⚙️".to_string(), "edit Hello\n\n⚙️ *Using web...*".to_string()]
    );
    assert_eq!(
        apply(&mut s, StreamInput::Tool("sh".to_string()), false).0,
        vec!["edit Hello\n\n⚙️ *Using sh...*".to_string()]
    );
    assert!(apply(&mut s, StreamInput::Phase("other".to_string()), false).0.is_empty());
    assert_eq!(
        apply(&mut s, StreamInput::Phase("streaming".to_string()), false).0,
        vec!["-⚙️".to_string(), "+✍️".to_string()]
    );
    assert!(apply(&mut s, StreamInput::Phase("streaming".to_string()), false).0.is_empty());
    assert!(apply(&mut s, StreamInput::Ignored, true).0.is_empty());
    assert_eq!(
        s.finish().iter().map(show).collect::<Vec<String>>(),
        vec!["final Hello".to_string(), "+✅".to_string()]
    );
    assert_eq!(
        apply(&mut s, StreamInput::Done, true),
        (
            vec!["-🤔", "-⚙️", "-✍️", "final Hello", "+✅"].into_iter().map(String::from).collect(),
            true
        )
    );
}

#[test]
fn an_empty_answer_is_said_to_be_none() {
    let mut s = StreamingState::new();
    assert_eq!(s.finish().iter().map(show).collect::<Vec<String>>(), vec!["+✅".to_string()]);
    assert_eq!(apply(&mut s, StreamInput::Done, false).0[3], "final *(No response)*");
}

#[test]
fn long_previews_are_cut_off() {
    let mut s = StreamingState::new();
    let fits = StreamInput::Content("x".repeat(1980));
    assert!(s.can_preview(&fits, true));
    assert_eq!(apply(&mut s, fits, true).0, vec![format!("edit {}▌", "x".repeat(1980))]);
    let more = StreamInput::Content("y".to_string());
    assert!(s.can_preview(&more, true));
    assert_eq!(apply(&mut s, more, true).0, vec![format!("edit {}...", "x".repeat(1980))]);
    let t = StreamingState::new();
    let odd = StreamInput::Content(format!("x{}", "é".repeat(1000)));
    assert!(!t.can_preview(&odd, true));
    assert!(t.can_preview(&odd, false));
}

#[test]
fn an_agent_is_asked_for_a_stream() {
    let r = stream_request("ag", "key", "hi");
    assert_eq!(r.method, Method::Post);
    assert_eq!(r.url, "http://127.0.0.1:4200/api/agents/ag/message/stream");
    assert_eq!(
        r.headers,
        vec![pair("Authorization", "Bearer key"), pair("Accept", "text/event-stream")]
    );
    match r.body {
        Body::Json(j) => assert_eq!(write_json(&j), r#"{"message":"hi"}"#),
        _ => panic!(),
    }
    assert_eq!(opening_text(), "🤔 *Thinking...*");
    assert_eq!(opening_reaction(), "🤔");
}

#[test]
fn edits_rest_for_a_while() {
    assert!(!edit_due(0));
    assert!(!edit_due(799));
    assert!(edit_due(800));
    assert!(edit_due(u64::MAX));
}
