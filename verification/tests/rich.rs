use openfang_channels::adapter::DiscordAdapter;
use openfang_channels::json::{parse_json, write_json};
use openfang_channels::requests::{ApiRequest, Body};
use openfang_channels::rich::{
    can_shorten, can_shorten_block, chunk_text, rich_last_resort, FallbackStep, RichPlan, RichStep,
};
use openfang_channels::types::RichBlock;

fn adapter() -> DiscordAdapter {
    DiscordAdapter::new("tok".to_string(), vec![], 5)
}

fn same(r: &ApiRequest, expected: &str) {
    match &r.body {
        Body::Json(j) => assert_eq!(write_json(j), write_json(&parse_json(expected).unwrap())),
        _ => panic!("no JSON"),
    }
}

fn embed(description: &str) -> RichBlock {
    RichBlock::Embed {
        title: Some("T".to_string()),
        description: description.to_string(),
        color: Some(9),
        fields: vec![("n".to_string(), "v".to_string(), true)],
        image_url: Some("i".to_string()),
        footer: Some("f".to_string()),
    }
}

fn bare(description: &str) -> RichBlock {
    RichBlock::Embed {
        title: None,
        description: description.to_string(),
        color: None,
        fields: vec![],
        image_url: None,
        footer: None,
    }
}

fn plain(t: &str) -> RichBlock {
    RichBlock::PlainText(t.to_string())
}

fn buttons(t: &str) -> RichBlock {
    RichBlock::Buttons {
        text: t.to_string(),
        buttons: vec![("A".to_string(), "a".to_string()), ("B".to_string(), "b".to_string())],
    }
}

fn steps(blocks: &Vec<RichBlock>) -> Vec<RichStep> {
    match adapter().send_rich_blocks("c1", blocks) {
        RichPlan::Steps(steps) => steps,
        RichPlan::Layout(_) => panic!("a layout"),
    }
}

fn layout(blocks: &Vec<RichBlock>) -> ApiRequest {
    match adapter().send_rich_blocks("c1", blocks) {
        RichPlan::Steps(_) => panic!("no layout"),
        RichPlan::Layout(r) => r,
    }
}

const ROW: &str = r#"[{"type":1,"components":[
    {"type":2,"style":1,"label":"A","custom_id":"a"},{"type":2,"style":2,"label":"B","custom_id":"b"}]}]"#;

#[test]
fn embeds_go_out_one_by_one_with_the_texts() {
    let got = steps(&vec![plain("x"), embed("D"), buttons("pick"), plain("y")]);
    assert_eq!(got.len(), 2);
    match &got[0] {
        RichStep::Request(r) => same(
            r,
            r#"{"content":"x\ny","embeds":[{"title":"T","description":"D","color":9,
                "fields":[{"name":"n","value":"v","inline":true}],"image":{"url":"i"},"footer":{"text":"f"}}]}"#,
        ),
        _ => panic!(),
    }
    match &got[1] {
        RichStep::Request(r) => same(r, &format!(r#"{{"content":"pick","components":{ROW}}}"#)),
        _ => panic!(),
    }
    match &steps(&vec![bare("D")])[0] {
        RichStep::Request(r) => same(r, r#"{"embeds":[{"description":"D"}]}"#),
        _ => panic!(),
    }
}

#[test]
fn buttons_go_out_one_by_one() {
    let got = steps(&vec![plain("x"), buttons("pick")]);
    assert_eq!(got.len(), 2);
    assert!(matches!(&got[0], RichStep::Text(t) if t == "x"));
    assert!(matches!(&got[1], RichStep::Request(_)));
}

#[test]
fn anything_else_is_laid_out() {
    let r = layout(&vec![
        plain("x"),
        plain(" \n"),
        embed("D"),
        bare("E"),
        buttons(""),
        RichBlock::ImageGallery {
            images: vec![("u".to_string(), Some("c".to_string())), ("w".to_string(), None)],
        },
        RichBlock::Section { text: "s".to_string(), thumbnail_url: Some("th".to_string()) },
        RichBlock::Section { text: "s2".to_string(), thumbnail_url: None },
    ]);
    same(
        &r,
        r####"{"flags":32768,"components":[
        {"type":10,"content":"x"},
        {"type":17,"accent_color":9,"components":[
            {"type":10,"content":"### T\nD\n\n**n:** v\n\n-# f"},
            {"type":12,"items":[{"media":{"url":"i"}}]}]},
        {"type":17,"accent_color":5793266,"components":[{"type":10,"content":"E"}]},
        {"type":1,"components":[
            {"type":2,"style":1,"label":"A","custom_id":"a"},
            {"type":2,"style":2,"label":"B","custom_id":"b"}]},
        {"type":12,"items":[{"media":{"url":"u"},"description":"c"},{"media":{"url":"w"}}]},
        {"type":9,"components":[{"type":10,"content":"s"}],"accessory":{"type":11,"media":{"url":"th"}}},
        {"type":9,"components":[{"type":10,"content":"s2"}]}]}"####,
    );
    same(&layout(&vec![plain("only")]), r#"{"flags":32768,"components":[{"type":10,"content":"only"}]}"#);
    same(&layout(&vec![]), r#"{"flags":32768,"components":[]}"#);
}

#[test]
fn a_failed_layout_falls_back_to_blocks() {
    let long = "x".repeat(5000);
    let field = ("n".repeat(300), "v".repeat(2000), false);
    let blocks = vec![
        RichBlock::Embed {
            title: None,
            description: long,
            color: None,
            fields: vec![field; 30],
            image_url: None,
            footer: None,
        },
        plain("hello"),
        plain("  "),
        buttons("pick"),
        RichBlock::Section { text: "s".to_string(), thumbnail_url: None },
    ];
    assert!(can_shorten(&blocks));
    let got = adapter().rich_fallback("c1", &blocks);
    assert_eq!(got.len(), 3);
    match &got[0] {
        FallbackStep::Embed(r) => {
            let j = match &r.body {
                Body::Json(j) => j,
                _ => panic!(),
            };
            let e = &j.array_at("embeds").unwrap()[0];
            assert_eq!(e.str_at("description").unwrap(), format!("{}...", "x".repeat(4090)));
            let fields = e.array_at("fields").unwrap();
            assert_eq!(fields.len(), 25);
            assert_eq!(fields[24].str_at("name").unwrap(), format!("{}...", "n".repeat(253)));
            assert_eq!(fields[24].str_at("value").unwrap(), format!("{}...", "v".repeat(1021)));
        }
        _ => panic!(),
    }
    assert!(matches!(&got[1], FallbackStep::Text(t) if t == "hello"));
    assert!(matches!(&got[2], FallbackStep::Buttons(_)));
    assert!(rich_last_resort(&got, &vec![false, false, false], "text").is_empty());
}

#[test]
fn the_text_is_the_last_resort() {
    let blocks = vec![bare("D")];
    let got = adapter().rich_fallback("c1", &blocks);
    assert!(rich_last_resort(&got, &vec![true], "text").is_empty());
    assert_eq!(rich_last_resort(&got, &vec![false], "text"), vec!["text".to_string()]);
    assert_eq!(rich_last_resort(&vec![], &vec![], "text"), vec!["text".to_string()]);
    assert!(rich_last_resort(&vec![], &vec![], "").is_empty());
}

#[test]
fn blocks_fall_back_one_by_one() {
    let a = adapter();
    match a.rich_block_fallback("c1", &bare("D")).as_slice() {
        [FallbackStep::Embed(r)] => same(r, r#"{"embeds":[{"description":"D"}]}"#),
        _ => panic!("one embed"),
    }
    match a.rich_block_fallback("c1", &RichBlock::PlainText("t".to_string())).as_slice() {
        [FallbackStep::Text(t)] => assert_eq!(t, "t"),
        _ => panic!("one text"),
    }
    assert_eq!(a.rich_block_fallback("c1", &buttons("pick")).len(), 1);
    let blank = RichBlock::PlainText(" \n".to_string());
    let section = RichBlock::Section { text: "s".to_string(), thumbnail_url: None };
    assert!(a.rich_block_fallback("c1", &blank).is_empty());
    let got = a.rich_fallback("c1", &vec![blank, section]);
    assert!(got.is_empty());
    assert_eq!(rich_last_resort(&got, &vec![], "text"), vec!["text".to_string()]);
    let odd = format!("{}é{}", "x".repeat(4089), "y".repeat(100));
    assert!(!can_shorten_block(&bare(&odd)));
    assert!(can_shorten_block(&RichBlock::PlainText(odd)));
}

#[test]
fn cuts_fall_between_characters_or_not() {
    let odd = format!("{}é{}", "x".repeat(4089), "y".repeat(100));
    assert!(!can_shorten(&vec![bare(&odd)]));
    let even = format!("{}é{}", "x".repeat(4088), "y".repeat(100));
    assert!(can_shorten(&vec![bare(&even)]));
    assert!(can_shorten(&vec![bare(&"é".repeat(2048))]));
    let field = |n: String, v: String| RichBlock::Embed {
        title: None,
        description: String::new(),
        color: None,
        fields: vec![(n, v, true)],
        image_url: None,
        footer: None,
    };
    assert!(!can_shorten(&vec![field("é".repeat(200), String::new())]));
    assert!(!can_shorten(&vec![field(String::new(), "é".repeat(600))]));
    assert!(can_shorten(&vec![field("é".repeat(128), "é".repeat(512))]));
}

#[test]
fn texts_are_chunked_at_line_breaks() {
    assert!(chunk_text("").is_empty());
    assert_eq!(chunk_text("short"), vec!["short".to_string()]);
    let s = format!("{}\n{}", "a".repeat(1500), "b".repeat(1000));
    let got = chunk_text(&s);
    assert_eq!(got, vec![format!("{}\n", "a".repeat(1500)), "b".repeat(1000)]);
    let s = "é".repeat(1500);
    let got = chunk_text(&s);
    assert_eq!(got, vec!["é".repeat(1000), "é".repeat(500)]);
    let s = format!("a{}", "é".repeat(1500));
    let got = chunk_text(&s);
    assert_eq!(got[0].len(), 1999);
    assert_eq!(got.concat(), s);
    assert_eq!(chunk_text(&"x".repeat(2000)).len(), 1);
    assert_eq!(chunk_text(&"x".repeat(2001)).len(), 2);
}
