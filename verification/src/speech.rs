//! Conversation by voice: what is heard, asked and said.

use crate::json;
use crate::json::{Json, Tree};
use crate::requests;
use crate::requests::{ApiRequest, Body, BodyView, Method, RequestView};
use crate::stream;
use crate::text;
use crate::voice::{AudioCompleteEvent, AudioView};
use vstd::prelude::*;

verus! {

/// Who speaks in a recording: the user if known, else the source.
pub open spec fn speaker(e: AudioView) -> u64 {
    match e.user_id {
        Some(id) => id,
        None => e.ssrc as u64,
    }
}

/// Who speaks in a recording: the user if known, else the source.
pub fn speaker_of(e: &AudioCompleteEvent) -> (r: u64)
    ensures
        r == speaker(e@),
{
    match e.user_id {
        Some(id) => id,
        None => e.ssrc as u64,
    }
}

/// Where a recording is kept while it is transcribed. `millis` is the time.
pub open spec fn recording_file(speaker: u64, millis: u128) -> Seq<char> {
    "/tmp/openfang_voice_"@ + text::decimal(speaker as nat) + "_"@ + text::decimal(millis as nat)
        + ".wav"@
}

/// Where a recording is kept while it is transcribed. `millis` is the time.
pub fn recording_path(speaker: u64, millis: u128) -> (r: String)
    ensures
        r@ == recording_file(speaker, millis),
{
    let mut p = text::chars_of("/tmp/openfang_voice_");
    text::extend(&mut p, text::number(speaker as u128).as_slice());
    text::extend_str(&mut p, "_");
    text::extend(&mut p, text::number(millis).as_slice());
    text::extend_str(&mut p, ".wav");
    text::string_of(p.as_slice())
}

/// Where speech is kept while it is played. `millis` is the time.
pub open spec fn speech_file(millis: u128) -> Seq<char> {
    "/tmp/openfang_tts_"@ + text::decimal(millis as nat) + ".wav"@
}

/// Where speech is kept while it is played. `millis` is the time.
pub fn speech_path(millis: u128) -> (r: String)
    ensures
        r@ == speech_file(millis),
{
    let mut p = text::chars_of("/tmp/openfang_tts_");
    text::extend(&mut p, text::number(millis).as_slice());
    text::extend_str(&mut p, ".wav");
    text::string_of(p.as_slice())
}

/// How many threads transcribe: as many as there are processors, at most eight, four if their
/// number is not known.
pub open spec fn threads(available: Option<usize>) -> usize {
    match available {
        Some(n) => if n < 8 {
            n
        } else {
            8
        },
        None => 4,
    }
}

/// The arguments of the transcription program.
pub open spec fn transcriber_args(
    model: Seq<char>,
    recording: Seq<char>,
    available: Option<usize>,
) -> Seq<Seq<char>> {
    seq![
        "-m"@,
        model,
        "-f"@,
        recording,
        "--no-timestamps"@,
        "-np"@,
        "-t"@,
        text::decimal(threads(available) as nat),
    ]
}

fn push_arg(args: &mut Vec<String>, arg: &str)
    ensures
        text::strings(final(args)@) == text::strings(old(args)@).push(arg@),
{
    let owned = arg.to_string();
    proof {
        text::lemma_strings_push(args@, owned);
    }
    args.push(owned);
}

/// The arguments of the transcription program.
pub fn transcriber_arguments(model: &str, recording: &str, available: Option<usize>) -> (r: Vec<
    String,
>)
    ensures
        text::strings(r@) == transcriber_args(model@, recording@, available),
{
    let n: usize = match available {
        Some(n) => if n < 8 {
            n
        } else {
            8
        },
        None => 4,
    };
    let digits = text::string_of(text::number(n as u128).as_slice());
    let mut args: Vec<String> = Vec::new();
    push_arg(&mut args, "-m");
    push_arg(&mut args, model);
    push_arg(&mut args, "-f");
    push_arg(&mut args, recording);
    push_arg(&mut args, "--no-timestamps");
    push_arg(&mut args, "-np");
    push_arg(&mut args, "-t");
    push_arg(&mut args, digits.as_str());
    assert(text::strings(args@) =~= transcriber_args(model@, recording@, available));
    args
}

/// The arguments of the speech program.
pub open spec fn speaker_args(model: Seq<char>, speech: Seq<char>) -> Seq<Seq<char>> {
    seq!["-m"@, model, "-f"@, speech]
}

/// The arguments of the speech program.
pub fn speaker_arguments(model: &str, speech: &str) -> (r: Vec<String>)
    ensures
        text::strings(r@) == speaker_args(model@, speech@),
{
    let mut args: Vec<String> = Vec::new();
    push_arg(&mut args, "-m");
    push_arg(&mut args, model);
    push_arg(&mut args, "-f");
    push_arg(&mut args, speech);
    assert(text::strings(args@) =~= speaker_args(model@, speech@));
    args
}

/// What the transcription program has written, without white space around it.
pub open spec fn transcribed(output: Seq<u8>) -> Seq<char> {
    text::trimmed(stream::lossy(output))
}

/// What the transcription program has written, without white space around it.
pub fn transcript(output: &[u8]) -> (r: String)
    ensures
        r@ == transcribed(output@),
{
    let decoded = stream::from_utf8_lossy(output);
    let chars = text::chars_of(decoded.as_str());
    text::string_of(text::trim(chars.as_slice()))
}

/// The request that asks an agent.
pub open spec fn agent_question(
    base: Seq<char>,
    agent: Seq<char>,
    api_key: Seq<char>,
    question: Seq<char>,
) -> RequestView {
    RequestView {
        method: Method::Post,
        url: base + "/api/agents/"@ + agent + "/message"@,
        headers: seq![stream::bearer(api_key)],
        body: BodyView::Json(stream::message_body(question)),
    }
}

/// What an agent is asked, given what was heard. If nothing was heard, there is nothing to ask.
pub open spec fn asked(
    base: Seq<char>,
    agent: Seq<char>,
    api_key: Seq<char>,
    heard: Seq<char>,
) -> Option<RequestView> {
    if text::trimmed(heard).len() == 0 {
        None
    } else {
        Some(agent_question(base, agent, api_key, heard))
    }
}

/// Asks an agent what was heard. If nothing was heard, there is nothing to ask.
pub fn ask(base: &str, agent: &str, api_key: &str, heard: &str) -> (r: Option<ApiRequest>)
    ensures
        match r {
            Some(q) => asked(base@, agent@, api_key@, heard@) == Some(q@),
            None => asked(base@, agent@, api_key@, heard@) is None,
        },
{
    if text::is_blank(heard) {
        return None;
    }
    let mut url = text::concat(base, "/api/agents/");
    url.append(agent);
    url.append("/message");
    Some(
        ApiRequest {
            method: Method::Post,
            url,
            headers: requests::header("Authorization", text::concat("Bearer ", api_key)),
            body: Body::Json(Json::object().with("message", Json::string(heard))),
        },
    )
}

/// What an agent has answered, given what its answer read as JSON.
pub open spec fn answer_in(reply: Option<Tree>) -> Seq<char> {
    match reply {
        Some(t) => match t.str_at("response"@) {
            Some(s) => s,
            None => t.str_or("content"@, ""@),
        },
        None => Seq::empty(),
    }
}

/// What is said, given what the agent's answer read as JSON. If the answer is blank, nothing is.
pub open spec fn said(reply: Option<Tree>) -> Option<Seq<char>> {
    if text::trimmed(answer_in(reply)).len() == 0 {
        None
    } else {
        Some(answer_in(reply))
    }
}

/// What to say, given what the agent's answer read as JSON. If the answer is blank, there is nothing
/// to say.
pub fn say(reply: &Option<Json>) -> (r: Option<String>)
    ensures
        text::opt_text(r) == said(
            match *reply {
                Some(j) => Some(j@),
                None => None,
            },
        ),
{
    let answer: String = match reply {
        Some(t) => match t.string_at("response") {
            Some(s) => s,
            None => t.str_or("content", ""),
        },
        None => String::new(),
    };
    if text::is_blank(answer.as_str()) {
        None
    } else {
        Some(answer)
    }
}

/// What to say to an agent's answer. If the answer is blank, there is nothing to say.
pub fn hear_agent(reply: &str) -> (r: Option<String>)
    ensures
        text::opt_text(r) == said(json::parsed(reply@)),
{
    let read = json::parse_json(reply);
    say(&read)
}

} // verus!
