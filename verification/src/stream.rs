//! Streaming: an agent's answer, as it comes in, in a message that is edited again and again.

use crate::json;
use crate::json::{Json, Tree};
use crate::requests;
use crate::requests::{ApiRequest, Body, BodyView, Method, RequestView};
use crate::text;
use vstd::prelude::*;
use vstd::slice::{slice_subrange, slice_to_vec};

verus! {

// ---------------------------------------------------------------- bytes

/// The text that `String::from_utf8_lossy` makes of bytes.
pub uninterp spec fn lossy(bytes: Seq<u8>) -> Seq<char>;

/// `String::from_utf8_lossy` decodes bytes that are UTF-8, and replaces what is not. How much one
/// replacement character stands for is left to the name.
#[verifier::external_body]
pub(crate) fn from_utf8_lossy(bytes: &[u8]) -> (r: String)
    ensures
        r@ == lossy(bytes@),
        vstd::utf8::valid_utf8(bytes@) ==> r@ == vstd::utf8::decode_utf8(bytes@),
{
    String::from_utf8_lossy(bytes).into_owned()
}

// ---------------------------------------------------------------- events

/// A server-sent event.
#[derive(Debug)]
pub struct StreamEvent {
    pub kind: String,
    pub data: String,
}

/// What an event holds.
pub struct EventView {
    pub kind: Seq<char>,
    pub data: Seq<char>,
}

impl View for StreamEvent {
    type V = EventView;

    open spec fn view(&self) -> EventView {
        EventView { kind: self.kind@, data: self.data@ }
    }
}

/// What follows the prefix on the last line that has it; empty where none has.
pub open spec fn last_field(lines: Seq<Seq<char>>, prefix: Seq<char>) -> Seq<char>
    decreases lines.len(),
{
    if lines.len() == 0 {
        Seq::empty()
    } else if text::has_prefix(lines.last(), prefix) {
        lines.last().skip(prefix.len() as int)
    } else {
        last_field(lines.drop_last(), prefix)
    }
}

/// The event that a block of lines gives.
pub open spec fn event_of(block: Seq<char>) -> EventView {
    EventView {
        kind: last_field(text::lines_of(block), "event: "@),
        data: last_field(text::lines_of(block), "data: "@),
    }
}

fn read_event(block: &[char]) -> (r: StreamEvent)
    ensures
        r@ == event_of(block@),
{
    let lines = text::lines(block);
    let event_prefix = text::chars_of("event: ");
    let data_prefix = text::chars_of("data: ");
    let mut kind: String = String::new();
    let mut data: String = String::new();
    let mut i: usize = 0;
    let ghost all = text::texts(lines@);
    assert(all.take(0) =~= Seq::<Seq<char>>::empty());
    while i < lines.len()
        invariant
            i <= lines@.len(),
            all == text::texts(lines@),
            event_prefix@ == "event: "@,
            data_prefix@ == "data: "@,
            kind@ == last_field(all.take(i as int), "event: "@),
            data@ == last_field(all.take(i as int), "data: "@),
        decreases lines@.len() - i,
    {
        let line = lines[i].as_slice();
        proof {
            assert(all.take(i + 1).drop_last() =~= all.take(i as int));
            assert(all.take(i + 1).last() == line@);
            reveal_strlit("event: ");
            reveal_strlit("data: ");
            assert(event_prefix@[0] == 'e');
            assert(data_prefix@[0] == 'd');
        }
        if text::at(line, event_prefix.as_slice(), 0) {
            proof {
                assert(line@.subrange(0, event_prefix@.len() as int)[0] == 'e');
                if text::has_prefix(line@, "data: "@) {
                    assert(line@.subrange(0, data_prefix@.len() as int)[0] == 'd');
                }
                assert(line@.subrange(event_prefix@.len() as int, line@.len() as int) =~= line@.skip(
                    event_prefix@.len() as int,
                ));
            }
            kind = text::string_of(slice_subrange(line, event_prefix.len(), line.len()));
        } else if text::at(line, data_prefix.as_slice(), 0) {
            proof {
                assert(line@.subrange(data_prefix@.len() as int, line@.len() as int) =~= line@.skip(
                    data_prefix@.len() as int,
                ));
            }
            data = text::string_of(slice_subrange(line, data_prefix.len(), line.len()));
        }
        i += 1;
    }
    assert(all.take(all.len() as int) =~= all);
    StreamEvent { kind, data }
}

/// What an event says.
#[derive(Debug)]
pub enum StreamInput {
    /// More of the answer.
    Content(String),
    /// The agent uses a tool.
    Tool(String),
    /// The agent has come to a new phase.
    Phase(String),
    /// The answer is complete.
    Done,
    /// Nothing of interest.
    Ignored,
}

/// What an input holds.
pub enum InputView {
    Content(Seq<char>),
    Tool(Seq<char>),
    Phase(Seq<char>),
    Done,
    Ignored,
}

impl View for StreamInput {
    type V = InputView;

    open spec fn view(&self) -> InputView {
        match *self {
            StreamInput::Content(s) => InputView::Content(s@),
            StreamInput::Tool(s) => InputView::Tool(s@),
            StreamInput::Phase(s) => InputView::Phase(s@),
            StreamInput::Done => InputView::Done,
            StreamInput::Ignored => InputView::Ignored,
        }
    }
}

/// What an event of a kind says, given what its data read as JSON.
pub open spec fn input_of(kind: Seq<char>, data: Option<Tree>) -> InputView {
    if kind == "done"@ {
        InputView::Done
    } else {
        match data {
            Some(t) => if kind == "chunk"@ {
                match t.str_at("content"@) {
                    Some(s) => InputView::Content(s),
                    None => InputView::Ignored,
                }
            } else if kind == "tool_use"@ {
                match t.str_at("tool"@) {
                    Some(s) => InputView::Tool(s),
                    None => InputView::Ignored,
                }
            } else if kind == "phase"@ {
                InputView::Phase(t.str_or("phase"@, ""@))
            } else {
                InputView::Ignored
            },
            None => InputView::Ignored,
        }
    }
}

/// What an event of a kind says, given what its data read as JSON.
pub fn interpret(kind: &str, data: &Option<Json>) -> (r: StreamInput)
    ensures
        r@ == input_of(
            kind@,
            match *data {
                Some(j) => Some(j@),
                None => None,
            },
        ),
{
    proof {
        reveal_strlit("done");
        reveal_strlit("chunk");
        reveal_strlit("tool_use");
        reveal_strlit("phase");
    }
    if text::same_text(kind, "done") {
        return StreamInput::Done;
    }
    match data {
        Some(t) => if text::same_text(kind, "chunk") {
            match t.string_at("content") {
                Some(s) => StreamInput::Content(s),
                None => StreamInput::Ignored,
            }
        } else if text::same_text(kind, "tool_use") {
            match t.string_at("tool") {
                Some(s) => StreamInput::Tool(s),
                None => StreamInput::Ignored,
            }
        } else if text::same_text(kind, "phase") {
            StreamInput::Phase(t.str_or("phase", ""))
        } else {
            StreamInput::Ignored
        },
        None => StreamInput::Ignored,
    }
}

/// What an event says.
pub fn decode(event: &StreamEvent) -> (r: StreamInput)
    ensures
        r@ == input_of(event.kind@, json::parsed(event.data@)),
{
    let data = json::parse_json(event.data.as_str());
    interpret(event.kind.as_str(), &data)
}

// ---------------------------------------------------------------- the message

/// How far the answer has come.
#[derive(Clone, Copy, Debug, PartialEq, Eq, Structural)]
pub enum StreamPhase {
    Thinking,
    ToolUse,
    Streaming,
}

/// What to do with the message that shows the answer.
#[derive(Debug)]
pub enum StreamAction {
    /// Edit the message; the next edit is to wait. A failure is ignored.
    Edit(String),
    /// Edit the message for good; what does not fit into it goes into new messages. A failure to
    /// edit is ignored, a failure to send is not.
    Final(String),
    /// Add a reaction. A failure is ignored.
    React(String),
    /// Remove a reaction. A failure is ignored.
    Unreact(String),
}

/// What an action holds.
pub enum StreamActionView {
    Edit(Seq<char>),
    Final(Seq<char>),
    React(Seq<char>),
    Unreact(Seq<char>),
}

impl View for StreamAction {
    type V = StreamActionView;

    open spec fn view(&self) -> StreamActionView {
        match *self {
            StreamAction::Edit(s) => StreamActionView::Edit(s@),
            StreamAction::Final(s) => StreamActionView::Final(s@),
            StreamAction::React(s) => StreamActionView::React(s@),
            StreamAction::Unreact(s) => StreamActionView::Unreact(s@),
        }
    }
}

/// What a list of actions holds.
pub open spec fn stream_views(actions: Seq<StreamAction>) -> Seq<StreamActionView> {
    actions.map_values(|a: StreamAction| a@)
}

/// The state of an answer that is coming in.
#[derive(Debug)]
pub struct StreamingState {
    accumulated: String,
    phase: StreamPhase,
    buffer: Vec<char>,
}

/// What the state of an answer holds.
pub struct StreamView {
    /// The answer so far.
    pub accumulated: Seq<char>,
    pub phase: StreamPhase,
    /// What has come in and is not a whole event yet.
    pub buffer: Seq<char>,
}

impl View for StreamingState {
    type V = StreamView;

    closed spec fn view(&self) -> StreamView {
        StreamView { accumulated: self.accumulated@, phase: self.phase, buffer: self.buffer@ }
    }
}

/// The most bytes of the answer that a preview shows.
pub const PREVIEW_LIMIT: usize = 1980;

/// The answer so far as it is shown: cut off if it is long, else with a cursor.
pub open spec fn preview(accumulated: Seq<char>) -> Seq<char> {
    if text::byte_len(accumulated) > PREVIEW_LIMIT {
        text::within_bytes(accumulated, PREVIEW_LIMIT as nat) + "..."@
    } else {
        accumulated + "▌"@
    }
}

/// The preview can be cut off: the cut falls between two characters.
pub open spec fn preview_cuts(accumulated: Seq<char>) -> bool {
    text::byte_len(accumulated) > PREVIEW_LIMIT ==> text::on_boundary(
        accumulated,
        PREVIEW_LIMIT as nat,
    )
}

/// A state, what to do, and whether the answer is complete.
pub struct StreamStep {
    pub state: StreamView,
    pub actions: Seq<StreamActionView>,
    pub done: bool,
}

/// What is shown where there is no answer.
pub open spec fn shown(accumulated: Seq<char>) -> Seq<char> {
    if accumulated.len() == 0 {
        "*(No response)*"@
    } else {
        accumulated
    }
}

/// What a tool in use changes.
pub open spec fn on_tool(s: StreamView, tool: Seq<char>) -> StreamStep {
    let status = StreamActionView::Edit(
        s.accumulated + "\n\n⚙️ *Using "@ + tool + "...*"@,
    );
    StreamStep {
        state: StreamView { phase: StreamPhase::ToolUse, ..s },
        actions: if s.phase == StreamPhase::ToolUse {
            seq![status]
        } else {
            seq![StreamActionView::Unreact("🤔"@), StreamActionView::React("⚙️"@), status]
        },
        done: false,
    }
}

/// What an input changes. `due` tells whether the message may be edited again already.
pub open spec fn on_input(s: StreamView, input: InputView, due: bool) -> StreamStep {
    match input {
        InputView::Content(content) => {
            let accumulated = s.accumulated + content;
            StreamStep {
                state: StreamView { accumulated, ..s },
                actions: if due {
                    seq![StreamActionView::Edit(preview(accumulated))]
                } else {
                    Seq::empty()
                },
                done: false,
            }
        },
        InputView::Tool(tool) => on_tool(s, tool),
        InputView::Phase(phase) => if phase == "streaming"@ && s.phase != StreamPhase::Streaming {
            StreamStep {
                state: StreamView { phase: StreamPhase::Streaming, ..s },
                actions: seq![StreamActionView::Unreact("⚙️"@), StreamActionView::React("✍️"@)],
                done: false,
            }
        } else {
            StreamStep { state: s, actions: Seq::empty(), done: false }
        },
        InputView::Done => StreamStep {
            state: StreamView { accumulated: shown(s.accumulated), ..s },
            actions: seq![
                StreamActionView::Unreact("🤔"@),
                StreamActionView::Unreact("⚙️"@),
                StreamActionView::Unreact("✍️"@),
                StreamActionView::Final(shown(s.accumulated)),
                StreamActionView::React("✅"@),
            ],
            done: true,
        },
        InputView::Ignored => StreamStep { state: s, actions: Seq::empty(), done: false },
    }
}

/// What to do when the stream ends without word that the answer is complete.
pub open spec fn on_end(accumulated: Seq<char>) -> Seq<StreamActionView> {
    if accumulated.len() == 0 {
        seq![StreamActionView::React("✅"@)]
    } else {
        seq![StreamActionView::Final(accumulated), StreamActionView::React("✅"@)]
    }
}

/// An input calls for a preview that cannot be cut off.
pub open spec fn breaks_preview(s: StreamView, input: InputView, due: bool) -> bool {
    due && (input matches InputView::Content(content) && !preview_cuts(s.accumulated + content))
}

fn push_action(actions: &mut Vec<StreamAction>, action: StreamAction)
    ensures
        stream_views(final(actions)@) == stream_views(old(actions)@).push(action@),
{
    proof {
        assert(stream_views(actions@.push(action)) =~= stream_views(actions@).push(action@));
    }
    actions.push(action);
}

fn preview_of(accumulated: &str) -> (r: String)
    ensures
        r@ == preview(accumulated@),
{
    let chars = text::chars_of(accumulated);
    if text::longer_than(chars.as_slice(), PREVIEW_LIMIT) {
        let n: usize = text::count_within(chars.as_slice(), PREVIEW_LIMIT);
        let mut out = text::string_of(slice_subrange(chars.as_slice(), 0, n));
        assert(chars@.subrange(0, n as int) =~= chars@.take(n as int));
        out.append("...");
        out
    } else {
        text::concat(accumulated, "▌")
    }
}

/// The block of the first event in a buffer, and what is left, if the event is whole.
pub open spec fn first_block(buffer: Seq<char>) -> Option<(Seq<char>, Seq<char>)> {
    match text::find_from(buffer, seq!['\n', '\n'], 0) {
        Some(i) => Some((buffer.take(i), buffer.skip(i + 2))),
        None => None,
    }
}

impl StreamingState {
    /// An answer of which nothing has come in.
    pub fn new() -> (r: StreamingState)
        ensures
            r@ == (StreamView {
                accumulated: Seq::empty(),
                phase: StreamPhase::Thinking,
                buffer: Seq::empty(),
            }),
    {
        StreamingState {
            accumulated: String::new(),
            phase: StreamPhase::Thinking,
            buffer: Vec::new(),
        }
    }

    /// Takes in text.
    pub fn feed_text(&mut self, chunk: &str)
        ensures
            final(self)@ == (StreamView { buffer: old(self)@.buffer + chunk@, ..old(self)@ }),
    {
        text::extend_str(&mut self.buffer, chunk);
    }

    /// Takes in bytes.
    pub fn feed(&mut self, chunk: &[u8])
        ensures
            final(self)@ == (StreamView {
                buffer: old(self)@.buffer + lossy(chunk@),
                ..old(self)@
            }),
            vstd::utf8::valid_utf8(chunk@) ==> final(self)@.buffer == old(self)@.buffer
                + vstd::utf8::decode_utf8(chunk@),
    {
        let decoded = from_utf8_lossy(chunk);
        self.feed_text(decoded.as_str());
    }

    /// Takes the next event out of what has come in, if it is whole.
    pub fn next_event(&mut self) -> (r: Option<StreamEvent>)
        ensures
            match r {
                Some(e) => first_block(old(self)@.buffer) matches Some((block, rest)) && e@
                    == event_of(block) && final(self)@ == (StreamView {
                    buffer: rest,
                    ..old(self)@
                }) && rest.len() < old(self)@.buffer.len(),
                None => first_block(old(self)@.buffer) is None && final(self)@ == old(self)@,
            },
    {
        let blank: Vec<char> = vec!['\n', '\n'];
        assert(blank@ =~= seq!['\n', '\n']);
        match text::find(self.buffer.as_slice(), blank.as_slice(), 0) {
            Some(i) => {
                let event = read_event(slice_subrange(self.buffer.as_slice(), 0, i));
                let rest = slice_to_vec(
                    slice_subrange(self.buffer.as_slice(), i + 2, self.buffer.len()),
                );
                proof {
                    let b = self.buffer@;
                    assert(b.subrange(0, i as int) =~= b.take(i as int));
                    assert(b.subrange(i + 2, b.len() as int) =~= b.skip(i + 2));
                }
                self.buffer = rest;
                Some(event)
            },
            None => None,
        }
    }

    /// Whether the preview that an input calls for can be cut off between two characters.
    pub fn can_preview(&self, input: &StreamInput, due: bool) -> (r: bool)
        ensures
            r == !breaks_preview(self@, input@, due),
    {
        if let StreamInput::Content(content) = input {
            if due {
                let whole = text::concat(self.accumulated.as_str(), content.as_str());
                let chars = text::chars_of(whole.as_str());
                return !text::longer_than(chars.as_slice(), PREVIEW_LIMIT) || text::boundary(
                    chars.as_slice(),
                    PREVIEW_LIMIT,
                );
            }
        }
        true
    }

    /// Takes in what an event says. `due` tells whether the message may be edited again already.
    /// The result is what to do, and whether the answer is complete.
    pub fn apply(&mut self, input: &StreamInput, due: bool) -> (r: (Vec<StreamAction>, bool))
        requires
            !breaks_preview(old(self)@, input@, due),
        ensures
            final(self)@ == on_input(old(self)@, input@, due).state,
            stream_views(r.0@) == on_input(old(self)@, input@, due).actions,
            r.1 == on_input(old(self)@, input@, due).done,
    {
        let mut actions: Vec<StreamAction> = Vec::new();
        let mut done: bool = false;
        assert(stream_views(actions@) =~= Seq::<StreamActionView>::empty());
        match input {
            StreamInput::Content(content) => {
                self.accumulated.append(content.as_str());
                if due {
                    let display = preview_of(self.accumulated.as_str());
                    push_action(&mut actions, StreamAction::Edit(display));
                }
            },
            StreamInput::Tool(tool) => {
                if self.phase != StreamPhase::ToolUse {
                    push_action(&mut actions, StreamAction::Unreact("🤔".to_string()));
                    push_action(&mut actions, StreamAction::React("⚙️".to_string()));
                    self.phase = StreamPhase::ToolUse;
                }
                let mut status = text::concat(self.accumulated.as_str(), "\n\n⚙️ *Using ");
                status.append(tool.as_str());
                status.append("...*");
                push_action(&mut actions, StreamAction::Edit(status));
            },
            StreamInput::Phase(phase) => {
                if text::same_text(phase.as_str(), "streaming") && self.phase
                    != StreamPhase::Streaming {
                    push_action(&mut actions, StreamAction::Unreact("⚙️".to_string()));
                    push_action(&mut actions, StreamAction::React("✍️".to_string()));
                    self.phase = StreamPhase::Streaming;
                }
            },
            StreamInput::Done => {
                push_action(&mut actions, StreamAction::Unreact("🤔".to_string()));
                push_action(&mut actions, StreamAction::Unreact("⚙️".to_string()));
                push_action(&mut actions, StreamAction::Unreact("✍️".to_string()));
                if self.accumulated.as_str().is_empty() {
                    self.accumulated = "*(No response)*".to_string();
                }
                push_action(&mut actions, StreamAction::Final(self.accumulated.clone()));
                push_action(&mut actions, StreamAction::React("✅".to_string()));
                done = true;
            },
            StreamInput::Ignored => {},
        }
        assert(stream_views(actions@) =~= on_input(old(self)@, input@, due).actions);
        (actions, done)
    }

    /// What to do when the stream ends without word that the answer is complete.
    pub fn finish(&self) -> (r: Vec<StreamAction>)
        ensures
            stream_views(r@) == on_end(self@.accumulated),
    {
        let mut actions: Vec<StreamAction> = Vec::new();
        assert(stream_views(actions@) =~= Seq::<StreamActionView>::empty());
        if !self.accumulated.as_str().is_empty() {
            push_action(&mut actions, StreamAction::Final(self.accumulated.clone()));
        }
        push_action(&mut actions, StreamAction::React("✅".to_string()));
        assert(stream_views(actions@) =~= on_end(self@.accumulated));
        actions
    }
}

// ---------------------------------------------------------------- the request

/// The headers with which an agent is asked.
pub open spec fn bearer(api_key: Seq<char>) -> (Seq<char>, Seq<char>) {
    ("Authorization"@, "Bearer "@ + api_key)
}

/// What an agent is told.
pub open spec fn message_body(message: Seq<char>) -> Tree {
    json::obj().with("message"@, Tree::Str(message))
}

/// The request that asks an agent for a stream.
pub open spec fn stream_agent(
    agent_id: Seq<char>,
    api_key: Seq<char>,
    message: Seq<char>,
) -> RequestView {
    RequestView {
        method: Method::Post,
        url: "http://127.0.0.1:4200/api/agents/"@ + agent_id + "/message/stream"@,
        headers: seq![bearer(api_key), ("Accept"@, "text/event-stream"@)],
        body: BodyView::Json(message_body(message)),
    }
}

/// Asks an agent for a stream.
pub fn stream_request(agent_id: &str, api_key: &str, message: &str) -> (r: ApiRequest)
    ensures
        r@ == stream_agent(agent_id@, api_key@, message@),
{
    let mut url = text::concat("http://127.0.0.1:4200/api/agents/", agent_id);
    url.append("/message/stream");
    let first = requests::header("Authorization", text::concat("Bearer ", api_key));
    let headers = requests::with_header(first, "Accept", "text/event-stream");
    proof {
        assert(seq![bearer(api_key@)].push(("Accept"@, "text/event-stream"@)) =~= seq![
            bearer(api_key@),
            ("Accept"@, "text/event-stream"@),
        ]);
    }
    ApiRequest {
        method: Method::Post,
        url,
        headers,
        body: Body::Json(Json::object().with("message", Json::string(message))),
    }
}

/// How long a streamed message rests between two edits, in milliseconds.
pub const EDIT_INTERVAL_MILLIS: u64 = 800;

/// Whether a message that was edited `elapsed_millis` milliseconds ago may be edited again.
pub fn edit_due(elapsed_millis: u64) -> (r: bool)
    ensures
        r == (elapsed_millis >= EDIT_INTERVAL_MILLIS),
{
    elapsed_millis >= EDIT_INTERVAL_MILLIS
}

/// What the message says before anything has come in.
pub fn opening_text() -> (r: String)
    ensures
        r@ == "🤔 *Thinking...*"@,
{
    "🤔 *Thinking...*".to_string()
}

/// The reaction to the message before anything has come in.
pub fn opening_reaction() -> (r: String)
    ensures
        r@ == "🤔"@,
{
    "🤔".to_string()
}

// ---------------------------------------------------------------- laws

/// The events in a buffer that are whole.
pub open spec fn whole_events(buffer: Seq<char>) -> Seq<EventView>
    decreases buffer.len(),
{
    match first_block(buffer) {
        Some((block, rest)) => if rest.len() < buffer.len() {
            seq![event_of(block)] + whole_events(rest)
        } else {
            Seq::empty()
        },
        None => Seq::empty(),
    }
}

/// What is left of a buffer when the whole events are taken out.
pub open spec fn remainder(buffer: Seq<char>) -> Seq<char>
    decreases buffer.len(),
{
    match first_block(buffer) {
        Some((_, rest)) => if rest.len() < buffer.len() {
            remainder(rest)
        } else {
            buffer
        },
        None => buffer,
    }
}

proof fn lemma_first_block_stays(a: Seq<char>, b: Seq<char>)
    requires
        first_block(a) is Some,
    ensures
        first_block(a + b) matches Some((block, rest)) && block == (first_block(a)->0).0 && rest
            == (first_block(a)->0).1 + b && (first_block(a)->0).1.len() < a.len(),
{
    let pat = seq!['\n', '\n'];
    text::lemma_find_from(a, pat, 0);
    text::lemma_find_from(a + b, pat, 0);
    let i = text::find_from(a, pat, 0)->0;
    assert((a + b).subrange(i, i + 2) =~= a.subrange(i, i + 2));
    assert(text::stands_at(a + b, pat, i));
    let j = text::find_from(a + b, pat, 0)->0;
    if j < i {
        assert((a + b).subrange(j, j + 2) =~= a.subrange(j, j + 2));
        assert(text::stands_at(a, pat, j));
    }
    assert(j == i);
    assert((a + b).take(i) =~= a.take(i));
    assert((a + b).skip(i + 2) =~= a.skip(i + 2) + b);
}

/// The events do not depend on the pieces that they come in: what is taken out of the first piece,
/// and then out of the rest with the second, is what is taken out of both at once.
pub proof fn pieces_do_not_matter(a: Seq<char>, b: Seq<char>)
    ensures
        whole_events(a + b) == whole_events(a) + whole_events(remainder(a) + b),
        remainder(a + b) == remainder(remainder(a) + b),
    decreases a.len(),
{
    match first_block(a) {
        Some((block, rest)) => {
            lemma_first_block_stays(a, b);
            pieces_do_not_matter(rest, b);
            assert(whole_events(a + b) =~= whole_events(a) + whole_events(remainder(a) + b));
        },
        None => {
            assert(whole_events(a) + whole_events(a + b) =~= whole_events(a + b));
        },
    }
}

/// The parts of the answer among the inputs, put together.
pub open spec fn contents(inputs: Seq<InputView>) -> Seq<char>
    decreases inputs.len(),
{
    if inputs.len() == 0 {
        Seq::empty()
    } else {
        match inputs.last() {
            InputView::Content(content) => contents(inputs.drop_last()) + content,
            _ => contents(inputs.drop_last()),
        }
    }
}

/// The state after a number of inputs.
pub open spec fn after_inputs(s: StreamView, inputs: Seq<InputView>, due: Seq<bool>) -> StreamView
    decreases inputs.len(),
{
    if inputs.len() == 0 {
        s
    } else {
        on_input(
            after_inputs(s, inputs.drop_last(), due),
            inputs.last(),
            due[inputs.len() - 1],
        ).state
    }
}

/// No input says that the answer is complete.
pub open spec fn unfinished(inputs: Seq<InputView>) -> bool {
    forall|i: int| 0 <= i < inputs.len() ==> !(#[trigger] inputs[i] is Done)
}

/// Nothing of the answer is lost, whatever comes in between and however often the message is
/// edited.
pub proof fn answer_is_complete(s: StreamView, inputs: Seq<InputView>, due: Seq<bool>)
    requires
        unfinished(inputs),
    ensures
        after_inputs(s, inputs, due).accumulated == s.accumulated + contents(inputs),
    decreases inputs.len(),
{
    if inputs.len() > 0 {
        let front = inputs.drop_last();
        assert forall|i: int| 0 <= i < front.len() implies !(#[trigger] front[i] is Done) by {
            assert(front[i] == inputs[i]);
        }
        assert(!(inputs[inputs.len() - 1] is Done));
        answer_is_complete(s, front, due);
        assert(after_inputs(s, inputs, due).accumulated =~= s.accumulated + contents(inputs));
    } else {
        assert(s.accumulated + contents(inputs) =~= s.accumulated);
    }
}

/// When the answer is complete, the message shows all of it, or says that there is none.
pub proof fn whole_answer_is_shown(
    s: StreamView,
    inputs: Seq<InputView>,
    due: Seq<bool>,
    last: bool,
)
    requires
        s.accumulated.len() == 0,
        unfinished(inputs),
    ensures
        ({
            let step = on_input(after_inputs(s, inputs, due), InputView::Done, last);
            &&& step.done
            &&& step.actions[3] == StreamActionView::Final(shown(contents(inputs)))
        }),
{
    answer_is_complete(s, inputs, due);
    assert(s.accumulated + contents(inputs) =~= contents(inputs));
}

/// A preview fits into a message.
pub proof fn previews_fit(accumulated: Seq<char>)
    ensures
        text::byte_len(preview(accumulated)) <= 2000,
{
    reveal_strlit("...");
    reveal_strlit("▌");
    text::lemma_byte_len_add(accumulated, "▌"@);
    text::lemma_byte_len_bounds("▌"@);
    text::lemma_byte_len_bounds("..."@);
    let head = text::within_bytes(accumulated, PREVIEW_LIMIT as nat);
    text::lemma_within_bytes_fits(accumulated, PREVIEW_LIMIT as nat);
    text::lemma_byte_len_add(head, "..."@);
}

/// The reactions for a tool in use are set once: a second tool only changes the text.
pub proof fn tool_reactions_are_set_once(
    s: StreamView,
    first: Seq<char>,
    second: Seq<char>,
    due: bool,
)
    ensures
        ({
            let step = on_input(
                on_input(s, InputView::Tool(first), due).state,
                InputView::Tool(second),
                due,
            );
            step.actions.len() == 1 && step.actions[0] is Edit
        }),
{
}

} // verus!
