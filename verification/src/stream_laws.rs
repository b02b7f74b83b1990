//! What holds of an answer that comes in as a stream of events, from the text of the stream to the
//! message that is shown.

use crate::json;
use crate::json::Tree;
use crate::requests::{BodyView, Method};
use crate::stream;
use crate::stream::{EventView, InputView, StreamActionView, StreamPhase, StreamView};
use crate::text;
use crate::text_laws;
use vstd::prelude::*;

verus! {

// ---------------------------------------------------------------- events

proof fn lemma_kinds_differ()
    ensures
        "chunk"@ != "done"@,
        "tool_use"@ != "done"@,
        "tool_use"@ != "chunk"@,
        "phase"@ != "done"@,
        "phase"@ != "chunk"@,
        "phase"@ != "tool_use"@,
{
    reveal_strlit("done");
    reveal_strlit("chunk");
    reveal_strlit("tool_use");
    reveal_strlit("phase");
    assert("done"@.len() == 4);
    assert("chunk"@.len() == 5);
    assert("tool_use"@.len() == 8);
    assert("phase"@.len() == 5);
    assert("phase"@[0] != "chunk"@[0]);
}

/// A chunk with a text under `content` adds exactly that text to the answer.
pub proof fn chunks_carry_their_content(m: Map<Seq<char>, Tree>, content: Seq<char>)
    requires
        m.dom().contains("content"@),
        m["content"@] == Tree::Str(content),
    ensures
        stream::input_of("chunk"@, Some(Tree::Object(m))) == InputView::Content(content),
{
    lemma_kinds_differ();
}

/// The use of a tool names the tool, and a phase names the phase, as the event gives it.
pub proof fn tools_and_phases_are_named(m: Map<Seq<char>, Tree>, name: Seq<char>)
    ensures
        m.dom().contains("tool"@) && m["tool"@] == Tree::Str(name) ==> stream::input_of(
            "tool_use"@,
            Some(Tree::Object(m)),
        ) == InputView::Tool(name),
        m.dom().contains("phase"@) && m["phase"@] == Tree::Str(name) ==> stream::input_of(
            "phase"@,
            Some(Tree::Object(m)),
        ) == InputView::Phase(name),
{
    lemma_kinds_differ();
}

/// The answer is complete at the event that says so, whatever its data, and at no other.
pub proof fn only_done_completes(kind: Seq<char>, data: Option<Tree>)
    ensures
        stream::input_of(kind, data) is Done <==> kind == "done"@,
        stream::input_of(kind, data) is Content ==> kind == "chunk"@ && data is Some,
        stream::input_of(kind, data) is Tool ==> kind == "tool_use"@ && data is Some,
{
    lemma_kinds_differ();
}

/// A chunk without a text, a tool without a name and anything that is no JSON say nothing; nor do
/// events of other kinds.
pub proof fn events_without_meaning_are_ignored(kind: Seq<char>, data: Option<Tree>)
    requires
        kind != "done"@,
    ensures
        data is None ==> stream::input_of(kind, data) == InputView::Ignored,
        kind == "chunk"@ && (data matches Some(t) && t.str_at("content"@) is None)
            ==> stream::input_of(kind, data) == InputView::Ignored,
        kind == "tool_use"@ && (data matches Some(t) && t.str_at("tool"@) is None)
            ==> stream::input_of(kind, data) == InputView::Ignored,
        kind == "phase"@ && (data matches Some(t) && t.str_at("phase"@) is None)
            ==> stream::input_of(kind, data) == InputView::Phase(""@),
        kind != "chunk"@ && kind != "tool_use"@ && kind != "phase"@ ==> stream::input_of(kind, data)
            == InputView::Ignored,
{
    lemma_kinds_differ();
}

/// The event is a chunk that carries the text.
pub open spec fn is_chunk(e: EventView, content: Seq<char>) -> bool {
    &&& e.kind == "chunk"@
    &&& json::parsed(e.data) matches Some(Tree::Object(m))
    &&& m.dom().contains("content"@)
    &&& m["content"@] == Tree::Str(content)
}

/// The event carries no part of the answer, and does not complete it.
pub open spec fn is_silent(e: EventView) -> bool {
    e.kind != "chunk"@ && e.kind != "done"@
}

/// What the events say.
pub open spec fn inputs_of(events: Seq<EventView>) -> Seq<InputView> {
    Seq::new(
        events.len(),
        |i: int| stream::input_of(events[i].kind, json::parsed(events[i].data)),
    )
}

/// The texts put together.
pub open spec fn put_together(parts: Seq<Seq<char>>) -> Seq<char>
    decreases parts.len(),
{
    if parts.len() == 0 {
        Seq::empty()
    } else {
        put_together(parts.drop_last()) + parts.last()
    }
}

proof fn lemma_events_add_up(
    s: StreamView,
    events: Seq<EventView>,
    parts: Seq<Seq<char>>,
    due: Seq<bool>,
)
    requires
        parts.len() == events.len(),
        forall|i: int|
            0 <= i < events.len() ==> is_chunk(#[trigger] events[i], parts[i]) || (is_silent(
                events[i],
            ) && parts[i].len() == 0),
    ensures
        stream::after_inputs(s, inputs_of(events), due).accumulated == s.accumulated + put_together(
            parts,
        ),
    decreases events.len(),
{
    lemma_kinds_differ();
    if events.len() > 0 {
        let front = events.drop_last();
        let few = parts.drop_last();
        let n = events.len() - 1;
        assert forall|i: int| 0 <= i < front.len() implies is_chunk(#[trigger] front[i], few[i]) || (
        is_silent(front[i]) && few[i].len() == 0) by {
            assert(front[i] == events[i]);
        }
        lemma_events_add_up(s, front, few, due);
        assert(inputs_of(events).drop_last() =~= inputs_of(front));
        let e = events[n];
        assert(inputs_of(events).last() == stream::input_of(e.kind, json::parsed(e.data)));
        assert(is_chunk(e, parts[n]) || (is_silent(e) && parts[n].len() == 0));
        assert(s.accumulated + put_together(few) + parts[n] =~= s.accumulated + put_together(parts));
    } else {
        assert(inputs_of(events) =~= Seq::<InputView>::empty());
        assert(s.accumulated + put_together(parts) =~= s.accumulated);
    }
}

/// The answer is the texts of the chunks, put together character for character, whatever other
/// events come between them; the final message shows all of it.
pub proof fn the_answer_is_the_chunks(
    s: StreamView,
    events: Seq<EventView>,
    parts: Seq<Seq<char>>,
    due: Seq<bool>,
    data: Option<Tree>,
    last: bool,
)
    requires
        s.accumulated.len() == 0,
        parts.len() == events.len(),
        forall|i: int|
            0 <= i < events.len() ==> is_chunk(#[trigger] events[i], parts[i]) || (is_silent(
                events[i],
            ) && parts[i].len() == 0),
        put_together(parts).len() > 0,
    ensures
        ({
            let known = stream::after_inputs(s, inputs_of(events), due);
            let step = stream::on_input(known, stream::input_of("done"@, data), last);
            &&& known.accumulated == put_together(parts)
            &&& step.done
            &&& exists|i: int|
                0 <= i < step.actions.len() && #[trigger] step.actions[i]
                    == StreamActionView::Final(put_together(parts))
        }),
{
    lemma_events_add_up(s, events, parts, due);
    assert(s.accumulated + put_together(parts) =~= put_together(parts));
    let known = stream::after_inputs(s, inputs_of(events), due);
    let step = stream::on_input(known, stream::input_of("done"@, data), last);
    assert(step.actions[3] == StreamActionView::Final(put_together(parts)));
}

// ---------------------------------------------------------------- the text of the stream

proof fn lemma_one_line(line: Seq<char>)
    requires
        !line.contains('\n'),
        line.len() > 0,
    ensures
        text::lines_of(line) == seq![line],
{
    text_laws::lines_follow_one_another(line, Seq::empty());
}

proof fn lemma_no_break(a: Seq<char>, b: Seq<char>)
    requires
        !a.contains('\n'),
        !b.contains('\n'),
    ensures
        !(a + b).contains('\n'),
{
    if (a + b).contains('\n') {
        let i = choose|i: int| 0 <= i < (a + b).len() && (a + b)[i] == '\n';
        if i < a.len() {
            assert(a[i] == '\n');
        } else {
            assert(b[i - a.len()] == '\n');
        }
    }
}

/// An event is written as a line with its kind and a line with its data. It is read as it is
/// written.
pub proof fn events_are_read_as_written(kind: Seq<char>, data: Seq<char>)
    requires
        !kind.contains('\n') && !data.contains('\n'),
        kind.len() == 0 || kind[kind.len() - 1] != '\r',
    ensures
        stream::event_of("event: "@ + kind + seq!['\n'] + ("data: "@ + data)) == (EventView {
            kind,
            data,
        }),
{
    reveal_strlit("event: ");
    reveal_strlit("data: ");
    let first = "event: "@ + kind;
    let second = "data: "@ + data;
    lemma_no_break("event: "@, kind);
    lemma_no_break("data: "@, data);
    lemma_one_line(second);
    text_laws::lines_follow_one_another(first, second);
    let block = "event: "@ + kind + seq!['\n'] + ("data: "@ + data);
    assert(text_laws::without_return(first) == first) by {
        if kind.len() == 0 {
            assert(first =~= "event: "@);
        } else {
            assert(first[first.len() - 1] == kind[kind.len() - 1]);
        }
    }
    let lines = seq![first, second];
    assert(text::lines_of(block) =~= lines);
    reveal_with_fuel(stream::last_field, 3);
    text_laws::standing_is_by_character(first, "event: "@, 0);
    text_laws::standing_is_by_character(second, "data: "@, 0);
    text_laws::standing_is_by_character(second, "event: "@, 0);
    assert(text_laws::occurs(first, "event: "@, 0)) by {
        assert forall|k: int| 0 <= k < "event: "@.len() implies first[0 + k]
            == #[trigger] "event: "@[k] by {}
    }
    assert(text_laws::occurs(second, "data: "@, 0)) by {
        assert forall|k: int| 0 <= k < "data: "@.len() implies second[0 + k]
            == #[trigger] "data: "@[k] by {}
    }
    assert(!text_laws::occurs(second, "event: "@, 0)) by {
        if text_laws::occurs(second, "event: "@, 0) {
            assert(second[0int + 0] == "event: "@[0]);
            assert("event: "@[0] == 'e');
            assert("data: "@[0] == 'd');
        }
    }
    assert(lines.drop_last() =~= seq![first]);
    assert(first.skip("event: "@.len() as int) =~= kind);
    assert(second.skip("data: "@.len() as int) =~= data);
}

proof fn lemma_last_field(lines: Seq<Seq<char>>, prefix: Seq<char>, k: int)
    requires
        -1 <= k < lines.len(),
        k >= 0 ==> text_laws::occurs(lines[k], prefix, 0),
        forall|j: int| k < j < lines.len() ==> !text_laws::occurs(#[trigger] lines[j], prefix, 0),
    ensures
        k >= 0 ==> stream::last_field(lines, prefix) == lines[k].skip(prefix.len() as int),
        k == -1 ==> stream::last_field(lines, prefix) == Seq::<char>::empty(),
    decreases lines.len(),
{
    if lines.len() > 0 {
        let n = lines.len() - 1;
        text_laws::standing_is_by_character(lines[n], prefix, 0);
        if k < n {
            let front = lines.drop_last();
            assert(!text_laws::occurs(lines[n], prefix, 0));
            assert forall|j: int| k < j < front.len() implies !text_laws::occurs(
                #[trigger] front[j],
                prefix,
                0,
            ) by {
                assert(front[j] == lines[j]);
            }
            lemma_last_field(front, prefix, k);
        }
    }
}

/// The kind and the data of an event are what follows `event: ` and `data: ` on the last line that
/// begins so, wherever in the block it stands, and nothing where no line does.
pub proof fn fields_stand_on_their_lines(block: Seq<char>, k: int, m: int)
    requires
        ({
            let lines = text::lines_of(block);
            &&& -1 <= k < lines.len()
            &&& -1 <= m < lines.len()
            &&& k >= 0 ==> text_laws::occurs(lines[k], "event: "@, 0)
            &&& m >= 0 ==> text_laws::occurs(lines[m], "data: "@, 0)
            &&& forall|j: int|
                k < j < lines.len() ==> !text_laws::occurs(#[trigger] lines[j], "event: "@, 0)
            &&& forall|j: int|
                m < j < lines.len() ==> !text_laws::occurs(#[trigger] lines[j], "data: "@, 0)
        }),
    ensures
        ({
            let lines = text::lines_of(block);
            let e = stream::event_of(block);
            &&& k >= 0 ==> e.kind == lines[k].skip(7)
            &&& k == -1 ==> e.kind.len() == 0
            &&& m >= 0 ==> e.data == lines[m].skip(6)
            &&& m == -1 ==> e.data.len() == 0
        }),
{
    reveal_strlit("event: ");
    reveal_strlit("data: ");
    assert("event: "@.len() == 7);
    assert("data: "@.len() == 6);
    lemma_last_field(text::lines_of(block), "event: "@, k);
    lemma_last_field(text::lines_of(block), "data: "@, m);
}

/// Two line feeds stand at `i`.
pub open spec fn ends_event(s: Seq<char>, i: int) -> bool {
    0 <= i && i + 1 < s.len() && s[i] == '\n' && s[i + 1] == '\n'
}

/// Events are parted by a blank line: the first is all that stands before it, and what stands behind
/// it is left for the next.
pub proof fn events_are_parted_by_blank_lines(block: Seq<char>, rest: Seq<char>)
    requires
        forall|i: int| !#[trigger] ends_event(block, i),
        block.len() == 0 || block[block.len() - 1] != '\n',
    ensures
        stream::first_block(block + seq!['\n', '\n'] + rest) == Some((block, rest)),
        stream::first_block(block) is None,
{
    let pat = seq!['\n', '\n'];
    let s = block + pat + rest;
    let n = block.len() as int;
    text_laws::the_first_occurrence_is_found(s, pat, 0);
    text_laws::the_first_occurrence_is_found(block, pat, 0);
    assert(text_laws::occurs(s, pat, n)) by {
        assert forall|k: int| 0 <= k < pat.len() implies s[n + k] == #[trigger] pat[k] by {}
    }
    let i = text::find_from(s, pat, 0)->0;
    if i < n {
        assert(s[i + 0] == pat[0] && s[i + 1] == pat[1]);
        assert(s[i] == block[i]);
        if i + 1 < n {
            assert(s[i + 1] == block[i + 1]);
            assert(ends_event(block, i));
        }
    }
    if let Some(j) = text::find_from(block, pat, 0) {
        assert(block[j + 0] == pat[0] && block[j + 1] == pat[1]);
        assert(ends_event(block, j));
    }
    assert(s.take(n) =~= block);
    assert(s.skip(n + 2) =~= rest);
}

// ---------------------------------------------------------------- the message

/// An edit that is due shows the answer so far: all of it with a cursor behind it while it fits, else
/// the longest beginning that fits, with dots behind it. One that is not due is left out.
pub proof fn previews_show_the_answer(s: StreamView, content: Seq<char>, due: bool)
    ensures
        ({
            let whole = s.accumulated + content;
            let step = stream::on_input(s, InputView::Content(content), due);
            &&& step.state.accumulated == whole
            &&& step.state.phase == s.phase && step.state.buffer == s.buffer
            &&& !step.done
            &&& !due ==> step.actions.len() == 0
            &&& due ==> step.actions.len() == 1
            &&& due && vstd::utf8::encode_utf8(whole).len() <= 1980 ==> step.actions[0]
                == StreamActionView::Edit(whole + "▌"@)
            &&& due && vstd::utf8::encode_utf8(whole).len() > 1980 ==> step.actions[0]
                == StreamActionView::Edit(text::within_bytes(whole, 1980) + "..."@)
        }),
{
    text::byte_len_is_utf8_len(s.accumulated + content);
}

/// An input calls for a preview that cannot be shown only if an edit is due, the answer is too long
/// for it, and no character ends where it would be cut off.
pub proof fn previews_are_cut_between_characters(s: StreamView, input: InputView, due: bool)
    ensures
        !due || !(input is Content) ==> !stream::breaks_preview(s, input, due),
        input matches InputView::Content(content) ==> due ==> {
            let whole = s.accumulated + content;
            stream::breaks_preview(s, input, due) <==> vstd::utf8::encode_utf8(whole).len() > 1980
                && !text::on_boundary(whole, 1980)
        },
{
    if let InputView::Content(content) = input {
        text::byte_len_is_utf8_len(s.accumulated + content);
    }
}

/// While a tool is used the message shows the answer so far and names the tool, and nothing of the
/// answer is touched.
pub proof fn tools_are_shown_below_the_answer(s: StreamView, tool: Seq<char>, due: bool)
    ensures
        ({
            let step = stream::on_input(s, InputView::Tool(tool), due);
            &&& step.state.accumulated == s.accumulated && step.state.buffer == s.buffer
            &&& step.state.phase == StreamPhase::ToolUse
            &&& !step.done
            &&& step.actions.len() > 0
            &&& step.actions.last() == StreamActionView::Edit(
                s.accumulated + "\n\n⚙️ *Using "@ + tool + "...*"@,
            )
            &&& s.phase == StreamPhase::ToolUse ==> step.actions.len() == 1
            &&& s.phase != StreamPhase::ToolUse ==> step.actions.len() == 3 && step.actions[0]
                == StreamActionView::Unreact("🤔"@) && step.actions[1] == StreamActionView::React(
                "⚙️"@,
            )
        }),
{
}

/// The phase of streaming is marked once, and other phases and events without meaning change nothing.
pub proof fn phases_are_marked_once(s: StreamView, phase: Seq<char>, due: bool)
    ensures
        ({
            let step = stream::on_input(s, InputView::Phase(phase), due);
            let again = stream::on_input(step.state, InputView::Phase(phase), due);
            &&& step.state.accumulated == s.accumulated && step.state.buffer == s.buffer
            &&& !step.done
            &&& phase == "streaming"@ && s.phase != StreamPhase::Streaming ==> step.actions == seq![
                StreamActionView::Unreact("⚙️"@),
                StreamActionView::React("✍️"@),
            ] && step.state.phase == StreamPhase::Streaming
            &&& phase != "streaming"@ ==> step.actions.len() == 0 && step.state == s
            &&& again.actions.len() == 0 && again.state == step.state
        }),
        stream::on_input(s, InputView::Ignored, due).actions.len() == 0,
        stream::on_input(s, InputView::Ignored, due).state == s,
        !stream::on_input(s, InputView::Ignored, due).done,
{
}

/// When the answer is complete the marks of the work go, the whole answer is shown, or that there is
/// none, and the mark of success is set last.
pub proof fn completion_shows_the_whole_answer(s: StreamView, due: bool)
    ensures
        ({
            let step = stream::on_input(s, InputView::Done, due);
            &&& step.done
            &&& step.actions.len() == 5
            &&& step.actions[0] == StreamActionView::Unreact("🤔"@)
            &&& step.actions[1] == StreamActionView::Unreact("⚙️"@)
            &&& step.actions[2] == StreamActionView::Unreact("✍️"@)
            &&& s.accumulated.len() > 0 ==> step.actions[3] == StreamActionView::Final(s.accumulated)
            &&& s.accumulated.len() == 0 ==> step.actions[3] == StreamActionView::Final(
                "*(No response)*"@,
            )
            &&& step.actions[4] == StreamActionView::React("✅"@)
            &&& s.accumulated.len() > 0 ==> step.state == s
        }),
        s.accumulated.len() > 0 ==> stream::on_end(s.accumulated) == seq![
            StreamActionView::Final(s.accumulated),
            StreamActionView::React("✅"@),
        ],
        s.accumulated.len() == 0 ==> stream::on_end(s.accumulated) == seq![
            StreamActionView::React("✅"@),
        ],
{
}

/// The agent is asked for a stream at its own address, with the key, and with the message as it is.
pub proof fn the_agent_is_asked(agent: Seq<char>, key: Seq<char>, message: Seq<char>)
    ensures
        ({
            let r = stream::stream_agent(agent, key, message);
            &&& r.method == Method::Post
            &&& r.url == "http://127.0.0.1:4200/api/agents/"@ + agent + "/message/stream"@
            &&& r.headers == seq![
                ("Authorization"@, "Bearer "@ + key),
                ("Accept"@, "text/event-stream"@),
            ]
            &&& r.body == BodyView::Json(Tree::Object(map!["message"@ => Tree::Str(message)]))
        }),
        stream::EDIT_INTERVAL_MILLIS == 800,
{
}

} // verus!
