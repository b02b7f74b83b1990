//! The models hold what the values hold: each field, each item and each variant.

use crate::discord_types::{
    ActionRow, Component, ComponentView, DiscordEmbed, EmbedField, EmbedFooter, SelectOption,
};
use crate::discord_types;
use crate::gateway::{Action, ActionView};
use crate::gateway;
use crate::json;
use crate::json::{Json, Tree};
use crate::requests;
use crate::requests::{ApiRequest, Body, BodyView};
use crate::rich;
use crate::rich::{
    BlockView, FallbackStep, FallbackView, PlanView, RichPlan, RichStep, StepView,
};
use crate::send::{SendPlan, SendView};
use crate::stream;
use crate::stream::{InputView, StreamAction, StreamActionView, StreamEvent, StreamInput};
use crate::types;
use crate::types::{ChannelContent, ChannelMessage, ChannelUser, Incoming, RichBlock};
use crate::voice::{AudioCompleteEvent, VoiceConnection, VoiceState};
use vstd::prelude::*;

verus! {

// ---------------------------------------------------------------- JSON

/// A member of an object is found by its key; nothing is found in what is no object.
pub proof fn members_are_found_by_key(t: Tree, m: Map<Seq<char>, Tree>, key: Seq<char>)
    ensures
        m.dom().contains(key) ==> Tree::Object(m).get(key) == Some(m[key]),
        m.dom().contains(key) ==> Tree::Object(m).at(key) == m[key],
        !m.dom().contains(key) ==> Tree::Object(m).get(key) is None,
        !m.dom().contains(key) ==> Tree::Object(m).at(key) == Tree::Null,
        !(t is Object) ==> t.get(key) is None && t.at(key) == Tree::Null,
{
}

/// What a member holds is read as it is, and only as what it is.
pub proof fn members_are_read_as_they_are(t: Tree, key: Seq<char>, or: Seq<char>)
    ensures
        t.at(key) matches Tree::Str(s) ==> t.str_at(key) == Some(s) && t.str_or(key, or) == s
            && t.at(key).as_str() == Some(s),
        !(t.at(key) is Str) ==> t.str_at(key) is None && t.str_or(key, or) == or,
        t.at(key) matches Tree::Number(n) ==> t.u64_at(key) == n,
        !(t.at(key) is Number) ==> t.u64_at(key) is None,
        t.at(key) matches Tree::Bool(b) ==> t.bool_at(key) == Some(b),
        !(t.at(key) is Bool) ==> t.bool_at(key) is None,
        t.at(key) matches Tree::Array(items) ==> t.array_at(key) == Some(items),
        !(t.at(key) is Array) ==> t.array_at(key) is None,
{
}

/// A member is added to an object without touching the others.
pub proof fn members_are_added(m: Map<Seq<char>, Tree>, key: Seq<char>, value: Tree, n: int)
    ensures
        Tree::Object(m).with(key, value) == Tree::Object(m.insert(key, value)),
        json::obj() == Tree::Object(Map::empty()),
        0 <= n <= u64::MAX ==> json::num(n) == Tree::Number(Some(n as u64)),
{
}

/// A value can be written out if and only if all that it holds can, down to its numbers, which have to
/// be known.
pub proof fn values_are_writable_part_by_part(
    items: Vec<Json>,
    entries: Vec<(String, Json)>,
    n: Option<u64>,
    s: String,
    b: bool,
)
    ensures
        json::writable(Json::Number(n)) <==> n is Some,
        json::writable(Json::Null) && json::writable(Json::Bool(b)) && json::writable(Json::Str(s)),
        json::writable(Json::Array(items)) <==> forall|i: int|
            0 <= i < items@.len() ==> json::writable(#[trigger] items@[i]),
        json::writable(Json::Object(entries)) <==> forall|i: int|
            0 <= i < entries@.len() ==> json::writable((#[trigger] entries@[i]).1),
{
    let a = Json::Array(items);
    let o = Json::Object(entries);
    if json::writable(a) {
        assert forall|i: int| 0 <= i < items@.len() implies json::writable(#[trigger] items@[i]) by {
            assert(decreases_to!(a => a->Array_0));
            assert(decreases_to!(items => items@));
            assert(decreases_to!(items@ => items@[i]));
        }
    }
    if json::writable(o) {
        assert forall|i: int| 0 <= i < entries@.len() implies json::writable(
            (#[trigger] entries@[i]).1,
        ) by {
            assert(decreases_to!(o => o->Object_0));
            assert(decreases_to!(entries => entries@));
            assert(decreases_to!(entries@ => entries@[i]));
            assert(decreases_to!(entries@[i] => entries@[i].1));
        }
    }
}

/// A value holds its items one by one and in order, and its texts, numbers and truth values as they
/// are.
pub proof fn values_hold_their_items(items: Vec<Json>, s: String, n: Option<u64>, b: bool)
    ensures
        Json::Null@ == Tree::Null,
        Json::Bool(b)@ == Tree::Bool(b),
        Json::Number(n)@ == Tree::Number(n),
        Json::Str(s)@ == Tree::Str(s@),
        Json::Array(items)@ matches Tree::Array(held) && held.len() == items@.len() && forall|i: int|
            0 <= i < items@.len() ==> #[trigger] held[i] == items@[i]@,
{
    json::lemma_trees(items@);
}

/// An object holds each entry that no later one replaces, under its key, and nothing else.
pub proof fn objects_hold_their_entries(entries: Vec<(String, Json)>, i: int, key: Seq<char>)
    requires
        -1 <= i,
        forall|k: int| i < k < entries@.len() ==> (#[trigger] entries@[k]).0@ != key,
    ensures
        Json::Object(entries)@ matches Tree::Object(m) && {
            &&& 0 <= i < entries@.len() && entries@[i].0@ == key ==> m.dom().contains(key)
                && m[key] == entries@[i].1@
            &&& i == -1 ==> !m.dom().contains(key)
        },
{
    lemma_entries(entries@, i, key);
}

proof fn lemma_entries(entries: Seq<(String, Json)>, i: int, key: Seq<char>)
    requires
        -1 <= i,
        forall|k: int| i < k < entries.len() ==> (#[trigger] entries[k]).0@ != key,
    ensures
        0 <= i < entries.len() && entries[i].0@ == key ==> json::members(entries).dom().contains(key)
            && json::members(entries)[key] == entries[i].1@,
        i == -1 ==> !json::members(entries).dom().contains(key),
    decreases entries.len(),
{
    if entries.len() > 0 {
        let front = entries.drop_last();
        if i < entries.len() - 1 {
            assert(entries[entries.len() - 1].0@ != key);
            assert forall|k: int| i < k < front.len() implies (#[trigger] front[k]).0@ != key by {
                assert(front[k] == entries[k]);
            }
            lemma_entries(front, i, key);
        }
    }
}

// ---------------------------------------------------------------- embeds and components

/// An embed holds its parts, and its fields one by one.
pub proof fn embeds_hold_their_parts(e: DiscordEmbed, f: EmbedField, t: EmbedFooter)
    ensures
        e.title matches Some(s) ==> e@.title == Some(s@),
        e.title is None ==> e@.title is None,
        e.description matches Some(s) ==> e@.description == Some(s@),
        e.description is None ==> e@.description is None,
        e@.color == e.color,
        e@.fields.len() == e.fields@.len(),
        forall|i: int| 0 <= i < e.fields@.len() ==> #[trigger] e@.fields[i] == e.fields@[i]@,
        e.image matches Some(m) ==> e@.image == Some(m.url@),
        e.image is None ==> e@.image is None,
        e.thumbnail matches Some(m) ==> e@.thumbnail == Some(m.url@),
        e.thumbnail is None ==> e@.thumbnail is None,
        e.footer matches Some(x) ==> e@.footer == Some(x@),
        e.footer is None ==> e@.footer is None,
        e.url matches Some(s) ==> e@.url == Some(s@),
        e.url is None ==> e@.url is None,
        f@.name == f.name@ && f@.value == f.value@ && f@.inline == f.inline,
        t@.text == t.text@,
        t.icon_url matches Some(s) ==> t@.icon_url == Some(s@),
        t.icon_url is None ==> t@.icon_url is None,
{
}

/// A row holds its components one by one, a component its parts, and a menu its options.
pub proof fn components_hold_their_parts(r: ActionRow, c: Component, o: SelectOption)
    ensures
        r@.component_type == r.component_type,
        r@.components.len() == r.components@.len(),
        forall|i: int|
            0 <= i < r.components@.len() ==> #[trigger] r@.components[i] == r.components@[i]@,
        c matches Component::Button { component_type, style, label, custom_id } ==> c@
            == (ComponentView::Button {
            component_type,
            style,
            label: label@,
            custom_id: custom_id@,
        }),
        c matches Component::SelectMenu {
            component_type,
            custom_id,
            placeholder,
            options,
            min_values,
            max_values,
        } ==> (c@ matches ComponentView::SelectMenu {
            component_type: vt,
            custom_id: vc,
            placeholder: vp,
            options: vo,
            min_values: vmin,
            max_values: vmax,
        } && {
            &&& vt == component_type && vc == custom_id@ && vmin == min_values && vmax == max_values
            &&& placeholder matches Some(s) ==> vp == Some(s@)
            &&& placeholder is None ==> vp is None
            &&& vo.len() == options@.len()
            &&& forall|i: int| 0 <= i < options@.len() ==> #[trigger] vo[i] == options@[i]@
        }),
        o@.label == o.label@ && o@.value == o.value@ && o@.default == o.default,
        o.description matches Some(s) ==> o@.description == Some(s@),
        o.description is None ==> o@.description is None,
{
}

// ---------------------------------------------------------------- rich blocks

/// A block holds its parts, and its fields, buttons and images one by one.
pub proof fn blocks_hold_their_parts(b: RichBlock, blocks: Seq<RichBlock>)
    ensures
        b matches RichBlock::Embed { title, description, color, fields, image_url, footer } ==> (b@
            matches BlockView::Embed {
            title: vt,
            description: vd,
            color: vc,
            fields: vf,
            image_url: vi,
            footer: vo,
        } && {
            &&& title matches Some(s) ==> vt == Some(s@)
            &&& title is None ==> vt is None
            &&& vd == description@ && vc == color
            &&& vf.len() == fields@.len()
            &&& forall|i: int|
                0 <= i < fields@.len() ==> #[trigger] vf[i] == (
                    fields@[i].0@,
                    fields@[i].1@,
                    fields@[i].2,
                )
            &&& image_url matches Some(s) ==> vi == Some(s@)
            &&& image_url is None ==> vi is None
            &&& footer matches Some(s) ==> vo == Some(s@)
            &&& footer is None ==> vo is None
        }),
        b matches RichBlock::Buttons { text, buttons } ==> (b@ matches BlockView::Buttons {
            text: vt,
            buttons: vb,
        } && {
            &&& vt == text@
            &&& vb.len() == buttons@.len()
            &&& forall|i: int|
                0 <= i < buttons@.len() ==> #[trigger] vb[i] == (buttons@[i].0@, buttons@[i].1@)
        }),
        b matches RichBlock::PlainText(t) ==> b@ == BlockView::PlainText(t@),
        b matches RichBlock::ImageGallery { images } ==> (b@ matches BlockView::ImageGallery {
            images: vi,
        } && {
            &&& vi.len() == images@.len()
            &&& forall|i: int|
                0 <= i < images@.len() ==> (#[trigger] vi[i]).0 == images@[i].0@ && (
                images@[i].1 matches Some(s) ==> vi[i].1 == Some(s@)) && (images@[i].1 is None
                    ==> vi[i].1 is None)
        }),
        b matches RichBlock::Section { text, thumbnail_url } ==> (b@ matches BlockView::Section {
            text: vt,
            thumbnail_url: vu,
        } && {
            &&& vt == text@
            &&& thumbnail_url matches Some(s) ==> vu == Some(s@)
            &&& thumbnail_url is None ==> vu is None
        }),
        rich::block_views(blocks).len() == blocks.len(),
        forall|i: int| 0 <= i < blocks.len() ==> #[trigger] rich::block_views(blocks)[i] == blocks[i]@,
{
}

/// A plan for blocks holds its steps one by one.
pub proof fn plans_hold_their_steps(
    steps: Vec<RichStep>,
    fallbacks: Seq<FallbackStep>,
    r: ApiRequest,
    t: String,
)
    ensures
        RichPlan::Layout(r)@ == PlanView::Layout(r@),
        RichPlan::Steps(steps)@ matches PlanView::Steps(held) && held.len() == steps@.len()
            && forall|i: int| 0 <= i < steps@.len() ==> #[trigger] held[i] == steps@[i]@,
        RichStep::Request(r)@ == StepView::Request(r@),
        RichStep::Text(t)@ == StepView::Text(t@),
        FallbackStep::Embed(r)@ == FallbackView::Embed(r@),
        FallbackStep::Text(t)@ == FallbackView::Text(t@),
        FallbackStep::Buttons(r)@ == FallbackView::Buttons(r@),
        rich::fallback_views(fallbacks).len() == fallbacks.len(),
        forall|i: int|
            0 <= i < fallbacks.len() ==> #[trigger] rich::fallback_views(fallbacks)[i]
                == fallbacks[i]@,
{
}

/// A plan for a message holds what is to be sent.
pub proof fn send_plans_hold_their_parts(p: SendPlan)
    ensures
        p is Nothing ==> p@ is Nothing,
        p matches SendPlan::Text(t) ==> p@ == SendView::Text(t@),
        p matches SendPlan::Request(r) ==> p@ == SendView::Request(r@),
        p matches SendPlan::Upload { url, filename, caption, otherwise } ==> p@
            == (SendView::Upload {
            url: url@,
            filename: filename@,
            caption: caption@,
            otherwise: otherwise@,
        }),
        p matches SendPlan::Rich { plan, blocks, fallback_text } ==> p@ == (SendView::Rich {
            plan: plan@,
            blocks: rich::block_views(blocks@),
            fallback_text: fallback_text@,
        }),
{
}

// ---------------------------------------------------------------- requests

/// A request holds its method, address, headers and body.
pub proof fn requests_hold_their_parts(r: ApiRequest, j: Json, rs: Seq<ApiRequest>)
    ensures
        r@.method == r.method,
        r@.url == r.url@,
        r@.headers.len() == r.headers@.len(),
        forall|i: int|
            0 <= i < r.headers@.len() ==> #[trigger] r@.headers[i] == (
                r.headers@[i].0@,
                r.headers@[i].1@,
            ),
        r@.body == r.body@,
        Body::Empty@ is Empty,
        Body::Json(j)@ == BodyView::Json(j@),
        r.body matches Body::File { part, filename, mime, bytes, payload_json } ==> (r@.body
            matches BodyView::File {
            part: vp,
            filename: vf,
            mime: vm,
            bytes: vb,
            payload_json: vj,
        } && {
            &&& vp == part@ && vf == filename@ && vm == mime@ && vb == bytes@
            &&& payload_json matches Some(s) ==> vj == Some(s@)
            &&& payload_json is None ==> vj is None
        }),
        requests::request_views(rs).len() == rs.len(),
        forall|i: int| 0 <= i < rs.len() ==> #[trigger] requests::request_views(rs)[i] == rs[i]@,
{
}

// ---------------------------------------------------------------- messages

/// A message holds its parts, and a command its arguments one by one.
pub proof fn messages_hold_their_parts(
    m: ChannelMessage,
    u: ChannelUser,
    t: String,
    name: String,
    args: Vec<String>,
)
    ensures
        m@.channel == m.channel,
        m@.platform_message_id == m.platform_message_id@,
        m@.sender == m.sender@,
        m@.content == types::incoming(m.content),
        m.target_agent matches Some(s) ==> m@.target_agent == Some(s@),
        m.target_agent is None ==> m@.target_agent is None,
        m@.timestamp == m.timestamp,
        m@.is_group == m.is_group,
        m.thread_id matches Some(s) ==> m@.thread_id == Some(s@),
        m.thread_id is None ==> m@.thread_id is None,
        Json::Object(m.metadata)@ == Tree::Object(m@.metadata),
        u@.platform_id == u.platform_id@,
        u@.display_name == u.display_name@,
        u.openfang_user matches Some(s) ==> u@.openfang_user == Some(s@),
        u.openfang_user is None ==> u@.openfang_user is None,
        types::incoming(ChannelContent::Text(t)) == Some(Incoming::Text(t@)),
        types::incoming(ChannelContent::Command { name, args }) matches Some(
            Incoming::Command { name: vn, args: va },
        ) && {
            &&& vn == name@
            &&& va.len() == args@.len()
            &&& forall|i: int| 0 <= i < args@.len() ==> #[trigger] va[i] == args@[i]@
        },
{
}

// ---------------------------------------------------------------- sessions

/// An action holds what is to be done, and a list of them each in its place.
pub proof fn actions_hold_their_parts(a: Action, actions: Seq<Action>)
    ensures
        a matches Action::Send(f) ==> a@ == ActionView::Send(f@),
        a matches Action::Handshake { frame, interval } ==> a@ == (ActionView::Handshake {
            frame: frame@,
            interval,
        }),
        a matches Action::Request(r) ==> a@ == ActionView::Request(r@),
        a matches Action::Deliver(m) ==> a@ == ActionView::Deliver(m@),
        a matches Action::ConnectVoice { connection, bot_user_id } ==> a@
            == (ActionView::ConnectVoice { connection: connection@, bot_user_id }),
        a matches Action::LeaveVoice(g) ==> a@ == ActionView::LeaveVoice(g@),
        a is Reconnect ==> a@ is Reconnect,
        gateway::action_views(actions).len() == actions.len(),
        forall|i: int|
            0 <= i < actions.len() ==> #[trigger] gateway::action_views(actions)[i] == actions[i]@,
{
}

/// A voice state, a voice connection and a recording hold their parts.
pub proof fn voice_values_hold_their_parts(
    s: VoiceState,
    c: VoiceConnection,
    e: AudioCompleteEvent,
)
    ensures
        s@.user_id == s.user_id@ && s@.guild_id == s.guild_id@,
        s.channel_id matches Some(x) ==> s@.channel_id == Some(x@),
        s.channel_id is None ==> s@.channel_id is None,
        s@.self_mute == s.self_mute && s@.self_deaf == s.self_deaf,
        c@.guild_id == c.guild_id@ && c@.channel_id == c.channel_id@ && c@.ssrc == c.ssrc,
        c.session_id matches Some(x) ==> c@.session_id == Some(x@),
        c.session_id is None ==> c@.session_id is None,
        c.endpoint matches Some(x) ==> c@.endpoint == Some(x@),
        c.endpoint is None ==> c@.endpoint is None,
        c.token matches Some(x) ==> c@.token == Some(x@),
        c.token is None ==> c@.token is None,
        e@.ssrc == e.ssrc && e@.user_id == e.user_id && e@.samples == e.samples@,
{
}

// ---------------------------------------------------------------- streams

/// Events, inputs and actions of a stream hold their texts.
pub proof fn stream_values_hold_their_texts(
    e: StreamEvent,
    i: StreamInput,
    a: StreamAction,
    actions: Seq<StreamAction>,
)
    ensures
        e@.kind == e.kind@ && e@.data == e.data@,
        i matches StreamInput::Content(s) ==> i@ == InputView::Content(s@),
        i matches StreamInput::Tool(s) ==> i@ == InputView::Tool(s@),
        i matches StreamInput::Phase(s) ==> i@ == InputView::Phase(s@),
        i is Done ==> i@ is Done,
        i is Ignored ==> i@ is Ignored,
        a matches StreamAction::Edit(s) ==> a@ == StreamActionView::Edit(s@),
        a matches StreamAction::Final(s) ==> a@ == StreamActionView::Final(s@),
        a matches StreamAction::React(s) ==> a@ == StreamActionView::React(s@),
        a matches StreamAction::Unreact(s) ==> a@ == StreamActionView::Unreact(s@),
        stream::stream_views(actions).len() == actions.len(),
        forall|k: int|
            0 <= k < actions.len() ==> #[trigger] stream::stream_views(actions)[k] == actions[k]@,
{
}

/// Lists of fields, options, components and rows are taken item by item.
pub proof fn lists_of_parts_are_taken_item_by_item(
    fields: Seq<EmbedField>,
    options: Seq<SelectOption>,
    components: Seq<Component>,
    rows: Seq<ActionRow>,
)
    ensures
        discord_types::field_views(fields).len() == fields.len(),
        forall|i: int|
            0 <= i < fields.len() ==> #[trigger] discord_types::field_views(fields)[i] == fields[i]@,
        discord_types::option_views(options).len() == options.len(),
        forall|i: int|
            0 <= i < options.len() ==> #[trigger] discord_types::option_views(options)[i]
                == options[i]@,
        discord_types::component_views(components).len() == components.len(),
        forall|i: int|
            0 <= i < components.len() ==> #[trigger] discord_types::component_views(components)[i]
                == components[i]@,
        discord_types::row_views(rows).len() == rows.len(),
        forall|i: int| 0 <= i < rows.len() ==> #[trigger] discord_types::row_views(rows)[i] == rows[i]@,
{
}

} // verus!
