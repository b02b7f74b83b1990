//! What holds of every session with the gateway.

use crate::adapter::AdapterView;
use crate::gateway;
use crate::gateway::{ActionView, SessionView};
use crate::json::Tree;
use crate::parse;
use crate::requests;
use crate::requests::RequestView;
use crate::types::Timestamp;
use crate::voice::{ConnectionView, VoiceStateView};
use vstd::prelude::*;

verus! {

// ---------------------------------------------------------------- waiting

/// The wait is between one second and a minute.
pub open spec fn wait_in_bounds(s: SessionView) -> bool {
    gateway::INITIAL_BACKOFF <= s.backoff <= gateway::MAX_BACKOFF
}

/// A session begins with a wait in bounds, and whatever happens keeps it there.
pub proof fn wait_stays_in_bounds(
    url: Seq<char>,
    s: SessionView,
    a: AdapterView,
    payload: Tree,
    labels: Seq<Seq<char>>,
    now: Timestamp,
)
    requires
        wait_in_bounds(s),
    ensures
        wait_in_bounds(SessionView::fresh(url)),
        wait_in_bounds(s.connected()),
        wait_in_bounds(s.refused()),
        wait_in_bounds(s.lost()),
        wait_in_bounds(s.greeted()),
        wait_in_bounds(s.beaten()),
        wait_in_bounds(gateway::on_payload(s, a, payload, labels, now).session),
{
}

/// The session after a number of failed attempts in a row.
pub open spec fn after_failures(s: SessionView, n: nat) -> SessionView
    decreases n,
{
    if n == 0 {
        s
    } else {
        after_failures(s, (n - 1) as nat).refused()
    }
}

/// Two to the power of `n`.
pub open spec fn power_of_two(n: nat) -> nat
    decreases n,
{
    if n == 0 {
        1
    } else {
        2 * power_of_two((n - 1) as nat)
    }
}

/// The wait doubles with each attempt that fails after a connection was made, up to a minute.
pub proof fn wait_doubles(s: SessionView, n: nat)
    ensures
        after_failures(s.connected(), n).backoff == if power_of_two(n) <= gateway::MAX_BACKOFF {
            power_of_two(n)
        } else {
            gateway::MAX_BACKOFF as nat
        },
    decreases n,
{
    if n > 0 {
        wait_doubles(s, (n - 1) as nat);
    }
}

// ---------------------------------------------------------------- signs of life

/// Only its acknowledgement, or a new greeting that was answered, settles a sign of life: any other
/// payload leaves it open, and the connection counts as dead when the next one is due.
pub proof fn unanswered_heartbeat_is_fatal(
    s: SessionView,
    a: AdapterView,
    payload: Tree,
    labels: Seq<Seq<char>>,
    now: Timestamp,
)
    requires
        gateway::opcode(payload) != gateway::HEARTBEAT_ACK,
    ensures
        gateway::on_payload(s.beaten(), a, payload, labels, now).session.awaiting_ack,
{
}

/// A sign of life that was acknowledged leaves nothing open.
pub proof fn answered_heartbeat_is_settled(
    s: SessionView,
    a: AdapterView,
    payload: Tree,
    labels: Seq<Seq<char>>,
    now: Timestamp,
)
    requires
        gateway::opcode(payload) == gateway::HEARTBEAT_ACK,
    ensures
        !gateway::on_payload(s.beaten(), a, payload, labels, now).session.awaiting_ack,
        gateway::on_payload(s, a, payload, labels, now).actions.len() == 0,
{
}

// ---------------------------------------------------------------- resuming

/// A payload that numbers its event leaves that number behind, unless it invalidates the session.
pub proof fn last_event_is_remembered(
    s: SessionView,
    a: AdapterView,
    payload: Tree,
    labels: Seq<Seq<char>>,
    now: Timestamp,
)
    requires
        payload.u64_at("s"@) is Some,
        gateway::opcode(payload) != gateway::INVALID_SESSION,
    ensures
        gateway::on_payload(s, a, payload, labels, now).session.sequence == payload.u64_at("s"@),
{
}

/// A session that was lost is resumed: at the address that the gateway gave, with the session it
/// named, from the last event on.
pub proof fn lost_session_is_resumed(
    s: SessionView,
    a: AdapterView,
    ready: Tree,
    hello: Tree,
    labels: Seq<Seq<char>>,
    now: Timestamp,
)
    requires
        gateway::opcode(ready) == gateway::DISPATCH,
        ready.str_at("t"@) == Some("READY"@),
        ready.u64_at("s"@) is Some,
        gateway::opcode(hello) == gateway::HELLO,
        hello.u64_at("s"@) is None,
    ensures
        ({
            let known = gateway::on_payload(s, a, ready, labels, now).session;
            let back = known.lost().connected();
            let url = ready.at("d"@).str_or("resume_gateway_url"@, ""@);
            let step = gateway::on_payload(back, a, hello, labels, now);
            &&& url.len() > 0 ==> back.connect_url == url + "/?v=10&encoding=json"@
            &&& step.actions.len() == 1
            &&& step.actions[0] matches ActionView::Handshake { frame, .. }
            &&& frame == gateway::resume_frame(
                a.token,
                ready.at("d"@).str_or("session_id"@, ""@),
                ready.u64_at("s"@)->0,
            )
        }),
{
}

/// A session that the gateway has invalidated for good is begun anew.
pub proof fn invalid_session_begins_anew(
    s: SessionView,
    a: AdapterView,
    invalid: Tree,
    hello: Tree,
    labels: Seq<Seq<char>>,
    now: Timestamp,
)
    requires
        gateway::opcode(invalid) == gateway::INVALID_SESSION,
        invalid.bool_at("d"@) != Some(true),
        gateway::opcode(hello) == gateway::HELLO,
    ensures
        ({
            let step = gateway::on_payload(s, a, invalid, labels, now);
            let next = gateway::on_payload(step.session.lost().connected(), a, hello, labels, now);
            &&& step.actions == seq![ActionView::Reconnect]
            &&& next.actions.len() == 1
            &&& next.actions[0] matches ActionView::Handshake { frame, .. }
            &&& frame == gateway::identify_frame(a.token, a.intents)
        }),
{
}

/// A payload with an unknown opcode changes nothing but the number of the last event.
pub proof fn unknown_opcode_is_harmless(
    s: SessionView,
    a: AdapterView,
    payload: Tree,
    labels: Seq<Seq<char>>,
    now: Timestamp,
)
    requires
        ![
            gateway::DISPATCH,
            gateway::HEARTBEAT,
            gateway::RECONNECT,
            gateway::INVALID_SESSION,
            gateway::HELLO,
            gateway::HEARTBEAT_ACK,
        ]@.contains(gateway::opcode(payload)),
    ensures
        gateway::on_payload(s, a, payload, labels, now) == gateway::quiet(s.sequenced(payload)),
{
    let known = [
        gateway::DISPATCH,
        gateway::HEARTBEAT,
        gateway::RECONNECT,
        gateway::INVALID_SESSION,
        gateway::HELLO,
        gateway::HEARTBEAT_ACK,
    ];
    assert(known@[0] == gateway::DISPATCH && known@[1] == gateway::HEARTBEAT && known@[2]
        == gateway::RECONNECT && known@[3] == gateway::INVALID_SESSION && known@[4]
        == gateway::HELLO && known@[5] == gateway::HEARTBEAT_ACK);
}

// ---------------------------------------------------------------- what is passed on

/// The payload is an event of the given name.
pub open spec fn is_event(payload: Tree, name: Seq<char>) -> bool {
    gateway::opcode(payload) == gateway::DISPATCH && payload.str_at("t"@) == Some(name)
}

/// The payload tells of a message that was created or edited.
pub open spec fn is_message(payload: Tree) -> bool {
    is_event(payload, "MESSAGE_CREATE"@) || is_event(payload, "MESSAGE_UPDATE"@)
}

/// The payload tells of a slash command, or of a button or menu.
pub open spec fn is_command(payload: Tree) -> bool {
    is_event(payload, "INTERACTION_CREATE"@) && (payload.at("d"@).u64_at("type"@) == Some(2u64)
        || payload.at("d"@).u64_at("type"@) == Some(3u64))
}

/// The payload tells of a voice command of the given name.
pub open spec fn is_voice_command(payload: Tree, name: Seq<char>) -> bool {
    is_command(payload) && payload.at("d"@).at("data"@).str_at("name"@) == Some(name)
}

pub(crate) proof fn lemma_names_differ()
    ensures
        "MESSAGE_CREATE"@ != "READY"@,
        "MESSAGE_CREATE"@ != "GUILD_CREATE"@,
        "MESSAGE_UPDATE"@ != "READY"@,
        "MESSAGE_UPDATE"@ != "GUILD_CREATE"@,
        "INTERACTION_CREATE"@ != "READY"@,
        "INTERACTION_CREATE"@ != "GUILD_CREATE"@,
        "INTERACTION_CREATE"@ != "MESSAGE_CREATE"@,
        "INTERACTION_CREATE"@ != "MESSAGE_UPDATE"@,
        "VOICE_STATE_UPDATE"@ != "READY"@,
        "VOICE_STATE_UPDATE"@ != "GUILD_CREATE"@,
        "VOICE_STATE_UPDATE"@ != "MESSAGE_CREATE"@,
        "VOICE_STATE_UPDATE"@ != "MESSAGE_UPDATE"@,
        "VOICE_STATE_UPDATE"@ != "INTERACTION_CREATE"@,
        "VOICE_SERVER_UPDATE"@ != "READY"@,
        "VOICE_SERVER_UPDATE"@ != "GUILD_CREATE"@,
        "VOICE_SERVER_UPDATE"@ != "MESSAGE_CREATE"@,
        "VOICE_SERVER_UPDATE"@ != "MESSAGE_UPDATE"@,
        "VOICE_SERVER_UPDATE"@ != "INTERACTION_CREATE"@,
        "VOICE_SERVER_UPDATE"@ != "VOICE_STATE_UPDATE"@,
        "leave"@ != "join"@,
{
    reveal_strlit("READY");
    reveal_strlit("GUILD_CREATE");
    reveal_strlit("MESSAGE_CREATE");
    reveal_strlit("MESSAGE_UPDATE");
    reveal_strlit("INTERACTION_CREATE");
    reveal_strlit("VOICE_STATE_UPDATE");
    reveal_strlit("VOICE_SERVER_UPDATE");
    reveal_strlit("join");
    reveal_strlit("leave");
    assert("READY"@.len() == 5);
    assert("GUILD_CREATE"@.len() == 12);
    assert("MESSAGE_CREATE"@.len() == 14);
    assert("MESSAGE_UPDATE"@.len() == 14);
    assert("INTERACTION_CREATE"@.len() == 18);
    assert("VOICE_STATE_UPDATE"@.len() == 18);
    assert("VOICE_SERVER_UPDATE"@.len() == 19);
    assert("join"@.len() == 4);
    assert("leave"@.len() == 5);
    assert("VOICE_STATE_UPDATE"@[0] != "INTERACTION_CREATE"@[0]);
}

/// A message of the bot itself is not passed on, and changes nothing but the number of the last
/// event.
pub proof fn own_messages_are_dropped(
    s: SessionView,
    a: AdapterView,
    payload: Tree,
    labels: Seq<Seq<char>>,
    now: Timestamp,
)
    requires
        is_message(payload),
        s.bot_user_id is Some,
        payload.at("d"@).at("author"@).str_at("id"@) == s.bot_user_id,
    ensures
        gateway::on_payload(s, a, payload, labels, now) == gateway::quiet(s.sequenced(payload)),
{
    lemma_names_differ();
}

/// A message of another bot is not passed on, and changes nothing but the number of the last event.
pub proof fn bot_messages_are_dropped(
    s: SessionView,
    a: AdapterView,
    payload: Tree,
    labels: Seq<Seq<char>>,
    now: Timestamp,
)
    requires
        is_message(payload),
        payload.at("d"@).at("author"@).bool_at("bot"@) == Some(true),
    ensures
        gateway::on_payload(s, a, payload, labels, now) == gateway::quiet(s.sequenced(payload)),
{
    lemma_names_differ();
}

/// Where guilds are listed, a message of another guild is not passed on, and changes nothing but
/// the number of the last event.
pub proof fn other_guilds_are_dropped(
    s: SessionView,
    a: AdapterView,
    payload: Tree,
    labels: Seq<Seq<char>>,
    now: Timestamp,
)
    requires
        is_message(payload),
        a.allowed_guilds.len() > 0,
        payload.at("d"@).str_at("guild_id"@) matches Some(guild) && !a.allowed_guilds.contains(
            guild,
        ),
    ensures
        gateway::on_payload(s, a, payload, labels, now) == gateway::quiet(s.sequenced(payload)),
{
    lemma_names_differ();
}

/// A message of a user with something to say in a channel, of a guild that is let through, is
/// passed on, to be answered in that channel.
pub proof fn user_messages_are_passed_on(
    s: SessionView,
    a: AdapterView,
    payload: Tree,
    labels: Seq<Seq<char>>,
    now: Timestamp,
)
    requires
        is_message(payload),
        ({
            let d = payload.at("d"@);
            &&& d.at("author"@).str_at("id"@) is Some
            &&& d.at("author"@).str_at("id"@) != s.bot_user_id
            &&& d.at("author"@).bool_at("bot"@) != Some(true)
            &&& parse::guild_allowed(d, a.allowed_guilds)
            &&& d.str_at("channel_id"@) is Some
            &&& d.str_or("content"@, ""@).len() > 0
        }),
    ensures
        ({
            let step = gateway::on_payload(s, a, payload, labels, now);
            &&& step.session == s.sequenced(payload)
            &&& step.actions.len() == 1
            &&& step.actions[0] matches ActionView::Deliver(m)
            &&& Some(m.sender.platform_id) == payload.at("d"@).str_at("channel_id"@)
        }),
{
    lemma_names_differ();
}

/// An action passes a message on.
pub open spec fn passes_on(a: ActionView) -> bool {
    a is Deliver
}

/// The voice commands are carried out by the bot itself and not passed on.
pub proof fn voice_commands_stay_inside(
    s: SessionView,
    a: AdapterView,
    payload: Tree,
    labels: Seq<Seq<char>>,
    now: Timestamp,
)
    requires
        is_voice_command(payload, "join"@) || is_voice_command(payload, "leave"@),
    ensures
        forall|i: int|
            0 <= i < gateway::on_payload(s, a, payload, labels, now).actions.len() ==> !passes_on(
                #[trigger] gateway::on_payload(s, a, payload, labels, now).actions[i],
            ),
{
    lemma_names_differ();
}

/// The request goes to where an interaction is answered.
pub open spec fn answers(r: RequestView, d: Tree) -> bool {
    r.url == requests::api_url(
        "/interactions/"@ + d.str_or("id"@, ""@) + "/"@ + d.str_or("token"@, ""@) + "/callback"@,
    )
}

/// An interaction that leads to anything is answered, and one that is passed on is acknowledged
/// before.
pub proof fn interactions_are_answered(
    s: SessionView,
    a: AdapterView,
    payload: Tree,
    labels: Seq<Seq<char>>,
    now: Timestamp,
)
    requires
        is_event(payload, "INTERACTION_CREATE"@),
        gateway::on_payload(s, a, payload, labels, now).actions.len() > 0,
    ensures
        ({
            let actions = gateway::on_payload(s, a, payload, labels, now).actions;
            let d = payload.at("d"@);
            &&& exists|i: int|
                0 <= i < actions.len() && (#[trigger] actions[i] matches ActionView::Request(r)
                    && answers(r, d))
            &&& forall|i: int|
                0 <= i < actions.len() && passes_on(#[trigger] actions[i]) ==> i == 1 && (actions[0]
                    matches ActionView::Request(r) && answers(r, d))
        }),
{
    lemma_names_differ();
    let actions = gateway::on_payload(s, a, payload, labels, now).actions;
    let d = payload.at("d"@);
    let last = actions[actions.len() - 1];
    let first = actions[0];
    assert((last matches ActionView::Request(r) && answers(r, d)) || (
    first matches ActionView::Request(r) && answers(r, d)));
}

// ---------------------------------------------------------------- voice

/// Each connection is kept under its guild, and each voice state under its user.
pub open spec fn well_keyed(s: SessionView) -> bool {
    &&& forall|g: Seq<char>|
        #[trigger] s.connections.dom().contains(g) ==> s.connections[g].guild_id == g
    &&& forall|u: Seq<char>| #[trigger] s.states.dom().contains(u) ==> s.states[u].user_id == u
}

proof fn lemma_states_keyed(
    m: Map<Seq<char>, VoiceStateView>,
    states: Seq<Tree>,
    guild_id: Seq<char>,
)
    requires
        forall|u: Seq<char>| #[trigger] m.dom().contains(u) ==> m[u].user_id == u,
    ensures
        forall|u: Seq<char>| #[trigger]
            gateway::with_states(m, states, guild_id).dom().contains(u) ==> gateway::with_states(
                m,
                states,
                guild_id,
            )[u].user_id == u,
    decreases states.len(),
{
    if states.len() > 0 {
        lemma_states_keyed(m, states.drop_last(), guild_id);
    }
}

proof fn lemma_guilds_keyed(m: Map<Seq<char>, VoiceStateView>, guilds: Seq<Tree>)
    requires
        forall|u: Seq<char>| #[trigger] m.dom().contains(u) ==> m[u].user_id == u,
    ensures
        forall|u: Seq<char>| #[trigger]
            gateway::with_guilds(m, guilds).dom().contains(u) ==> gateway::with_guilds(
                m,
                guilds,
            )[u].user_id == u,
    decreases guilds.len(),
{
    if guilds.len() > 0 {
        let before = gateway::with_guilds(m, guilds.drop_last());
        lemma_guilds_keyed(m, guilds.drop_last());
        lemma_states_keyed(
            before,
            parse::items_at(guilds.last(), "voice_states"@),
            guilds.last().str_or("id"@, ""@),
        );
    }
}

/// A session begins well keyed, and every payload keeps it so.
pub proof fn session_stays_well_keyed(
    url: Seq<char>,
    s: SessionView,
    a: AdapterView,
    payload: Tree,
    labels: Seq<Seq<char>>,
    now: Timestamp,
)
    requires
        well_keyed(s),
    ensures
        well_keyed(SessionView::fresh(url)),
        well_keyed(gateway::on_payload(s, a, payload, labels, now).session),
{
    let d = payload.at("d"@);
    lemma_guilds_keyed(s.states, parse::items_at(d, "guilds"@));
    lemma_states_keyed(s.states, parse::items_at(d, "voice_states"@), d.str_or("id"@, ""@));
}

/// The channel that a user was last reported in is the one that the bot joins for them.
pub proof fn reported_channel_is_joined(
    s: SessionView,
    a: AdapterView,
    state: Tree,
    join: Tree,
    labels: Seq<Seq<char>>,
    now: Timestamp,
)
    requires
        is_event(state, "VOICE_STATE_UPDATE"@),
        is_voice_command(join, "join"@),
        gateway::commander(join.at("d"@)) == state.at("d"@).str_or("user_id"@, ""@),
        state.at("d"@).str_at("channel_id"@) is Some,
    ensures
        ({
            let known = gateway::on_payload(s, a, state, labels, now).session;
            let step = gateway::on_payload(known, a, join, labels, now);
            let guild = join.at("d"@).str_or("guild_id"@, ""@);
            let channel = state.at("d"@).str_at("channel_id"@);
            &&& step.actions.len() == 2
            &&& step.actions[0] == ActionView::Send(gateway::voice_frame(guild, channel))
            &&& step.session.connections.dom().contains(guild)
            &&& step.session.connections[guild] == ConnectionView::pending(guild, channel->0)
        }),
{
    lemma_names_differ();
}

/// A join that the gateway confirms, with the bot's voice session and the guild's voice server, is
/// followed by the connection to the channel.
pub proof fn confirmed_join_connects(
    s: SessionView,
    a: AdapterView,
    join: Tree,
    state: Tree,
    server: Tree,
    labels: Seq<Seq<char>>,
    now: Timestamp,
)
    requires
        is_voice_command(join, "join"@),
        is_event(state, "VOICE_STATE_UPDATE"@),
        is_event(server, "VOICE_SERVER_UPDATE"@),
        ({
            let (j, t, v) = (join.at("d"@), state.at("d"@), server.at("d"@));
            &&& gateway::channel_of(s, gateway::commander(j)) is Some
            &&& s.bot_user_id is Some
            &&& gateway::bot_number(s.bot_user_id) > 0
            &&& t.str_at("user_id"@) == s.bot_user_id
            &&& t.str_or("guild_id"@, ""@) == j.str_or("guild_id"@, ""@)
            &&& t.str_at("session_id"@) is Some
            &&& v.str_or("guild_id"@, ""@) == j.str_or("guild_id"@, ""@)
            &&& v.str_at("endpoint"@) is Some
            &&& v.str_at("token"@) is Some
        }),
    ensures
        ({
            let (j, t, v) = (join.at("d"@), state.at("d"@), server.at("d"@));
            let s1 = gateway::on_payload(s, a, join, labels, now).session;
            let s2 = gateway::on_payload(s1, a, state, labels, now).session;
            gateway::on_payload(s2, a, server, labels, now).actions == seq![
                ActionView::ConnectVoice {
                    connection: ConnectionView {
                        guild_id: j.str_or("guild_id"@, ""@),
                        channel_id: gateway::channel_of(s, gateway::commander(j))->0,
                        session_id: t.str_at("session_id"@),
                        endpoint: v.str_at("endpoint"@),
                        token: v.str_at("token"@),
                        ssrc: None,
                    },
                    bot_user_id: gateway::bot_number(s.bot_user_id),
                },
            ]
        }),
{
    lemma_names_differ();
}

/// Leaving undoes joining: no trace of the guild's connection is left, and the other guilds'
/// connections are as they were.
pub proof fn leaving_undoes_joining(
    s: SessionView,
    a: AdapterView,
    join: Tree,
    leave: Tree,
    labels: Seq<Seq<char>>,
    now: Timestamp,
)
    requires
        is_voice_command(join, "join"@),
        is_voice_command(leave, "leave"@),
        join.at("d"@).str_or("guild_id"@, ""@) == leave.at("d"@).str_or("guild_id"@, ""@),
    ensures
        ({
            let joined = gateway::on_payload(s, a, join, labels, now).session;
            let left = gateway::on_payload(joined, a, leave, labels, now).session;
            left == (SessionView {
                connections: s.connections.remove(join.at("d"@).str_or("guild_id"@, ""@)),
                ..s
            }).sequenced(join).sequenced(leave)
        }),
{
    lemma_names_differ();
    let guild = join.at("d"@).str_or("guild_id"@, ""@);
    let joined = gateway::on_payload(s, a, join, labels, now).session;
    assert(joined.connections.remove(guild) =~= s.connections.remove(guild));
}

/// After the bot was asked to leave, what the gateway tells of the guild's voice server leads to no
/// connection.
pub proof fn no_connection_after_leaving(
    s: SessionView,
    a: AdapterView,
    leave: Tree,
    server: Tree,
    labels: Seq<Seq<char>>,
    now: Timestamp,
)
    requires
        is_voice_command(leave, "leave"@),
        is_event(server, "VOICE_SERVER_UPDATE"@),
        server.at("d"@).str_or("guild_id"@, ""@) == leave.at("d"@).str_or("guild_id"@, ""@),
    ensures
        ({
            let left = gateway::on_payload(s, a, leave, labels, now).session;
            gateway::on_payload(left, a, server, labels, now) == gateway::quiet(
                left.sequenced(server),
            )
        }),
{
    lemma_names_differ();
}

} // verus!
