//! What holds of a session with the gateway, from the payloads that come in to the frames and requests
//! that go out.

use crate::adapter::AdapterView;
use crate::gateway;
use crate::gateway::{ActionView, SessionView};
use crate::gateway_laws;
use crate::json;
use crate::json::Tree;
use crate::parse;
use crate::requests::{BodyView, Method, RequestView};
use crate::text;
use crate::types::Timestamp;
use crate::voice::{ConnectionView, VoiceStateView};
use vstd::prelude::*;

verus! {

// ---------------------------------------------------------------- payloads

/// The payload is an event of the given name with the given data.
pub open spec fn reports(payload: Tree, name: Seq<char>, d: Tree) -> bool {
    &&& payload.u64_at("op"@) == Some(0u64)
    &&& payload.str_at("t"@) == Some(name)
    &&& payload.at("d"@) == d
}

/// The text, nothing where there is none.
pub open spec fn or_nothing(o: Option<Seq<char>>) -> Seq<char> {
    match o {
        Some(t) => t,
        None => Seq::empty(),
    }
}

proof fn lemma_nothing()
    ensures
        ""@ == Seq::<char>::empty(),
{
    reveal_strlit("");
    assert(""@ =~= Seq::<char>::empty());
}

/// The session, but for the number of the last event, which a payload may give.
pub open spec fn same_but_number(a: SessionView, b: SessionView) -> bool {
    a == SessionView { sequence: a.sequence, ..b }
}

// ---------------------------------------------------------------- who is in which channel

/// The state is the one that the entry reports for the guild.
pub open spec fn state_from(v: VoiceStateView, entry: Tree, user: Seq<char>, guild: Seq<char>) -> bool {
    &&& v.user_id == user
    &&& v.channel_id == entry.str_at("channel_id"@)
    &&& v.guild_id == guild
    &&& v.self_mute == (entry.at("self_mute"@) == Tree::Bool(true))
    &&& v.self_deaf == (entry.at("self_deaf"@) == Tree::Bool(true))
}

/// The entries report the user nowhere from `from` on.
pub open spec fn unreported(entries: Seq<Tree>, user: Seq<char>, from: int) -> bool {
    forall|k: int| from <= k < entries.len() ==> (#[trigger] entries[k]).str_at("user_id"@) != Some(user)
}

/// The voice states that a guild reports.
pub open spec fn entries_of(guild: Tree) -> Seq<Tree> {
    match guild.at("voice_states"@) {
        Tree::Array(entries) => entries,
        _ => Seq::empty(),
    }
}

proof fn lemma_states(
    m: Map<Seq<char>, VoiceStateView>,
    entries: Seq<Tree>,
    guild: Seq<char>,
    i: int,
    user: Seq<char>,
)
    requires
        user.len() > 0,
        -1 <= i < entries.len(),
        i >= 0 ==> entries[i].str_at("user_id"@) == Some(user),
        unreported(entries, user, i + 1),
    ensures
        i >= 0 ==> gateway::with_states(m, entries, guild).dom().contains(user) && state_from(
            gateway::with_states(m, entries, guild)[user],
            entries[i],
            user,
            guild,
        ),
        i == -1 ==> gateway::with_states(m, entries, guild).dom().contains(user)
            == m.dom().contains(user) && (m.dom().contains(user) ==> gateway::with_states(
            m,
            entries,
            guild,
        )[user] == m[user]),
    decreases entries.len(),
{
    reveal_strlit("");
    if entries.len() > 0 {
        let front = entries.drop_last();
        let n = entries.len() - 1;
        if i < n {
            assert(entries[n].str_at("user_id"@) != Some(user));
            assert forall|k: int| i + 1 <= k < front.len() implies (#[trigger] front[k]).str_at(
                "user_id"@,
            ) != Some(user) by {
                assert(front[k] == entries[k]);
            }
            lemma_states(m, front, guild, i, user);
            let state = gateway::voice_state(entries.last(), guild);
            if state.user_id == user {
                assert(entries[n].str_at("user_id"@) == Some(user));
            }
        }
    }
}

/// Of every user whom a guild reports, the channel and the guild are known afterwards: those of the
/// last entry for the user, wherever in the list it stands. Users who are not reported are where
/// they were.
pub proof fn every_reported_user_is_known(
    s: SessionView,
    a: AdapterView,
    payload: Tree,
    guild: Tree,
    gid: Seq<char>,
    i: int,
    user: Seq<char>,
    labels: Seq<Seq<char>>,
    now: Timestamp,
)
    requires
        reports(payload, "GUILD_CREATE"@, guild),
        or_nothing(guild.str_at("id"@)) == gid,
        user.len() > 0,
        -1 <= i < entries_of(guild).len(),
        i >= 0 ==> entries_of(guild)[i].str_at("user_id"@) == Some(user),
        unreported(entries_of(guild), user, i + 1),
    ensures
        ({
            let step = gateway::on_payload(s, a, payload, labels, now);
            &&& step.actions.len() == 0
            &&& i >= 0 ==> step.session.states.dom().contains(user) && state_from(
                step.session.states[user],
                entries_of(guild)[i],
                user,
                gid,
            )
            &&& i == -1 ==> step.session.states.dom().contains(user) == s.states.dom().contains(user)
            &&& i == -1 && s.states.dom().contains(user) ==> step.session.states[user]
                == s.states[user]
            &&& step.session.connections == s.connections
            &&& step.session.bot_user_id == s.bot_user_id
        }),
{
    lemma_nothing();
    gateway_laws::lemma_names_differ();
    lemma_guild_create_is_no_ready();
    assert(parse::items_at(guild, "voice_states"@) =~= entries_of(guild));
    lemma_states(s.states, entries_of(guild), gid, i, user);
}

proof fn lemma_guild_create_is_no_ready()
    ensures
        "GUILD_CREATE"@ != "READY"@,
{
    reveal_strlit("READY");
    reveal_strlit("GUILD_CREATE");
    assert("READY"@.len() == 5);
    assert("GUILD_CREATE"@.len() == 12);
}

proof fn lemma_guilds(
    m: Map<Seq<char>, VoiceStateView>,
    guilds: Seq<Tree>,
    g: int,
    i: int,
    user: Seq<char>,
)
    requires
        user.len() > 0,
        0 <= g < guilds.len(),
        0 <= i < entries_of(guilds[g]).len(),
        entries_of(guilds[g])[i].str_at("user_id"@) == Some(user),
        unreported(entries_of(guilds[g]), user, i + 1),
        forall|k: int| g < k < guilds.len() ==> unreported(#[trigger] entries_of(guilds[k]), user, 0),
    ensures
        gateway::with_guilds(m, guilds).dom().contains(user),
        state_from(
            gateway::with_guilds(m, guilds)[user],
            entries_of(guilds[g])[i],
            user,
            or_nothing(guilds[g].str_at("id"@)),
        ),
    decreases guilds.len(),
{
    lemma_nothing();
    let front = guilds.drop_last();
    let n = guilds.len() - 1;
    let before = gateway::with_guilds(m, front);
    let last = guilds[n];
    assert(parse::items_at(last, "voice_states"@) =~= entries_of(last));
    if g < n {
        assert(front[g] == guilds[g]);
        assert forall|k: int| g < k < front.len() implies unreported(
            #[trigger] entries_of(front[k]),
            user,
            0,
        ) by {
            assert(front[k] == guilds[k]);
            assert(unreported(entries_of(guilds[k]), user, 0));
        }
        lemma_guilds(m, front, g, i, user);
        assert(unreported(entries_of(guilds[n]), user, 0));
        lemma_states(before, entries_of(last), last.str_or("id"@, ""@), -1, user);
    } else {
        lemma_states(before, entries_of(last), last.str_or("id"@, ""@), i, user);
    }
}

/// The same of all the guilds that are reported when the gateway is ready, in whatever order.
pub proof fn every_user_of_every_guild_is_known(
    s: SessionView,
    a: AdapterView,
    payload: Tree,
    d: Tree,
    guilds: Seq<Tree>,
    g: int,
    i: int,
    user: Seq<char>,
    labels: Seq<Seq<char>>,
    now: Timestamp,
)
    requires
        reports(payload, "READY"@, d),
        d.at("guilds"@) == Tree::Array(guilds),
        user.len() > 0,
        0 <= g < guilds.len(),
        0 <= i < entries_of(guilds[g]).len(),
        entries_of(guilds[g])[i].str_at("user_id"@) == Some(user),
        unreported(entries_of(guilds[g]), user, i + 1),
        forall|k: int| g < k < guilds.len() ==> unreported(#[trigger] entries_of(guilds[k]), user, 0),
    ensures
        ({
            let known = gateway::on_payload(s, a, payload, labels, now).session;
            &&& known.states.dom().contains(user)
            &&& state_from(
                known.states[user],
                entries_of(guilds[g])[i],
                user,
                or_nothing(guilds[g].str_at("id"@)),
            )
        }),
{
    assert(parse::items_at(d, "guilds"@) == guilds);
    lemma_guilds(s.states, guilds, g, i, user);
}

/// A user who joins, moves or leaves is where the event says; the others are where they were, and
/// nothing is done.
pub proof fn moves_are_followed(
    s: SessionView,
    a: AdapterView,
    payload: Tree,
    d: Tree,
    user: Seq<char>,
    guild: Seq<char>,
    other: Seq<char>,
    labels: Seq<Seq<char>>,
    now: Timestamp,
)
    requires
        reports(payload, "VOICE_STATE_UPDATE"@, d),
        or_nothing(d.str_at("user_id"@)) == user,
        or_nothing(d.str_at("guild_id"@)) == guild,
        other != user,
    ensures
        ({
            let step = gateway::on_payload(s, a, payload, labels, now);
            &&& step.actions.len() == 0
            &&& step.session.states.dom().contains(user)
            &&& state_from(step.session.states[user], d, user, guild)
            &&& step.session.states.dom().contains(other) == s.states.dom().contains(other)
            &&& s.states.dom().contains(other) ==> step.session.states[other] == s.states[other]
            &&& s.bot_user_id != Some(user) ==> step.session.connections == s.connections
        }),
{
    lemma_nothing();
    gateway_laws::lemma_names_differ();
}

// ---------------------------------------------------------------- frames

/// What a frame says: an opcode and its data, as JSON.
pub open spec fn frame_text(op: u64, data: Tree) -> Seq<char> {
    json::written(Tree::Object(map!["op"@ => Tree::Number(Some(op)), "d"@ => data]))
}

/// The frame that moves the bot to a voice channel of a guild, or out of it.
pub open spec fn move_text(guild: Seq<char>, channel: Tree) -> Seq<char> {
    frame_text(
        4,
        Tree::Object(
            map![
                "guild_id"@ => Tree::Str(guild),
                "channel_id"@ => channel,
                "self_mute"@ => Tree::Bool(false),
                "self_deaf"@ => Tree::Bool(false),
            ],
        ),
    )
}

/// The frame that begins a session.
pub open spec fn identify_text(token: Seq<char>, intents: u64) -> Seq<char> {
    frame_text(
        2,
        Tree::Object(
            map![
                "token"@ => Tree::Str(token),
                "intents"@ => Tree::Number(Some(intents)),
                "properties"@ => Tree::Object(
                    map![
                        "os"@ => Tree::Str("linux"@),
                        "browser"@ => Tree::Str("openfang"@),
                        "device"@ => Tree::Str("openfang"@),
                    ],
                ),
            ],
        ),
    )
}

/// The frame that resumes a session from an event on.
pub open spec fn resume_text(token: Seq<char>, session: Seq<char>, sequence: u64) -> Seq<char> {
    frame_text(
        6,
        Tree::Object(
            map![
                "token"@ => Tree::Str(token),
                "session_id"@ => Tree::Str(session),
                "seq"@ => Tree::Number(Some(sequence)),
            ],
        ),
    )
}

/// The frames are those that the gateway takes.
pub proof fn frames_say_what_they_should(
    guild: Seq<char>,
    channel: Seq<char>,
    token: Seq<char>,
    intents: u64,
    session: Seq<char>,
    sequence: u64,
)
    ensures
        gateway::voice_frame(guild, Some(channel)) == move_text(guild, Tree::Str(channel)),
        gateway::voice_frame(guild, None) == move_text(guild, Tree::Null),
        gateway::identify_frame(token, intents) == identify_text(token, intents),
        gateway::resume_frame(token, session, sequence) == resume_text(token, session, sequence),
        gateway::heartbeat_frame(Some(sequence)) == frame_text(1, Tree::Number(Some(sequence))),
        gateway::heartbeat_frame(None) == frame_text(1, Tree::Null),
{
}

// ---------------------------------------------------------------- opening and keeping a session

/// The session with the number that a payload gives its event, if it gives one.
pub open spec fn numbered(s: SessionView, payload: Tree) -> SessionView {
    match payload.u64_at("s"@) {
        Some(n) => SessionView { sequence: Some(n), ..s },
        None => s,
    }
}

/// At the greeting a session that is known and has seen an event is resumed from that event on, any
/// other is begun; the interval is the one that the gateway names.
pub proof fn the_greeting_is_answered(
    before: SessionView,
    a: AdapterView,
    payload: Tree,
    labels: Seq<Seq<char>>,
    now: Timestamp,
)
    requires
        payload.u64_at("op"@) == Some(10u64),
    ensures
        ({
            let s = numbered(before, payload);
            let step = gateway::on_payload(before, a, payload, labels, now);
            &&& step.session == s
            &&& step.actions.len() == 1
            &&& step.actions[0] matches ActionView::Handshake { frame, interval }
            &&& s.session_id is Some && s.sequence is Some ==> frame == resume_text(
                a.token,
                s.session_id->0,
                s.sequence->0,
            )
            &&& s.session_id is None || s.sequence is None ==> frame == identify_text(
                a.token,
                a.intents,
            )
            &&& payload.at("d"@).u64_at("heartbeat_interval"@) matches Some(n) ==> interval == n
            &&& payload.at("d"@).u64_at("heartbeat_interval"@) is None ==> interval == 45000
        }),
{
}

/// The gateway may ask for a sign of life, which names the last event; it may acknowledge one, ask to
/// connect anew, or invalidate the session, which then is only kept if it can be resumed. Other
/// opcodes are passed over.
pub proof fn the_gateway_is_obeyed(
    before: SessionView,
    a: AdapterView,
    payload: Tree,
    labels: Seq<Seq<char>>,
    now: Timestamp,
)
    ensures
        ({
            let s = numbered(before, payload);
            let step = gateway::on_payload(before, a, payload, labels, now);
            let op = payload.u64_at("op"@);
            &&& op == Some(1u64) ==> step.session == s && step.actions == seq![
                ActionView::Send(
                    frame_text(
                        1,
                        match s.sequence {
                            Some(n) => Tree::Number(Some(n)),
                            None => Tree::Null,
                        },
                    ),
                ),
            ]
            &&& op == Some(11u64) ==> step.actions.len() == 0 && step.session == (SessionView {
                awaiting_ack: false,
                ..s
            })
            &&& op == Some(7u64) ==> step.session == s && step.actions == seq![ActionView::Reconnect]
            &&& op == Some(9u64) && payload.at("d"@) == Tree::Bool(true) ==> step.session == s
                && step.actions == seq![ActionView::Reconnect]
            &&& op == Some(9u64) && payload.at("d"@) != Tree::Bool(true) ==> step.session == (
            SessionView { session_id: None, sequence: None, ..s }) && step.actions == seq![
                ActionView::Reconnect,
            ]
            &&& op != Some(0u64) && op != Some(1u64) && op != Some(7u64) && op != Some(9u64) && op
                != Some(10u64) && op != Some(11u64) ==> step.session == s && step.actions.len() == 0
        }),
{
}

/// An event touches nothing of the session that it does not tell of: only readiness names the bot,
/// the session, where to resume it and the application; only voice events and commands touch the
/// connections, and only those that report where users are touch that.
pub proof fn events_touch_only_what_they_tell_of(
    s: SessionView,
    a: AdapterView,
    payload: Tree,
    name: Seq<char>,
    d: Tree,
    labels: Seq<Seq<char>>,
    now: Timestamp,
)
    requires
        reports(payload, name, d),
    ensures
        ({
            let after = gateway::on_payload(s, a, payload, labels, now).session;
            &&& after.awaiting_ack == s.awaiting_ack
            &&& name != "READY"@ ==> after.bot_user_id == s.bot_user_id && after.session_id
                == s.session_id && after.resume_url == s.resume_url && after.application_id
                == s.application_id
            &&& name != "READY"@ && name != "GUILD_CREATE"@ && name != "VOICE_STATE_UPDATE"@
                ==> after.states == s.states
            &&& name != "INTERACTION_CREATE"@ && name != "VOICE_STATE_UPDATE"@ && name
                != "VOICE_SERVER_UPDATE"@ ==> after.connections == s.connections
        }),
{
    gateway_laws::lemma_names_differ();
}

/// The number that a payload gives its event is remembered with whatever else the payload does, and
/// a payload without one leaves the last number.
pub proof fn numbers_of_events_are_remembered(
    s: SessionView,
    a: AdapterView,
    payload: Tree,
    labels: Seq<Seq<char>>,
    now: Timestamp,
)
    requires
        payload.u64_at("op"@) != Some(9u64),
    ensures
        ({
            let after = gateway::on_payload(s, a, payload, labels, now).session;
            &&& payload.u64_at("s"@) is Some ==> after.sequence == payload.u64_at("s"@)
            &&& payload.u64_at("s"@) is None ==> after.sequence == s.sequence
            &&& after.backoff == s.backoff && after.connect_url == s.connect_url
            &&& after.heartbeat_active == s.heartbeat_active
        }),
{
}

/// When the gateway is ready, the bot's user, the session, the place to resume it and the application
/// are known as reported, and the application's commands are registered.
pub proof fn readiness_is_remembered(
    s: SessionView,
    a: AdapterView,
    payload: Tree,
    d: Tree,
    bot: Seq<char>,
    session: Seq<char>,
    labels: Seq<Seq<char>>,
    now: Timestamp,
)
    requires
        reports(payload, "READY"@, d),
        or_nothing(d.at("user"@).str_at("id"@)) == bot,
        or_nothing(d.str_at("session_id"@)) == session,
    ensures
        ({
            let step = gateway::on_payload(s, a, payload, labels, now);
            let known = step.session;
            let app = d.at("application"@).str_at("id"@);
            &&& known.bot_user_id == Some(bot)
            &&& known.session_id == Some(session)
            &&& d.str_at("resume_gateway_url"@) matches Some(u) ==> u.len() > 0 ==> known.resume_url
                == Some(u)
            &&& or_nothing(d.str_at("resume_gateway_url"@)).len() == 0 ==> known.resume_url
                == s.resume_url
            &&& app matches Some(id) ==> id.len() > 0 ==> known.application_id == Some(id)
                && step.actions == seq![
                ActionView::Request(crate::commands::registration(a.token, id)),
            ]
            &&& or_nothing(app).len() == 0 ==> step.actions.len() == 0 && known.application_id
                == s.application_id
            &&& known.connections == s.connections
        }),
{
    lemma_nothing();
    reveal_strlit("");
}

/// The sign of life that is due names the last event; none is sent while one is not acknowledged.
pub proof fn signs_of_life_name_the_last_event(s: SessionView, n: u64)
    ensures
        s.awaiting_ack ==> s.beat() is None,
        !s.awaiting_ack && s.sequence == Some(n) ==> s.beat() == Some(
            frame_text(1, Tree::Number(Some(n))),
        ),
        !s.awaiting_ack && s.sequence is None ==> s.beat() == Some(frame_text(1, Tree::Null)),
        s.beaten().beat() is None,
        s.greeted().beat() is Some,
        s.connected().beat() is Some,
{
}

/// After a connection was lost the session is taken up where the gateway said, if it did, else where
/// it was; a connection that is made begins afresh, and a failed attempt only makes the wait longer.
pub proof fn connections_come_and_go(s: SessionView, url: Seq<char>)
    ensures
        s.resume_url matches Some(u) ==> s.lost().connect_url == u + "/?v=10&encoding=json"@,
        s.resume_url is None ==> s.lost().connect_url == s.connect_url,
        s.lost() == (SessionView {
            connect_url: s.lost().connect_url,
            backoff: s.lost().backoff,
            ..s
        }),
        s.lost().backoff == s.refused().backoff,
        s.refused() == (SessionView { backoff: s.refused().backoff, ..s }),
        s.backoff <= 30 ==> s.refused().backoff == 2 * s.backoff,
        s.backoff > 30 ==> s.refused().backoff == 60,
        s.connected() == (SessionView {
            backoff: 1,
            heartbeat_active: false,
            awaiting_ack: false,
            ..s
        }),
        s.greeted() == (SessionView { heartbeat_active: true, awaiting_ack: false, ..s }),
        s.beaten() == (SessionView { awaiting_ack: true, ..s }),
        ({
            let f = SessionView::fresh(url);
            &&& f.connect_url == url && f.backoff == 1
            &&& f.bot_user_id is None && f.session_id is None && f.resume_url is None
            &&& f.application_id is None && f.sequence is None
            &&& !f.heartbeat_active && !f.awaiting_ack
            &&& f.connections == Map::<Seq<char>, ConnectionView>::empty()
            &&& f.states == Map::<Seq<char>, VoiceStateView>::empty()
        }),
{
}

// ---------------------------------------------------------------- voice commands

/// The data of a slash command of the given name, given by a user in a guild.
pub open spec fn is_order(
    d: Tree,
    name: Seq<char>,
    user: Seq<char>,
    guild: Seq<char>,
    id: Seq<char>,
    token: Seq<char>,
) -> bool {
    &&& d.u64_at("type"@) == Some(2u64) || d.u64_at("type"@) == Some(3u64)
    &&& d.at("data"@).str_at("name"@) == Some(name)
    &&& or_nothing(d.at("member"@).at("user"@).str_at("id"@)) == user
    &&& or_nothing(d.str_at("guild_id"@)) == guild
    &&& or_nothing(d.str_at("id"@)) == id
    &&& or_nothing(d.str_at("token"@)) == token
}

/// The request answers the interaction with a text.
pub open spec fn says(r: RequestView, id: Seq<char>, token: Seq<char>, content: Seq<char>) -> bool {
    &&& r.method == Method::Post
    &&& r.url == "https://discord.com/api/v10"@ + ("/interactions/"@ + id + "/"@ + token
        + "/callback"@)
    &&& r.headers.len() == 0
    &&& r.body == BodyView::Json(
        Tree::Object(
            map![
                "type"@ => Tree::Number(Some(4u64)),
                "data"@ => Tree::Object(map!["content"@ => Tree::Str(content)]),
            ],
        ),
    )
}

/// The request acknowledges the interaction.
pub open spec fn acknowledges(r: RequestView, id: Seq<char>, token: Seq<char>, kind: u64) -> bool {
    &&& r.method == Method::Post
    &&& r.url == "https://discord.com/api/v10"@ + ("/interactions/"@ + id + "/"@ + token
        + "/callback"@)
    &&& r.headers.len() == 0
    &&& r.body == BodyView::Json(Tree::Object(map!["type"@ => Tree::Number(Some(kind))]))
}

/// Asked to join by a user who is known to be in a channel, the bot moves there, says so, and awaits
/// the particulars of the connection; asked by any other, it says that it cannot.
pub proof fn the_bot_joins_the_one_who_asks(
    s: SessionView,
    a: AdapterView,
    payload: Tree,
    d: Tree,
    user: Seq<char>,
    guild: Seq<char>,
    id: Seq<char>,
    token: Seq<char>,
    labels: Seq<Seq<char>>,
    now: Timestamp,
)
    requires
        reports(payload, "INTERACTION_CREATE"@, d),
        is_order(d, "join"@, user, guild, id, token),
    ensures
        ({
            let step = gateway::on_payload(s, a, payload, labels, now);
            let known = s.states.dom().contains(user) && s.states[user].channel_id is Some;
            &&& known ==> {
                let channel = s.states[user].channel_id->0;
                &&& step.actions.len() == 2
                &&& step.actions[0] == ActionView::Send(move_text(guild, Tree::Str(channel)))
                &&& step.actions[1] matches ActionView::Request(r)
                &&& says(r, id, token, "Joining your voice channel..."@)
                &&& step.session.connections == s.connections.insert(
                    guild,
                    ConnectionView {
                        guild_id: guild,
                        channel_id: channel,
                        session_id: None,
                        endpoint: None,
                        token: None,
                        ssrc: None,
                    },
                )
            }
            &&& !known ==> {
                &&& step.actions.len() == 1
                &&& step.actions[0] matches ActionView::Request(r)
                &&& says(
                    r,
                    id,
                    token,
                    "You need to be in a voice channel first! (Try leaving and rejoining your voice channel)"@,
                )
                &&& step.session.connections == s.connections
            }
            &&& step.session.states == s.states
        }),
{
    lemma_nothing();
    gateway_laws::lemma_names_differ();
}

/// Asked to leave, the bot leaves the guild's channel, moves out of it, says so, and forgets the
/// connection.
pub proof fn the_bot_leaves_when_asked(
    s: SessionView,
    a: AdapterView,
    payload: Tree,
    d: Tree,
    user: Seq<char>,
    guild: Seq<char>,
    id: Seq<char>,
    token: Seq<char>,
    labels: Seq<Seq<char>>,
    now: Timestamp,
)
    requires
        reports(payload, "INTERACTION_CREATE"@, d),
        is_order(d, "leave"@, user, guild, id, token),
    ensures
        ({
            let step = gateway::on_payload(s, a, payload, labels, now);
            &&& step.actions.len() == 3
            &&& step.actions[0] == ActionView::LeaveVoice(guild)
            &&& step.actions[1] == ActionView::Send(move_text(guild, Tree::Null))
            &&& step.actions[2] matches ActionView::Request(r)
            &&& says(r, id, token, "Left voice channel."@)
            &&& step.session.connections == s.connections.remove(guild)
            &&& step.session.states == s.states
        }),
{
    lemma_nothing();
    gateway_laws::lemma_names_differ();
}

/// A user who was reported in a channel when a guild was, at any place of the list, is joined there.
pub proof fn reported_users_can_be_joined(
    s: SessionView,
    a: AdapterView,
    created: Tree,
    guild: Tree,
    gid: Seq<char>,
    i: int,
    user: Seq<char>,
    channel: Seq<char>,
    payload: Tree,
    d: Tree,
    id: Seq<char>,
    token: Seq<char>,
    labels: Seq<Seq<char>>,
    now: Timestamp,
)
    requires
        reports(created, "GUILD_CREATE"@, guild),
        or_nothing(guild.str_at("id"@)) == gid,
        user.len() > 0,
        0 <= i < entries_of(guild).len(),
        entries_of(guild)[i].str_at("user_id"@) == Some(user),
        entries_of(guild)[i].str_at("channel_id"@) == Some(channel),
        unreported(entries_of(guild), user, i + 1),
        reports(payload, "INTERACTION_CREATE"@, d),
        is_order(d, "join"@, user, gid, id, token),
    ensures
        ({
            let known = gateway::on_payload(s, a, created, labels, now).session;
            let step = gateway::on_payload(known, a, payload, labels, now);
            &&& step.actions.len() == 2
            &&& step.actions[0] == ActionView::Send(move_text(gid, Tree::Str(channel)))
            &&& step.session.connections.dom().contains(gid)
            &&& step.session.connections[gid].channel_id == channel
        }),
{
    every_reported_user_is_known(s, a, created, guild, gid, i, user, labels, now);
    let known = gateway::on_payload(s, a, created, labels, now).session;
    the_bot_joins_the_one_who_asks(known, a, payload, d, user, gid, id, token, labels, now);
}

/// The same of a user who was reported in a channel when the gateway was ready, in any guild and at
/// any place of its list.
pub proof fn users_known_at_the_start_can_be_joined(
    s: SessionView,
    a: AdapterView,
    ready: Tree,
    guilds: Seq<Tree>,
    g: int,
    i: int,
    user: Seq<char>,
    channel: Seq<char>,
    payload: Tree,
    d: Tree,
    guild: Seq<char>,
    id: Seq<char>,
    token: Seq<char>,
    labels: Seq<Seq<char>>,
    now: Timestamp,
)
    requires
        reports(ready, "READY"@, ready.at("d"@)),
        ready.at("d"@).at("guilds"@) == Tree::Array(guilds),
        user.len() > 0,
        0 <= g < guilds.len(),
        0 <= i < entries_of(guilds[g]).len(),
        entries_of(guilds[g])[i].str_at("user_id"@) == Some(user),
        entries_of(guilds[g])[i].str_at("channel_id"@) == Some(channel),
        unreported(entries_of(guilds[g]), user, i + 1),
        forall|k: int| g < k < guilds.len() ==> unreported(#[trigger] entries_of(guilds[k]), user, 0),
        reports(payload, "INTERACTION_CREATE"@, d),
        is_order(d, "join"@, user, guild, id, token),
    ensures
        ({
            let known = gateway::on_payload(s, a, ready, labels, now).session;
            let step = gateway::on_payload(known, a, payload, labels, now);
            &&& step.actions.len() == 2
            &&& step.actions[0] == ActionView::Send(move_text(guild, Tree::Str(channel)))
            &&& step.session.connections.dom().contains(guild)
            &&& step.session.connections[guild].channel_id == channel
        }),
{
    every_user_of_every_guild_is_known(s, a, ready, ready.at("d"@), guilds, g, i, user, labels, now);
    let known = gateway::on_payload(s, a, ready, labels, now).session;
    the_bot_joins_the_one_who_asks(known, a, payload, d, user, guild, id, token, labels, now);
}

/// The bot's own voice session is noted with the guild's connection, and with no other.
pub proof fn the_voice_session_is_noted(
    s: SessionView,
    a: AdapterView,
    payload: Tree,
    d: Tree,
    bot: Seq<char>,
    guild: Seq<char>,
    session: Seq<char>,
    labels: Seq<Seq<char>>,
    now: Timestamp,
)
    requires
        reports(payload, "VOICE_STATE_UPDATE"@, d),
        s.bot_user_id == Some(bot),
        or_nothing(d.str_at("user_id"@)) == bot,
        or_nothing(d.str_at("guild_id"@)) == guild,
        d.str_at("session_id"@) == Some(session),
    ensures
        ({
            let after = gateway::on_payload(s, a, payload, labels, now).session;
            &&& s.connections.dom().contains(guild) ==> after.connections == s.connections.insert(
                guild,
                ConnectionView { session_id: Some(session), ..s.connections[guild] },
            )
            &&& !s.connections.dom().contains(guild) ==> after.connections == s.connections
        }),
{
    lemma_nothing();
    gateway_laws::lemma_names_differ();
}

/// The guild's voice server is noted with its connection; if the voice session is known by then, and
/// the bot's user is a number above zero, the connection is made with just these particulars.
pub proof fn the_voice_server_is_connected_to(
    s: SessionView,
    a: AdapterView,
    payload: Tree,
    d: Tree,
    guild: Seq<char>,
    bot: u64,
    labels: Seq<Seq<char>>,
    now: Timestamp,
)
    requires
        reports(payload, "VOICE_SERVER_UPDATE"@, d),
        or_nothing(d.str_at("guild_id"@)) == guild,
        s.connections.dom().contains(guild),
        0 < bot,
        s.bot_user_id matches Some(id) && text::parsed_number(id) == Some(bot),
    ensures
        ({
            let step = gateway::on_payload(s, a, payload, labels, now);
            let c = ConnectionView {
                endpoint: d.str_at("endpoint"@),
                token: d.str_at("token"@),
                ..s.connections[guild]
            };
            &&& step.session.connections == s.connections.insert(guild, c)
            &&& step.session.states == s.states
            &&& c.session_id is Some && c.endpoint is Some && c.token is Some ==> step.actions == seq![
                ActionView::ConnectVoice { connection: c, bot_user_id: bot },
            ]
            &&& c.session_id is None || c.endpoint is None || c.token is None ==> step.actions.len()
                == 0
        }),
{
    lemma_nothing();
    gateway_laws::lemma_names_differ();
}

/// A voice server of a guild without a connection is nothing to the session, and neither is one while
/// the bot's user is not known.
pub proof fn other_voice_servers_are_passed_over(
    s: SessionView,
    a: AdapterView,
    payload: Tree,
    d: Tree,
    guild: Seq<char>,
    labels: Seq<Seq<char>>,
    now: Timestamp,
)
    requires
        reports(payload, "VOICE_SERVER_UPDATE"@, d),
        or_nothing(d.str_at("guild_id"@)) == guild,
        !s.connections.dom().contains(guild) || s.bot_user_id is None || text::parsed_number(
            s.bot_user_id->0,
        ) is None || text::parsed_number(s.bot_user_id->0) == Some(0u64),
    ensures
        gateway::on_payload(s, a, payload, labels, now).actions.len() == 0,
        !s.connections.dom().contains(guild) ==> same_but_number(
            gateway::on_payload(s, a, payload, labels, now).session,
            s,
        ),
        s.connections.dom().contains(guild) ==> gateway::on_payload(
            s,
            a,
            payload,
            labels,
            now,
        ).session.connections == s.connections.insert(
            guild,
            ConnectionView {
                endpoint: d.str_at("endpoint"@),
                token: d.str_at("token"@),
                ..s.connections[guild]
            },
        ),
{
    lemma_nothing();
    gateway_laws::lemma_names_differ();
}

/// A slash command or a click that is passed on is acknowledged first, the one with a reply to come,
/// the other without; the message follows. A form is acknowledged without a reply.
pub proof fn passed_on_interactions_are_acknowledged(
    s: SessionView,
    a: AdapterView,
    payload: Tree,
    d: Tree,
    kind: u64,
    id: Seq<char>,
    token: Seq<char>,
    labels: Seq<Seq<char>>,
    now: Timestamp,
)
    requires
        reports(payload, "INTERACTION_CREATE"@, d),
        d.u64_at("type"@) == Some(kind),
        kind == 2 || kind == 3 || kind == 5,
        kind != 5 ==> d.at("data"@).str_at("name"@) != Some("join"@) && d.at("data"@).str_at(
            "name"@,
        ) != Some("leave"@),
        or_nothing(d.str_at("id"@)) == id,
        or_nothing(d.str_at("token"@)) == token,
    ensures
        ({
            let step = gateway::on_payload(s, a, payload, labels, now);
            let m = if kind == 5 {
                parse::modal_message(d, s.bot_user_id, now)
            } else {
                parse::interaction_message(d, s.bot_user_id, kind, now)
            };
            &&& same_but_number(step.session, s)
            &&& m is None ==> step.actions.len() == 0
            &&& m matches Some(x) ==> step.actions.len() == 2 && step.actions[1]
                == ActionView::Deliver(x) && (step.actions[0] matches ActionView::Request(r)
                && acknowledges(
                r,
                id,
                token,
                if kind == 2 {
                    5
                } else {
                    6
                },
            ))
        }),
{
    lemma_nothing();
    gateway_laws::lemma_names_differ();
    reveal_strlit("");
    reveal_strlit("join");
    reveal_strlit("leave");
    assert(""@.len() == 0);
    assert("join"@.len() == 4);
    assert("leave"@.len() == 5);
}

/// Interactions of other kinds, and events of other names, change nothing and bring nothing about.
pub proof fn other_events_are_passed_over(
    s: SessionView,
    a: AdapterView,
    payload: Tree,
    name: Seq<char>,
    d: Tree,
    labels: Seq<Seq<char>>,
    now: Timestamp,
)
    requires
        reports(payload, name, d),
        name != "READY"@,
        name != "GUILD_CREATE"@,
        name != "MESSAGE_CREATE"@,
        name != "MESSAGE_UPDATE"@,
        name != "VOICE_STATE_UPDATE"@,
        name != "VOICE_SERVER_UPDATE"@,
        name != "INTERACTION_CREATE"@ || (d.u64_at("type"@) != Some(2u64) && d.u64_at("type"@)
            != Some(3u64) && d.u64_at("type"@) != Some(5u64)),
    ensures
        gateway::on_payload(s, a, payload, labels, now).actions.len() == 0,
        same_but_number(gateway::on_payload(s, a, payload, labels, now).session, s),
{
}

/// A created or edited message is delivered if it is one to pass on, once, and changes nothing.
pub proof fn messages_are_delivered_once(
    s: SessionView,
    a: AdapterView,
    payload: Tree,
    name: Seq<char>,
    d: Tree,
    labels: Seq<Seq<char>>,
    now: Timestamp,
)
    requires
        reports(payload, name, d),
        name == "MESSAGE_CREATE"@ || name == "MESSAGE_UPDATE"@,
    ensures
        ({
            let step = gateway::on_payload(s, a, payload, labels, now);
            let m = parse::discord_message(d, s.bot_user_id, a.allowed_guilds, labels, now);
            &&& same_but_number(step.session, s)
            &&& m is None ==> step.actions.len() == 0
            &&& m matches Some(x) ==> step.actions == seq![ActionView::Deliver(x)]
        }),
{
    gateway_laws::lemma_names_differ();
}

/// Users whom no guild reports when the gateway is ready are where they were.
pub proof fn unreported_users_stay(
    s: SessionView,
    a: AdapterView,
    payload: Tree,
    d: Tree,
    guilds: Seq<Tree>,
    user: Seq<char>,
    labels: Seq<Seq<char>>,
    now: Timestamp,
)
    requires
        reports(payload, "READY"@, d),
        d.at("guilds"@) == Tree::Array(guilds) || (!(d.at("guilds"@) is Array) && guilds.len() == 0),
        user.len() > 0,
        forall|k: int| 0 <= k < guilds.len() ==> unreported(#[trigger] entries_of(guilds[k]), user, 0),
    ensures
        ({
            let known = gateway::on_payload(s, a, payload, labels, now).session;
            &&& known.states.dom().contains(user) == s.states.dom().contains(user)
            &&& s.states.dom().contains(user) ==> known.states[user] == s.states[user]
        }),
{
    assert(parse::items_at(d, "guilds"@) =~= guilds);
    lemma_unreported(s.states, guilds, user);
}

proof fn lemma_unreported(m: Map<Seq<char>, VoiceStateView>, guilds: Seq<Tree>, user: Seq<char>)
    requires
        user.len() > 0,
        forall|k: int| 0 <= k < guilds.len() ==> unreported(#[trigger] entries_of(guilds[k]), user, 0),
    ensures
        gateway::with_guilds(m, guilds).dom().contains(user) == m.dom().contains(user),
        m.dom().contains(user) ==> gateway::with_guilds(m, guilds)[user] == m[user],
    decreases guilds.len(),
{
    if guilds.len() > 0 {
        let front = guilds.drop_last();
        let last = guilds[guilds.len() - 1];
        assert forall|k: int| 0 <= k < front.len() implies unreported(
            #[trigger] entries_of(front[k]),
            user,
            0,
        ) by {
            assert(front[k] == guilds[k]);
            assert(unreported(entries_of(guilds[k]), user, 0));
        }
        lemma_unreported(m, front, user);
        assert(unreported(entries_of(guilds[guilds.len() - 1]), user, 0));
        assert(parse::items_at(last, "voice_states"@) =~= entries_of(last));
        lemma_states(
            gateway::with_guilds(m, front),
            entries_of(last),
            last.str_or("id"@, ""@),
            -1,
            user,
        );
    }
}

} // verus!
