//! The session with Discord's gateway: what is known, and what to do at each event.

use crate::adapter::{AdapterView, DiscordAdapter};
use crate::commands;
use crate::json;
use crate::json::{Json, Tree};
use crate::parse;
use crate::registry;
use crate::requests;
use crate::requests::{ApiRequest, RequestView};
use crate::text;
use crate::types::{ChannelMessage, MessageView, Timestamp};
use crate::voice::{ConnectionView, VoiceConnection, VoiceState, VoiceStateView};
use dashmap::DashMap;
use vstd::prelude::*;

verus! {

// ---------------------------------------------------------------- opcodes

/// An event.
pub const DISPATCH: u64 = 0;

/// A sign of life, or the demand for one.
pub const HEARTBEAT: u64 = 1;

/// Begins a session.
pub const IDENTIFY: u64 = 2;

/// Joins, moves to or leaves a voice channel.
pub const VOICE_STATE: u64 = 4;

/// Takes up a session where it was left.
pub const RESUME: u64 = 6;

/// The demand to connect anew.
pub const RECONNECT: u64 = 7;

/// The session is not valid.
pub const INVALID_SESSION: u64 = 9;

/// The gateway's greeting.
pub const HELLO: u64 = 10;

/// The answer to a sign of life.
pub const HEARTBEAT_ACK: u64 = 11;

/// What a payload without an opcode is taken for.
pub const NO_OPCODE: u64 = 999;

/// The wait before the first new attempt, in seconds.
pub const INITIAL_BACKOFF: u64 = 1;

/// The longest wait before a new attempt, in seconds.
pub const MAX_BACKOFF: u64 = 60;

/// The interval between signs of life if the gateway names none, in milliseconds.
pub const DEFAULT_INTERVAL: u64 = 45000;

// ---------------------------------------------------------------- session

/// What is known of the session with the gateway.
pub struct GatewaySession {
    bot_user_id: Option<String>,
    session_id: Option<String>,
    resume_url: Option<String>,
    application_id: Option<String>,
    sequence: Option<u64>,
    connect_url: String,
    backoff: u64,
    heartbeat_active: bool,
    awaiting_ack: bool,
    voice_connections: DashMap<String, VoiceConnection>,
    voice_states: DashMap<String, VoiceState>,
}

/// What a session holds.
pub struct SessionView {
    /// The bot's user, once the gateway is ready.
    pub bot_user_id: Option<Seq<char>>,
    /// The session to resume.
    pub session_id: Option<Seq<char>>,
    /// Where to resume.
    pub resume_url: Option<Seq<char>>,
    pub application_id: Option<Seq<char>>,
    /// The number of the last event.
    pub sequence: Option<u64>,
    /// Where to connect.
    pub connect_url: Seq<char>,
    /// How long to wait before the next attempt, in seconds.
    pub backoff: u64,
    /// Signs of life are due at intervals.
    pub heartbeat_active: bool,
    /// The last sign of life is not answered yet.
    pub awaiting_ack: bool,
    /// Voice connections by guild.
    pub connections: Map<Seq<char>, ConnectionView>,
    /// Voice states by user.
    pub states: Map<Seq<char>, VoiceStateView>,
}

impl View for GatewaySession {
    type V = SessionView;

    closed spec fn view(&self) -> SessionView {
        SessionView {
            bot_user_id: text::opt_text(self.bot_user_id),
            session_id: text::opt_text(self.session_id),
            resume_url: text::opt_text(self.resume_url),
            application_id: text::opt_text(self.application_id),
            sequence: self.sequence,
            connect_url: self.connect_url@,
            backoff: self.backoff,
            heartbeat_active: self.heartbeat_active,
            awaiting_ack: self.awaiting_ack,
            connections: registry::connections_in(self.voice_connections),
            states: registry::states_in(self.voice_states),
        }
    }
}

/// What to do at an event.
pub enum Action {
    /// Send a frame to the gateway. A failure is ignored.
    Send(String),
    /// Send the frame that opens or resumes the session. If that fails, connect anew; else begin
    /// with signs of life at the given interval, in milliseconds.
    Handshake { frame: String, interval: u64 },
    /// Make a request. A failure is ignored.
    Request(ApiRequest),
    /// Pass a message on.
    Deliver(ChannelMessage),
    /// Connect to a voice channel, as the bot with the given user.
    ConnectVoice { connection: VoiceConnection, bot_user_id: u64 },
    /// Leave the voice channel of a guild.
    LeaveVoice(String),
    /// Give the connection up and connect anew.
    Reconnect,
}

/// What an action holds.
pub enum ActionView {
    Send(Seq<char>),
    Handshake { frame: Seq<char>, interval: u64 },
    Request(RequestView),
    Deliver(MessageView),
    ConnectVoice { connection: ConnectionView, bot_user_id: u64 },
    LeaveVoice(Seq<char>),
    Reconnect,
}

impl View for Action {
    type V = ActionView;

    open spec fn view(&self) -> ActionView {
        match *self {
            Action::Send(frame) => ActionView::Send(frame@),
            Action::Handshake { frame, interval } => ActionView::Handshake {
                frame: frame@,
                interval,
            },
            Action::Request(request) => ActionView::Request(request@),
            Action::Deliver(message) => ActionView::Deliver(message@),
            Action::ConnectVoice { connection, bot_user_id } => ActionView::ConnectVoice {
                connection: connection@,
                bot_user_id,
            },
            Action::LeaveVoice(guild_id) => ActionView::LeaveVoice(guild_id@),
            Action::Reconnect => ActionView::Reconnect,
        }
    }
}

/// What a list of actions holds.
pub open spec fn action_views(actions: Seq<Action>) -> Seq<ActionView> {
    actions.map_values(|a: Action| a@)
}

/// A session and what to do.
pub struct Step {
    pub session: SessionView,
    pub actions: Seq<ActionView>,
}

/// The session, with nothing to do.
pub open spec fn quiet(session: SessionView) -> Step {
    Step { session, actions: Seq::empty() }
}

fn no_action() -> (r: Vec<Action>)
    ensures
        action_views(r@) == Seq::<ActionView>::empty(),
{
    let out: Vec<Action> = Vec::new();
    assert(action_views(out@) =~= Seq::<ActionView>::empty());
    out
}

fn push_action(actions: &mut Vec<Action>, action: Action)
    ensures
        action_views(final(actions)@) == action_views(old(actions)@).push(action@),
{
    proof {
        assert(action_views(actions@.push(action)) =~= action_views(actions@).push(action@));
    }
    actions.push(action);
}

fn one_action(action: Action) -> (r: Vec<Action>)
    ensures
        action_views(r@) == seq![action@],
{
    let mut out = no_action();
    push_action(&mut out, action);
    assert(action_views(out@) =~= seq![action@]);
    out
}

fn two_actions(first: Action, second: Action) -> (r: Vec<Action>)
    ensures
        action_views(r@) == seq![first@, second@],
{
    let mut out = no_action();
    push_action(&mut out, first);
    push_action(&mut out, second);
    assert(action_views(out@) =~= seq![first@, second@]);
    out
}

// ---------------------------------------------------------------- frames

/// An optional number, null if there is none.
pub open spec fn number_or_null(n: Option<u64>) -> Tree {
    match n {
        Some(v) => json::num(v as int),
        None => Tree::Null,
    }
}

/// A frame: an opcode and its data.
pub open spec fn frame(op: u64, data: Tree) -> Seq<char> {
    json::written(json::obj().with("op"@, json::num(op as int)).with("d"@, data))
}

/// The sign of life. It names the last event.
pub open spec fn heartbeat_frame(sequence: Option<u64>) -> Seq<char> {
    frame(HEARTBEAT, number_or_null(sequence))
}

/// The frame that begins a session.
pub open spec fn identify_frame(token: Seq<char>, intents: u64) -> Seq<char> {
    frame(
        IDENTIFY,
        json::obj().with("token"@, Tree::Str(token)).with("intents"@, json::num(intents as int)).with(
            "properties"@,
            json::obj().with("os"@, Tree::Str("linux"@)).with(
                "browser"@,
                Tree::Str("openfang"@),
            ).with("device"@, Tree::Str("openfang"@)),
        ),
    )
}

/// The frame that takes a session up where it was left.
pub open spec fn resume_frame(token: Seq<char>, session_id: Seq<char>, sequence: u64) -> Seq<char> {
    frame(
        RESUME,
        json::obj().with("token"@, Tree::Str(token)).with("session_id"@, Tree::Str(session_id)).with(
            "seq"@,
            json::num(sequence as int),
        ),
    )
}

/// The frame that joins a voice channel, or leaves it if none is named.
pub open spec fn voice_frame(guild_id: Seq<char>, channel_id: Option<Seq<char>>) -> Seq<char> {
    frame(
        VOICE_STATE,
        json::obj().with("guild_id"@, Tree::Str(guild_id)).with(
            "channel_id"@,
            match channel_id {
                Some(c) => Tree::Str(c),
                None => Tree::Null,
            },
        ).with("self_mute"@, Tree::Bool(false)).with("self_deaf"@, Tree::Bool(false)),
    )
}

fn write_frame(op: u64, data: Json) -> (r: String)
    requires
        json::writable(data),
    ensures
        r@ == frame(op, data@),
{
    json::write_json(&Json::object().with("op", Json::number(op)).with("d", data))
}

fn heartbeat(sequence: Option<u64>) -> (r: String)
    ensures
        r@ == heartbeat_frame(sequence),
{
    let data = match sequence {
        Some(n) => Json::number(n),
        None => Json::Null,
    };
    write_frame(HEARTBEAT, data)
}

fn identify(token: &str, intents: u64) -> (r: String)
    ensures
        r@ == identify_frame(token@, intents),
{
    let properties = Json::object().with("os", Json::string("linux")).with(
        "browser",
        Json::string("openfang"),
    ).with("device", Json::string("openfang"));
    let data = Json::object().with("token", Json::string(token)).with(
        "intents",
        Json::number(intents),
    ).with("properties", properties);
    write_frame(IDENTIFY, data)
}

fn resume(token: &str, session_id: &str, sequence: u64) -> (r: String)
    ensures
        r@ == resume_frame(token@, session_id@, sequence),
{
    let data = Json::object().with("token", Json::string(token)).with(
        "session_id",
        Json::string(session_id),
    ).with("seq", Json::number(sequence));
    write_frame(RESUME, data)
}

fn voice_move(guild_id: &str, channel_id: Option<&str>) -> (r: String)
    ensures
        r@ == voice_frame(
            guild_id@,
            match channel_id {
                Some(c) => Some(c@),
                None => None,
            },
        ),
{
    let channel = match channel_id {
        Some(c) => Json::string(c),
        None => Json::Null,
    };
    let data = Json::object().with("guild_id", Json::string(guild_id)).with(
        "channel_id",
        channel,
    ).with("self_mute", Json::Bool(false)).with("self_deaf", Json::Bool(false));
    write_frame(VOICE_STATE, data)
}

// ---------------------------------------------------------------- connecting

/// Twice the wait, up to the longest.
pub open spec fn doubled(backoff: u64) -> u64 {
    if backoff * 2 <= MAX_BACKOFF {
        (backoff * 2) as u64
    } else {
        MAX_BACKOFF
    }
}

impl SessionView {
    /// A session that has not begun.
    pub open spec fn fresh(gateway_url: Seq<char>) -> SessionView {
        SessionView {
            bot_user_id: None,
            session_id: None,
            resume_url: None,
            application_id: None,
            sequence: None,
            connect_url: gateway_url,
            backoff: INITIAL_BACKOFF,
            heartbeat_active: false,
            awaiting_ack: false,
            connections: Map::empty(),
            states: Map::empty(),
        }
    }

    /// After a connection has come about: the wait is short again, and no sign of life is due.
    pub open spec fn connected(self) -> SessionView {
        SessionView {
            backoff: INITIAL_BACKOFF,
            heartbeat_active: false,
            awaiting_ack: false,
            ..self
        }
    }

    /// After an attempt has failed: the next wait is longer.
    pub open spec fn refused(self) -> SessionView {
        SessionView { backoff: doubled(self.backoff), ..self }
    }

    /// After a connection was lost: the next one goes to where the session can be resumed, if that
    /// is known.
    pub open spec fn lost(self) -> SessionView {
        SessionView {
            connect_url: match self.resume_url {
                Some(url) => url + "/?v=10&encoding=json"@,
                None => self.connect_url,
            },
            backoff: doubled(self.backoff),
            ..self
        }
    }

    /// After the opening frame was sent: signs of life are due.
    pub open spec fn greeted(self) -> SessionView {
        SessionView { heartbeat_active: true, awaiting_ack: false, ..self }
    }

    /// The sign of life that is due; `None` if the last one was not acknowledged.
    pub open spec fn beat(self) -> Option<Seq<char>> {
        if self.awaiting_ack {
            None
        } else {
            Some(heartbeat_frame(self.sequence))
        }
    }

    /// After a sign of life was sent.
    pub open spec fn beaten(self) -> SessionView {
        SessionView { awaiting_ack: true, ..self }
    }

    /// After a payload has given the number of an event.
    pub open spec fn sequenced(self, payload: Tree) -> SessionView {
        match payload.u64_at("s"@) {
            Some(n) => SessionView { sequence: Some(n), ..self },
            None => self,
        }
    }

    /// The frame that opens the session: a session that is known and has seen an event is resumed.
    pub open spec fn opening(self, a: AdapterView) -> Seq<char> {
        match (self.session_id, self.sequence) {
            (Some(id), Some(n)) => resume_frame(a.token, id, n),
            _ => identify_frame(a.token, a.intents),
        }
    }
}

/// What to do when a sign of life is due.
pub enum Beat {
    /// The last one was not answered: the connection is dead. Connect anew.
    Dead,
    /// Send a frame. If that fails, connect anew.
    Send(String),
}

impl GatewaySession {
    /// A session that has not begun.
    pub fn new(gateway_url: String) -> (r: GatewaySession)
        ensures
            r@ == SessionView::fresh(gateway_url@),
    {
        GatewaySession {
            bot_user_id: None,
            session_id: None,
            resume_url: None,
            application_id: None,
            sequence: None,
            connect_url: gateway_url,
            backoff: INITIAL_BACKOFF,
            heartbeat_active: false,
            awaiting_ack: false,
            voice_connections: registry::new_connections(),
            voice_states: registry::new_states(),
        }
    }

    /// Where to connect.
    pub fn connect_url(&self) -> (r: &str)
        ensures
            r@ == self@.connect_url,
    {
        self.connect_url.as_str()
    }

    /// Whether signs of life are due at intervals.
    pub fn heartbeat_active(&self) -> (r: bool)
        ensures
            r == self@.heartbeat_active,
    {
        self.heartbeat_active
    }

    /// The bot's user, once the gateway is ready.
    pub fn bot_user_id(&self) -> (r: &Option<String>)
        ensures
            text::opt_text(*r) == self@.bot_user_id,
    {
        &self.bot_user_id
    }

    fn back_off(&mut self) -> (r: u64)
        ensures
            final(self)@ == old(self)@.refused(),
            r == old(self)@.backoff,
    {
        let wait: u64 = self.backoff;
        self.backoff = if wait <= MAX_BACKOFF / 2 {
            wait * 2
        } else {
            MAX_BACKOFF
        };
        wait
    }

    /// A connection could not be made. The result is how long to wait before the next attempt, in
    /// seconds.
    pub fn connect_failed(&mut self) -> (r: u64)
        ensures
            final(self)@ == old(self)@.refused(),
            r == old(self)@.backoff,
    {
        self.back_off()
    }

    /// A connection was made.
    pub fn connected(&mut self)
        ensures
            final(self)@ == old(self)@.connected(),
    {
        self.backoff = INITIAL_BACKOFF;
        self.heartbeat_active = false;
        self.awaiting_ack = false;
    }

    /// A connection was lost or given up. The result is how long to wait before the next attempt,
    /// in seconds.
    pub fn disconnected(&mut self) -> (r: u64)
        ensures
            final(self)@ == old(self)@.lost(),
            r == old(self)@.backoff,
    {
        if let Some(url) = &self.resume_url {
            let next = text::concat(url.as_str(), "/?v=10&encoding=json");
            self.connect_url = next;
        }
        self.back_off()
    }

    /// A sign of life is due.
    pub fn heartbeat_due(&self) -> (r: Beat)
        ensures
            match r {
                Beat::Dead => self@.beat() is None,
                Beat::Send(f) => self@.beat() == Some(f@),
            },
    {
        if self.awaiting_ack {
            Beat::Dead
        } else {
            Beat::Send(heartbeat(self.sequence))
        }
    }

    /// The sign of life was sent.
    pub fn heartbeat_sent(&mut self)
        ensures
            final(self)@ == old(self)@.beaten(),
    {
        self.awaiting_ack = true;
    }

    /// The frame that opens the session was sent.
    pub fn handshake_sent(&mut self)
        ensures
            final(self)@ == old(self)@.greeted(),
    {
        self.heartbeat_active = true;
        self.awaiting_ack = false;
    }
}

// ---------------------------------------------------------------- voice states

/// The voice state that an object gives, for a guild.
pub open spec fn voice_state(t: Tree, guild_id: Seq<char>) -> VoiceStateView {
    VoiceStateView {
        user_id: t.str_or("user_id"@, ""@),
        channel_id: t.str_at("channel_id"@),
        guild_id,
        self_mute: t.bool_at("self_mute"@) == Some(true),
        self_deaf: t.bool_at("self_deaf"@) == Some(true),
    }
}

/// The voice states with those that a guild reports. One without a user is left out.
pub open spec fn with_states(
    m: Map<Seq<char>, VoiceStateView>,
    states: Seq<Tree>,
    guild_id: Seq<char>,
) -> Map<Seq<char>, VoiceStateView>
    decreases states.len(),
{
    if states.len() == 0 {
        m
    } else {
        let before = with_states(m, states.drop_last(), guild_id);
        let state = voice_state(states.last(), guild_id);
        if state.user_id.len() == 0 {
            before
        } else {
            before.insert(state.user_id, state)
        }
    }
}

/// The voice states with those that a guild reports.
pub open spec fn with_guild(m: Map<Seq<char>, VoiceStateView>, guild: Tree) -> Map<
    Seq<char>,
    VoiceStateView,
> {
    with_states(m, parse::items_at(guild, "voice_states"@), guild.str_or("id"@, ""@))
}

/// The voice states with those that several guilds report.
pub open spec fn with_guilds(m: Map<Seq<char>, VoiceStateView>, guilds: Seq<Tree>) -> Map<
    Seq<char>,
    VoiceStateView,
>
    decreases guilds.len(),
{
    if guilds.len() == 0 {
        m
    } else {
        with_guild(with_guilds(m, guilds.drop_last()), guilds.last())
    }
}

fn read_state(t: &Json, guild_id: &str) -> (r: VoiceState)
    ensures
        r@ == voice_state(t@, guild_id@),
{
    VoiceState {
        user_id: t.str_or("user_id", ""),
        channel_id: t.string_at("channel_id"),
        guild_id: guild_id.to_string(),
        self_mute: match t.bool_at("self_mute") {
            Some(b) => b,
            None => false,
        },
        self_deaf: match t.bool_at("self_deaf") {
            Some(b) => b,
            None => false,
        },
    }
}

impl GatewaySession {
    fn load_guild(&mut self, guild: &Json)
        ensures
            final(self)@ == (SessionView {
                states: with_guild(old(self)@.states, guild@),
                ..old(self)@
            }),
    {
        let gid = guild.str_or("id", "");
        let ghost before = self@;
        let ghost all = parse::items_at(guild@, "voice_states"@);
        assert(all.take(0) =~= Seq::<Tree>::empty());
        if let Some(items) = guild.array_at("voice_states") {
            proof {
                json::lemma_trees(items@);
            }
            let mut i: usize = 0;
            while i < items.len()
                invariant
                    i <= items@.len(),
                    all.len() == items@.len(),
                    forall|k: int| 0 <= k < items@.len() ==> (#[trigger] all[k]) == items@[k]@,
                    self@ == (SessionView {
                        states: with_states(before.states, all.take(i as int), gid@),
                        ..before
                    }),
                decreases items@.len() - i,
            {
                proof {
                    assert(all.take(i + 1).drop_last() =~= all.take(i as int));
                    assert(all.take(i + 1).last() == items@[i as int]@);
                }
                let state = read_state(&items[i], gid.as_str());
                let uid = state.user_id.clone();
                if !uid.as_str().is_empty() {
                    registry::insert_state(&mut self.voice_states, uid, state);
                }
                i += 1;
            }
            assert(all.take(all.len() as int) =~= all);
        }
    }

    fn load_guilds(&mut self, d: &Json)
        ensures
            final(self)@ == (SessionView {
                states: with_guilds(old(self)@.states, parse::items_at(d@, "guilds"@)),
                ..old(self)@
            }),
    {
        let ghost before = self@;
        let ghost all = parse::items_at(d@, "guilds"@);
        assert(all.take(0) =~= Seq::<Tree>::empty());
        if let Some(items) = d.array_at("guilds") {
            proof {
                json::lemma_trees(items@);
            }
            let mut i: usize = 0;
            while i < items.len()
                invariant
                    i <= items@.len(),
                    all.len() == items@.len(),
                    forall|k: int| 0 <= k < items@.len() ==> (#[trigger] all[k]) == items@[k]@,
                    self@ == (SessionView {
                        states: with_guilds(before.states, all.take(i as int)),
                        ..before
                    }),
                decreases items@.len() - i,
            {
                proof {
                    assert(all.take(i + 1).drop_last() =~= all.take(i as int));
                    assert(all.take(i + 1).last() == items@[i as int]@);
                }
                self.load_guild(&items[i]);
                i += 1;
            }
            assert(all.take(all.len() as int) =~= all);
        }
    }
}

// ---------------------------------------------------------------- events

/// The text, if it is not empty; else what was there.
pub open spec fn unless_empty(new: Seq<char>, old: Option<Seq<char>>) -> Option<Seq<char>> {
    if new.len() == 0 {
        old
    } else {
        Some(new)
    }
}

/// The gateway is ready: it names the bot's user, the session and where to resume it, and the
/// application, whose slash commands are then registered.
pub open spec fn on_ready(s: SessionView, a: AdapterView, d: Tree) -> Step {
    let app_id = d.at("application"@).str_or("id"@, ""@);
    Step {
        session: SessionView {
            bot_user_id: Some(d.at("user"@).str_or("id"@, ""@)),
            session_id: Some(d.str_or("session_id"@, ""@)),
            resume_url: unless_empty(d.str_or("resume_gateway_url"@, ""@), s.resume_url),
            application_id: unless_empty(app_id, s.application_id),
            states: with_guilds(s.states, parse::items_at(d, "guilds"@)),
            ..s
        },
        actions: if app_id.len() == 0 {
            Seq::empty()
        } else {
            seq![ActionView::Request(commands::registration(a.token, app_id))]
        },
    }
}

/// A message was created or edited.
pub open spec fn on_message(
    s: SessionView,
    a: AdapterView,
    d: Tree,
    labels: Seq<Seq<char>>,
    now: Timestamp,
) -> Step {
    match parse::discord_message(d, s.bot_user_id, a.allowed_guilds, labels, now) {
        Some(m) => Step { session: s, actions: seq![ActionView::Deliver(m)] },
        None => quiet(s),
    }
}

/// What the bot says when it joins a voice channel.
pub open spec fn joining_text() -> Seq<char> {
    "Joining your voice channel..."@
}

/// What the bot says to one who is in no voice channel.
pub open spec fn no_channel_text() -> Seq<char> {
    "You need to be in a voice channel first! (Try leaving and rejoining your voice channel)"@
}

/// What the bot says when it has left a voice channel.
pub open spec fn left_text() -> Seq<char> {
    "Left voice channel."@
}

/// The answer to an interaction.
pub open spec fn reply(d: Tree, content: Seq<char>) -> ActionView {
    ActionView::Request(
        requests::callback(
            d.str_or("id"@, ""@),
            d.str_or("token"@, ""@),
            requests::respond_body(content),
        ),
    )
}

/// The acknowledgement of an interaction.
pub open spec fn acknowledgement(d: Tree, kind: int) -> ActionView {
    ActionView::Request(
        requests::callback(
            d.str_or("id"@, ""@),
            d.str_or("token"@, ""@),
            requests::ack_body(kind),
        ),
    )
}

/// The user who gives a voice command.
pub open spec fn commander(d: Tree) -> Seq<char> {
    d.at("member"@).at("user"@).str_or("id"@, ""@)
}

/// The voice channel that a user is in.
pub open spec fn channel_of(s: SessionView, user_id: Seq<char>) -> Option<Seq<char>> {
    if s.states.dom().contains(user_id) {
        s.states[user_id].channel_id
    } else {
        None
    }
}

/// The bot is asked to join: it joins the voice channel of the one who asks.
pub open spec fn on_join(s: SessionView, d: Tree) -> Step {
    let guild_id = d.str_or("guild_id"@, ""@);
    match channel_of(s, commander(d)) {
        Some(channel_id) => Step {
            session: SessionView {
                connections: s.connections.insert(
                    guild_id,
                    ConnectionView::pending(guild_id, channel_id),
                ),
                ..s
            },
            actions: seq![
                ActionView::Send(voice_frame(guild_id, Some(channel_id))),
                reply(d, joining_text()),
            ],
        },
        None => Step { session: s, actions: seq![reply(d, no_channel_text())] },
    }
}

/// The bot is asked to leave.
pub open spec fn on_leave(s: SessionView, d: Tree) -> Step {
    let guild_id = d.str_or("guild_id"@, ""@);
    Step {
        session: SessionView { connections: s.connections.remove(guild_id), ..s },
        actions: seq![
            ActionView::LeaveVoice(guild_id),
            ActionView::Send(voice_frame(guild_id, None)),
            reply(d, left_text()),
        ],
    }
}

/// A slash command was given, a button or menu used, or a form submitted. The voice commands are
/// carried out here; what else there is gets acknowledged and passed on.
pub open spec fn on_interaction(s: SessionView, d: Tree, now: Timestamp) -> Step {
    let kind = match d.u64_at("type"@) {
        Some(n) => n,
        None => 0,
    };
    let name = d.at("data"@).str_or("name"@, ""@);
    if kind == 2 || kind == 3 {
        if name == "join"@ {
            on_join(s, d)
        } else if name == "leave"@ {
            on_leave(s, d)
        } else {
            match parse::interaction_message(d, s.bot_user_id, kind, now) {
                Some(m) => Step {
                    session: s,
                    actions: seq![
                        acknowledgement(
                            d,
                            if kind == 3 {
                                6
                            } else {
                                5
                            },
                        ),
                        ActionView::Deliver(m),
                    ],
                },
                None => quiet(s),
            }
        }
    } else if kind == 5 {
        match parse::modal_message(d, s.bot_user_id, now) {
            Some(m) => Step {
                session: s,
                actions: seq![acknowledgement(d, 6), ActionView::Deliver(m)],
            },
            None => quiet(s),
        }
    } else {
        quiet(s)
    }
}

/// A user has joined, moved to or left a voice channel. If it is the bot, its connection to the
/// guild learns its session.
pub open spec fn on_voice_state(s: SessionView, d: Tree) -> Step {
    let guild_id = d.str_or("guild_id"@, ""@);
    let user_id = d.str_or("user_id"@, ""@);
    let session_id = d.str_at("session_id"@);
    quiet(
        SessionView {
            connections: if parse::is_own(user_id, s.bot_user_id) && session_id is Some
                && s.connections.dom().contains(guild_id) {
                s.connections.insert(
                    guild_id,
                    ConnectionView { session_id, ..s.connections[guild_id] },
                )
            } else {
                s.connections
            },
            states: s.states.insert(user_id, voice_state(d, guild_id)),
            ..s
        },
    )
}

/// The number of the bot's user, zero if it is not known or no number.
pub open spec fn bot_number(bot_user_id: Option<Seq<char>>) -> u64 {
    match bot_user_id {
        Some(id) => match text::parsed_number(id) {
            Some(n) => n,
            None => 0,
        },
        None => 0,
    }
}

/// A guild has told where its voice server is. A connection that now has all it needs is made.
pub open spec fn on_voice_server(s: SessionView, d: Tree) -> Step {
    let guild_id = d.str_or("guild_id"@, ""@);
    if s.connections.dom().contains(guild_id) {
        let connection = ConnectionView {
            endpoint: d.str_at("endpoint"@),
            token: d.str_at("token"@),
            ..s.connections[guild_id]
        };
        let number = bot_number(s.bot_user_id);
        Step {
            session: SessionView { connections: s.connections.insert(guild_id, connection), ..s },
            actions: if connection.ready() && number > 0 {
                seq![ActionView::ConnectVoice { connection, bot_user_id: number }]
            } else {
                Seq::empty()
            },
        }
    } else {
        quiet(s)
    }
}

/// An event of the given name.
pub open spec fn on_event(
    s: SessionView,
    a: AdapterView,
    name: Seq<char>,
    d: Tree,
    labels: Seq<Seq<char>>,
    now: Timestamp,
) -> Step {
    if name == "READY"@ {
        on_ready(s, a, d)
    } else if name == "GUILD_CREATE"@ {
        quiet(SessionView { states: with_guild(s.states, d), ..s })
    } else if name == "MESSAGE_CREATE"@ || name == "MESSAGE_UPDATE"@ {
        on_message(s, a, d, labels, now)
    } else if name == "INTERACTION_CREATE"@ {
        on_interaction(s, d, now)
    } else if name == "VOICE_STATE_UPDATE"@ {
        on_voice_state(s, d)
    } else if name == "VOICE_SERVER_UPDATE"@ {
        on_voice_server(s, d)
    } else {
        quiet(s)
    }
}

/// The opcode of a payload.
pub open spec fn opcode(payload: Tree) -> u64 {
    match payload.u64_at("op"@) {
        Some(n) => n,
        None => NO_OPCODE,
    }
}

/// A payload from the gateway.
pub open spec fn on_payload(
    before: SessionView,
    a: AdapterView,
    payload: Tree,
    labels: Seq<Seq<char>>,
    now: Timestamp,
) -> Step {
    let s = before.sequenced(payload);
    let op = opcode(payload);
    if op == HELLO {
        Step {
            session: s,
            actions: seq![
                ActionView::Handshake {
                    frame: s.opening(a),
                    interval: match payload.at("d"@).u64_at("heartbeat_interval"@) {
                        Some(n) => n,
                        None => DEFAULT_INTERVAL,
                    },
                },
            ],
        }
    } else if op == DISPATCH {
        on_event(s, a, payload.str_or("t"@, ""@), payload.at("d"@), labels, now)
    } else if op == HEARTBEAT {
        Step { session: s, actions: seq![ActionView::Send(heartbeat_frame(s.sequence))] }
    } else if op == HEARTBEAT_ACK {
        quiet(SessionView { awaiting_ack: false, ..s })
    } else if op == RECONNECT {
        Step { session: s, actions: seq![ActionView::Reconnect] }
    } else if op == INVALID_SESSION {
        Step {
            session: if payload.bool_at("d"@) == Some(true) {
                s
            } else {
                SessionView { session_id: None, sequence: None, ..s }
            },
            actions: seq![ActionView::Reconnect],
        }
    } else {
        quiet(s)
    }
}

impl GatewaySession {
    fn ready(&mut self, adapter: &DiscordAdapter, d: &Json) -> (r: Vec<Action>)
        ensures
            final(self)@ == on_ready(old(self)@, adapter@, d@).session,
            action_views(r@) == on_ready(old(self)@, adapter@, d@).actions,
    {
        let user_id = match d.get("user") {
            Some(u) => u.str_or("id", ""),
            None => "".to_string(),
        };
        let app_id = match d.get("application") {
            Some(app) => app.str_or("id", ""),
            None => "".to_string(),
        };
        let resume_url = d.str_or("resume_gateway_url", "");
        self.bot_user_id = Some(user_id);
        self.session_id = Some(d.str_or("session_id", ""));
        if !resume_url.as_str().is_empty() {
            self.resume_url = Some(resume_url);
        }
        let mut actions = no_action();
        if !app_id.as_str().is_empty() {
            let request = commands::register_slash_commands(adapter.token(), app_id.as_str());
            push_action(&mut actions, Action::Request(request));
            self.application_id = Some(app_id);
        }
        self.load_guilds(d);
        assert(action_views(actions@) =~= on_ready(old(self)@, adapter@, d@).actions);
        actions
    }

    fn message(
        &self,
        adapter: &DiscordAdapter,
        d: &Json,
        labels: &Vec<String>,
        now: Timestamp,
    ) -> (r: Vec<Action>)
        requires
            labels@.len() == parse::attachments(d@).len(),
        ensures
            self@ == on_message(self@, adapter@, d@, text::strings(labels@), now).session,
            action_views(r@) == on_message(
                self@,
                adapter@,
                d@,
                text::strings(labels@),
                now,
            ).actions,
    {
        match parse::parse_discord_message_at(
            d,
            &self.bot_user_id,
            adapter.allowed_guilds(),
            labels,
            now,
        ) {
            Some(m) => one_action(Action::Deliver(m)),
            None => no_action(),
        }
    }

    fn join(&mut self, d: &Json) -> (r: Vec<Action>)
        ensures
            final(self)@ == on_join(old(self)@, d@).session,
            action_views(r@) == on_join(old(self)@, d@).actions,
    {
        let guild_id = d.str_or("guild_id", "");
        let user_id = match d.get("member") {
            Some(m) => match m.get("user") {
                Some(u) => u.str_or("id", ""),
                None => "".to_string(),
            },
            None => "".to_string(),
        };
        assert(user_id@ == commander(d@));
        let id = d.str_or("id", "");
        let token = d.str_or("token", "");
        let channel: Option<String> = match registry::get_state(
            &self.voice_states,
            user_id.as_str(),
        ) {
            Some(state) => state.channel_id,
            None => None,
        };
        match channel {
            Some(channel_id) => {
                let frame = voice_move(guild_id.as_str(), Some(channel_id.as_str()));
                registry::insert_connection(
                    &mut self.voice_connections,
                    guild_id.clone(),
                    VoiceConnection::new(guild_id, channel_id),
                );
                let answer = requests::api_interaction_respond(
                    id.as_str(),
                    token.as_str(),
                    "Joining your voice channel...",
                );
                two_actions(Action::Send(frame), Action::Request(answer))
            },
            None => {
                let answer = requests::api_interaction_respond(
                    id.as_str(),
                    token.as_str(),
                    "You need to be in a voice channel first! (Try leaving and rejoining your voice channel)",
                );
                one_action(Action::Request(answer))
            },
        }
    }

    fn leave(&mut self, d: &Json) -> (r: Vec<Action>)
        ensures
            final(self)@ == on_leave(old(self)@, d@).session,
            action_views(r@) == on_leave(old(self)@, d@).actions,
    {
        let guild_id = d.str_or("guild_id", "");
        registry::remove_connection(&mut self.voice_connections, guild_id.as_str());
        let frame = voice_move(guild_id.as_str(), None);
        let answer = requests::api_interaction_respond(
            d.str_or("id", "").as_str(),
            d.str_or("token", "").as_str(),
            "Left voice channel.",
        );
        let mut actions = one_action(Action::LeaveVoice(guild_id));
        push_action(&mut actions, Action::Send(frame));
        push_action(&mut actions, Action::Request(answer));
        assert(action_views(actions@) =~= on_leave(old(self)@, d@).actions);
        actions
    }

    fn interaction(&mut self, d: &Json, now: Timestamp) -> (r: Vec<Action>)
        ensures
            final(self)@ == on_interaction(old(self)@, d@, now).session,
            action_views(r@) == on_interaction(old(self)@, d@, now).actions,
    {
        let kind: u64 = match d.u64_at("type") {
            Some(n) => n,
            None => 0,
        };
        let id = d.str_or("id", "");
        let token = d.str_or("token", "");
        let name = match d.get("data") {
            Some(data) => data.str_or("name", ""),
            None => "".to_string(),
        };
        if kind == 2 || kind == 3 {
            if text::same_text(name.as_str(), "join") {
                self.join(d)
            } else if text::same_text(name.as_str(), "leave") {
                self.leave(d)
            } else {
                match parse::parse_interaction_at(d, &self.bot_user_id, kind, now) {
                    Some(m) => {
                        let ack_kind: u64 = if kind == 3 {
                            6
                        } else {
                            5
                        };
                        let ack = requests::api_ack_as(id.as_str(), token.as_str(), ack_kind);
                        two_actions(Action::Request(ack), Action::Deliver(m))
                    },
                    None => no_action(),
                }
            }
        } else if kind == 5 {
            match parse::parse_modal_submit_at(d, &self.bot_user_id, now) {
                Some(m) => {
                    let ack = requests::api_ack_interaction(id.as_str(), token.as_str());
                    two_actions(Action::Request(ack), Action::Deliver(m))
                },
                None => no_action(),
            }
        } else {
            no_action()
        }
    }

    fn voice_state_changed(&mut self, d: &Json)
        ensures
            final(self)@ == on_voice_state(old(self)@, d@).session,
    {
        let guild_id = d.str_or("guild_id", "");
        let user_id = d.str_or("user_id", "");
        if parse::is_bot(user_id.as_str(), &self.bot_user_id) {
            if let Some(session_id) = d.string_at("session_id") {
                if let Some(found) = registry::get_connection(
                    &self.voice_connections,
                    guild_id.as_str(),
                ) {
                    let mut connection = found;
                    connection.session_id = Some(session_id);
                    registry::insert_connection(
                        &mut self.voice_connections,
                        guild_id.clone(),
                        connection,
                    );
                }
            }
        }
        let state = read_state(d, guild_id.as_str());
        registry::insert_state(&mut self.voice_states, user_id, state);
    }

    fn voice_server_changed(&mut self, d: &Json) -> (r: Vec<Action>)
        ensures
            final(self)@ == on_voice_server(old(self)@, d@).session,
            action_views(r@) == on_voice_server(old(self)@, d@).actions,
    {
        let guild_id = d.str_or("guild_id", "");
        match registry::get_connection(&self.voice_connections, guild_id.as_str()) {
            Some(found) => {
                let mut connection = found;
                connection.endpoint = d.string_at("endpoint");
                connection.token = d.string_at("token");
                let snapshot = connection.copy();
                registry::insert_connection(
                    &mut self.voice_connections,
                    guild_id,
                    connection,
                );
                let number: u64 = match &self.bot_user_id {
                    Some(id) => match text::parse_number(id.as_str()) {
                        Some(n) => n,
                        None => 0,
                    },
                    None => 0,
                };
                if snapshot.is_ready() && number > 0 {
                    one_action(
                        Action::ConnectVoice { connection: snapshot, bot_user_id: number },
                    )
                } else {
                    no_action()
                }
            },
            None => no_action(),
        }
    }

    fn event(
        &mut self,
        adapter: &DiscordAdapter,
        name: &str,
        d: &Json,
        labels: &Vec<String>,
        now: Timestamp,
    ) -> (r: Vec<Action>)
        requires
            labels@.len() == parse::attachments(d@).len(),
        ensures
            final(self)@ == on_event(
                old(self)@,
                adapter@,
                name@,
                d@,
                text::strings(labels@),
                now,
            ).session,
            action_views(r@) == on_event(
                old(self)@,
                adapter@,
                name@,
                d@,
                text::strings(labels@),
                now,
            ).actions,
    {
        if text::same_text(name, "READY") {
            self.ready(adapter, d)
        } else if text::same_text(name, "GUILD_CREATE") {
            self.load_guild(d);
            no_action()
        } else if text::same_text(name, "MESSAGE_CREATE") || text::same_text(
            name,
            "MESSAGE_UPDATE",
        ) {
            self.message(adapter, d, labels, now)
        } else if text::same_text(name, "INTERACTION_CREATE") {
            self.interaction(d, now)
        } else if text::same_text(name, "VOICE_STATE_UPDATE") {
            self.voice_state_changed(d);
            no_action()
        } else if text::same_text(name, "VOICE_SERVER_UPDATE") {
            self.voice_server_changed(d)
        } else {
            no_action()
        }
    }

    /// Takes in a payload from the gateway, at the time `now`. `size_labels` holds for each
    /// attachment of a message how a size over a thousand bytes is shown.
    pub fn on_payload(
        &mut self,
        adapter: &DiscordAdapter,
        payload: &Json,
        size_labels: &Vec<String>,
        now: Timestamp,
    ) -> (r: Vec<Action>)
        requires
            size_labels@.len() == parse::attachments(payload@.at("d"@)).len(),
        ensures
            final(self)@ == on_payload(
                old(self)@,
                adapter@,
                payload@,
                text::strings(size_labels@),
                now,
            ).session,
            action_views(r@) == on_payload(
                old(self)@,
                adapter@,
                payload@,
                text::strings(size_labels@),
                now,
            ).actions,
    {
        let op: u64 = match payload.u64_at("op") {
            Some(n) => n,
            None => NO_OPCODE,
        };
        if let Some(n) = payload.u64_at("s") {
            self.sequence = Some(n);
        }
        let null = Json::Null;
        let d: &Json = match payload.get("d") {
            Some(x) => x,
            None => &null,
        };
        assert(d@ == payload@.at("d"@));
        if op == HELLO {
            let interval: u64 = match d.u64_at("heartbeat_interval") {
                Some(n) => n,
                None => DEFAULT_INTERVAL,
            };
            let frame = match (&self.session_id, self.sequence) {
                (Some(id), Some(n)) => resume(adapter.token(), id.as_str(), n),
                _ => identify(adapter.token(), adapter.intents()),
            };
            one_action(Action::Handshake { frame, interval })
        } else if op == DISPATCH {
            let name = payload.str_or("t", "");
            self.event(adapter, name.as_str(), d, size_labels, now)
        } else if op == HEARTBEAT {
            one_action(Action::Send(heartbeat(self.sequence)))
        } else if op == HEARTBEAT_ACK {
            self.awaiting_ack = false;
            no_action()
        } else if op == RECONNECT {
            one_action(Action::Reconnect)
        } else if op == INVALID_SESSION {
            if let Some(true) = payload.bool_at("d") {
            } else {
                self.session_id = None;
                self.sequence = None;
            }
            one_action(Action::Reconnect)
        } else {
            no_action()
        }
    }
}

// ---------------------------------------------------------------- texts

/// A payload from the gateway, and the sizes of the attachments in it.
pub struct Received {
    pub payload: Json,
    pub sizes: Vec<u64>,
}

/// The sizes of the attachments in a payload.
pub open spec fn payload_sizes(payload: Tree) -> Seq<u64> {
    parse::attachments(payload.at("d"@)).map_values(|att: Tree| parse::attachment_size(att))
}

/// Reads a text from the gateway. One that is no JSON is passed over.
pub fn receive(text: &str) -> (r: Option<Received>)
    ensures
        match r {
            Some(x) => json::parsed(text@) == Some(x.payload@) && x.sizes@ == payload_sizes(
                x.payload@,
            ),
            None => json::parsed(text@) is None,
        },
{
    match json::parse_json(text) {
        Some(payload) => {
            let sizes = match payload.get("d") {
                Some(d) => parse::attachment_sizes(d),
                None => Vec::new(),
            };
            assert(sizes@ =~= payload_sizes(payload@));
            Some(Received { payload, sizes })
        },
        None => None,
    }
}

impl GatewaySession {
    /// Takes in a payload from the gateway, at the current time.
    pub fn on_received(
        &mut self,
        adapter: &DiscordAdapter,
        payload: &Json,
        size_labels: &Vec<String>,
    ) -> (r: Vec<Action>)
        requires
            size_labels@.len() == parse::attachments(payload@.at("d"@)).len(),
        ensures
            exists|now: Timestamp|
                #![trigger on_payload(
                    old(self)@,
                    adapter@,
                    payload@,
                    text::strings(size_labels@),
                    now,
                )]
                now.nanos < 1_000_000_000 && final(self)@ == on_payload(
                    old(self)@,
                    adapter@,
                    payload@,
                    text::strings(size_labels@),
                    now,
                ).session && action_views(r@) == on_payload(
                    old(self)@,
                    adapter@,
                    payload@,
                    text::strings(size_labels@),
                    now,
                ).actions,
    {
        let now = parse::utc_now();
        self.on_payload(adapter, payload, size_labels, now)
    }
}

} // verus!
