//! Voice: who is in which channel, voice connections, received audio and WAV files.

use crate::text;
use std::collections::HashMap;
use vstd::prelude::*;

verus! {

broadcast use vstd::std_specs::hash::group_hash_axioms;

// ---------------------------------------------------------------- voice states

/// Where a user is in a guild's voice channels.
#[derive(Debug)]
pub struct VoiceState {
    pub user_id: String,
    pub channel_id: Option<String>,
    pub guild_id: String,
    pub self_mute: bool,
    pub self_deaf: bool,
}

/// What a voice state holds.
pub struct VoiceStateView {
    pub user_id: Seq<char>,
    pub channel_id: Option<Seq<char>>,
    pub guild_id: Seq<char>,
    pub self_mute: bool,
    pub self_deaf: bool,
}

impl View for VoiceState {
    type V = VoiceStateView;

    open spec fn view(&self) -> VoiceStateView {
        VoiceStateView {
            user_id: self.user_id@,
            channel_id: text::opt_text(self.channel_id),
            guild_id: self.guild_id@,
            self_mute: self.self_mute,
            self_deaf: self.self_deaf,
        }
    }
}

impl VoiceState {
    /// A copy.
    pub fn copy(&self) -> (r: VoiceState)
        ensures
            r@ == self@,
    {
        VoiceState {
            user_id: self.user_id.clone(),
            channel_id: crate::discord_types::copy_opt(&self.channel_id),
            guild_id: self.guild_id.clone(),
            self_mute: self.self_mute,
            self_deaf: self.self_deaf,
        }
    }
}

// ---------------------------------------------------------------- voice connections

/// A pending or active voice connection.
#[derive(Debug)]
pub struct VoiceConnection {
    pub guild_id: String,
    pub channel_id: String,
    pub session_id: Option<String>,
    pub endpoint: Option<String>,
    pub token: Option<String>,
    pub ssrc: Option<u32>,
}

/// What a voice connection holds.
pub struct ConnectionView {
    pub guild_id: Seq<char>,
    pub channel_id: Seq<char>,
    pub session_id: Option<Seq<char>>,
    pub endpoint: Option<Seq<char>>,
    pub token: Option<Seq<char>>,
    pub ssrc: Option<u32>,
}

impl View for VoiceConnection {
    type V = ConnectionView;

    open spec fn view(&self) -> ConnectionView {
        ConnectionView {
            guild_id: self.guild_id@,
            channel_id: self.channel_id@,
            session_id: text::opt_text(self.session_id),
            endpoint: text::opt_text(self.endpoint),
            token: text::opt_text(self.token),
            ssrc: self.ssrc,
        }
    }
}

impl ConnectionView {
    /// A connection of which nothing but the channel is known.
    pub open spec fn pending(guild_id: Seq<char>, channel_id: Seq<char>) -> ConnectionView {
        ConnectionView {
            guild_id,
            channel_id,
            session_id: None,
            endpoint: None,
            token: None,
            ssrc: None,
        }
    }

    /// Session, endpoint and token are known.
    pub open spec fn ready(self) -> bool {
        self.session_id is Some && self.endpoint is Some && self.token is Some
    }
}

/// All that is needed to connect to a voice channel.
#[derive(Debug)]
pub struct VoiceTarget {
    pub guild_id: u64,
    pub channel_id: u64,
    pub user_id: u64,
    pub endpoint: String,
    pub session_id: String,
    pub token: String,
}

/// Why a voice connection cannot be made.
#[derive(Clone, Copy, Debug, PartialEq, Eq, Structural)]
pub enum ConnectError {
    GuildIdNotANumber,
    GuildIdZero,
    ChannelIdNotANumber,
    ChannelIdZero,
    BotUserIdZero,
    MissingEndpoint,
    MissingSessionId,
    MissingToken,
}

/// What stands in the way of the connection, the first obstacle first; `None` if nothing does.
pub open spec fn connect_error(c: ConnectionView, bot_user_id: u64) -> Option<ConnectError> {
    if text::parsed_number(c.guild_id) is None {
        Some(ConnectError::GuildIdNotANumber)
    } else if text::parsed_number(c.guild_id) == Some(0u64) {
        Some(ConnectError::GuildIdZero)
    } else if text::parsed_number(c.channel_id) is None {
        Some(ConnectError::ChannelIdNotANumber)
    } else if text::parsed_number(c.channel_id) == Some(0u64) {
        Some(ConnectError::ChannelIdZero)
    } else if bot_user_id == 0 {
        Some(ConnectError::BotUserIdZero)
    } else if c.endpoint is None {
        Some(ConnectError::MissingEndpoint)
    } else if c.session_id is None {
        Some(ConnectError::MissingSessionId)
    } else if c.token is None {
        Some(ConnectError::MissingToken)
    } else {
        None
    }
}

/// The target is that of the connection, for the bot with the given user.
pub open spec fn leads_to(c: ConnectionView, bot_user_id: u64, t: VoiceTarget) -> bool {
    &&& text::parsed_number(c.guild_id) == Some(t.guild_id)
    &&& text::parsed_number(c.channel_id) == Some(t.channel_id)
    &&& t.user_id == bot_user_id
    &&& c.endpoint == Some(t.endpoint@)
    &&& c.session_id == Some(t.session_id@)
    &&& c.token == Some(t.token@)
}

impl VoiceConnection {
    /// A connection of which nothing but the channel is known.
    pub fn new(guild_id: String, channel_id: String) -> (r: VoiceConnection)
        ensures
            r@ == ConnectionView::pending(guild_id@, channel_id@),
    {
        VoiceConnection {
            guild_id,
            channel_id,
            session_id: None,
            endpoint: None,
            token: None,
            ssrc: None,
        }
    }

    /// Whether session, endpoint and token are known.
    pub fn is_ready(&self) -> (r: bool)
        ensures
            r == self@.ready(),
    {
        self.session_id.is_some() && self.endpoint.is_some() && self.token.is_some()
    }

    /// A copy.
    pub fn copy(&self) -> (r: VoiceConnection)
        ensures
            r@ == self@,
    {
        VoiceConnection {
            guild_id: self.guild_id.clone(),
            channel_id: self.channel_id.clone(),
            session_id: crate::discord_types::copy_opt(&self.session_id),
            endpoint: crate::discord_types::copy_opt(&self.endpoint),
            token: crate::discord_types::copy_opt(&self.token),
            ssrc: self.ssrc,
        }
    }

    /// What to connect to, as the bot with the given user.
    pub fn target(&self, bot_user_id: u64) -> (r: Result<VoiceTarget, ConnectError>)
        ensures
            match r {
                Ok(t) => connect_error(self@, bot_user_id) is None && leads_to(
                    self@,
                    bot_user_id,
                    t,
                ),
                Err(e) => connect_error(self@, bot_user_id) == Some(e),
            },
    {
        let guild_id: u64 = match text::parse_number(self.guild_id.as_str()) {
            Some(n) => n,
            None => {
                return Err(ConnectError::GuildIdNotANumber);
            },
        };
        if guild_id == 0 {
            return Err(ConnectError::GuildIdZero);
        }
        let channel_id: u64 = match text::parse_number(self.channel_id.as_str()) {
            Some(n) => n,
            None => {
                return Err(ConnectError::ChannelIdNotANumber);
            },
        };
        if channel_id == 0 {
            return Err(ConnectError::ChannelIdZero);
        }
        if bot_user_id == 0 {
            return Err(ConnectError::BotUserIdZero);
        }
        match (&self.endpoint, &self.session_id, &self.token) {
            (None, _, _) => Err(ConnectError::MissingEndpoint),
            (_, None, _) => Err(ConnectError::MissingSessionId),
            (_, _, None) => Err(ConnectError::MissingToken),
            (Some(endpoint), Some(session_id), Some(token)) => Ok(
                VoiceTarget {
                    guild_id,
                    channel_id,
                    user_id: bot_user_id,
                    endpoint: endpoint.clone(),
                    session_id: session_id.clone(),
                    token: token.clone(),
                },
            ),
        }
    }
}

/// The wording of a connection error.
pub open spec fn connect_error_text(e: ConnectError) -> Seq<char> {
    match e {
        ConnectError::GuildIdNotANumber => "guild_id is not a number"@,
        ConnectError::GuildIdZero => "guild_id is zero"@,
        ConnectError::ChannelIdNotANumber => "channel_id is not a number"@,
        ConnectError::ChannelIdZero => "channel_id is zero"@,
        ConnectError::BotUserIdZero => "bot_user_id is zero"@,
        ConnectError::MissingEndpoint => "missing voice endpoint"@,
        ConnectError::MissingSessionId => "missing voice session_id"@,
        ConnectError::MissingToken => "missing voice token"@,
    }
}

impl ConnectError {
    /// The wording of the error.
    pub fn message(self) -> (r: String)
        ensures
            r@ == connect_error_text(self),
    {
        match self {
            ConnectError::GuildIdNotANumber => "guild_id is not a number".to_string(),
            ConnectError::GuildIdZero => "guild_id is zero".to_string(),
            ConnectError::ChannelIdNotANumber => "channel_id is not a number".to_string(),
            ConnectError::ChannelIdZero => "channel_id is zero".to_string(),
            ConnectError::BotUserIdZero => "bot_user_id is zero".to_string(),
            ConnectError::MissingEndpoint => "missing voice endpoint".to_string(),
            ConnectError::MissingSessionId => "missing voice session_id".to_string(),
            ConnectError::MissingToken => "missing voice token".to_string(),
        }
    }
}

// ---------------------------------------------------------------- received audio

/// Sent when a user finishes speaking and audio is ready for processing.
#[derive(Debug)]
pub struct AudioCompleteEvent {
    pub ssrc: u32,
    pub user_id: Option<u64>,
    pub samples: Vec<i16>,
}

/// What a completed recording holds.
pub struct AudioView {
    pub ssrc: u32,
    pub user_id: Option<u64>,
    pub samples: Seq<i16>,
}

impl View for AudioCompleteEvent {
    type V = AudioView;

    open spec fn view(&self) -> AudioView {
        AudioView { ssrc: self.ssrc, user_id: self.user_id, samples: self.samples@ }
    }
}

/// A recording of this many samples or fewer is dropped: 200 ms of stereo at 48 kHz.
pub const MIN_SAMPLES: usize = 19200;

/// Manages audio reception from voice channels.
/// Buffers decoded PCM per SSRC, flushes when a user stops speaking.
pub struct AudioReceiver {
    buffers: HashMap<u32, Vec<i16>>,
    ssrc_map: HashMap<u32, u64>,
}

/// What an audio receiver holds: the samples buffered for each SSRC, and the users known by SSRC.
pub struct ReceiverView {
    pub buffers: Map<u32, Seq<i16>>,
    pub users: Map<u32, u64>,
}

impl ReceiverView {
    /// The samples buffered for an SSRC.
    pub open spec fn buffered(self, ssrc: u32) -> Seq<i16> {
        if self.buffers.dom().contains(ssrc) {
            self.buffers[ssrc]
        } else {
            Seq::empty()
        }
    }

    /// After decoded samples have come in for an SSRC.
    pub open spec fn heard(self, ssrc: u32, decoded: Seq<i16>) -> ReceiverView {
        if decoded.len() == 0 {
            self
        } else {
            ReceiverView {
                buffers: self.buffers.insert(ssrc, self.buffered(ssrc) + decoded),
                ..self
            }
        }
    }

    /// After the user behind an SSRC has become known.
    pub open spec fn identified(self, ssrc: u32, user_id: Option<u64>) -> ReceiverView {
        match user_id {
            Some(uid) => ReceiverView { users: self.users.insert(ssrc, uid), ..self },
            None => self,
        }
    }

    /// The user known for an SSRC.
    pub open spec fn user(self, ssrc: u32) -> Option<u64> {
        if self.users.dom().contains(ssrc) {
            Some(self.users[ssrc])
        } else {
            None
        }
    }

    /// After a change of an SSRC's speaking state: who stops speaking has no buffer any more.
    pub open spec fn updated(
        self,
        ssrc: u32,
        user_id: Option<u64>,
        microphone: bool,
    ) -> ReceiverView {
        let s = self.identified(ssrc, user_id);
        if microphone {
            s
        } else {
            ReceiverView { buffers: s.buffers.remove(ssrc), ..s }
        }
    }

    /// The recording that is complete after a change of an SSRC's speaking state.
    pub open spec fn completed(self, ssrc: u32, user_id: Option<u64>, microphone: bool) -> Option<
        AudioView,
    > {
        let s = self.identified(ssrc, user_id);
        if !microphone && s.buffers.dom().contains(ssrc) && s.buffers[ssrc].len() > MIN_SAMPLES {
            Some(AudioView { ssrc, user_id: s.user(ssrc), samples: s.buffers[ssrc] })
        } else {
            None
        }
    }
}

impl View for AudioReceiver {
    type V = ReceiverView;

    closed spec fn view(&self) -> ReceiverView {
        ReceiverView {
            buffers: self.buffers@.map_values(|v: Vec<i16>| v@),
            users: self.ssrc_map@,
        }
    }
}

impl AudioReceiver {
    /// A receiver that has heard nothing.
    pub fn new() -> (r: AudioReceiver)
        ensures
            r@.buffers == Map::<u32, Seq<i16>>::empty(),
            r@.users == Map::<u32, u64>::empty(),
    {
        let r = AudioReceiver { buffers: HashMap::new(), ssrc_map: HashMap::new() };
        assert(r@.buffers =~= Map::<u32, Seq<i16>>::empty());
        r
    }

    /// Accumulates the PCM decoded for one speaking user in a voice tick.
    pub fn voice_tick(&mut self, ssrc: u32, decoded: &[i16])
        ensures
            final(self)@ == old(self)@.heard(ssrc, decoded@),
    {
        if decoded.len() == 0 {
            return;
        }
        let ghost before = self@;
        let mut samples: Vec<i16> = match self.buffers.remove(&ssrc) {
            Some(v) => v,
            None => Vec::new(),
        };
        let ghost start = samples@;
        let mut i: usize = 0;
        while i < decoded.len()
            invariant
                i <= decoded@.len(),
                samples@ == start + decoded@.take(i as int),
            decreases decoded@.len() - i,
        {
            samples.push(decoded[i]);
            i += 1;
            assert(decoded@.take(i as int) =~= decoded@.take(i - 1).push(decoded@[i - 1]));
        }
        assert(decoded@.take(decoded@.len() as int) =~= decoded@);
        assert(start =~= before.buffered(ssrc));
        self.buffers.insert(ssrc, samples);
        assert(self@.buffers =~= before.heard(ssrc, decoded@).buffers);
    }

    /// Takes in a change of a user's speaking state. When the user stops speaking, their buffer is
    /// flushed, and handed out if it is long enough.
    pub fn speaking_state_update(
        &mut self,
        ssrc: u32,
        user_id: Option<u64>,
        microphone: bool,
    ) -> (r: Option<AudioCompleteEvent>)
        ensures
            final(self)@ == old(self)@.updated(ssrc, user_id, microphone),
            match r {
                Some(e) => old(self)@.completed(ssrc, user_id, microphone) == Some(e@),
                None => old(self)@.completed(ssrc, user_id, microphone) is None,
            },
    {
        let ghost before = self@;
        if let Some(uid) = user_id {
            self.ssrc_map.insert(ssrc, uid);
        }
        let ghost known = self@;
        assert(known == before.identified(ssrc, user_id));
        if !microphone {
            let flushed = self.buffers.remove(&ssrc);
            assert(self@.buffers =~= known.buffers.remove(ssrc));
            if let Some(samples) = flushed {
                assert(known.buffers[ssrc] == samples@);
                if samples.len() > MIN_SAMPLES {
                    let user: Option<u64> = match self.ssrc_map.get(&ssrc) {
                        Some(u) => Some(*u),
                        None => None,
                    };
                    return Some(AudioCompleteEvent { ssrc, user_id: user, samples });
                }
            }
        }
        None
    }
}

// ---------------------------------------------------------------- WAV files

/// The bytes of a number, the least significant first.
pub open spec fn le32(n: int) -> Seq<u8> {
    seq![
        (n % 256) as u8,
        ((n / 256) % 256) as u8,
        ((n / 65536) % 256) as u8,
        ((n / 16777216) % 256) as u8,
    ]
}

/// The bytes of a number, the least significant first.
pub open spec fn le16(n: int) -> Seq<u8> {
    seq![(n % 256) as u8, ((n / 256) % 256) as u8]
}

/// The bytes of a sample in two's complement, the least significant first.
pub open spec fn sample_bytes(s: i16) -> Seq<u8> {
    le16(if s < 0 {
        s + 65536
    } else {
        s as int
    })
}

/// The bytes of the samples.
pub open spec fn pcm_bytes(samples: Seq<i16>) -> Seq<u8>
    decreases samples.len(),
{
    if samples.len() == 0 {
        Seq::empty()
    } else {
        pcm_bytes(samples.drop_last()) + sample_bytes(samples.last())
    }
}

/// The size that a WAV header gives for this many samples. The header has 32 bits for it.
pub open spec fn wav_data_size(n: nat) -> int {
    ((n % 0x1_0000_0000) * 2) as int
}

/// The header of a WAV file of 48 kHz stereo 16-bit PCM.
pub open spec fn wav_header(data_size: int) -> Seq<u8> {
    seq![0x52u8, 0x49, 0x46, 0x46] + le32(36 + data_size) + seq![0x57u8, 0x41, 0x56, 0x45]
        + seq![0x66u8, 0x6d, 0x74, 0x20] + le32(16) + le16(1) + le16(2) + le32(48000) + le32(192000)
        + le16(4) + le16(16) + seq![0x64u8, 0x61, 0x74, 0x61] + le32(data_size)
}

/// A WAV file of 48 kHz stereo 16-bit PCM.
pub open spec fn wav_file(samples: Seq<i16>) -> Seq<u8> {
    wav_header(wav_data_size(samples.len())) + pcm_bytes(samples)
}

fn push_bytes(out: &mut Vec<u8>, bytes: &[u8])
    ensures
        final(out)@ == old(out)@ + bytes@,
{
    let mut i: usize = 0;
    while i < bytes.len()
        invariant
            i <= bytes@.len(),
            out@ == old(out)@ + bytes@.take(i as int),
        decreases bytes@.len() - i,
    {
        out.push(bytes[i]);
        i += 1;
        assert(bytes@.take(i as int) =~= bytes@.take(i - 1).push(bytes@[i - 1]));
    }
    assert(bytes@.take(bytes@.len() as int) =~= bytes@);
}

fn push_le32(out: &mut Vec<u8>, n: u32)
    ensures
        final(out)@ == old(out)@ + le32(n as int),
{
    out.push((n % 256) as u8);
    out.push(((n / 256) % 256) as u8);
    out.push(((n / 65536) % 256) as u8);
    out.push(((n / 16777216) % 256) as u8);
    assert(out@ =~= old(out)@ + le32(n as int));
}

fn push_le16(out: &mut Vec<u8>, n: u16)
    ensures
        final(out)@ == old(out)@ + le16(n as int),
{
    out.push((n % 256) as u8);
    out.push(((n / 256) % 256) as u8);
    assert(out@ =~= old(out)@ + le16(n as int));
}

/// Whether the header of a WAV file has room for the sizes.
pub fn fits_wav(samples: &[i16]) -> (r: bool)
    ensures
        r == (36 + wav_data_size(samples@.len()) <= u32::MAX),
{
    let n: u64 = (samples.len() as u64) % 0x1_0000_0000;
    36 + n * 2 <= u32::MAX as u64
}

/// The WAV file for raw PCM samples (48kHz stereo i16).
pub fn pcm_to_wav(samples: &[i16]) -> (r: Vec<u8>)
    requires
        36 + wav_data_size(samples@.len()) <= u32::MAX,
    ensures
        r@ == wav_file(samples@),
{
    let n: u32 = ((samples.len() as u64) % 0x1_0000_0000) as u32;
    let data_size: u32 = n * 2;
    let mut out: Vec<u8> = Vec::new();
    push_bytes(&mut out, &[0x52u8, 0x49, 0x46, 0x46]);
    push_le32(&mut out, 36 + data_size);
    push_bytes(&mut out, &[0x57u8, 0x41, 0x56, 0x45]);
    push_bytes(&mut out, &[0x66u8, 0x6d, 0x74, 0x20]);
    push_le32(&mut out, 16);
    push_le16(&mut out, 1);
    push_le16(&mut out, 2);
    push_le32(&mut out, 48000);
    push_le32(&mut out, 192000);
    push_le16(&mut out, 4);
    push_le16(&mut out, 16);
    push_bytes(&mut out, &[0x64u8, 0x61, 0x74, 0x61]);
    push_le32(&mut out, data_size);
    assert(out@ =~= wav_header(wav_data_size(samples@.len())));
    let ghost header = out@;
    let mut i: usize = 0;
    assert(samples@.take(0) =~= Seq::<i16>::empty());
    assert(out@ =~= header + pcm_bytes(samples@.take(0)));
    while i < samples.len()
        invariant
            i <= samples@.len(),
            out@ == header + pcm_bytes(samples@.take(i as int)),
        decreases samples@.len() - i,
    {
        let s: i16 = samples[i];
        let u: u16 = if s < 0 {
            (s as i32 + 65536) as u16
        } else {
            s as u16
        };
        proof {
            assert(samples@.take(i + 1).drop_last() =~= samples@.take(i as int));
            assert(samples@.take(i + 1).last() == s);
        }
        push_le16(&mut out, u);
        i += 1;
        assert(out@ =~= header + pcm_bytes(samples@.take(i as int)));
    }
    assert(samples@.take(samples@.len() as int) =~= samples@);
    out
}

} // verus!
