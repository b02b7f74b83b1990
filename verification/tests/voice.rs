use openfang_channels::json::{parse_json, write_json};
use openfang_channels::requests::Body;
use openfang_channels::speech::{
    ask, hear_agent, recording_path, say, speaker_arguments, speaker_of, speech_path, transcript,
    transcriber_arguments,
};
use openfang_channels::voice::{
    pcm_to_wav, AudioCompleteEvent, AudioReceiver, ConnectError, VoiceConnection,
};

fn connection() -> VoiceConnection {
    let mut c = VoiceConnection::new("11".to_string(), "22".to_string());
    c.session_id = Some("s".to_string());
    c.endpoint = Some("e".to_string());
    c.token = Some("t".to_string());
    c
}

#[test]
fn a_connection_is_ready_when_all_is_known() {
    let c = VoiceConnection::new("g".to_string(), "c".to_string());
    assert_eq!((c.guild_id.as_str(), c.channel_id.as_str()), ("g", "c"));
    assert!(!c.is_ready());
    assert!(c.session_id.is_none() && c.endpoint.is_none() && c.token.is_none() && c.ssrc.is_none());
    assert!(connection().is_ready());
    for i in 0..3 {
        let mut c = connection();
        match i {
            0 => c.session_id = None,
            1 => c.endpoint = None,
            _ => c.token = None,
        }
        assert!(!c.is_ready());
    }
    let copy = connection().copy();
    assert_eq!(copy.session_id, Some("s".to_string()));
}

#[test]
fn each_obstacle_to_a_connection_is_named() {
    let t = connection().target(33).unwrap();
    assert_eq!((t.guild_id, t.channel_id, t.user_id), (11, 22, 33));
    assert_eq!((t.endpoint.as_str(), t.session_id.as_str(), t.token.as_str()), ("e", "s", "t"));
    let with = |f: fn(&mut VoiceConnection)| {
        let mut c = connection();
        f(&mut c);
        c.target(33).unwrap_err()
    };
    assert_eq!(with(|c| c.guild_id = "x".to_string()), ConnectError::GuildIdNotANumber);
    assert_eq!(with(|c| c.guild_id = String::new()), ConnectError::GuildIdNotANumber);
    assert_eq!(with(|c| c.guild_id = "-1".to_string()), ConnectError::GuildIdNotANumber);
    assert_eq!(
        with(|c| c.guild_id = "18446744073709551616".to_string()),
        ConnectError::GuildIdNotANumber
    );
    assert_eq!(with(|c| c.guild_id = "00".to_string()), ConnectError::GuildIdZero);
    assert_eq!(with(|c| c.channel_id = "+".to_string()), ConnectError::ChannelIdNotANumber);
    assert_eq!(with(|c| c.channel_id = "+0".to_string()), ConnectError::ChannelIdZero);
    assert_eq!(with(|c| c.endpoint = None), ConnectError::MissingEndpoint);
    assert_eq!(with(|c| c.session_id = None), ConnectError::MissingSessionId);
    assert_eq!(with(|c| c.token = None), ConnectError::MissingToken);
    assert_eq!(connection().target(0).unwrap_err(), ConnectError::BotUserIdZero);
    assert_eq!(ConnectError::GuildIdZero.message(), "guild_id is zero");
    assert_eq!(ConnectError::ChannelIdZero.message(), "channel_id is zero");
    assert_eq!(ConnectError::BotUserIdZero.message(), "bot_user_id is zero");
    assert_eq!(ConnectError::MissingEndpoint.message(), "missing voice endpoint");
    assert_eq!(ConnectError::MissingSessionId.message(), "missing voice session_id");
    assert_eq!(ConnectError::MissingToken.message(), "missing voice token");
    let mut big = connection();
    big.guild_id = "+18446744073709551615".to_string();
    assert_eq!(big.target(1).unwrap().guild_id, u64::MAX);
}

#[test]
fn recordings_are_handed_out_whole_and_once() {
    let mut r = AudioReceiver::new();
    let a = vec![1i16; 60000];
    let b = vec![2i16; 40000];
    r.voice_tick(7, &a);
    r.voice_tick(8, &b);
    r.voice_tick(7, &[]);
    r.voice_tick(7, &b);
    assert!(r.speaking_state_update(7, Some(99), true).is_none());
    let e = r.speaking_state_update(7, None, false).unwrap();
    assert_eq!((e.ssrc, e.user_id), (7, Some(99)));
    assert_eq!(e.samples.len(), 100000);
    assert_eq!((e.samples[59999], e.samples[60000]), (1, 2));
    assert!(r.speaking_state_update(7, None, false).is_none());
    r.voice_tick(8, &a);
    let e = r.speaking_state_update(8, None, false).unwrap();
    assert_eq!((e.user_id, e.samples[0]), (None, 2));
}

#[test]
fn short_recordings_are_dropped() {
    let mut r = AudioReceiver::new();
    r.voice_tick(1, &vec![0i16; 19200]);
    assert!(r.speaking_state_update(1, Some(5), false).is_none());
    r.voice_tick(1, &vec![0i16; 19201]);
    assert!(r.speaking_state_update(1, None, false).is_some());
}

#[test]
fn wav_files_are_as_they_should_be() {
    let wav = pcm_to_wav(&[0, 1, -1, i16::MAX, i16::MIN, 258]);
    let mut expected: Vec<u8> = Vec::new();
    expected.extend_from_slice(b"RIFF");
    expected.extend_from_slice(&48u32.to_le_bytes());
    expected.extend_from_slice(b"WAVEfmt ");
    expected.extend_from_slice(&16u32.to_le_bytes());
    expected.extend_from_slice(&1u16.to_le_bytes());
    expected.extend_from_slice(&2u16.to_le_bytes());
    expected.extend_from_slice(&48000u32.to_le_bytes());
    expected.extend_from_slice(&192000u32.to_le_bytes());
    expected.extend_from_slice(&4u16.to_le_bytes());
    expected.extend_from_slice(&16u16.to_le_bytes());
    expected.extend_from_slice(b"data");
    expected.extend_from_slice(&12u32.to_le_bytes());
    for s in [0i16, 1, -1, i16::MAX, i16::MIN, 258] {
        expected.extend_from_slice(&s.to_le_bytes());
    }
    assert_eq!(wav, expected);
    assert_eq!(wav.len(), 44 + 12);
    assert_eq!(pcm_to_wav(&[]).len(), 44);
}

#[test]
fn what_is_heard_is_asked() {
    let e = AudioCompleteEvent { ssrc: 4, user_id: None, samples: vec![] };
    assert_eq!(speaker_of(&e), 4);
    let e = AudioCompleteEvent { ssrc: 4, user_id: Some(u64::MAX), samples: vec![] };
    assert_eq!(speaker_of(&e), u64::MAX);
    assert_eq!(recording_path(12, 3400), "/tmp/openfang_voice_12_3400.wav");
    assert_eq!(speech_path(0), "/tmp/openfang_tts_0.wav");
    assert_eq!(
        transcriber_arguments("m", "w", Some(16)),
        vec!["-m", "m", "-f", "w", "--no-timestamps", "-np", "-t", "8"]
    );
    assert_eq!(transcriber_arguments("m", "w", Some(3))[7], "3");
    assert_eq!(transcriber_arguments("m", "w", None)[7], "4");
    assert_eq!(speaker_arguments("m", "s"), vec!["-m", "m", "-f", "s"]);
    assert_eq!(transcript(b"  \n hi there\xff \n"), "hi there\u{fffd}");
    assert!(ask("http://b", "a", "k", " \n").is_none());
    let q = ask("http://b", "a", "k", "what?").unwrap();
    assert_eq!(q.url, "http://b/api/agents/a/message");
    assert_eq!(q.headers, vec![("Authorization".to_string(), "Bearer k".to_string())]);
    match q.body {
        Body::Json(j) => assert_eq!(write_json(&j), r#"{"message":"what?"}"#),
        _ => panic!(),
    }
}

#[test]
fn what_is_answered_is_said() {
    assert_eq!(hear_agent(r#"{"response":"r","content":"c"}"#), Some("r".to_string()));
    assert_eq!(hear_agent(r#"{"response":1,"content":"c"}"#), Some("c".to_string()));
    assert_eq!(hear_agent(r#"{"response":" ","content":"c"}"#), None);
    assert_eq!(hear_agent("{}"), None);
    assert_eq!(hear_agent("oops"), None);
    assert_eq!(say(&None), None);
    assert_eq!(say(&parse_json(r#"{"content":" x "}"#)), Some(" x ".to_string()));
}
