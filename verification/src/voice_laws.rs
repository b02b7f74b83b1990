//! What holds of received audio and WAV files.

use crate::voice;
use crate::voice::{AudioView, ReceiverView};
use vstd::prelude::*;

verus! {

/// What is heard piece by piece is what is heard at once.
pub proof fn pieces_add_up(r: ReceiverView, ssrc: u32, a: Seq<i16>, b: Seq<i16>)
    ensures
        r.heard(ssrc, a).heard(ssrc, b).buffered(ssrc) == r.buffered(ssrc) + a + b,
        r.heard(ssrc, a).heard(ssrc, b).buffered(ssrc) == r.heard(ssrc, a + b).buffered(ssrc),
{
    assert(r.buffered(ssrc) + a + b =~= r.buffered(ssrc) + (a + b));
    assert(a.len() == 0 ==> r.buffered(ssrc) + a + b =~= r.buffered(ssrc) + b);
    assert(b.len() == 0 ==> r.buffered(ssrc) + a + b =~= r.buffered(ssrc) + a);
    assert(a.len() == 0 && b.len() == 0 ==> r.buffered(ssrc) + a + b =~= r.buffered(ssrc));
}

/// When a user stops speaking, all that was heard of them since is handed out, in order, if it is
/// long enough, under the user that the source is known by.
pub proof fn recording_is_complete(r: ReceiverView, ssrc: u32, a: Seq<i16>, user_id: Option<u64>)
    requires
        (r.buffered(ssrc) + a).len() > voice::MIN_SAMPLES,
    ensures
        r.heard(ssrc, a).completed(ssrc, user_id, false) == Some(
            AudioView {
                ssrc,
                user_id: match user_id {
                    Some(id) => Some(id),
                    None => r.user(ssrc),
                },
                samples: r.buffered(ssrc) + a,
            },
        ),
{
    assert(a.len() == 0 ==> r.buffered(ssrc) + a =~= r.buffered(ssrc));
}

/// Nothing is handed out twice: when a user has stopped speaking, nothing is left of what was heard
/// of them.
pub proof fn recording_is_taken(r: ReceiverView, ssrc: u32, user_id: Option<u64>)
    ensures
        r.updated(ssrc, user_id, false).buffered(ssrc).len() == 0,
        r.updated(ssrc, user_id, false).completed(ssrc, user_id, false) is None,
{
}

/// What is heard of one source, and when it stops, is nothing to another.
pub proof fn sources_are_apart(
    r: ReceiverView,
    ssrc: u32,
    other: u32,
    a: Seq<i16>,
    user_id: Option<u64>,
    microphone: bool,
)
    requires
        ssrc != other,
    ensures
        r.heard(ssrc, a).buffered(other) == r.buffered(other),
        r.updated(ssrc, user_id, microphone).buffered(other) == r.buffered(other),
        r.updated(ssrc, user_id, microphone).user(other) == r.user(other),
{
}

/// While a user speaks, nothing is handed out.
pub proof fn speaking_hands_out_nothing(r: ReceiverView, ssrc: u32, user_id: Option<u64>)
    ensures
        r.completed(ssrc, user_id, true) is None,
        r.updated(ssrc, user_id, true).buffered(ssrc) == r.buffered(ssrc),
{
}

/// What is heard of a source is kept behind what was heard of it before; the others keep theirs, and
/// so do the users known. A user who is named is known from then on.
pub proof fn samples_are_kept_in_order(
    r: ReceiverView,
    ssrc: u32,
    decoded: Seq<i16>,
    user_id: Option<u64>,
    microphone: bool,
)
    ensures
        r.buffers.dom().contains(ssrc) ==> r.heard(ssrc, decoded).buffers =~= r.buffers.insert(
            ssrc,
            r.buffers[ssrc] + decoded,
        ),
        !r.buffers.dom().contains(ssrc) && decoded.len() > 0 ==> r.heard(ssrc, decoded).buffers
            =~= r.buffers.insert(ssrc, decoded),
        decoded.len() == 0 ==> r.heard(ssrc, decoded) == r,
        r.heard(ssrc, decoded).users == r.users,
        user_id matches Some(u) ==> r.updated(ssrc, user_id, microphone).users == r.users.insert(
            ssrc,
            u,
        ),
        user_id is None ==> r.updated(ssrc, user_id, microphone).users == r.users,
        microphone ==> r.updated(ssrc, user_id, microphone).buffers == r.buffers,
        !microphone ==> r.updated(ssrc, user_id, microphone).buffers == r.buffers.remove(ssrc),
{
    if r.buffers.dom().contains(ssrc) {
        assert(r.buffers[ssrc] + Seq::<i16>::empty() =~= r.buffers[ssrc]);
        if decoded.len() == 0 {
            assert(r.buffers[ssrc] + decoded =~= r.buffers[ssrc]);
        }
    }
    assert(Seq::<i16>::empty() + decoded =~= decoded);
}

/// A recording of more than a fifth of a second is handed out whole when its source falls silent, one
/// of less is dropped.
pub proof fn short_recordings_are_dropped(r: ReceiverView, ssrc: u32, user_id: Option<u64>)
    ensures
        ({
            let done = r.completed(ssrc, user_id, false);
            let kept = r.buffers.dom().contains(ssrc);
            &&& kept && 5 * r.buffers[ssrc].len() > 2 * 48000 ==> (done matches Some(e) && e.samples
                == r.buffers[ssrc] && e.ssrc == ssrc && (user_id is Some ==> e.user_id == user_id)
                && (user_id is None && r.users.dom().contains(ssrc) ==> e.user_id == Some(
                r.users[ssrc],
            )) && (user_id is None && !r.users.dom().contains(ssrc) ==> e.user_id is None))
            &&& kept && 5 * r.buffers[ssrc].len() <= 2 * 48000 ==> done is None
            &&& !kept ==> done is None
        }),
{
}

// ---------------------------------------------------------------- WAV files

proof fn lemma_pcm(samples: Seq<i16>)
    ensures
        voice::pcm_bytes(samples).len() == 2 * samples.len(),
        forall|i: int|
            0 <= i < samples.len() ==> voice::pcm_bytes(samples)[2 * i] == voice::sample_bytes(
                #[trigger] samples[i],
            )[0] && voice::pcm_bytes(samples)[2 * i + 1] == voice::sample_bytes(samples[i])[1],
    decreases samples.len(),
{
    if samples.len() > 0 {
        let front = samples.drop_last();
        lemma_pcm(front);
        assert forall|i: int| 0 <= i < samples.len() implies voice::pcm_bytes(samples)[2 * i]
            == voice::sample_bytes(#[trigger] samples[i])[0] && voice::pcm_bytes(samples)[2 * i + 1]
            == voice::sample_bytes(samples[i])[1] by {
            if i < front.len() {
                assert(front[i] == samples[i]);
                assert(voice::pcm_bytes(front)[2 * i] == voice::sample_bytes(front[i])[0]);
            }
        }
    }
}

/// A number of two bytes, the least significant first.
pub open spec fn read_le16(lo: u8, hi: u8) -> int {
    lo + 256 * hi
}

/// A sample in two's complement, the least significant byte first.
pub open spec fn read_sample(lo: u8, hi: u8) -> int {
    if read_le16(lo, hi) >= 32768 {
        read_le16(lo, hi) - 65536
    } else {
        read_le16(lo, hi)
    }
}

/// A number of four bytes, the least significant first.
pub open spec fn read_le32(bytes: Seq<u8>, at: int) -> int {
    bytes[at] + 256 * bytes[at + 1] + 65536 * bytes[at + 2] + 16777216 * bytes[at + 3]
}

/// A WAV file has a header of 44 bytes and two bytes for each sample.
pub proof fn wav_length(samples: Seq<i16>)
    ensures
        voice::wav_file(samples).len() == 44 + 2 * samples.len(),
{
    lemma_pcm(samples);
}

/// The samples can be read back from a WAV file.
pub proof fn wav_samples_can_be_read(samples: Seq<i16>, i: int)
    requires
        0 <= i < samples.len(),
    ensures
        read_sample(
            voice::wav_file(samples)[44 + 2 * i],
            voice::wav_file(samples)[44 + 2 * i + 1],
        ) == samples[i],
{
    lemma_pcm(samples);
    let header = voice::wav_header(voice::wav_data_size(samples.len()));
    assert(header.len() == 44);
    assert(voice::wav_file(samples)[44 + 2 * i] == voice::pcm_bytes(samples)[2 * i]);
    assert(voice::wav_file(samples)[44 + 2 * i + 1] == voice::pcm_bytes(samples)[2 * i + 1]);
    assert(samples[i] == samples[i]);
}

proof fn lemma_le32(n: int)
    requires
        0 <= n <= u32::MAX,
    ensures
        voice::le32(n).len() == 4,
        read_le32(voice::le32(n), 0) == n,
{
}

/// The sizes in the header of a WAV file are those of what follows: the file after its first eight
/// bytes, and the samples.
pub proof fn wav_sizes_are_true(samples: Seq<i16>)
    requires
        36 + 2 * samples.len() <= u32::MAX,
    ensures
        read_le32(voice::wav_file(samples), 4) == voice::wav_file(samples).len() - 8,
        read_le32(voice::wav_file(samples), 40) == voice::wav_file(samples).len() - 44,
{
    wav_length(samples);
    let size = voice::wav_data_size(samples.len());
    let file = voice::wav_file(samples);
    assert(size == 2 * samples.len());
    lemma_le32(36 + size);
    lemma_le32(size);
    let total = voice::le32(36 + size);
    let data = voice::le32(size);
    assert(file[4] == total[0] && file[5] == total[1] && file[6] == total[2] && file[7]
        == total[3]);
    assert(file[40] == data[0] && file[41] == data[1] && file[42] == data[2] && file[43]
        == data[3]);
}

/// The header of a WAV file tells of PCM in two channels of sixteen bits, at forty-eight thousand
/// samples a second each.
pub proof fn wav_headers_tell_the_format(samples: Seq<i16>)
    ensures
        ({
            let f = voice::wav_file(samples);
            &&& f[0] == 'R' as u8 && f[1] == 'I' as u8 && f[2] == 'F' as u8 && f[3] == 'F' as u8
            &&& f[8] == 'W' as u8 && f[9] == 'A' as u8 && f[10] == 'V' as u8 && f[11] == 'E' as u8
            &&& f[12] == 'f' as u8 && f[13] == 'm' as u8 && f[14] == 't' as u8 && f[15] == ' ' as u8
            &&& read_le32(f, 16) == 16
            &&& read_le16(f[20], f[21]) == 1
            &&& read_le16(f[22], f[23]) == 2
            &&& read_le32(f, 24) == 48000
            &&& read_le32(f, 28) == 48000 * 2 * 2
            &&& read_le16(f[32], f[33]) == 2 * 2
            &&& read_le16(f[34], f[35]) == 16
            &&& f[36] == 'd' as u8 && f[37] == 'a' as u8 && f[38] == 't' as u8 && f[39] == 'a' as u8
        }),
{
}

} // verus!
