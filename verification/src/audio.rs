//! Decode-side decision logic and bounded sample accumulation.
//!
//! The container and codec work (probing a byte source, constructing
//! codec instances, reading and decoding packets) is driven by an
//! unverified shell. Every decision of that loop is taken here: which
//! track to decode, what to do with each container packet, and how
//! many samples of each decoded block to keep. The shell hands this
//! module plain values (track ids, packet outcomes, sample blocks)
//! and performs the actions chosen here.

use vstd::prelude::*;
use vstd::math::min;

use crate::errors::AudioError;

verus! {

/// What the probe learned of one candidate track: its container
/// track id, and whether a codec instance could be constructed for
/// its declared codec parameters.
#[derive(Clone, Copy, Debug, PartialEq, Eq, Structural)]
pub struct TrackCandidate {
    /// The container's id for this track.
    pub id: u32,
    /// Whether the codec registry could construct a decoder for it.
    pub codec_supported: bool,
}

/// Choose the track to decode: the container's declared default
/// track if a codec could be constructed for it, otherwise the first
/// track in declaration order with a working codec. With no workable
/// track the container cannot be played.
pub fn select_track(tracks: &Vec<TrackCandidate>, default_index: Option<usize>) -> (r: Result<
    u32,
    AudioError,
>)
    requires
        default_index matches Some(d) ==> d < tracks@.len(),
    ensures
        match r {
            Ok(id) => {
                &&& exists|i: int| 0 <= i < tracks@.len() && tracks@[i].codec_supported
                &&& if (default_index matches Some(d) && tracks@[d as int].codec_supported) {
                    default_index matches Some(d) && id == tracks@[d as int].id
                } else {
                    exists|i: int|
                        {
                            &&& 0 <= i < tracks@.len()
                            &&& tracks@[i].codec_supported
                            &&& id == tracks@[i].id
                            &&& forall|j: int| 0 <= j < i ==> !tracks@[j].codec_supported
                        }
                }
            },
            Err(e) => {
                &&& e == AudioError::NoCompatibleTrack
                &&& forall|i: int| 0 <= i < tracks@.len() ==> !tracks@[i].codec_supported
            },
        },
{
    if let Some(d) = default_index {
        if tracks[d].codec_supported {
            return Ok(tracks[d].id);
        }
    }
    let mut i: usize = 0;
    while i < tracks.len()
        invariant
            i <= tracks@.len(),
            forall|j: int| 0 <= j < i ==> !tracks@[j].codec_supported,
            default_index matches Some(d) ==> d < tracks@.len() && !tracks@[d as int].codec_supported,
        decreases tracks@.len() - i,
    {
        if tracks[i].codec_supported {
            proof {
                let wi = i as int;
                assert(0 <= wi < tracks@.len() && tracks@[wi].codec_supported && tracks@[wi].id
                    == tracks@[wi].id && forall|j: int|
                    0 <= j < wi ==> !tracks@[j].codec_supported);
            }
            return Ok(tracks[i].id);
        }
        i = i + 1;
    }
    Err(AudioError::NoCompatibleTrack)
}

/// What the container reader yielded for one packet: the track the
/// packet belongs to, and whether the codec decoded it.
#[derive(Clone, Copy, Debug, PartialEq, Eq, Structural)]
pub struct PacketOutcome {
    /// The track the packet belongs to.
    pub track_id: u32,
    /// Whether the selected codec decoded the packet successfully.
    pub decodable: bool,
}

/// One event of the decode loop: the next packet, or the terminal
/// "no more data" signal (end of stream or a non-recoverable read
/// failure).
#[derive(Clone, Copy, Debug, PartialEq, Eq, Structural)]
pub enum DecodeEvent {
    /// The container reader yielded a packet.
    Packet(PacketOutcome),
    /// The container reader yielded no packet and never will again.
    EndOfStream,
}

/// What the decode loop does with one event.
#[derive(Clone, Copy, Debug, PartialEq, Eq, Structural)]
pub enum DecodeAction {
    /// Surface the decoded block to the caller.
    Deliver,
    /// Discard silently: the packet belongs to another track.
    SkipOtherTrack,
    /// Discard and keep decoding: the packet failed to decode.
    /// Never surfaced to the caller as an error.
    SkipCorrupt,
    /// Stop: surface "no more data", not an error.
    Finish,
}

/// The decision the decode loop takes on one event.
pub open spec fn decode_action_spec(selected_track: u32, event: DecodeEvent) -> DecodeAction {
    match event {
        DecodeEvent::Packet(p) => {
            if p.track_id != selected_track {
                DecodeAction::SkipOtherTrack
            } else if !p.decodable {
                DecodeAction::SkipCorrupt
            } else {
                DecodeAction::Deliver
            }
        },
        DecodeEvent::EndOfStream => DecodeAction::Finish,
    }
}

/// Decide what the decode loop does with `event` while decoding
/// `selected_track`: deliver a decoded block of the selected track,
/// silently skip a packet of another track, skip a packet that failed
/// to decode (isolated corruption must not abort the stream), and
/// finish when no more packets can be read.
pub fn decode_step(selected_track: u32, event: &DecodeEvent) -> (a: DecodeAction)
    ensures
        a == decode_action_spec(selected_track, *event),
        a is Deliver <==> (event matches DecodeEvent::Packet(p) && p.track_id == selected_track
            && p.decodable),
        a is Finish <==> event is EndOfStream,
{
    match event {
        DecodeEvent::Packet(p) => {
            if p.track_id != selected_track {
                DecodeAction::SkipOtherTrack
            } else if !p.decodable {
                DecodeAction::SkipCorrupt
            } else {
                DecodeAction::Deliver
            }
        },
        DecodeEvent::EndOfStream => DecodeAction::Finish,
    }
}

/// The indices of the packets a full run of the decode loop delivers,
/// in stream order.
pub open spec fn delivered_indices(selected_track: u32, packets: Seq<PacketOutcome>) -> Seq<int>
    decreases packets.len(),
{
    if packets.len() == 0 {
        Seq::empty()
    } else {
        let prefix = delivered_indices(selected_track, packets.drop_last());
        if decode_action_spec(selected_track, DecodeEvent::Packet(packets.last())) is Deliver {
            prefix.push(packets.len() - 1)
        } else {
            prefix
        }
    }
}

/// A packet's index is delivered exactly when the packet belongs to
/// the selected track and decoded successfully, and delivery keeps
/// stream order.
pub proof fn lemma_delivered_characterization(selected_track: u32, packets: Seq<PacketOutcome>)
    ensures
        forall|i: int|
            delivered_indices(selected_track, packets).contains(i) <==> (0 <= i < packets.len()
                && packets[i].track_id == selected_track && packets[i].decodable),
        forall|k1: int, k2: int|
            0 <= k1 < k2 < delivered_indices(selected_track, packets).len()
                ==> delivered_indices(selected_track, packets)[k1] < delivered_indices(
                selected_track,
                packets,
            )[k2],
    decreases packets.len(),
{
    let d = delivered_indices(selected_track, packets);
    if packets.len() == 0 {
        assert(forall|i: int| !d.contains(i)) by {
            assert(d.len() == 0);
        }
    } else {
        let prefix = packets.drop_last();
        let dp = delivered_indices(selected_track, prefix);
        lemma_delivered_characterization(selected_track, prefix);
        let n = packets.len() - 1;
        assert(forall|i: int| 0 <= i < n ==> packets[i] == prefix[i]);
        if decode_action_spec(selected_track, DecodeEvent::Packet(packets.last())) is Deliver {
            assert(d == dp.push(n));
            assert forall|i: int|
                d.contains(i) <==> (0 <= i < packets.len() && packets[i].track_id
                    == selected_track && packets[i].decodable) by {
                if d.contains(i) {
                    let k = choose|k: int| 0 <= k < d.len() && d[k] == i;
                    if k < d.len() - 1 {
                        assert(dp[k] == i);
                        assert(dp.contains(i));
                    } else {
                        assert(i == n);
                    }
                }
                if 0 <= i < packets.len() && packets[i].track_id == selected_track
                    && packets[i].decodable {
                    if i < n {
                        assert(dp.contains(i));
                        let k = choose|k: int| 0 <= k < dp.len() && dp[k] == i;
                        assert(d[k] == i);
                        assert(d.contains(i));
                    } else {
                        assert(d[d.len() - 1] == i);
                        assert(d.contains(i));
                    }
                }
            }
            assert forall|k1: int, k2: int| 0 <= k1 < k2 < d.len() implies d[k1] < d[k2] by {
                if k2 < d.len() - 1 {
                    assert(d[k1] == dp[k1] && d[k2] == dp[k2]);
                } else {
                    assert(d[k2] == n);
                    assert(d[k1] == dp[k1]);
                    assert(dp.contains(dp[k1]));
                    assert(dp[k1] < prefix.len());
                }
            }
        } else {
            assert(d == dp);
            assert forall|i: int|
                d.contains(i) <==> (0 <= i < packets.len() && packets[i].track_id
                    == selected_track && packets[i].decodable) by {
                if d.contains(i) {
                    assert(0 <= i < prefix.len());
                }
            }
        }
    }
}

/// Decoder resilience: when one packet of the selected track is
/// corrupted but the container and every other packet are intact, the
/// corrupted packet is skipped without surfacing an error, every
/// other decodable packet of the track is still delivered, and
/// delivery order is stream order.
pub proof fn lemma_decoder_resilience(
    selected_track: u32,
    packets: Seq<PacketOutcome>,
    corrupt: int,
)
    requires
        0 <= corrupt < packets.len(),
        packets[corrupt].track_id == selected_track,
        !packets[corrupt].decodable,
    ensures
        !delivered_indices(selected_track, packets).contains(corrupt),
        forall|i: int|
            {
                &&& 0 <= i < packets.len()
                &&& i != corrupt
                &&& packets[i].track_id == selected_track
                &&& packets[i].decodable
            } ==> delivered_indices(selected_track, packets).contains(i),
        forall|k1: int, k2: int|
            0 <= k1 < k2 < delivered_indices(selected_track, packets).len()
                ==> delivered_indices(selected_track, packets)[k1] < delivered_indices(
                selected_track,
                packets,
            )[k2],
{
    lemma_delivered_characterization(selected_track, packets);
}

/// Run the decode-loop decision over a whole packet stream: the
/// indices of the packets that are delivered, in stream order.
pub fn deliverable_packets(selected_track: u32, packets: &Vec<PacketOutcome>) -> (r: Vec<usize>)
    ensures
        r@.map_values(|i: usize| i as int) == delivered_indices(selected_track, packets@),
{
    let mut r: Vec<usize> = Vec::new();
    let mut i: usize = 0;
    while i < packets.len()
        invariant
            i <= packets@.len(),
            r@.map_values(|k: usize| k as int) == delivered_indices(
                selected_track,
                packets@.take(i as int),
            ),
        decreases packets@.len() - i,
    {
        let keep = matches!(decode_step(selected_track, &DecodeEvent::Packet(packets[i])), DecodeAction::Deliver);
        proof {
            assert(packets@.take(i + 1).drop_last() =~= packets@.take(i as int));
            assert(packets@.take(i + 1).last() == packets@[i as int]);
        }
        if keep {
            r.push(i);
            proof {
                assert(r@.map_values(|k: usize| k as int) =~= delivered_indices(
                    selected_track,
                    packets@.take(i + 1),
                ));
            }
        }
        i = i + 1;
    }
    proof {
        assert(packets@.take(packets@.len() as int) =~= packets@);
    }
    r
}

/// The hard bound on accumulation: how many seconds of audio are
/// analyzed at most. Decoding stops once this much is buffered.
pub const MAX_DURATION_SECONDS: u32 = 120;

/// The most samples an `AudioSource` at the given sample rate may
/// hold: `sample_rate * MAX_DURATION_SECONDS`.
pub open spec fn sample_cap_spec(sample_rate: u32) -> int {
    sample_rate * MAX_DURATION_SECONDS
}

/// The accumulation cap for the given sample rate.
pub fn sample_cap(sample_rate: u32) -> (c: u64)
    ensures
        c == sample_cap_spec(sample_rate),
{
    proof {
        assert(MAX_DURATION_SECONDS == 120);
        assert((sample_rate as int) * (MAX_DURATION_SECONDS as int) == (sample_rate as int) * 120);
        assert((sample_rate as int) * 120 <= 0xFFFF_FFFF * 120);
    }
    (sample_rate as u64) * (MAX_DURATION_SECONDS as u64)
}

/// Decoded, single-channel audio, truncated to at most
/// `MAX_DURATION_SECONDS` seconds of samples. The sample scalar type
/// is a parameter; the analysis shell instantiates it with 32-bit
/// float samples.
#[derive(Clone, Debug)]
pub struct AudioSource<S> {
    /// Samples per second of the decoded track.
    pub sample_rate: u32,
    /// The decoded samples of channel 0, in time order.
    pub samples: Vec<S>,
}

impl<S> AudioSource<S> {
    /// The accumulation bound holds.
    pub open spec fn wf(self) -> bool {
        self.samples@.len() <= sample_cap_spec(self.sample_rate)
    }

    /// An empty source at the given sample rate.
    pub fn new(sample_rate: u32) -> (s: Self)
        ensures
            s.wf(),
            s.sample_rate == sample_rate,
            s.samples@.len() == 0,
    {
        AudioSource { sample_rate, samples: Vec::new() }
    }

    /// Append one decoded block, truncated so that the source never
    /// exceeds its accumulation cap: the part of the block that fits
    /// is kept, the rest is dropped.
    pub fn push_block(&mut self, block: &[S]) -> (full: bool) where S: Copy
        requires
            old(self).wf(),
        ensures
            final(self).wf(),
            final(self).sample_rate == old(self).sample_rate,
            final(self).samples@ == old(self).samples@ + block@.take(
                min(block@.len() as int, sample_cap_spec(old(self).sample_rate) - old(
                    self,
                ).samples@.len()),
            ),
            full <==> final(self).samples@.len() == sample_cap_spec(final(self).sample_rate),
    {
        let cap = sample_cap(self.sample_rate);
        let remaining = cap - (self.samples.len() as u64);
        let take: usize = if (block.len() as u64) <= remaining {
            block.len()
        } else {
            remaining as usize
        };
        let mut j: usize = 0;
        while j < take
            invariant
                j <= take,
                take <= block@.len(),
                self.sample_rate == old(self).sample_rate,
                old(self).samples@.len() + take <= sample_cap_spec(self.sample_rate),
                self.samples@ == old(self).samples@ + block@.take(j as int),
            decreases take - j,
        {
            let sample = *vstd::slice::slice_index_get(block, j);
            self.samples.push(sample);
            proof {
                assert(old(self).samples@ + block@.take(j as int) + seq![block@[j as int]]
                    =~= old(self).samples@ + block@.take(j + 1));
            }
            j = j + 1;
        }
        proof {
            assert(block@.take(take as int) == block@.take(
                min(block@.len() as int, sample_cap_spec(old(self).sample_rate) - old(
                    self,
                ).samples@.len()),
            ));
        }
        self.samples.len() as u64 == cap
    }
}

} // verus!
