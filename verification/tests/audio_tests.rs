use harmony_hacker::audio::deliverable_packets;
use harmony_hacker::audio::decode_step;
use harmony_hacker::audio::sample_cap;
use harmony_hacker::audio::select_track;
use harmony_hacker::audio::AudioSource;
use harmony_hacker::audio::DecodeAction;
use harmony_hacker::audio::DecodeEvent;
use harmony_hacker::audio::PacketOutcome;
use harmony_hacker::audio::TrackCandidate;
use harmony_hacker::errors::AudioError;

fn track(id: u32, codec_supported: bool) -> TrackCandidate {
    TrackCandidate { id, codec_supported }
}

#[test]
fn select_track_prefers_default_test() {
    let tracks = vec![track(10, true), track(20, true), track(30, true)];
    assert_eq!(select_track(&tracks, Some(1)), Ok(20));
}

#[test]
fn select_track_falls_back_test() {
    // The default track has no working codec: the first workable
    // track in declaration order is chosen instead.
    let tracks = vec![track(10, false), track(20, false), track(30, true), track(40, true)];
    assert_eq!(select_track(&tracks, Some(1)), Ok(30));
    assert_eq!(select_track(&tracks, None), Ok(30));
}

#[test]
fn select_track_no_compatible_test() {
    let tracks = vec![track(10, false), track(20, false)];
    assert_eq!(select_track(&tracks, Some(0)), Err(AudioError::NoCompatibleTrack));
    assert_eq!(select_track(&tracks, None), Err(AudioError::NoCompatibleTrack));
    let empty: Vec<TrackCandidate> = Vec::new();
    assert_eq!(select_track(&empty, None), Err(AudioError::NoCompatibleTrack));
}

#[test]
fn decode_step_test() {
    let selected = 3;
    let good = DecodeEvent::Packet(PacketOutcome { track_id: 3, decodable: true });
    let corrupt = DecodeEvent::Packet(PacketOutcome { track_id: 3, decodable: false });
    let other = DecodeEvent::Packet(PacketOutcome { track_id: 5, decodable: true });
    assert_eq!(decode_step(selected, &good), DecodeAction::Deliver);
    assert_eq!(decode_step(selected, &corrupt), DecodeAction::SkipCorrupt);
    assert_eq!(decode_step(selected, &other), DecodeAction::SkipOtherTrack);
    assert_eq!(decode_step(selected, &DecodeEvent::EndOfStream), DecodeAction::Finish);
}

#[test]
fn decoder_resilience_test() {
    // One corrupted packet in an otherwise intact stream: every other
    // valid block of the selected track is still delivered, in stream
    // order, and the corrupted one surfaces no error.
    let selected = 1;
    let packets = vec![
        PacketOutcome { track_id: 1, decodable: true },
        PacketOutcome { track_id: 2, decodable: true },
        PacketOutcome { track_id: 1, decodable: false },
        PacketOutcome { track_id: 1, decodable: true },
        PacketOutcome { track_id: 1, decodable: true },
    ];
    assert_eq!(deliverable_packets(selected, &packets), vec![0, 3, 4]);
}

#[test]
fn deliverable_packets_empty_test() {
    let packets: Vec<PacketOutcome> = Vec::new();
    assert_eq!(deliverable_packets(7, &packets), Vec::<usize>::new());
}

#[test]
fn sample_cap_test() {
    assert_eq!(sample_cap(48000), 48000 * 120);
    assert_eq!(sample_cap(0), 0);
}

#[test]
fn push_block_truncates_at_cap_test() {
    // At one sample per second the cap is 120 samples: a block that
    // would overflow it is truncated, not carried over.
    let mut source: AudioSource<i32> = AudioSource::new(1);
    let first: Vec<i32> = (0..100).collect();
    assert!(!source.push_block(&first));
    assert_eq!(source.samples.len(), 100);
    let second: Vec<i32> = (100..150).collect();
    assert!(source.push_block(&second));
    assert_eq!(source.samples.len(), 120);
    let expected: Vec<i32> = (0..120).collect();
    assert_eq!(source.samples, expected);
    // The source is full: nothing more is kept.
    assert!(source.push_block(&[999]));
    assert_eq!(source.samples.len(), 120);
}

#[test]
fn push_block_float_samples_test() {
    let mut source: AudioSource<f32> = AudioSource::new(8000);
    assert!(!source.push_block(&[0.25f32, -0.5, 1.0]));
    assert_eq!(source.samples, vec![0.25f32, -0.5, 1.0]);
    assert_eq!(source.sample_rate, 8000);
}

#[test]
fn error_message_test() {
    assert_eq!(AudioError::UnsupportedFormat.message(), "unsupported format");
    assert_eq!(AudioError::NoCompatibleTrack.message(), "no compatible track found");
    assert_eq!(
        AudioError::UnsupportedSampleFormat.message(),
        "only f32 sample format is supported"
    );
    assert_eq!(AudioError::InvalidWindowSize.message(), "invalid analysis window size");
    assert_eq!(AudioError::IoFailure.message(), "failed to read the media source");
}
