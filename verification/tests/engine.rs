use mp3_player::{scale_sample, seek_seconds, Error, LogMessage, Playback, Smooth, FP};

/// Build a minimal PCM (16-bit little-endian) WAV file in memory.
fn wav_bytes(sample_rate: u32, channels: u16, samples: &[i16]) -> Vec<u8> {
    let data_len = (samples.len() * 2) as u32;
    let byte_rate = sample_rate * channels as u32 * 2;
    let block_align = channels * 2;
    let mut v: Vec<u8> = Vec::new();
    v.extend_from_slice(b"RIFF");
    v.extend_from_slice(&(36 + data_len).to_le_bytes());
    v.extend_from_slice(b"WAVE");
    v.extend_from_slice(b"fmt ");
    v.extend_from_slice(&16u32.to_le_bytes());
    v.extend_from_slice(&1u16.to_le_bytes());
    v.extend_from_slice(&channels.to_le_bytes());
    v.extend_from_slice(&sample_rate.to_le_bytes());
    v.extend_from_slice(&byte_rate.to_le_bytes());
    v.extend_from_slice(&block_align.to_le_bytes());
    v.extend_from_slice(&16u16.to_le_bytes());
    v.extend_from_slice(b"data");
    v.extend_from_slice(&data_len.to_le_bytes());
    for s in samples {
        v.extend_from_slice(&s.to_le_bytes());
    }
    v
}

fn open_wav(sample_rate: u32, channels: u16, samples: &[i16]) -> Playback {
    let bytes = wav_bytes(sample_rate, channels, samples);
    let cursor = std::io::Cursor::new(bytes);
    let mss = symphonia::core::io::MediaSourceStream::new(Box::new(cursor), Default::default());
    Playback::new(mss, None).expect("open failed")
}

fn count_lookup_failures(pb: &Playback) -> usize {
    pb.logs
        .iter()
        .filter(|e| matches!(e.message, LogMessage::LookupFailed(_)))
        .count()
}

#[test]
fn open_reports_track_metadata() {
    let pb = open_wav(8000, 2, &[0i16; 32]);
    assert_eq!(pb.sample_rate, 8000);
    assert_eq!(pb.channels, 2);
    assert_eq!(pb.total_frames(), 16);
    assert_eq!(pb.position(), 0);
    assert_eq!(pb.offset(), 0);
    assert!(!pb.end);
}

#[test]
fn progress_is_half_after_five_second_skip() {
    // 10 seconds of stereo at 44100 Hz: 441000 frames.
    let samples = vec![0i16; 441000 * 2];
    let mut pb = open_wav(44100, 2, &samples);
    pb.skip(1).expect("skip failed");
    assert_eq!(pb.position(), 220500 * FP);
    // FP-scaled ratio: one half.
    assert_eq!(pb.progress(), FP / 2);
}

#[test]
fn skip_clamps_position_at_zero() {
    let samples = vec![0i16; 441000 * 2];
    let mut pb = open_wav(44100, 2, &samples);
    pb.skip(1).expect("skip failed");
    assert!(pb.position() > 0);
    // A skip far below the start clamps to zero, whatever the magnitude.
    pb.skip(-1000).expect("skip failed");
    assert_eq!(pb.position(), 0);
    assert_eq!(pb.progress(), 0);
}

#[test]
fn lookups_in_window_do_not_refill() {
    let mut pb = open_wav(8000, 2, &[7i16; 64]);
    let s0 = pb.get(0).expect("get failed");
    assert_eq!(s0, 7);
    let offset_after_first = pb.offset();
    let len_after_first = pb.buffer_len();
    assert!(len_after_first > 0);
    // Indices inside the window are served from it: no refill, no window
    // movement, no re-decoding of consumed packets.
    for i in 0..len_after_first {
        assert_eq!(pb.get(i), Ok(7));
        assert_eq!(pb.offset(), offset_after_first);
        assert_eq!(pb.buffer_len(), len_after_first);
    }
}

#[test]
fn lookup_below_window_is_internal_error() {
    let mut pb = open_wav(8000, 1, &[1i16; 4096]);
    pb.get(0).expect("get failed");
    let len = pb.buffer_len();
    // Force the window past the first block.
    pb.get(len).expect("get failed");
    assert!(pb.offset() > 0);
    let before_offset = pb.offset();
    let before_len = pb.buffer_len();
    assert_eq!(pb.get(0), Err(Error::Internal));
    // Nothing moved and no stale data came back.
    assert_eq!(pb.offset(), before_offset);
    assert_eq!(pb.buffer_len(), before_len);
}

#[test]
fn refill_replaces_buffer_and_advances_offset() {
    let mut pb = open_wav(8000, 2, &[0i16; 8]);
    // Blocks of different sizes reallocate the buffer; the offset advances
    // by the superseded buffer's length.
    pb.apply_block(vec![1i16; 2048]).expect("apply failed");
    assert_eq!(pb.offset(), 0);
    assert_eq!(pb.buffer_len(), 2048);
    pb.apply_block(vec![2i16; 1024]).expect("apply failed");
    assert_eq!(pb.offset(), 2048);
    assert_eq!(pb.buffer_len(), 1024);
    assert_eq!(pb.get(2048), Ok(2));
    let resizes: Vec<(usize, usize)> = pb
        .logs
        .iter()
        .filter_map(|e| match e.message {
            LogMessage::BufferResized { before, after } => Some((before, after)),
            _ => None,
        })
        .collect();
    assert_eq!(resizes, vec![(0, 2048), (2048, 1024)]);
}

#[test]
fn callback_scales_samples_by_volume() {
    let mut pb = open_wav(8000, 2, &[100, -200, 300, -400, 500, -600, 700, -800]);
    pb.volume = Smooth::new(FP);
    let out = pb.callback(8);
    assert_eq!(out, vec![100, -200, 300, -400, 500, -600, 700, -800]);
    assert!(!pb.end);
    // Position has advanced by four frames at unit speed.
    assert_eq!(pb.position(), 4 * FP);
}

#[test]
fn callback_half_volume() {
    let mut pb = open_wav(8000, 2, &[100, -200, 300, -401]);
    pb.volume = Smooth::new(FP / 2);
    let out = pb.callback(4);
    // Magnitudes are halved, truncating toward zero.
    assert_eq!(out, vec![50, -100, 150, -200]);
}

#[test]
fn misaligned_region_truncates_to_whole_frames() {
    let mut pb = open_wav(8000, 2, &[9i16; 32]);
    pb.volume = Smooth::new(FP);
    // 7 samples over 2 channels: 3 whole frames, and a warning.
    let out = pb.callback(7);
    assert_eq!(out.len(), 6);
    assert_eq!(out, vec![9i16; 6]);
    assert!(pb.logs.iter().any(|e| matches!(e.message, LogMessage::MisalignedOutput)));
}

#[test]
fn end_is_sticky_and_warns_once() {
    // 4 frames of stereo; a 16-frame region exhausts the stream.
    let mut pb = open_wav(8000, 2, &[5i16; 8]);
    pb.volume = Smooth::new(FP);
    let out = pb.callback(32);
    assert_eq!(out.len(), 32);
    assert!(pb.end);
    assert_eq!(count_lookup_failures(&pb), 1);
    // The first four frames still played; the rest is silence.
    assert_eq!(&out[..8], &[5i16; 8]);
    assert_eq!(&out[8..], &[0i16; 24]);
    // Further callbacks stay ended and log no further lookup warning.
    let out2 = pb.callback(32);
    assert_eq!(out2, vec![0i16; 32]);
    assert!(pb.end);
    assert_eq!(count_lookup_failures(&pb), 1);
}

#[test]
fn callback_stabilizes_smoothers() {
    let mut pb = open_wav(8000, 2, &[0i16; 64]);
    pb.volume = Smooth::new(FP);
    pb.speed.set(2 * FP);
    let _ = pb.callback(8);
    // After the region, the transition starts fresh from the target.
    assert_eq!(pb.speed.interpolate(0, 2), 2 * FP);
    assert_eq!(pb.speed.interpolate(2, 2), 2 * FP);
}

#[test]
fn double_speed_skips_every_other_frame() {
    let mut pb = open_wav(8000, 1, &[10, 20, 30, 40, 50, 60, 70, 80]);
    pb.volume = Smooth::new(FP);
    pb.speed = Smooth::new(2 * FP);
    let out = pb.callback(4);
    assert_eq!(out, vec![10, 30, 50, 70]);
    assert_eq!(pb.position(), 8 * FP);
}

#[test]
fn take_buffer_hands_window_back() {
    let mut pb = open_wav(8000, 2, &[3i16; 16]);
    pb.get(0).expect("get failed");
    let len = pb.buffer_len();
    let buf = pb.take_buffer();
    assert_eq!(buf.len(), len);
    assert!(buf.iter().all(|s| *s == 3));
    // The reclaimed buffer seeds the next instance.
    let bytes = wav_bytes(8000, 2, &[4i16; 16]);
    let mss = symphonia::core::io::MediaSourceStream::new(
        Box::new(std::io::Cursor::new(bytes)),
        Default::default(),
    );
    let pb2 = Playback::new(mss, Some(buf)).expect("open failed");
    assert_eq!(pb2.buffer_len(), len);
    assert_eq!(pb2.offset(), 0);
}

#[test]
fn open_rejects_junk() {
    let cursor = std::io::Cursor::new(vec![0u8; 64]);
    let mss = symphonia::core::io::MediaSourceStream::new(Box::new(cursor), Default::default());
    match Playback::new(mss, None) {
        Err(Error::Probe(_)) => {},
        other => panic!("unexpected: {:?}", other.map(|_| ())),
    }
}

#[test]
fn exhausted_stream_reports_stream_error() {
    let mut pb = open_wav(8000, 1, &[1i16; 4]);
    assert_eq!(pb.get(0), Ok(1));
    // The window covers the whole file; the next refill hits end-of-stream.
    match pb.get(4) {
        Err(Error::Stream(_)) => {}
        other => panic!("unexpected: {other:?}"),
    }
}

#[test]
fn seek_seconds_is_whole_second_floor() {
    // 220500 frames at 44100 Hz is exactly five seconds.
    assert_eq!(seek_seconds(220500 * FP, 44100), 5);
    assert_eq!(seek_seconds(0, 8000), 0);
    // Just under one second, fractional frame part included: floor to 0.
    assert_eq!(seek_seconds(44099 * FP + 123, 44100), 0);
    assert_eq!(seek_seconds(44100 * FP, 44100), 1);
}

#[test]
fn scale_sample_exact_and_saturating() {
    assert_eq!(scale_sample(100, FP / 2), 50);
    assert_eq!(scale_sample(-100, FP / 2), -50);
    assert_eq!(scale_sample(101, FP / 2), 50);
    assert_eq!(scale_sample(0, 12345), 0);
    assert_eq!(scale_sample(1000, FP), 1000);
    assert_eq!(scale_sample(32767, 2 * FP), 32767);
    assert_eq!(scale_sample(-32768, 2 * FP), -32768);
    assert_eq!(scale_sample(-32768, FP), -32768);
}
