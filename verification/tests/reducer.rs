use vu_meter::capture::{capture_step, CaptureError, CaptureLoop};
use vu_meter::reducer::{reduce, Loudness, ReduceError, FULL_SCALE};

fn decibels(loudness: Loudness) -> f64 {
    match loudness {
        Loudness::Silence => f64::NEG_INFINITY,
        Loudness::Power { energy, frames } => {
            let mean = energy as f64 / frames as f64;
            let full = (FULL_SCALE * FULL_SCALE) as f64;
            10.0 * (mean / full).log10()
        }
    }
}

#[test]
fn zero_block_is_silent_on_both_channels() {
    let block = [0i16; 8192];
    assert_eq!(reduce(&block, 2), Ok(vec![Loudness::Silence, Loudness::Silence]));
}

#[test]
fn zero_block_is_silent_for_any_channel_count() {
    let block = [0i16; 12];
    for channels in [1usize, 2, 3, 4, 6, 12] {
        let levels = reduce(&block, channels).unwrap();
        assert_eq!(levels.len(), channels);
        assert!(levels.iter().all(|l| *l == Loudness::Silence));
    }
}

#[test]
fn empty_block_is_silent() {
    let block: [i16; 0] = [];
    assert_eq!(reduce(&block, 2), Ok(vec![Loudness::Silence, Loudness::Silence]));
    assert_eq!(reduce(&block, 1), Ok(vec![Loudness::Silence]));
}

#[test]
fn full_scale_block_has_full_scale_energy() {
    let mut block = [32767i16; 8192];
    for i in 0..block.len() {
        if i % 3 == 0 {
            block[i] = -32767;
        }
    }
    let levels = reduce(&block, 2).unwrap();
    let expected = Loudness::Power { energy: 4096 * 32767 * 32767, frames: 4096 };
    assert_eq!(levels, vec![expected, expected]);
    for level in levels {
        assert!(decibels(level).abs() < 1e-9);
    }
}

#[test]
fn alternating_full_scale_block_is_about_zero_decibels() {
    let mut block = [0i16; 8192];
    for frame in 0..4096 {
        let sample: i16 = if frame % 2 == 0 { 32767 } else { -32768 };
        block[2 * frame] = sample;
        block[2 * frame + 1] = sample;
    }
    let levels = reduce(&block, 2).unwrap();
    let energy: u128 = 2048 * 32767 * 32767 + 2048 * 32768 * 32768;
    assert_eq!(levels[0], Loudness::Power { energy, frames: 4096 });
    assert_eq!(levels[1], Loudness::Power { energy, frames: 4096 });
    for level in levels {
        let db = decibels(level);
        assert!(db.is_finite());
        assert!(db.abs() < 0.001);
    }
}

#[test]
fn energy_is_summed_per_channel() {
    let block = [3i16, 4, -3, 4, 0, -5];
    assert_eq!(
        reduce(&block, 2),
        Ok(vec![
            Loudness::Power { energy: 18, frames: 3 },
            Loudness::Power { energy: 57, frames: 3 },
        ])
    );
    assert_eq!(reduce(&block, 1), Ok(vec![Loudness::Power { energy: 75, frames: 6 }]));
    assert_eq!(
        reduce(&block, 3),
        Ok(vec![
            Loudness::Power { energy: 25, frames: 2 },
            Loudness::Power { energy: 16, frames: 2 },
            Loudness::Power { energy: 34, frames: 2 },
        ])
    );
}

#[test]
fn one_silent_channel_beside_a_loud_one() {
    let block = [0i16, 100, 0, -100];
    assert_eq!(
        reduce(&block, 2),
        Ok(vec![Loudness::Silence, Loudness::Power { energy: 20000, frames: 2 }])
    );
}

#[test]
fn most_negative_sample_is_squared_without_overflow() {
    let block = [-32768i16; 4];
    assert_eq!(
        reduce(&block, 2),
        Ok(vec![
            Loudness::Power { energy: 2 * 32768 * 32768, frames: 2 },
            Loudness::Power { energy: 2 * 32768 * 32768, frames: 2 },
        ])
    );
}

#[test]
fn half_scale_is_about_six_decibels_down() {
    let block = [16384i16; 64];
    let levels = reduce(&block, 2).unwrap();
    let db = decibels(levels[0]);
    assert!((db - (-6.0203)).abs() < 0.001);
}

#[test]
fn reducing_twice_gives_the_same() {
    let mut block = [0i16; 512];
    for i in 0..block.len() {
        block[i] = ((i * 7919) % 65536) as u16 as i16;
    }
    let first = reduce(&block, 2);
    let second = reduce(&block, 2);
    assert_eq!(first, second);
    let copy = block;
    assert_eq!(reduce(&copy, 2), first);
}

#[test]
fn partial_frame_is_rejected() {
    let block = [1i16; 7];
    assert_eq!(reduce(&block, 2), Err(ReduceError::PartialFrame));
    assert_eq!(reduce(&block, 3), Err(ReduceError::PartialFrame));
    assert_eq!(reduce(&block, 8), Err(ReduceError::PartialFrame));
    assert!(reduce(&block, 7).is_ok());
    assert!(reduce(&block, 1).is_ok());
}

#[test]
fn zero_channels_are_rejected() {
    let block = [1i16; 4];
    assert_eq!(reduce(&block, 0), Err(ReduceError::NoChannels));
    let empty: [i16; 0] = [];
    assert_eq!(reduce(&empty, 0), Err(ReduceError::NoChannels));
}

#[test]
fn failed_read_ends_capture() {
    let block = [1i16; 4];
    assert_eq!(capture_step(&block, 2, None), Err(CaptureError::Device));
}

#[test]
fn short_read_ends_capture() {
    let block = [1i16; 4];
    assert_eq!(capture_step(&block, 2, Some(1)), Err(CaptureError::ShortRead));
    assert_eq!(capture_step(&block, 2, Some(0)), Err(CaptureError::ShortRead));
    assert_eq!(capture_step(&block, 1, Some(3)), Err(CaptureError::ShortRead));
    assert_eq!(capture_step(&block, 0, Some(4)), Err(CaptureError::ShortRead));
    let big = [0i16; 8192];
    assert_eq!(capture_step(&big, 2, Some(4095)), Err(CaptureError::ShortRead));
    assert!(capture_step(&big, 2, Some(4096)).is_ok());
}

#[test]
fn full_read_is_reduced() {
    let block = [1i16, 2, 3, 4];
    assert_eq!(
        capture_step(&block, 2, Some(2)),
        Ok(vec![
            Loudness::Power { energy: 10, frames: 2 },
            Loudness::Power { energy: 20, frames: 2 },
        ])
    );
    assert_eq!(
        capture_step(&block, 2, Some(usize::MAX)),
        Ok(vec![
            Loudness::Power { energy: 10, frames: 2 },
            Loudness::Power { energy: 20, frames: 2 },
        ])
    );
}

#[test]
fn unsuitable_block_ends_capture() {
    let block = [1i16; 5];
    assert_eq!(
        capture_step(&block, 2, Some(3)),
        Err(CaptureError::Block(ReduceError::PartialFrame))
    );
    let empty: [i16; 0] = [];
    assert_eq!(
        capture_step(&empty, 0, Some(0)),
        Err(CaptureError::Block(ReduceError::NoChannels))
    );
}

#[test]
fn capture_loop_reads_until_asked_to_stop() {
    let block = [3i16, 4, -3, 4];
    let mut capture = CaptureLoop::new();
    for _ in 0..100 {
        assert!(capture.begin(false));
        assert_eq!(
            capture.take(&block, 2, Some(2)),
            Some(vec![
                Loudness::Power { energy: 18, frames: 2 },
                Loudness::Power { energy: 32, frames: 2 },
            ])
        );
    }
    assert!(!capture.begin(true));
    assert!(!capture.begin(false));
    assert_eq!(capture.take(&block, 2, Some(2)), None);
    assert_eq!(capture.failure(), None);
}

#[test]
fn capture_loop_ends_on_the_first_failed_read() {
    let block = [3i16, 4, -3, 4];
    let mut capture = CaptureLoop::new();
    assert!(capture.begin(false));
    assert!(capture.take(&block, 2, Some(2)).is_some());
    assert!(capture.begin(false));
    assert_eq!(capture.take(&block, 2, None), None);
    assert_eq!(capture.failure(), Some(CaptureError::Device));
    assert!(!capture.begin(false));
    assert_eq!(capture.take(&block, 2, Some(2)), None);
    assert_eq!(capture.take(&block, 2, Some(1)), None);
    assert_eq!(capture.failure(), Some(CaptureError::Device));
    assert!(!capture.begin(true));
    assert_eq!(capture.failure(), Some(CaptureError::Device));
}

#[test]
fn capture_loop_ends_on_a_short_read_and_on_a_bad_block() {
    let block = [3i16, 4, -3, 4, 1];
    let mut short = CaptureLoop::new();
    assert!(short.begin(false));
    assert_eq!(short.take(&block, 2, Some(2)), None);
    assert_eq!(short.failure(), Some(CaptureError::ShortRead));
    assert!(!short.begin(false));
    let mut ragged = CaptureLoop::new();
    assert!(ragged.begin(false));
    assert_eq!(ragged.take(&block, 2, Some(3)), None);
    assert_eq!(ragged.failure(), Some(CaptureError::Block(ReduceError::PartialFrame)));
    assert!(!ragged.begin(false));
}
