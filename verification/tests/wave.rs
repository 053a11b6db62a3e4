use resonate::audio::wave::{build_wave, WAVE_BUCKETS};
use resonate::scalar::Scalar;

fn s(x: f32) -> Scalar {
    Scalar { bits: x.to_bits() }
}

fn f(x: Scalar) -> f32 {
    f32::from_bits(x.bits)
}

/// The outline as it is computed frame by frame.
fn outline(pcm: &[f32]) -> (Vec<f32>, f32) {
    let frames = pcm.len() / 2;
    let mut peaks = vec![0.0f32; WAVE_BUCKETS];
    let mut peak = 0.0f32;
    if frames > 0 {
        for (i, frame) in pcm.chunks(2).enumerate() {
            let bucket = i * WAVE_BUCKETS / frames;
            let amp = frame.iter().fold(0.0f32, |m, s| m.max(s.abs()));
            let b = &mut peaks[bucket.min(WAVE_BUCKETS - 1)];
            *b = b.max(amp);
            peak = peak.max(amp);
        }
    }
    (peaks, peak)
}

#[test]
fn buckets_hold_the_loudest_samples() {
    for len in [0usize, 1, 2, 3, 10, 2047, 2048, 2050, 5001, 20_000] {
        let pcm: Vec<f32> = (0..len).map(|i| ((i * 7919) % 1000) as f32 / -1500.0).collect();
        let wave = build_wave(&pcm.iter().map(|x| s(*x)).collect());
        let (peaks, peak) = outline(&pcm);
        assert_eq!(wave.peaks.len(), WAVE_BUCKETS);
        let got: Vec<f32> = wave.peaks.iter().map(|x| f(*x)).collect();
        assert_eq!(got, peaks, "{len}");
        assert_eq!(f(wave.peak), peak, "{len}");
        assert_eq!(f(wave.duration_secs), (len / 2) as f32 / 48_000.0);
        assert!(got.iter().all(|x| *x <= peak));
    }
}

#[test]
fn what_is_not_a_number_makes_no_sound() {
    let wave = build_wave(&vec![s(f32::NAN), s(-0.5), s(0.25), s(f32::NAN)]);
    assert_eq!(f(wave.peak), 0.5);
    assert_eq!(f(wave.peaks[0]), 0.5);
    assert_eq!(f(wave.peaks[512]), 0.25);
}
