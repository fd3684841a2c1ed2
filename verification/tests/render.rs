use waveform::binned::BinnedWaveformRenderer;
use waveform::{Color, SampleSequence, TimeRange, WaveformConfig};

const RATE: u64 = 44_100_000_000;

fn config(amp_min: i64, amp_max: i64, fg: Color, bg: Color) -> WaveformConfig {
    WaveformConfig::new(amp_min, amp_max, fg, bg).unwrap()
}

#[test]
fn render_vec_and_write_eq() {
    let tr = TimeRange::Seconds(0, 10_000_000);
    let (width, height) = (1000usize, 100usize);
    let mut samples: Vec<i32> = Vec::new();
    for t in 0u32..44100u32 {
        let v = ((t as f64) * 0.01f64 * 2f64 * 3.1415f64).sin();
        samples.push((v * 30000f64) as i32);
    }
    let config = config(
        -30000,
        30000,
        Color::Vector4(0, 0, 0, 255),
        Color::Vector4(0, 0, 0, 255),
    );
    let wfr = BinnedWaveformRenderer::new(
        &SampleSequence { data: &samples[..], sample_rate: RATE },
        10,
        config,
    )
    .unwrap();

    let v1 = wfr.render_vec(tr, (width, height)).unwrap();

    let mut v2: Vec<u8> = vec![0; width * height * 4];

    wfr.render_write(tr, (0, 0), (width, height), &mut v2[..], (width, height))
        .unwrap();

    assert_eq!(v1, v2);
}

#[test]
fn construction_rejects_oversized_bins() {
    let samples: Vec<i32> = vec![0; 10];
    let ss = SampleSequence { data: &samples[..], sample_rate: RATE };
    let c = config(-10, 10, Color::Scalar(255), Color::Scalar(0));
    let e = BinnedWaveformRenderer::new(&ss, 11, c).err().unwrap();
    assert_eq!(e.var_name, "bin_size");
    assert_eq!(e.message(), "Invalid size of bin_size");
    assert!(BinnedWaveformRenderer::new(&ss, 0, c).is_err());
    assert!(BinnedWaveformRenderer::new(&ss, 10, c).is_ok());
}

#[test]
fn bin_count_law_examples() {
    let samples: Vec<i32> = vec![0; 10];
    let ss = SampleSequence { data: &samples[..], sample_rate: RATE };
    let c = config(-10, 10, Color::Scalar(255), Color::Scalar(0));
    for (bs, expected) in [(1usize, 10usize), (3, 3), (5, 2), (10, 1)] {
        let wfr = BinnedWaveformRenderer::new(&ss, bs, c).unwrap();
        let (mins, maxs) = wfr.envelope_arrays();
        assert_eq!(mins.len(), expected);
        assert_eq!(maxs.len(), expected);
    }
}

#[test]
fn min_max_containment_examples() {
    let samples: Vec<i32> = vec![3, -5, 7, 2, 9, -1];
    let ss = SampleSequence { data: &samples[..], sample_rate: RATE };
    let c = config(-10, 10, Color::Scalar(255), Color::Scalar(0));
    let wfr = BinnedWaveformRenderer::new(&ss, 2, c).unwrap();
    let (mins, maxs) = wfr.envelope_arrays();
    assert_eq!(mins, vec![-5, 2, -1]);
    assert_eq!(maxs, vec![3, 7, 9]);
    for (i, mn) in mins.iter().enumerate() {
        assert!(*mn <= samples[2 * i] as i64 && *mn <= samples[2 * i + 1] as i64);
        assert!(maxs[i] >= samples[2 * i] as i64 && maxs[i] >= samples[2 * i + 1] as i64);
    }
}

#[test]
fn band_rows_scalar() {
    let samples: Vec<i32> = vec![0, 10];
    let ss = SampleSequence { data: &samples[..], sample_rate: RATE };
    let c = config(-10, 10, Color::Scalar(255), Color::Scalar(7));
    let wfr = BinnedWaveformRenderer::new(&ss, 1, c).unwrap();
    let img = wfr
        .render_vec(TimeRange::Samples(0, 2), (1, 4))
        .unwrap();
    assert_eq!(img, vec![255, 255, 7, 7]);
}

#[test]
fn rgba_byte_order() {
    let samples: Vec<i32> = vec![0, 10];
    let ss = SampleSequence { data: &samples[..], sample_rate: RATE };
    let c = config(
        -10,
        10,
        Color::Vector4(1, 2, 3, 4),
        Color::Vector4(9, 8, 7, 6),
    );
    let wfr = BinnedWaveformRenderer::new(&ss, 1, c).unwrap();
    let img = wfr
        .render_vec(TimeRange::Samples(0, 2), (1, 2))
        .unwrap();
    assert_eq!(img, vec![1, 2, 3, 4, 9, 8, 7, 6]);
}

#[test]
fn render_write_into_subrect() {
    let samples: Vec<i32> = vec![-10, 10];
    let ss = SampleSequence { data: &samples[..], sample_rate: RATE };
    let c = config(-10, 10, Color::Scalar(255), Color::Scalar(0));
    let wfr = BinnedWaveformRenderer::new(&ss, 1, c).unwrap();
    let mut canvas: Vec<u8> = vec![9; 4];
    wfr.render_write(TimeRange::Samples(0, 2), (1, 0), (1, 2), &mut canvas[..], (2, 2))
        .unwrap();
    assert_eq!(canvas, vec![9, 255, 9, 255]);
}

#[test]
fn render_write_errors() {
    let samples: Vec<i32> = vec![-10, 10];
    let ss = SampleSequence { data: &samples[..], sample_rate: RATE };
    let c = config(-10, 10, Color::Scalar(255), Color::Scalar(0));
    let wfr = BinnedWaveformRenderer::new(&ss, 1, c).unwrap();
    let tr = TimeRange::Samples(0, 2);

    let mut canvas: Vec<u8> = vec![0; 4];
    let e = wfr
        .render_write(tr, (0, 0), (0, 2), &mut canvas[..], (2, 2))
        .err()
        .unwrap();
    assert_eq!(e.var_name, "shape");

    let e = wfr
        .render_write(tr, (2, 0), (1, 2), &mut canvas[..], (2, 2))
        .err()
        .unwrap();
    assert_eq!(e.var_name, "shape and/or full_shape");

    let mut short: Vec<u8> = vec![0; 3];
    let e = wfr
        .render_write(tr, (0, 0), (1, 2), &mut short[..], (2, 2))
        .err()
        .unwrap();
    assert_eq!(e.var_name, "img and/or full_shape");
}

#[test]
fn zero_shape_returns_none() {
    let samples: Vec<i32> = vec![-10, 10];
    let ss = SampleSequence { data: &samples[..], sample_rate: RATE };
    let c = config(-10, 10, Color::Scalar(255), Color::Scalar(0));
    let wfr = BinnedWaveformRenderer::new(&ss, 1, c).unwrap();
    assert!(wfr.render_vec(TimeRange::Samples(0, 2), (0, 100)).is_none());
    assert!(wfr.render_vec(TimeRange::Samples(0, 2), (100, 0)).is_none());
    assert!(wfr.render_vec(TimeRange::Samples(0, 2), (0, 0)).is_none());
}

#[test]
fn repeated_renders_are_identical() {
    let mut samples: Vec<i32> = Vec::new();
    for t in 0..2000i32 {
        samples.push((t * 13) % 101 - 50);
    }
    let ss = SampleSequence { data: &samples[..], sample_rate: RATE };
    let c = config(-60, 60, Color::Vector4(1, 2, 3, 4), Color::Vector4(0, 0, 0, 0));
    let wfr = BinnedWaveformRenderer::new(&ss, 7, c).unwrap();
    let tr = TimeRange::Samples(100, 1900);
    let a = wfr.render_vec(tr, (64, 32)).unwrap();
    let b = wfr.render_vec(tr, (64, 32)).unwrap();
    assert_eq!(a, b);
}

#[test]
fn bin_offsets_follow_drift_rule() {
    let c = config(-10, 10, Color::Scalar(255), Color::Scalar(0));

    let samples: Vec<i32> = vec![0; 30];
    let ss = SampleSequence { data: &samples[..], sample_rate: RATE };
    let wfr = BinnedWaveformRenderer::new(&ss, 10, c).unwrap();
    assert_eq!(wfr.bin_offsets(TimeRange::Samples(0, 30), 3), vec![0, 1, 2, 3]);

    let samples: Vec<i32> = vec![0; 5];
    let ss = SampleSequence { data: &samples[..], sample_rate: RATE };
    let wfr = BinnedWaveformRenderer::new(&ss, 1, c).unwrap();
    assert_eq!(wfr.bin_offsets(TimeRange::Samples(0, 5), 3), vec![0, 1, 2, 4]);
}

#[test]
fn getters_report_construction_values() {
    let samples: Vec<i32> = vec![0; 30];
    let ss = SampleSequence { data: &samples[..], sample_rate: RATE };
    let c = config(-10, 10, Color::Scalar(255), Color::Scalar(0));
    let wfr = BinnedWaveformRenderer::new(&ss, 10, c).unwrap();
    assert_eq!(wfr.get_bin_size(), 10);
    assert_eq!(wfr.get_sample_rate(), RATE);
}
