use waveform::multi::MultiWaveformRenderer;
use waveform::{Color, SampleSequence, TimeRange, WaveformConfig};

const RATE: u64 = 44_100_000_000;

#[test]
fn multi() {
    let data = vec![0i32; 50000];
    let sample_rate = RATE;
    let ss = SampleSequence { data: &data[..], sample_rate };
    let foreground = Color::Vector4(255, 0, 0, 255);
    let background = Color::Vector4(0, 0, 0, 0);
    let config = WaveformConfig::new(-100, 100, foreground, background).unwrap();
    let bss = vec![10, 50, 100];
    let mwr = MultiWaveformRenderer::new(&ss, &bss, config).unwrap();

    for bs in bss.iter() {
        assert_eq!(mwr.get_binned(*bs).unwrap().get_bin_size(), *bs);
        assert_eq!(mwr.get_binned(*bs).unwrap().get_sample_rate(), sample_rate);
    }

    mwr.render_vec(TimeRange::Seconds(0, 1_000_000), (1000, 100))
        .unwrap();
}

#[test]
fn resolution_selection_monotonicity() {
    let data = vec![0i32; 100_000];
    let ss = SampleSequence { data: &data[..], sample_rate: RATE };
    let config = WaveformConfig::new(-100, 100, Color::Scalar(255), Color::Scalar(0)).unwrap();
    let bss = vec![10, 50, 100];
    let mwr = MultiWaveformRenderer::new(&ss, &bss, config).unwrap();

    // 75 samples per pixel: the largest bin size at most 75 is 50.
    assert_eq!(mwr.get_optimal_bin_size(75_000, 1000), Some(50));
    // 5 samples per pixel: nothing qualifies, fall back to the smallest.
    assert_eq!(mwr.get_optimal_bin_size(5_000, 1000), Some(10));
    // Exact boundaries qualify.
    assert_eq!(mwr.get_optimal_bin_size(50_000, 1000), Some(50));
    assert_eq!(mwr.get_optimal_bin_size(100_000, 1000), Some(100));
}

#[test]
fn multi_without_renderers() {
    let data = vec![0i32; 100];
    let ss = SampleSequence { data: &data[..], sample_rate: RATE };
    let config = WaveformConfig::new(-100, 100, Color::Scalar(255), Color::Scalar(0)).unwrap();
    let bss: Vec<usize> = Vec::new();
    let mwr = MultiWaveformRenderer::new(&ss, &bss, config).unwrap();

    assert_eq!(mwr.get_optimal_bin_size(100, 10), None);
    assert!(mwr.render_vec(TimeRange::Samples(0, 100), (10, 10)).is_none());
    let mut canvas: Vec<u8> = vec![0; 100];
    let e = mwr
        .render_write(TimeRange::Samples(0, 100), (0, 0), (10, 10), &mut canvas[..], (10, 10))
        .err()
        .unwrap();
    assert_eq!(e.var_name, "bin sizes");
}

#[test]
fn multi_rejects_invalid_bin_size() {
    let data = vec![0i32; 100];
    let ss = SampleSequence { data: &data[..], sample_rate: RATE };
    let config = WaveformConfig::new(-100, 100, Color::Scalar(255), Color::Scalar(0)).unwrap();
    let e = MultiWaveformRenderer::new(&ss, &vec![10, 101], config)
        .err()
        .unwrap();
    assert_eq!(e.var_name, "bin_size");
    assert!(MultiWaveformRenderer::new(&ss, &vec![10, 0], config).is_err());
}

#[test]
fn multi_keeps_repeated_bin_sizes_once() {
    let data = vec![0i32; 100];
    let ss = SampleSequence { data: &data[..], sample_rate: RATE };
    let config = WaveformConfig::new(-100, 100, Color::Scalar(255), Color::Scalar(0)).unwrap();
    let mwr = MultiWaveformRenderer::new(&ss, &vec![20, 10, 20], config).unwrap();
    assert_eq!(mwr.binned.len(), 2);
    assert_eq!(mwr.binned[0].0, 10);
    assert_eq!(mwr.binned[1].0, 20);
}

#[test]
fn multi_render_write_matches_render_vec() {
    let mut data: Vec<i32> = Vec::new();
    for t in 0..5000i32 {
        data.push((t * 7) % 41 - 20);
    }
    let ss = SampleSequence { data: &data[..], sample_rate: RATE };
    let config = WaveformConfig::new(
        -25,
        25,
        Color::Vector4(10, 20, 30, 40),
        Color::Vector4(1, 1, 1, 1),
    )
    .unwrap();
    let mwr = MultiWaveformRenderer::new(&ss, &vec![5, 25], config).unwrap();
    let tr = TimeRange::Samples(0, 5000);
    let v1 = mwr.render_vec(tr, (100, 20)).unwrap();
    let mut v2: Vec<u8> = vec![0; 100 * 20 * 4];
    mwr.render_write(tr, (0, 0), (100, 20), &mut v2[..], (100, 20))
        .unwrap();
    assert_eq!(v1, v2);
}
