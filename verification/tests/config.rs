use waveform::zero::Zero;
use waveform::{Color, TimeRange, WaveformConfig};

#[test]
fn color_consistency_gate() {
    // Mismatched channel counts are rejected.
    assert!(WaveformConfig::new(-1, 1, Color::Vector4(0, 0, 0, 255), Color::Scalar(0)).is_err());
    assert!(WaveformConfig::new(-1, 1, Color::Scalar(0), Color::Vector3(1, 2, 3)).is_err());
    assert!(WaveformConfig::new(-1, 1, Color::Vector3(1, 2, 3), Color::Vector4(0, 0, 0, 0)).is_err());
    // Same-format pairs always succeed.
    assert!(WaveformConfig::new(-1, 1, Color::Scalar(255), Color::Scalar(0)).is_ok());
    assert!(WaveformConfig::new(-1, 1, Color::Vector3(1, 2, 3), Color::Vector3(4, 5, 6)).is_ok());
    assert!(
        WaveformConfig::new(-1, 1, Color::Vector4(1, 2, 3, 4), Color::Vector4(5, 6, 7, 8)).is_ok()
    );

    let e = WaveformConfig::new(-1, 1, Color::Vector4(0, 0, 0, 255), Color::Scalar(0))
        .err()
        .unwrap();
    assert_eq!(
        e.message(),
        "Color formats of background and foreground must be consistent."
    );
}

#[test]
fn set_colors_is_all_or_nothing() {
    let mut c = WaveformConfig::new(-1, 1, Color::Scalar(255), Color::Scalar(0)).unwrap();

    // A mismatch fails and leaves the prior colors untouched.
    assert!(c.set_colors(Color::Vector4(1, 2, 3, 4), Color::Scalar(9)).is_err());
    assert!(matches!(c.get_foreground(), Color::Scalar(255)));
    assert!(matches!(c.get_background(), Color::Scalar(0)));

    // A consistent pair replaces both colors.
    assert!(c.set_colors(Color::Vector4(1, 2, 3, 4), Color::Vector4(5, 6, 7, 8)).is_ok());
    assert!(matches!(c.get_background(), Color::Vector4(1, 2, 3, 4)));
    assert!(matches!(c.get_foreground(), Color::Vector4(5, 6, 7, 8)));
}

#[test]
fn default_config() {
    let c = WaveformConfig::default();
    assert_eq!(c.amp_min, -1);
    assert_eq!(c.amp_max, 1);
    assert!(matches!(c.get_foreground(), Color::Scalar(255)));
    assert!(matches!(c.get_background(), Color::Scalar(0)));
}

#[test]
fn time_range_conversion() {
    // Sample bounds pass through unchanged.
    assert_eq!(TimeRange::Samples(3, 17).to_sample_tuple(44_100_000_000), (3, 17));
    // 1.5 seconds at 2 Hz covers samples [0, 3).
    assert_eq!(TimeRange::Seconds(0, 1_500_000).to_sample_tuple(2_000_000), (0, 3));
    // Conversion truncates toward zero: 0.01 s at 44100 Hz is sample 441.
    assert_eq!(
        TimeRange::Seconds(10_000, 10_000).to_sample_tuple(44_100_000_000),
        (441, 441)
    );
}

#[test]
fn zero_values() {
    assert_eq!(<i8 as Zero>::zero(), 0i8);
    assert_eq!(<u8 as Zero>::zero(), 0u8);
    assert_eq!(<i16 as Zero>::zero(), 0i16);
    assert_eq!(<u16 as Zero>::zero(), 0u16);
    assert_eq!(<i32 as Zero>::zero(), 0i32);
    assert_eq!(<u32 as Zero>::zero(), 0u32);
}
