//! How fast a panel is, and how often the pump wakes for it.

use cheap_note::refresh::{detect_display_hz, DisplayRefresh, RefreshMode, RefreshRate};
use std::time::Duration;

/// Every supported rate has an exact, non-zero frame interval.
#[test]
fn each_rate_has_a_frame_interval() {
    for rate in RefreshRate::ALL {
        let interval = rate.frame_interval_micros();
        assert!(
            interval > 0,
            "{} Hz must take a measurable amount of time",
            rate.hz()
        );
        assert!(
            interval <= 20_000,
            "{} Hz is slower than a 60 Hz frame",
            rate.hz()
        );
    }
}

/// A detected rate is snapped to the closest supported step.
#[test]
fn detected_rates_snap_to_the_closest_step() {
    assert_eq!(RefreshRate::nearest(59), RefreshRate::Hz60);
    assert_eq!(RefreshRate::nearest(60), RefreshRate::Hz60);
    assert_eq!(RefreshRate::nearest(90), RefreshRate::Hz120);
    assert_eq!(RefreshRate::nearest(119), RefreshRate::Hz120);
    assert_eq!(RefreshRate::nearest(144), RefreshRate::Hz120);
    assert_eq!(RefreshRate::nearest(150), RefreshRate::Hz180);
    assert_eq!(RefreshRate::nearest(165), RefreshRate::Hz180);
    assert_eq!(RefreshRate::nearest(239), RefreshRate::Hz240);
    assert_eq!(RefreshRate::nearest(360), RefreshRate::Hz240);
}

/// A fixed mode ignores what the panel reports.
#[test]
fn a_pinned_rate_ignores_detection() {
    let probe = DisplayRefresh::probe(RefreshMode::Fixed(RefreshRate::Hz180), None);
    assert_eq!(probe.effective, RefreshRate::Hz180);
    let probe = DisplayRefresh::probe(RefreshMode::Fixed(RefreshRate::Hz180), Some(60));
    assert_eq!(probe.effective, RefreshRate::Hz180);
}

/// Rising rates mean shorter frames and a faster pump, and the pump never outruns the frame.
#[test]
fn faster_panels_get_shorter_intervals() {
    let mut previous = u64::MAX;
    for rate in RefreshRate::ALL {
        let interval = rate.frame_interval_micros();
        assert!(interval < previous, "{} Hz is not faster", rate.hz());
        previous = interval;

        let pump = rate.pump_interval().as_micros() as u64;
        assert!(
            pump <= interval,
            "{} Hz pumps slower than one frame",
            rate.hz()
        );
    }
}

/// An interval is the span the rate says, to the microsecond.
#[test]
fn a_frame_of_a_fast_panel_is_exact() {
    assert_eq!(RefreshRate::Hz60.frame_interval_micros(), 16_666);
    assert_eq!(RefreshRate::Hz60.frame_interval(), Duration::from_micros(16_666));
    assert_eq!(RefreshRate::Hz240.frame_interval(), Duration::from_micros(4_166));
}

/// What the display reports is believed only where it is a rate at all.
#[test]
fn a_reported_rate_is_followed_or_not() {
    assert_eq!(detect_display_hz(None), None);
    assert_eq!(detect_display_hz(Some(1)), None);
    assert_eq!(detect_display_hz(Some(144)), Some(144));
    let probe = DisplayRefresh::probe(RefreshMode::Auto, Some(144));
    assert_eq!(probe.effective, RefreshRate::Hz120);
}
