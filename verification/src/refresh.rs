//! Display refresh-rate support: 60 Hz, 120 Hz, 180 Hz and 240 Hz.
//!
//! A pen delivers readings at its own rate and the window repaints at the display's. The refresh rate
//! is an explicit value with four supported steps, and the two numbers the writing loop needs are
//! derived from it: how long a frame is, and how often the pen queue is drained.

use crate::text::{decimal, decimal_text};
use std::time::Duration;
use vstd::prelude::*;

verus! {

/// How many whole microseconds a span has, as `Duration::as_micros` counts them.
pub uninterp spec fn micros_in(span: Duration) -> nat;

/// `Duration::from_micros` makes a span of that many microseconds.
pub assume_specification[ Duration::from_micros ](micros: u64) -> (span: Duration)
    ensures
        micros_in(span) == micros,
;

/// The refresh rates this application supports.
#[derive(Clone, Copy, Debug, PartialEq, Eq, Hash, Structural)]
pub enum RefreshRate {
    /// 60 Hz: one frame every 16.67 ms.
    Hz60,
    /// 120 Hz: one frame every 8.33 ms.
    Hz120,
    /// 180 Hz: one frame every 5.56 ms.
    Hz180,
    /// 240 Hz: one frame every 4.17 ms.
    Hz240,
}

/// How far apart two rates are.
pub open spec fn rate_distance(a: int, b: int) -> int {
    if a < b {
        b - a
    } else {
        a - b
    }
}

impl RefreshRate {
    /// Every supported rate, in ascending order.
    pub const ALL: [RefreshRate; 4] = [
        RefreshRate::Hz60,
        RefreshRate::Hz120,
        RefreshRate::Hz180,
        RefreshRate::Hz240,
    ];

    /// The rate in hertz.
    pub open spec fn hertz(self) -> int {
        match self {
            RefreshRate::Hz60 => 60,
            RefreshRate::Hz120 => 120,
            RefreshRate::Hz180 => 180,
            RefreshRate::Hz240 => 240,
        }
    }

    /// The label shown in the toolbar.
    pub open spec fn label_text(self) -> Seq<char> {
        match self {
            RefreshRate::Hz60 => "60 Hz"@,
            RefreshRate::Hz120 => "120 Hz"@,
            RefreshRate::Hz180 => "180 Hz"@,
            RefreshRate::Hz240 => "240 Hz"@,
        }
    }

    /// How long one frame is, in whole microseconds.
    pub open spec fn frame_micros(self) -> int {
        1_000_000int / self.hertz()
    }

    /// How often the pen queue is drained, in microseconds: half a frame, between one and eight
    /// milliseconds.
    pub open spec fn pump_micros(self) -> int {
        let half = self.frame_micros() / 2;
        if half < 1_000 {
            1_000
        } else if half > 8_000 {
            8_000
        } else {
            half
        }
    }

    /// The rate in hertz.
    pub fn hz(self) -> (hz: u32)
        ensures
            hz == self.hertz(),
    {
        match self {
            RefreshRate::Hz60 => 60,
            RefreshRate::Hz120 => 120,
            RefreshRate::Hz180 => 180,
            RefreshRate::Hz240 => 240,
        }
    }

    /// The label shown in the toolbar.
    pub fn label(self) -> (label: &'static str)
        ensures
            label@ == self.label_text(),
    {
        match self {
            RefreshRate::Hz60 => "60 Hz",
            RefreshRate::Hz120 => "120 Hz",
            RefreshRate::Hz180 => "180 Hz",
            RefreshRate::Hz240 => "240 Hz",
        }
    }

    /// How long one frame is, in microseconds.
    pub fn frame_interval_micros(self) -> (micros: u64)
        ensures
            micros == self.frame_micros(),
    {
        1_000_000 / self.hz() as u64
    }

    /// How long one frame is.
    pub fn frame_interval(self) -> (span: Duration)
        ensures
            micros_in(span) == self.frame_micros(),
    {
        Duration::from_micros(self.frame_interval_micros())
    }

    /// How often the pen queue should be drained.
    ///
    /// Half a frame, clamped to a human-imperceptible range: fast enough that a reading never waits
    /// a whole frame for the ink to appear, slow enough that an idle app does not spin.
    pub fn pump_interval(self) -> (span: Duration)
        ensures
            micros_in(span) == self.pump_micros(),
    {
        let half: u64 = self.frame_interval_micros() / 2;
        let micros: u64 = if half < 1_000 {
            1_000
        } else if half > 8_000 {
            8_000
        } else {
            half
        };
        Duration::from_micros(micros)
    }

    /// Whether this rate is the one to use for a detected rate: none is closer, and of two as close
    /// it is the higher.
    pub open spec fn is_nearest(self, hz: int) -> bool {
        forall|other: RefreshRate|
            #![trigger other.hertz()]
            rate_distance(self.hertz(), hz) < rate_distance(other.hertz(), hz) || (rate_distance(
                self.hertz(),
                hz,
            ) == rate_distance(other.hertz(), hz) && self.hertz() >= other.hertz())
    }

    /// The supported rate closest to an arbitrary detected rate; ties go to the higher rate.
    pub fn nearest(hz: u32) -> (rate: RefreshRate)
        ensures
            rate.is_nearest(hz as int),
    {
        let mut best: RefreshRate = RefreshRate::Hz60;
        let mut best_distance: u32 = RefreshRate::apart(RefreshRate::Hz60, hz);
        let rates: [RefreshRate; 3] = [RefreshRate::Hz120, RefreshRate::Hz180, RefreshRate::Hz240];
        let mut index: usize = 0;
        while index < 3
            invariant
                index <= 3,
                rates@ == seq![RefreshRate::Hz120, RefreshRate::Hz180, RefreshRate::Hz240],
                best_distance == rate_distance(best.hertz(), hz as int),
                forall|other: RefreshRate|
                    #![trigger other.hertz()]
                    other == RefreshRate::Hz60 || (exists|i: int|
                        0 <= i < index && other == #[trigger] rates@[i]) ==> best_distance
                        < rate_distance(other.hertz(), hz as int) || (best_distance
                        == rate_distance(other.hertz(), hz as int) && best.hertz()
                        >= other.hertz()),
            decreases 3 - index,
        {
            let rate: RefreshRate = rates[index];
            let distance: u32 = RefreshRate::apart(rate, hz);
            if distance < best_distance || (distance == best_distance && rate.hz() > best.hz()) {
                best = rate;
                best_distance = distance;
            }
            index = index + 1;
        }
        assert forall|other: RefreshRate|
            #![trigger other.hertz()]
            best_distance < rate_distance(other.hertz(), hz as int) || (best_distance
                == rate_distance(other.hertz(), hz as int) && best.hertz() >= other.hertz()) by {
            assert(rates@[0] == RefreshRate::Hz120 && rates@[1] == RefreshRate::Hz180 && rates@[2]
                == RefreshRate::Hz240);
        }
        best
    }

    /// How far a rate is from a detected one.
    fn apart(rate: RefreshRate, hz: u32) -> (distance: u32)
        ensures
            distance == rate_distance(rate.hertz(), hz as int),
    {
        let own: u32 = rate.hz();
        if own < hz {
            hz - own
        } else {
            own - hz
        }
    }
}

/// Whether the app follows the panel or uses a fixed rate the user picked.
#[derive(Clone, Copy, Debug, PartialEq, Eq, Structural)]
pub enum RefreshMode {
    /// Follow the display's current rate, snapped to a supported step.
    Auto,
    /// Ignore the display and pace the app at this rate.
    Fixed(RefreshRate),
}

impl Default for RefreshMode {
    fn default() -> (mode: Self)
        ensures
            mode == RefreshMode::Auto,
    {
        RefreshMode::Auto
    }
}

/// What the refresh probe found, and which rate the app is actually using.
#[derive(Clone, Copy, Debug, PartialEq, Eq)]
pub struct DisplayRefresh {
    /// The rate the platform reported, if it could be read at all.
    pub detected_hz: Option<u32>,
    /// The rate the app paces itself at, after snapping and applying the user's choice.
    pub effective: RefreshRate,
    /// The mode the effective rate came from.
    pub mode: RefreshMode,
}

impl DisplayRefresh {
    /// Resolves the effective rate from what the platform reported.
    ///
    /// A probe that could not read the panel is not a failure: the app falls back to 60 Hz, which is
    /// correct (if conservative) on every display.
    pub fn probe(mode: RefreshMode, detected_hz: Option<u32>) -> (refresh: Self)
        ensures
            refresh.detected_hz == detected_hz,
            refresh.mode == mode,
            match mode {
                RefreshMode::Fixed(rate) => refresh.effective == rate,
                RefreshMode::Auto => match detected_hz {
                    Some(hz) => refresh.effective.is_nearest(hz as int),
                    None => refresh.effective == RefreshRate::Hz60,
                },
            },
    {
        let effective: RefreshRate = match mode {
            RefreshMode::Fixed(rate) => rate,
            RefreshMode::Auto => match detected_hz {
                Some(hz) => RefreshRate::nearest(hz),
                None => RefreshRate::Hz60,
            },
        };
        DisplayRefresh { detected_hz, effective, mode }
    }

    /// The summary's words.
    pub open spec fn summary_text(self) -> Seq<char> {
        match (self.mode, self.detected_hz) {
            (RefreshMode::Auto, Some(hz)) => "display "@ + decimal_text(hz as nat)
                + " Hz -> pacing "@ + self.effective.label_text(),
            (RefreshMode::Auto, None) => "display rate unreadable -> pacing "@
                + self.effective.label_text(),
            (RefreshMode::Fixed(_), Some(hz)) => "display "@ + decimal_text(hz as nat)
                + " Hz, pinned to "@ + self.effective.label_text(),
            (RefreshMode::Fixed(_), None) => "pinned to "@ + self.effective.label_text(),
        }
    }

    /// A one-line summary for the status bar.
    pub fn summary(&self) -> (summary: String)
        ensures
            summary@ == self.summary_text(),
    {
        match (self.mode, self.detected_hz) {
            (RefreshMode::Auto, Some(hz)) => String::from_str("display ").concat(
                decimal(hz as u64).as_str(),
            ).concat(" Hz -> pacing ").concat(self.effective.label()),
            (RefreshMode::Auto, None) => String::from_str(
                "display rate unreadable -> pacing ",
            ).concat(self.effective.label()),
            (RefreshMode::Fixed(_), Some(hz)) => String::from_str("display ").concat(
                decimal(hz as u64).as_str(),
            ).concat(" Hz, pinned to ").concat(self.effective.label()),
            (RefreshMode::Fixed(_), None) => String::from_str("pinned to ").concat(
                self.effective.label(),
            ),
        }
    }
}

/// The current mode of the display as the platform reports it, when it reports one: a display that
/// reports a rate of zero or one reports its default rather than a rate.
pub fn detect_display_hz(reported: Option<u32>) -> (hz: Option<u32>)
    ensures
        hz == (match reported {
            Some(rate) => if rate > 1 {
                Some(rate)
            } else {
                None
            },
            None => None::<u32>,
        }),
{
    match reported {
        Some(rate) => if rate > 1 {
            Some(rate)
        } else {
            None
        },
        None => None,
    }
}

/// Rising rates mean shorter frames and a pump at least as fast, and the pump never outruns the
/// frame.
pub proof fn faster_panels_get_shorter_intervals(slow: RefreshRate, fast: RefreshRate)
    requires
        slow.hertz() < fast.hertz(),
    ensures
        fast.frame_micros() < slow.frame_micros(),
        fast.pump_micros() <= slow.pump_micros(),
        0 < slow.pump_micros() <= slow.frame_micros(),
        0 < fast.pump_micros() <= fast.frame_micros(),
{
}

/// A rate the application supports is its own nearest, and the only one.
pub proof fn a_supported_rate_is_kept(rate: RefreshRate, nearest: RefreshRate)
    requires
        nearest.is_nearest(rate.hertz()),
    ensures
        nearest == rate,
{
    assert(rate_distance(rate.hertz(), rate.hertz()) == 0);
}

/// A rate is what its name says, and a frame is as long as the rate leaves it: so many of them fit in a second,
/// and not one more would if they were a microsecond longer.
pub proof fn frames_fill_a_second(rate: RefreshRate)
    ensures
        RefreshRate::Hz60.hertz() == 60 && RefreshRate::Hz60.label_text() == "60 Hz"@,
        RefreshRate::Hz120.hertz() == 120 && RefreshRate::Hz120.label_text() == "120 Hz"@,
        RefreshRate::Hz180.hertz() == 180 && RefreshRate::Hz180.label_text() == "180 Hz"@,
        RefreshRate::Hz240.hertz() == 240 && RefreshRate::Hz240.label_text() == "240 Hz"@,
        rate.frame_micros() * rate.hertz() <= 1_000_000 < (rate.frame_micros() + 1) * rate.hertz(),
{
    let frame = rate.frame_micros();
    let hertz = rate.hertz();
    assert(frame * hertz <= 1_000_000 < (frame + 1) * hertz) by (nonlinear_arith)
        requires
            hertz > 0,
            frame == 1_000_000int / hertz,
    ;
}

/// The pen queue is drained twice a frame, but never less often than every eight milliseconds.
pub proof fn the_pump_runs_twice_a_frame(rate: RefreshRate)
    ensures
        rate.frame_micros() >= 16_000 ==> rate.pump_micros() == 8_000,
        rate.frame_micros() < 16_000 ==> 2 * rate.pump_micros() <= rate.frame_micros() < 2
            * rate.pump_micros() + 2,
{
}

/// Of the rates there are, the nearest to one detected is no further from it than any other, and faster than
/// one that is just as far.
pub proof fn the_nearest_rate_is_no_further(rate: RefreshRate, other: RefreshRate, hz: int)
    requires
        rate.is_nearest(hz),
        rate != other,
    ensures
        ({
            let own = if rate.hertz() < hz {
                hz - rate.hertz()
            } else {
                rate.hertz() - hz
            };
            let others = if other.hertz() < hz {
                hz - other.hertz()
            } else {
                other.hertz() - hz
            };
            own < others || own == others && rate.hertz() > other.hertz()
        }),
{
    assert(rate_distance(rate.hertz(), hz) <= rate_distance(other.hertz(), hz));
}

/// The summary says what the panel reports, where it does, and what the pace is; and whether the pace was
/// picked by hand.
pub proof fn the_summary_says_the_pace(refresh: DisplayRefresh, picked: RefreshRate, hz: u32)
    ensures
        refresh.mode == RefreshMode::Auto && refresh.detected_hz == Some(hz)
            ==> refresh.summary_text() == "display "@ + decimal_text(hz as nat) + " Hz -> pacing "@
            + refresh.effective.label_text(),
        refresh.mode == RefreshMode::Auto && refresh.detected_hz is None ==> refresh.summary_text()
            == "display rate unreadable -> pacing "@ + refresh.effective.label_text(),
        refresh.mode == RefreshMode::Fixed(picked) && refresh.detected_hz == Some(hz)
            ==> refresh.summary_text() == "display "@ + decimal_text(hz as nat) + " Hz, pinned to "@
            + refresh.effective.label_text(),
        refresh.mode == RefreshMode::Fixed(picked) && refresh.detected_hz is None
            ==> refresh.summary_text() == "pinned to "@ + refresh.effective.label_text(),
{
}

} // verus!
