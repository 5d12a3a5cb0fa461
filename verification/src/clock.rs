//! The clocks the application is paced by.
//!
//! A moment is a number of nanoseconds on a clock that starts with the application. A moment that
//! lies ahead of now — a clock that went backwards — has simply not passed yet.

use vstd::prelude::*;

verus! {

/// How often the status line may be rebuilt: four times a second.
pub const STATUS_NANOS: u64 = 250_000_000;

/// How long the pen has to be quiet before a page is rendered for it.
pub const PDF_QUIET_NANOS: u64 = 120_000_000;

/// How long ink may wait in memory before it is handed to the note.
pub const BATCH_NANOS: u64 = 500_000_000;

/// How long the pen has to be still before the write-ahead log is folded back into the note.
pub const CHECKPOINT_QUIET_NANOS: u64 = 5_000_000_000;

/// The least time between two checkpoints, however quiet the pen has been.
pub const CHECKPOINT_NANOS: u64 = 300_000_000_000;

/// Whether a span has passed since a moment.
pub open spec fn has_passed(since: u64, now: u64, span: u64) -> bool {
    span == 0 || now - since >= span
}

/// Whether a span has passed since a moment.
pub fn passed(since: u64, now: u64, span: u64) -> (has: bool)
    ensures
        has == has_passed(since, now, span),
{
    now.saturating_sub(since) >= span
}

/// Whether the status line is due to be rebuilt.
///
/// This clock is the difference between a calm line and one that flickers.
pub fn status_due(built_at: u64, now: u64) -> (due: bool)
    ensures
        due == (now - built_at >= STATUS_NANOS),
{
    passed(built_at, now, STATUS_NANOS)
}

/// Whether the pen has been quiet long enough to spend a rasterisation on it.
pub fn pdf_render_due(last_ink_at: u64, now: u64) -> (due: bool)
    ensures
        due == (now - last_ink_at >= PDF_QUIET_NANOS),
{
    passed(last_ink_at, now, PDF_QUIET_NANOS)
}

/// Whether the write-ahead log is to be folded back into the note: the pen is still, and it has not
/// been done for a while. Never while the pen is moving: that log is the ink that has not reached
/// the file yet.
pub fn checkpoint_due(last_ink_at: u64, checkpointed_at: u64, now: u64) -> (due: bool)
    ensures
        due == (now - last_ink_at >= CHECKPOINT_QUIET_NANOS && now - checkpointed_at
            >= CHECKPOINT_NANOS),
{
    passed(last_ink_at, now, CHECKPOINT_QUIET_NANOS) && passed(
        checkpointed_at,
        now,
        CHECKPOINT_NANOS,
    )
}

/// A span has passed once now is that far past the moment, and not before; a moment ahead of now has not
/// passed.
pub proof fn a_span_passes_once(since: u64, now: u64, span: u64)
    requires
        span > 0,
    ensures
        has_passed(since, now, span) <==> now >= since + span,
        now < since ==> !has_passed(since, now, span),
{
}

/// The status line is rebuilt four times a second, a page is rendered an eighth of a second after the pen
/// stopped, ink waits half a second, and the log is folded back after five still seconds, every five
/// minutes.
pub proof fn the_spans()
    ensures
        4 * STATUS_NANOS == 1_000_000_000,
        PDF_QUIET_NANOS == 120 * 1_000_000,
        2 * BATCH_NANOS == 1_000_000_000,
        CHECKPOINT_QUIET_NANOS == 5 * 1_000_000_000,
        CHECKPOINT_NANOS == 300 * 1_000_000_000,
{
}

} // verus!
