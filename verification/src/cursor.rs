//! The on-screen cursor: how its layers are weighted, and when there is one.
//!
//! Two shapes, each with a soft edge: the pen's body, and a small mark at the nib. Both are painted
//! twice, the wider and fainter copy first, so the ghost sits in the page rather than on top of it.

use crate::ink::PenPhase;
use vstd::prelude::*;

verus! {

/// The radius of the nib mark, in hundredths of a logical pixel.
pub const NIB_RADIUS: u32 = 250;

/// The radius of the bloom around the nib mark, in hundredths of a logical pixel.
pub const NIB_BLOOM_RADIUS: u32 = 650;

/// How opaque the bloom is, in hundredths.
pub const NIB_BLOOM_ALPHA: u32 = 10;

/// How opaque the nib mark is, in hundredths.
pub const NIB_ALPHA: u32 = 85;

/// How far the body's soft edge reaches beyond it, in hundredths of a logical pixel.
pub const BODY_HALO_GROW: u32 = 120;

/// How opaque the body's soft edge is, in hundredths.
pub const BODY_HALO_ALPHA: u32 = 10;

/// How opaque the body is, in hundredths.
pub const BODY_ALPHA: u32 = 34;

/// Whether a pen in this phase is a pen to draw a cursor for: one that is here.
pub open spec fn is_here(phase: PenPhase) -> bool {
    !(phase == PenPhase::Idle || phase == PenPhase::Leave || phase == PenPhase::Cancel)
}

/// Whether there is a cursor to draw for a reading of this phase.
pub fn has_cursor(phase: PenPhase) -> (drawn: bool)
    ensures
        drawn == is_here(phase),
{
    match phase {
        PenPhase::Idle | PenPhase::Leave | PenPhase::Cancel => false,
        PenPhase::Enter | PenPhase::Hover | PenPhase::Down | PenPhase::Move | PenPhase::Up => true,
    }
}

/// The soft layers are wider and fainter than what they sit under, and the nib mark stays the
/// strongest thing drawn.
pub proof fn the_soft_layers_are_fainter()
    ensures
        NIB_BLOOM_RADIUS > NIB_RADIUS,
        NIB_BLOOM_ALPHA < NIB_ALPHA,
        BODY_HALO_ALPHA < BODY_ALPHA < NIB_ALPHA < 100,
{
}

/// A cursor is drawn for a pen that hovers, draws or has just come or lifted, and for no pen that is gone.
pub proof fn a_pen_in_range_has_a_cursor(phase: PenPhase)
    ensures
        phase == PenPhase::Enter || phase == PenPhase::Hover || phase == PenPhase::Down || phase
            == PenPhase::Move || phase == PenPhase::Up ==> is_here(phase),
        phase == PenPhase::Idle || phase == PenPhase::Leave || phase == PenPhase::Cancel
            ==> !is_here(phase),
{
}

} // verus!
