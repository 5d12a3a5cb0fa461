//! The pen's own cursor.

use cheap_note::cursor::{
    has_cursor, BODY_ALPHA, BODY_HALO_ALPHA, BODY_HALO_GROW, NIB_ALPHA, NIB_BLOOM_ALPHA,
    NIB_BLOOM_RADIUS, NIB_RADIUS,
};
use cheap_note::ink::PenPhase;

/// The soft layers are wider and fainter than what they sit under, and the nib mark stays the
/// strongest thing drawn: this is what keeps the cursor a hint rather than a blot.
#[test]
fn the_soft_layers_are_fainter_than_what_they_sit_under() {
    assert!(NIB_BLOOM_RADIUS > NIB_RADIUS, "the bloom is the wider copy");
    assert!(NIB_BLOOM_ALPHA < NIB_ALPHA, "and the fainter one");
    assert!(BODY_HALO_GROW > 0, "the body's edge reaches outward");
    assert!(BODY_HALO_ALPHA < BODY_ALPHA, "and is fainter than the body");
    assert!(BODY_ALPHA < NIB_ALPHA, "the body never competes with the nib");

    for alpha in [NIB_ALPHA, NIB_BLOOM_ALPHA, BODY_ALPHA, BODY_HALO_ALPHA] {
        let alpha = alpha as f32 / 100.0;
        assert!(
            (0.0..1.0).contains(&alpha),
            "{alpha} is not an opacity a shape can be painted with"
        );
    }
}

/// A cursor left behind where the pen was last seen would be a lie, so the phases that end a visit
/// draw nothing.
#[test]
fn a_cursor_is_only_drawn_while_the_pen_is_here() {
    for phase in [
        PenPhase::Enter,
        PenPhase::Hover,
        PenPhase::Down,
        PenPhase::Move,
        PenPhase::Up,
    ] {
        assert!(has_cursor(phase), "{phase:?} is a pen to draw a cursor for");
    }

    for phase in [PenPhase::Idle, PenPhase::Leave, PenPhase::Cancel] {
        assert!(!has_cursor(phase), "{phase:?} leaves no cursor behind");
    }
}
