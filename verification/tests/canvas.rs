//! The sheet and what is printed on it.

use cheap_note::canvas::{
    build_ruling, ink_colors, paper_colors, CanvasSize, CanvasStyle, Mark, Ruling, RulingKey,
};

/// A blank sheet has nothing printed on it, and every other style prints something.
#[test]
fn only_the_blank_style_is_left_blank() {
    assert!(build_ruling(CanvasStyle::Plain, 28, 20).is_empty());

    for style in CanvasStyle::ALL {
        if style == CanvasStyle::Plain {
            continue;
        }
        assert!(
            !build_ruling(style, 28, 20).is_empty(),
            "{style:?} prints something"
        );
    }
}

/// No rule or dot may fall outside the sheet, because nothing clips it when it is drawn.
#[test]
fn the_ruling_stays_inside_the_sheet() {
    for style in CanvasStyle::ALL {
        for mark in build_ruling(style, 28, 20) {
            match mark {
                Mark::Row(row) => assert!((1..=28).contains(&row)),
                Mark::Column(column) => assert!((1..=20).contains(&column)),
                Mark::Dot(row, column) => {
                    assert!((1..=28).contains(&row) && (1..=20).contains(&column))
                }
            }
        }
    }
}

/// A grid has its rows and its columns, and a dotted sheet a dot wherever they would cross.
#[test]
fn a_grid_is_ruled_both_ways() {
    assert_eq!(
        build_ruling(CanvasStyle::Grid, 2, 1),
        vec![Mark::Row(1), Mark::Row(2), Mark::Column(1)]
    );
    assert_eq!(
        build_ruling(CanvasStyle::Dots, 2, 2),
        vec![Mark::Dot(1, 1), Mark::Dot(1, 2), Mark::Dot(2, 1), Mark::Dot(2, 2)]
    );
    assert_eq!(build_ruling(CanvasStyle::Ruled, 1, 9), vec![Mark::Row(1)]);
}

/// A sheet of 720 by 1018, as the bit patterns of its edges.
fn sheet(style: CanvasStyle, paper: u32) -> RulingKey {
    RulingKey {
        x: 24.0f32.to_bits(),
        y: 24.0f32.to_bits(),
        width: 720.0f32.to_bits(),
        height: 1018.0f32.to_bits(),
        style,
        paper,
    }
}

/// The ruling survives across frames: rebuilding it per frame would put geometry work on the very
/// frame that is supposed to be showing ink.
#[test]
fn the_ruling_is_rebuilt_only_when_the_sheet_changes() {
    let mut ruling = Ruling::default();

    assert!(ruling.quads(sheet(CanvasStyle::Grid, 0xFF_FF_FF), 28, 20));
    assert_eq!(ruling.marks.len(), 48);
    assert!(
        !ruling.quads(sheet(CanvasStyle::Grid, 0xFF_FF_FF), 28, 20),
        "an unchanged sheet is not rebuilt"
    );
    assert_eq!(ruling.marks.len(), 48);
    assert!(
        ruling.quads(sheet(CanvasStyle::Dots, 0xFF_FF_FF), 28, 20),
        "a new style is rebuilt"
    );
    assert_eq!(ruling.marks.len(), 560);
    assert!(
        ruling.quads(sheet(CanvasStyle::Dots, 0x14_16_1A), 28, 20),
        "new paper changes the rule's colour, so it is rebuilt"
    );
}

/// Element ids address the element tree, so two swatches sharing one would silently share their
/// hover and press state.
#[test]
fn every_control_has_its_own_element_id() {
    let mut ids: Vec<&str> = Vec::new();
    let papers = paper_colors();
    let inks = ink_colors();

    let controls = papers
        .iter()
        .chain(inks.iter())
        .map(|swatch| swatch.id)
        .chain(CanvasSize::ALL.iter().map(|size| size.button_id()))
        .chain(CanvasStyle::ALL.iter().map(|style| style.button_id()));

    for id in controls {
        assert!(!ids.contains(&id), "duplicate element id {id}");
        ids.push(id);
    }

    assert_eq!(
        ids.len(),
        papers.len() + inks.len() + CanvasSize::ALL.len() + CanvasStyle::ALL.len()
    );
}

/// Every size and style has a name of its own, and the name leads back to it.
#[test]
fn a_sheet_s_label_leads_back_to_it() {
    for size in CanvasSize::ALL {
        assert_eq!(CanvasSize::from_label(size.label()), Some(size));
    }
    for style in CanvasStyle::ALL {
        assert_eq!(CanvasStyle::from_label(style.label()), Some(style));
    }
    assert_eq!(CanvasSize::from_label("A0"), None);
    assert_eq!(CanvasStyle::from_label(""), None);
    assert_eq!(CanvasSize::A4.millimetre_tenths(), (2100, 2970));
    assert_eq!(CanvasSize::A5.millimetre_tenths(), (1480, 2100));
}
