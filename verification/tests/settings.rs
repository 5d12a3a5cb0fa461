//! The pen's weights.

use cheap_note::settings::PenWeight;

/// Every weight has a name of its own, and the name leads back to it.
#[test]
fn a_label_leads_back_to_its_weight() {
    let mut seen: Vec<&str> = Vec::new();

    for weight in PenWeight::ALL {
        assert!(
            !seen.contains(&weight.label()),
            "two pens are labelled {}",
            weight.label()
        );
        seen.push(weight.label());
        assert_eq!(PenWeight::from_label(weight.label()), Some(weight));
    }

    assert_eq!(PenWeight::from_label("Marker"), None);
    assert_eq!(PenWeight::from_label(""), None);
    assert_eq!(
        PenWeight::from_label("normal"),
        None,
        "a label is a name, not a guess at one"
    );
}

/// A heavier pen draws a wider line.
#[test]
fn a_heavier_pen_draws_a_wider_line() {
    let scales: Vec<u32> = PenWeight::ALL.iter().map(|weight| weight.scale()).collect();
    assert!(scales.windows(2).all(|pair| pair[0] < pair[1]), "{scales:?}");
    assert!(scales.contains(&4), "one of them leaves the line as it is");
}
