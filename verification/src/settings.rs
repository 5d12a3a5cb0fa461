//! How heavy the pen in hand is.

use crate::text::same_text;
use vstd::prelude::*;

verus! {

/// How heavy the pen in hand is.
///
/// A name for a width rather than a width itself: a person chooses "a fine pen" or "a marker", and
/// the number that comes out of it is the app's business. The name is a multiplier on the widths the
/// pen is tuned to, so no weight can change the shape of how the line answers pressure.
#[derive(Clone, Copy, Debug, PartialEq, Eq, Structural)]
pub enum PenWeight {
    /// A fine pen: margin notes and small writing.
    Fine,
    /// A little lighter than the shipped pen.
    Light,
    /// The shipped pen: the tuning's own widths, untouched.
    Normal,
    /// A bold pen, for headings.
    Bold,
    /// A marker: a felt tip's line, for diagrams and underlining.
    Heavy,
}

impl PenWeight {
    /// Every weight the bar offers, in the order it offers them.
    pub const ALL: [PenWeight; 5] = [
        PenWeight::Fine,
        PenWeight::Light,
        PenWeight::Normal,
        PenWeight::Bold,
        PenWeight::Heavy,
    ];

    /// The label on this weight's box.
    pub open spec fn label_text(self) -> Seq<char> {
        match self {
            PenWeight::Fine => "Fine"@,
            PenWeight::Light => "Light"@,
            PenWeight::Normal => "Normal"@,
            PenWeight::Bold => "Bold"@,
            PenWeight::Heavy => "Heavy"@,
        }
    }

    /// The label on this weight's box.
    pub fn label(self) -> (label: &'static str)
        ensures
            label@ == self.label_text(),
    {
        match self {
            PenWeight::Fine => "Fine",
            PenWeight::Light => "Light",
            PenWeight::Normal => "Normal",
            PenWeight::Bold => "Bold",
            PenWeight::Heavy => "Heavy",
        }
    }

    /// The weight a label names: the toolbar's chooser carries a choice back as the text that was
    /// showing in it.
    pub fn from_label(label: &str) -> (weight: Option<PenWeight>)
        ensures
            match weight {
                Some(weight) => weight.label_text() == label@,
                None => forall|weight: PenWeight| #[trigger] weight.label_text() != label@,
            },
    {
        if same_text(label, "Fine") {
            Some(PenWeight::Fine)
        } else if same_text(label, "Light") {
            Some(PenWeight::Light)
        } else if same_text(label, "Normal") {
            Some(PenWeight::Normal)
        } else if same_text(label, "Bold") {
            Some(PenWeight::Bold)
        } else if same_text(label, "Heavy") {
            Some(PenWeight::Heavy)
        } else {
            None
        }
    }

    /// What this weight multiplies every width by, in quarters.
    pub open spec fn quarters(self) -> int {
        match self {
            PenWeight::Fine => 2,
            PenWeight::Light => 3,
            PenWeight::Normal => 4,
            PenWeight::Bold => 6,
            PenWeight::Heavy => 9,
        }
    }

    /// What this weight multiplies every width by, in quarters.
    ///
    /// The spread is deliberately wide — a factor of four and a half from the lightest to the
    /// heaviest — because a marker and a fine pen are two different tools, and the range has to
    /// reach both.
    pub fn scale(self) -> (quarters: u32)
        ensures
            quarters == self.quarters(),
    {
        match self {
            PenWeight::Fine => 2,
            PenWeight::Light => 3,
            PenWeight::Normal => 4,
            PenWeight::Bold => 6,
            PenWeight::Heavy => 9,
        }
    }
}

/// A label leads back to its weight: no two weights share one.
pub proof fn a_label_leads_back_to_its_weight(weight: PenWeight, other: PenWeight)
    requires
        weight.label_text() == other.label_text(),
    ensures
        weight == other,
{
    reveal_strlit("Fine");
    reveal_strlit("Light");
    reveal_strlit("Normal");
    reveal_strlit("Bold");
    reveal_strlit("Heavy");
    assert("Fine"@[0] == 'F' && "Bold"@[0] == 'B');
    assert("Light"@[0] == 'L' && "Heavy"@[0] == 'H');
}

/// A weight cannot invert how a line answers pressure: of two widths the wider stays the wider.
pub proof fn a_weight_keeps_the_order_of_widths(weight: PenWeight, light: int, heavy: int)
    requires
        light < heavy,
    ensures
        light * weight.quarters() < heavy * weight.quarters(),
{
    let quarters = weight.quarters();
    assert(light * quarters < heavy * quarters) by (nonlinear_arith)
        requires
            light < heavy,
            quarters > 0,
    ;
}

/// The shipped pen draws the tuning's own widths; the lighter pens draw thinner and the bolder ones wider,
/// from half as wide to more than twice, in the order they are offered.
pub proof fn a_heavier_pen_draws_wider()
    ensures
        PenWeight::Normal.quarters() == 4,
        2 * PenWeight::Fine.quarters() == PenWeight::Normal.quarters(),
        PenWeight::Fine.quarters() < PenWeight::Light.quarters() < PenWeight::Normal.quarters()
            < PenWeight::Bold.quarters() < PenWeight::Heavy.quarters(),
        4 * PenWeight::Light.quarters() == 3 * PenWeight::Normal.quarters(),
        2 * PenWeight::Bold.quarters() == 3 * PenWeight::Normal.quarters(),
        4 * PenWeight::Heavy.quarters() == 9 * PenWeight::Normal.quarters(),
{
}

/// A weight's box says what the weight is called.
pub proof fn a_weight_is_called_by_its_name()
    ensures
        PenWeight::Fine.label_text() == "Fine"@,
        PenWeight::Light.label_text() == "Light"@,
        PenWeight::Normal.label_text() == "Normal"@,
        PenWeight::Bold.label_text() == "Bold"@,
        PenWeight::Heavy.label_text() == "Heavy"@,
{
}

} // verus!
