//! Colours and axis scales handed to the plotting backend.

use vstd::prelude::*;

verus! {

#[verifier::external_type_specification]
pub struct ExColor(criterion_plot::Color);

#[verifier::external_type_specification]
pub struct ExScale(criterion_plot::Scale);

/// Number of colours in the comparison palette.
pub const NUM_COLORS: usize = 9;

/// The comparison palette, by position.
pub open spec fn palette(k: nat) -> criterion_plot::Color {
    if k == 0 { criterion_plot::Color::Rgb(178, 34, 34) }
    else if k == 1 { criterion_plot::Color::Rgb(46, 139, 87) }
    else if k == 2 { criterion_plot::Color::Rgb(0, 139, 139) }
    else if k == 3 { criterion_plot::Color::Rgb(255, 215, 0) }
    else if k == 4 { criterion_plot::Color::Rgb(0, 0, 139) }
    else if k == 5 { criterion_plot::Color::Rgb(220, 20, 60) }
    else if k == 6 { criterion_plot::Color::Rgb(139, 0, 139) }
    else if k == 7 { criterion_plot::Color::Rgb(0, 255, 127) }
    else { criterion_plot::Color::Rgb(0, 50, 255) }
}

/// The colour of the group at position `index`: the palette is used in
/// order and starts again after its last colour.
pub open spec fn group_color(index: nat) -> criterion_plot::Color {
    palette(index % (NUM_COLORS as nat))
}

/// Colour of the group at position `index` in a comparison plot.
pub fn color_for(index: usize) -> (r: criterion_plot::Color)
    ensures
        r == group_color(index as nat),
{
    let k = index % NUM_COLORS;
    if k == 0 { criterion_plot::Color::Rgb(178, 34, 34) }
    else if k == 1 { criterion_plot::Color::Rgb(46, 139, 87) }
    else if k == 2 { criterion_plot::Color::Rgb(0, 139, 139) }
    else if k == 3 { criterion_plot::Color::Rgb(255, 215, 0) }
    else if k == 4 { criterion_plot::Color::Rgb(0, 0, 139) }
    else if k == 5 { criterion_plot::Color::Rgb(220, 20, 60) }
    else if k == 6 { criterion_plot::Color::Rgb(139, 0, 139) }
    else if k == 7 { criterion_plot::Color::Rgb(0, 255, 127) }
    else { criterion_plot::Color::Rgb(0, 50, 255) }
}

/// Colours repeat with the palette's length: the group at `index + 9` has
/// the colour of the group at `index`.
pub proof fn lemma_color_cycle(index: nat)
    ensures
        group_color(index + NUM_COLORS as nat) == group_color(index),
{
    assert((index + 9) % 9 == index % 9) by (nonlinear_arith);
}

/// Positions below the palette's length have distinct colours.
pub proof fn lemma_colors_distinct(i: nat, j: nat)
    requires
        i < NUM_COLORS,
        j < NUM_COLORS,
        i != j,
    ensures
        group_color(i) != group_color(j),
{
}

/// Scale of a plot axis.
#[derive(Clone, Copy, Debug, PartialEq, Eq, Structural)]
pub enum AxisScale {
    Linear,
    Logarithmic,
}

impl AxisScale {
    /// The backend's scale for this axis scale.
    pub fn to_gnuplot(self) -> (r: criterion_plot::Scale)
        ensures
            self == AxisScale::Linear ==> r == criterion_plot::Scale::Linear,
            self == AxisScale::Logarithmic ==> r == criterion_plot::Scale::Logarithmic,
    {
        match self {
            AxisScale::Linear => criterion_plot::Scale::Linear,
            AxisScale::Logarithmic => criterion_plot::Scale::Logarithmic,
        }
    }
}

} // verus!
