use vstd::prelude::*;
use crate::image::{Image, ImageSize};

verus! {

/// How much room a control asks for along one axis: a fixed part, and a
/// share of what is left.
pub struct SizeConstraint {
    pub absolute: usize,
    pub relative: usize,
}

/// The room a control asks for: across, then down.
pub struct SizeConstraints(pub SizeConstraint, pub SizeConstraint);

/// What a control has to offer to be laid out and drawn.
pub trait GuiControl {
    /// The room that the control asks for.
    fn get_size(&self) -> SizeConstraints;

    /// Tells the control where it stands.
    fn set_position(&mut self, left_top: ImageSize, right_bottom: ImageSize);

    /// Draws the control.
    fn on_draw(&self, dst: &mut Image<u32>);
}

/// A control that holds other controls, named by their numbers.
pub struct Container {
    pub size_constraints: SizeConstraints,
    pub size: ImageSize,
    pub children: Vec<usize>,
}

} // verus!
