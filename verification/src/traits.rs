use vstd::prelude::*;

use crate::drawable::DrawRef;
use crate::ids::{IntersectionID, Traversable, ID};
use crate::model::MapModel;

verus! {

/// The caller's visibility policy: whether an object is shown at all, and
/// whether turn-movement icons are preferred over literal agent rendering at
/// a given intersection.
pub trait ShowObjects {
    fn show(&self, id: ID) -> bool;

    fn show_icons_for(&self, id: IntersectionID) -> bool;
}

/// The simulation's view for one frame: the current tick, and the drawables
/// of the agents occupying a segment.
pub trait GetDrawAgents {
    fn tick(&self) -> u64;

    fn get_draw_cars(&self, on: Traversable, map: &MapModel) -> Vec<DrawRef>;

    fn get_draw_peds(&self, on: Traversable, map: &MapModel) -> Vec<DrawRef>;
}

/// The consumer a frame's draw sequence is streamed to, one object at a
/// time. Returning false aborts the stream: nothing further is delivered.
pub trait RenderCallback {
    fn draw_next(&mut self, obj: &DrawRef) -> bool;
}

} // verus!
