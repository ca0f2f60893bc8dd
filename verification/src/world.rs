//! What the world tells the encoder about the targets of one viewer.

use vstd::prelude::*;

verus! {

/// The world as one viewer sees it during a tick, by the target's index.
/// A target beyond the end of a list stands at coordinate 0 and is out of
/// view.
pub struct WorldView {
    /// The packed coordinate of each target.
    pub coordinates: Vec<i32>,
    /// Whether the viewer can see each target.
    pub visible: Vec<bool>,
}

/// A `WorldView` as a value.
pub ghost struct World {
    pub coordinates: Seq<i32>,
    pub visible: Seq<bool>,
}

impl View for WorldView {
    type V = World;

    open spec fn view(&self) -> World {
        World { coordinates: self.coordinates@, visible: self.visible@ }
    }
}

impl World {
    /// The world that reports nothing: no target in view, all at
    /// coordinate 0.
    pub open spec fn quiet() -> World {
        World { coordinates: Seq::empty(), visible: Seq::empty() }
    }

    /// The packed coordinate at which a target stands.
    pub open spec fn coordinate(self, target: int) -> i32 {
        if 0 <= target < self.coordinates.len() {
            self.coordinates[target]
        } else {
            0
        }
    }

    /// Whether the viewer can see a target.
    pub open spec fn sees(self, target: int) -> bool {
        0 <= target < self.visible.len() && self.visible[target]
    }
}

impl WorldView {
    /// A world that reports nothing.
    pub fn new() -> (world: WorldView)
        ensures
            world@ == World::quiet(),
    {
        WorldView { coordinates: Vec::new(), visible: Vec::new() }
    }

    /// The packed coordinate at which a target stands.
    pub fn coordinate_of(&self, target: usize) -> (packed: i32)
        ensures
            packed == self@.coordinate(target as int),
    {
        if target < self.coordinates.len() {
            self.coordinates[target]
        } else {
            0
        }
    }

    /// Whether the viewer can see a target.
    pub fn can_view(&self, target: usize) -> (seen: bool)
        ensures
            seen == self@.sees(target as int),
    {
        target < self.visible.len() && self.visible[target]
    }
}

} // verus!
