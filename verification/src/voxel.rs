use vstd::prelude::*;

verus! {

/// The material of one cell of the world grid.
#[derive(Clone, Copy, Debug, PartialEq, Eq, Structural)]
pub enum Voxel {
    Air,
    Sandstone,
    Cactus,
    DeadWood,
}

} // verus!
