use vstd::prelude::*;

use crate::geometry::Point3;
use crate::voxel::Voxel;
use crate::world::World;

verus! {

/// Whether a solid (non-air) cell of the world lies in the box of cells from `min` to
/// `max`, both corners included.
pub open spec fn box_occupied(world: World, min: Point3<i32>, max: Point3<i32>) -> bool {
    exists|x: int, y: int, z: int|
        min.x <= x <= max.x && min.y <= y <= max.y && min.z <= z <= max.z && #[trigger] world.block_at(
            x,
            y,
            z,
        ) != Voxel::Air
}

/// Whether a solid cell of `world` lies in the box of cells from `min` to `max`, both
/// corners included: the cell test of a body's collision check, once its bounds have
/// been rounded to cells.
pub fn is_colliding(world: &World, min: Point3<i32>, max: Point3<i32>) -> (r: bool)
    ensures
        r == box_occupied(*world, min, max),
{
    let mut x: i64 = min.x as i64;
    while x <= max.x as i64
        invariant
            min.x <= x,
            x <= max.x + 1 || x == min.x,
            forall|px: int, py: int, pz: int|
                min.x <= px < x && min.y <= py <= max.y && min.z <= pz <= max.z
                    ==> #[trigger] world.block_at(px, py, pz) == Voxel::Air,
        decreases max.x + 1 - x,
    {
        let mut y: i64 = min.y as i64;
        while y <= max.y as i64
            invariant
                min.x <= x <= max.x,
                min.y <= y,
                y <= max.y + 1 || y == min.y,
                forall|px: int, py: int, pz: int|
                    min.x <= px < x && min.y <= py <= max.y && min.z <= pz <= max.z
                        ==> #[trigger] world.block_at(px, py, pz) == Voxel::Air,
                forall|py: int, pz: int|
                    min.y <= py < y && min.z <= pz <= max.z ==> #[trigger] world.block_at(
                        x as int,
                        py,
                        pz,
                    ) == Voxel::Air,
            decreases max.y + 1 - y,
        {
            let mut z: i64 = min.z as i64;
            while z <= max.z as i64
                invariant
                    min.x <= x <= max.x,
                    min.y <= y <= max.y,
                    min.z <= z,
                    z <= max.z + 1 || z == min.z,
                    forall|px: int, py: int, pz: int|
                        min.x <= px < x && min.y <= py <= max.y && min.z <= pz <= max.z
                            ==> #[trigger] world.block_at(px, py, pz) == Voxel::Air,
                    forall|py: int, pz: int|
                        min.y <= py < y && min.z <= pz <= max.z ==> #[trigger] world.block_at(
                            x as int,
                            py,
                            pz,
                        ) == Voxel::Air,
                    forall|pz: int|
                        min.z <= pz < z ==> #[trigger] world.block_at(x as int, y as int, pz)
                            == Voxel::Air,
                decreases max.z + 1 - z,
            {
                if world.get_block_global(x as i32, y as i32, z as i32) != Voxel::Air {
                    assert(world.block_at(x as int, y as int, z as int) != Voxel::Air);
                    return true;
                }
                z += 1;
            }
            y += 1;
        }
        x += 1;
    }
    false
}

} // verus!
