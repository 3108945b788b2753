//! Sizing of the compute dispatch that covers the screen texture with square
//! workgroups.

use vstd::prelude::*;

verus! {

/// Edge length, in pixels, of one compute workgroup.
pub const WORKGROUP_SIZE: u32 = 8;

/// The number of workgroups along an axis of `extent` pixels: `extent`
/// divided by the workgroup size, rounded up.
pub open spec fn workgroups_covering(extent: int) -> int {
    (extent + WORKGROUP_SIZE - 1) / (WORKGROUP_SIZE as int)
}

/// Number of workgroups to dispatch along an axis of `extent` pixels: the
/// least number whose pixels cover the axis.
pub fn workgroup_count(extent: u32) -> (count: u32)
    ensures
        count == workgroups_covering(extent as int),
        count * WORKGROUP_SIZE >= extent,
        extent > 0 ==> (count - 1) * WORKGROUP_SIZE < extent,
        extent == 0 ==> count == 0,
{
    let whole: u32 = extent / WORKGROUP_SIZE;
    if extent % WORKGROUP_SIZE == 0 {
        whole
    } else {
        whole + 1
    }
}

/// Workgroups to dispatch in x, y and z for a texture of the given size, so
/// that every pixel belongs to one invocation.
pub fn dispatch_size(width: u32, height: u32) -> (groups: (u32, u32, u32))
    ensures
        groups.0 == workgroups_covering(width as int),
        groups.1 == workgroups_covering(height as int),
        groups.2 == 1,
{
    (workgroup_count(width), workgroup_count(height), 1)
}

/// Every pixel of the texture lies in a dispatched workgroup, and every
/// dispatched workgroup holds a pixel of the texture.
pub proof fn lemma_dispatch_covers(width: int, height: int, x: int, y: int)
    requires
        0 <= x < width,
        0 <= y < height,
    ensures
        0 <= x / (WORKGROUP_SIZE as int) < workgroups_covering(width),
        0 <= y / (WORKGROUP_SIZE as int) < workgroups_covering(height),
        (workgroups_covering(width) - 1) * WORKGROUP_SIZE < width,
        (workgroups_covering(height) - 1) * WORKGROUP_SIZE < height,
{
}

} // verus!
