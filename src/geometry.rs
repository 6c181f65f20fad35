use vstd::prelude::*;

verus! {

/// Smallest height a part is laid out with.
pub const PART_HEIGHT_MIN: u32 = 40;

/// Horizontal inset of the inner edges of a multi-part block.
pub const MULTIPART_INDENT: u32 = 15;

/// Gap reserved under a part whose branch holds nothing.
pub const EMPTY_BRANCH_HEIGHT: u32 = 20;

/// Offset of the notch centre from a block's top-left corner.
pub const NOTCH_CENTER_X: i64 = 25;

pub const NOTCH_CENTER_Y: i64 = 10;

/// Attachment points closer than this snap together.
pub const SNAP_DISTANCE: i64 = 30;

/// A point on the canvas.
#[derive(Clone, Copy, Debug, PartialEq, Eq, Structural)]
pub struct Pos2 {
    pub x: i64,
    pub y: i64,
}

/// A displacement on the canvas.
#[derive(Clone, Copy, Debug, PartialEq, Eq, Structural)]
pub struct Vec2 {
    pub x: i64,
    pub y: i64,
}

/// An offset or extent inside a block, relative to its top-left corner.
#[derive(Clone, Copy, Debug, PartialEq, Eq, Structural)]
pub struct Offset {
    pub x: u32,
    pub y: u32,
}

/// `v` held inside the range of `i64`.
pub open spec fn clamp_i64(v: int) -> int {
    if v > i64::MAX {
        i64::MAX as int
    } else if v < i64::MIN {
        i64::MIN as int
    } else {
        v
    }
}

/// `v` held inside the range of `u32`.
pub open spec fn clamp_u32(v: int) -> int {
    if v > u32::MAX {
        u32::MAX as int
    } else {
        v
    }
}

/// Sum of two coordinates, held at the ends of the `i64` range.
pub fn add_clamped(a: i64, b: i64) -> (r: i64)
    ensures
        r == clamp_i64(a + b),
{
    let s: i128 = a as i128 + b as i128;
    if s > i64::MAX as i128 {
        i64::MAX
    } else if s < i64::MIN as i128 {
        i64::MIN
    } else {
        s as i64
    }
}

impl Pos2 {
    pub fn new(x: i64, y: i64) -> (r: Pos2)
        ensures
            r == (Pos2 { x, y }),
    {
        Pos2 { x, y }
    }

    pub open spec fn spec_translate(self, d: Vec2) -> Pos2 {
        Pos2 { x: clamp_i64(self.x + d.x) as i64, y: clamp_i64(self.y + d.y) as i64 }
    }

    /// This point moved by `d`.
    pub fn translate(&self, d: Vec2) -> (r: Pos2)
        ensures
            r == self.spec_translate(d),
    {
        Pos2 { x: add_clamped(self.x, d.x), y: add_clamped(self.y, d.y) }
    }
}

impl Vec2 {
    pub fn new(x: i64, y: i64) -> (r: Vec2)
        ensures
            r == (Vec2 { x, y }),
    {
        Vec2 { x, y }
    }
}

/// Squared distance between the top attachment point of a block at `dragged` and the
/// bottom attachment point of a block at `other` whose last part ends at `bottom`.
pub open spec fn attach_dist2(dragged: Pos2, other: Pos2, bottom: Offset) -> int {
    let ax = dragged.x + NOTCH_CENTER_X;
    let ay = dragged.y + NOTCH_CENTER_Y;
    let bx = other.x + bottom.x + NOTCH_CENTER_X;
    let by = other.y + bottom.y + NOTCH_CENTER_Y;
    (bx - ax) * (bx - ax) + (by - ay) * (by - ay)
}

/// Whether two attachment points are close enough to snap.
pub open spec fn in_snap_range(d2: int) -> bool {
    d2 < SNAP_DISTANCE * SNAP_DISTANCE
}

/// The squared attachment distance when it is within snapping range.
pub fn snap_distance2(dragged: Pos2, other: Pos2, bottom: Offset) -> (r: Option<u64>)
    ensures
        match r {
            Some(d2) => in_snap_range(attach_dist2(dragged, other, bottom)) && d2 == attach_dist2(
                dragged,
                other,
                bottom,
            ),
            None => !in_snap_range(attach_dist2(dragged, other, bottom)),
        },
{
    let ax: i128 = dragged.x as i128 + NOTCH_CENTER_X as i128;
    let ay: i128 = dragged.y as i128 + NOTCH_CENTER_Y as i128;
    let bx: i128 = other.x as i128 + bottom.x as i128 + NOTCH_CENTER_X as i128;
    let by: i128 = other.y as i128 + bottom.y as i128 + NOTCH_CENTER_Y as i128;
    let dx: i128 = bx - ax;
    let dy: i128 = by - ay;
    if dx <= -(SNAP_DISTANCE as i128) || dx >= SNAP_DISTANCE as i128 || dy <= -(
    SNAP_DISTANCE as i128) || dy >= SNAP_DISTANCE as i128 {
        proof {
            let sx = dx as int;
            let sy = dy as int;
            assert(sx * sx >= 0 && sy * sy >= 0) by (nonlinear_arith);
            if sx <= -30 || sx >= 30 {
                assert(sx * sx >= 900) by (nonlinear_arith)
                    requires
                        sx <= -30 || sx >= 30,
                ;
            } else {
                assert(sy * sy >= 900) by (nonlinear_arith)
                    requires
                        sy <= -30 || sy >= 30,
                ;
            }
        }
        return None;
    }
    assert(dx * dx < 900 && dy * dy < 900) by (nonlinear_arith)
        requires
            -30 < dx < 30,
            -30 < dy < 30,
    ;
    assert(dx * dx >= 0 && dy * dy >= 0) by (nonlinear_arith);
    let d2: i128 = dx * dx + dy * dy;
    if d2 < SNAP_DISTANCE as i128 * SNAP_DISTANCE as i128 {
        Some(d2 as u64)
    } else {
        None
    }
}

} // verus!
