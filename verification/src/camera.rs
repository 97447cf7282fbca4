//! Camera state and movement.
//!
//! Positions, directions and elapsed time are fixed-point values in
//! millionths ([`FX_ONE`] is one unit or one second), so the displacement
//! arithmetic is exact and verified. The trigonometric derivation of the
//! direction and right vectors from the camera angles is floating-point work
//! that lives with the caller; `update` takes those unit vectors as plain
//! fixed-point values and applies the movement keys to the position.

use crate::window_state::{key_is_down, WindowState};
use vstd::prelude::*;

verus! {

/// One unit (or one second) in fixed-point millionths.
pub const FX_ONE: i64 = 1_000_000;

/// Movement speed in units per second.
pub const MOVE_SPEED: i64 = 10;

/// Key codes of the four movement keys (movement is the camera's only
/// keyboard input).
pub const KEY_FORWARD: u32 = 87;

pub const KEY_BACK: u32 = 83;

pub const KEY_STRAFE_LEFT: u32 = 65;

pub const KEY_STRAFE_RIGHT: u32 = 68;

/// A fixed-point vector: each component counts millionths of a unit.
#[derive(Clone, Copy, Debug, PartialEq, Eq, Structural)]
pub struct Vec3Fx {
    pub x: i64,
    pub y: i64,
    pub z: i64,
}

/// Mathematical value of a fixed-point vector.
pub ghost struct Vec3Model {
    pub x: int,
    pub y: int,
    pub z: int,
}

impl View for Vec3Fx {
    type V = Vec3Model;

    open spec fn view(&self) -> Vec3Model {
        Vec3Model { x: self.x as int, y: self.y as int, z: self.z as int }
    }
}

impl Vec3Fx {
    pub fn new(x: i64, y: i64, z: i64) -> (v: Self)
        ensures
            v@ == (Vec3Model { x: x as int, y: y as int, z: z as int }),
    {
        Vec3Fx { x, y, z }
    }
}

pub open spec fn neg_vec(v: Vec3Model) -> Vec3Model {
    Vec3Model { x: -v.x, y: -v.y, z: -v.z }
}

/// A direction handed to the camera is a unit vector, so each fixed-point
/// component lies within one unit of zero.
pub open spec fn unit_bounded(v: Vec3Model) -> bool {
    &&& -FX_ONE <= v.x <= FX_ONE
    &&& -FX_ONE <= v.y <= FX_ONE
    &&& -FX_ONE <= v.z <= FX_ONE
}

pub open spec fn in_i64_range(v: Vec3Model) -> bool {
    &&& i64::MIN <= v.x <= i64::MAX
    &&& i64::MIN <= v.y <= i64::MAX
    &&& i64::MIN <= v.z <= i64::MAX
}

/// Length of one movement step along a non-negative component `c` over
/// `t` fixed-point seconds: `c` scaled by the speed and the elapsed time.
pub open spec fn step_len(c: int, t: int) -> int
    recommends
        0 <= c,
        0 <= t,
{
    c * MOVE_SPEED * t / (FX_ONE as int)
}

/// Signed movement step along a component.
pub open spec fn axis_step(c: int, t: int) -> int
    recommends
        0 <= t,
{
    if c >= 0 {
        step_len(c, t)
    } else {
        -step_len(-c, t)
    }
}

/// Positions saturate at the machine bounds instead of wrapping.
pub open spec fn clamp_i64(v: int) -> int {
    if v < i64::MIN {
        i64::MIN as int
    } else if v > i64::MAX {
        i64::MAX as int
    } else {
        v
    }
}

/// One position component after moving along `c` for `t` fixed-point seconds.
pub open spec fn moved(p: int, c: int, t: int) -> int
    recommends
        0 <= t,
{
    clamp_i64(p + axis_step(c, t))
}

/// The position after one movement step along the vector `c`.
pub open spec fn moved_vec(p: Vec3Model, c: Vec3Model, t: int) -> Vec3Model
    recommends
        0 <= t,
{
    Vec3Model { x: moved(p.x, c.x, t), y: moved(p.y, c.y, t), z: moved(p.z, c.z, t) }
}

/// The camera position after one update: each pressed movement key displaces
/// the position along the matching vector, in the fixed order forward, back,
/// strafe-left, strafe-right.
pub open spec fn camera_moved(
    p: Vec3Model,
    dir: Vec3Model,
    right: Vec3Model,
    forward_down: bool,
    back_down: bool,
    left_down: bool,
    right_down: bool,
    t: int,
) -> Vec3Model
    recommends
        0 <= t,
{
    let p1 = if forward_down {
        moved_vec(p, dir, t)
    } else {
        p
    };
    let p2 = if back_down {
        moved_vec(p1, neg_vec(dir), t)
    } else {
        p1
    };
    let p3 = if left_down {
        moved_vec(p2, right, t)
    } else {
        p2
    };
    if right_down {
        moved_vec(p3, neg_vec(right), t)
    } else {
        p3
    }
}

/// `p + m` held within the `i64` range.
fn add_clamped(p: i64, m: u128) -> (r: i64)
    ensures
        r == clamp_i64(p as int + m as int),
{
    let headroom: u128 = ((i64::MAX as i128) - (p as i128)) as u128;
    if m > headroom {
        i64::MAX
    } else {
        ((p as i128) + (m as i128)) as i64
    }
}

/// `p - m` held within the `i64` range.
fn sub_clamped(p: i64, m: u128) -> (r: i64)
    ensures
        r == clamp_i64(p as int - m as int),
{
    let headroom: u128 = ((p as i128) - (i64::MIN as i128)) as u128;
    if m > headroom {
        i64::MIN
    } else {
        ((p as i128) - (m as i128)) as i64
    }
}

/// One position component moved along `c` for `t` fixed-point seconds.
fn apply_axis(p: i64, c: i64, t: u64) -> (r: i64)
    requires
        -FX_ONE <= c <= FX_ONE,
    ensures
        r == moved(p as int, c as int, t as int),
{
    let mag: u64 = if c >= 0 {
        c as u64
    } else {
        (-c) as u64
    };
    proof {
        assert((mag as int) * 10 * (t as int) <= 10_000_000 * (u64::MAX as int)) by (nonlinear_arith)
            requires
                mag <= 1_000_000,
                t <= u64::MAX,
        ;
    }
    let scaled: u128 = (mag as u128) * (MOVE_SPEED as u128) * (t as u128) / (FX_ONE as u128);
    proof {
        assert(scaled == step_len(mag as int, t as int));
    }
    if c >= 0 {
        add_clamped(p, scaled)
    } else {
        sub_clamped(p, scaled)
    }
}

/// The whole position moved along `c` for `t` fixed-point seconds.
fn step_vec(p: Vec3Fx, c: Vec3Fx, t: u64) -> (r: Vec3Fx)
    requires
        unit_bounded(c@),
    ensures
        r@ == moved_vec(p@, c@, t as int),
{
    Vec3Fx { x: apply_axis(p.x, c.x, t), y: apply_axis(p.y, c.y, t), z: apply_axis(p.z, c.z, t) }
}

fn negated(v: Vec3Fx) -> (r: Vec3Fx)
    requires
        unit_bounded(v@),
    ensures
        r@ == neg_vec(v@),
        unit_bounded(r@),
{
    Vec3Fx { x: -v.x, y: -v.y, z: -v.z }
}

/// Mathematical state of the camera: two orientation angles in millionths of
/// a radian and a fixed-point position.
pub ghost struct CameraModel {
    pub h_angle: int,
    pub v_angle: int,
    pub pos: Vec3Model,
}

/// Orientation angles and position. The view matrix and the direction, right
/// and up vectors are pure functions of this state, recomputed (from the
/// angles, by the caller's trigonometry) every call and never cached.
pub struct Camera {
    h_angle: i64,
    v_angle: i64,
    pos: Vec3Fx,
}

impl View for Camera {
    type V = CameraModel;

    closed spec fn view(&self) -> CameraModel {
        CameraModel { h_angle: self.h_angle as int, v_angle: self.v_angle as int, pos: self.pos@ }
    }
}

impl Camera {
    /// A camera at zero angles, one unit behind the origin.
    pub fn new() -> (c: Self)
        ensures
            c@.h_angle == 0,
            c@.v_angle == 0,
            c@.pos == (Vec3Model { x: 0, y: 0, z: -FX_ONE as int }),
    {
        Camera { h_angle: 0, v_angle: 0, pos: Vec3Fx { x: 0, y: 0, z: -FX_ONE } }
    }

    /// One update: for each pressed movement key, displace the position along
    /// the matching unit vector, scaled by the fixed speed and the elapsed
    /// fixed-point seconds. The angles never change here, and nothing clamps
    /// the position short of the machine bounds: unconstrained movement is
    /// intended.
    ///
    /// `direction` and `right` are the unit vectors the caller derived from
    /// this camera's angles.
    pub fn update(&mut self, state: &WindowState, elapsed_fx: u64, direction: Vec3Fx, right: Vec3Fx)
        requires
            unit_bounded(direction@),
            unit_bounded(right@),
        ensures
            final(self)@.pos == camera_moved(
                old(self)@.pos,
                direction@,
                right@,
                key_is_down(state.keys(), KEY_FORWARD),
                key_is_down(state.keys(), KEY_BACK),
                key_is_down(state.keys(), KEY_STRAFE_LEFT),
                key_is_down(state.keys(), KEY_STRAFE_RIGHT),
                elapsed_fx as int,
            ),
            final(self)@.h_angle == old(self)@.h_angle,
            final(self)@.v_angle == old(self)@.v_angle,
    {
        if state.is_down(KEY_FORWARD) {
            self.pos = step_vec(self.pos, direction, elapsed_fx);
        }
        if state.is_down(KEY_BACK) {
            self.pos = step_vec(self.pos, negated(direction), elapsed_fx);
        }
        if state.is_down(KEY_STRAFE_LEFT) {
            self.pos = step_vec(self.pos, right, elapsed_fx);
        }
        if state.is_down(KEY_STRAFE_RIGHT) {
            self.pos = step_vec(self.pos, negated(right), elapsed_fx);
        }
    }

    pub fn get_pos(&self) -> (p: Vec3Fx)
        ensures
            p@ == self@.pos,
    {
        self.pos
    }

    pub fn get_h_angle(&self) -> (a: i64)
        ensures
            a == self@.h_angle,
    {
        self.h_angle
    }

    pub fn get_v_angle(&self) -> (a: i64)
        ensures
            a == self@.v_angle,
    {
        self.v_angle
    }
}

/// Camera law: with no movement key pressed the position is unchanged, for
/// any elapsed time and any direction vectors.
pub proof fn lemma_idle_camera_holds_position(
    p: Vec3Model,
    dir: Vec3Model,
    right: Vec3Model,
    t: int,
)
    ensures
        camera_moved(p, dir, right, false, false, false, false, t) == p,
{
}

/// Camera law: with only the forward key pressed, one second of movement
/// along the unit `+Z` direction (the derived direction at zero angles)
/// displaces the position by exactly ten units — `MOVE_SPEED` — along `+Z`.
pub proof fn lemma_forward_second_advances_ten_units(p: Vec3Model, right: Vec3Model)
    requires
        in_i64_range(p),
        p.z + 10 * FX_ONE <= i64::MAX,
    ensures
        camera_moved(
            p,
            Vec3Model { x: 0, y: 0, z: FX_ONE as int },
            right,
            true,
            false,
            false,
            false,
            FX_ONE as int,
        ) == (Vec3Model { x: p.x, y: p.y, z: p.z + 10 * FX_ONE }),
{
    let dir = Vec3Model { x: 0, y: 0, z: FX_ONE as int };
    let t = FX_ONE as int;
    assert(step_len(0, t) == 0);
    assert(step_len(FX_ONE as int, t) == 10 * FX_ONE);
    assert(moved(p.x, 0, t) == p.x);
    assert(moved(p.y, 0, t) == p.y);
    assert(moved(p.z, FX_ONE as int, t) == p.z + 10 * FX_ONE);
}

} // verus!
