use render_loop::camera::{
    Camera, Vec3Fx, FX_ONE, KEY_BACK, KEY_FORWARD, KEY_STRAFE_LEFT, KEY_STRAFE_RIGHT,
};
use render_loop::window_state::WindowState;

// The unit vectors the trigonometry derives at zero angles: direction is +Z,
// right is -X.
fn unit_z() -> Vec3Fx {
    Vec3Fx::new(0, 0, FX_ONE)
}

fn unit_neg_x() -> Vec3Fx {
    Vec3Fx::new(-FX_ONE, 0, 0)
}

#[test]
fn camera_starts_one_unit_behind_origin_at_zero_angles() {
    let c = Camera::new();
    assert_eq!(c.get_pos(), Vec3Fx::new(0, 0, -FX_ONE));
    assert_eq!(c.get_h_angle(), 0);
    assert_eq!(c.get_v_angle(), 0);
}

// With no key pressed the position never moves, whatever the elapsed time.
#[test]
fn idle_update_leaves_position_unchanged() {
    let mut c = Camera::new();
    let ws = WindowState::new(800, 600);
    for elapsed in [0u64, 1, 1_000_000, u64::MAX] {
        c.update(&ws, elapsed, unit_z(), unit_neg_x());
        assert_eq!(c.get_pos(), Vec3Fx::new(0, 0, -FX_ONE));
    }
}

// One second of forward movement at zero angles displaces the position by
// exactly ten units along +Z (speed 10, direction +Z).
#[test]
fn one_second_forward_advances_ten_units() {
    let mut c = Camera::new();
    let mut ws = WindowState::new(800, 600);
    ws.switch(KEY_FORWARD, true);
    c.update(&ws, FX_ONE as u64, unit_z(), unit_neg_x());
    assert_eq!(c.get_pos(), Vec3Fx::new(0, 0, 9 * FX_ONE));
}

#[test]
fn back_key_retreats_ten_units_per_second() {
    let mut c = Camera::new();
    let mut ws = WindowState::new(800, 600);
    ws.switch(KEY_BACK, true);
    c.update(&ws, FX_ONE as u64, unit_z(), unit_neg_x());
    assert_eq!(c.get_pos(), Vec3Fx::new(0, 0, -11 * FX_ONE));
}

#[test]
fn strafe_keys_move_along_the_right_vector() {
    let mut left = Camera::new();
    let mut ws = WindowState::new(800, 600);
    ws.switch(KEY_STRAFE_LEFT, true);
    left.update(&ws, FX_ONE as u64, unit_z(), unit_neg_x());
    assert_eq!(left.get_pos(), Vec3Fx::new(-10 * FX_ONE, 0, -FX_ONE));

    let mut right = Camera::new();
    ws.switch(KEY_STRAFE_LEFT, false);
    ws.switch(KEY_STRAFE_RIGHT, true);
    right.update(&ws, FX_ONE as u64, unit_z(), unit_neg_x());
    assert_eq!(right.get_pos(), Vec3Fx::new(10 * FX_ONE, 0, -FX_ONE));
}

#[test]
fn opposed_keys_cancel_out() {
    let mut c = Camera::new();
    let mut ws = WindowState::new(800, 600);
    ws.switch(KEY_FORWARD, true);
    ws.switch(KEY_BACK, true);
    c.update(&ws, FX_ONE as u64, unit_z(), unit_neg_x());
    assert_eq!(c.get_pos(), Vec3Fx::new(0, 0, -FX_ONE));
}

#[test]
fn half_second_moves_five_units() {
    let mut c = Camera::new();
    let mut ws = WindowState::new(800, 600);
    ws.switch(KEY_FORWARD, true);
    c.update(&ws, (FX_ONE as u64) / 2, unit_z(), unit_neg_x());
    assert_eq!(c.get_pos(), Vec3Fx::new(0, 0, 4 * FX_ONE));
}

// A step too large for the fixed-point range saturates at the machine bound
// instead of wrapping.
#[test]
fn movement_saturates_at_the_position_bounds() {
    let mut c = Camera::new();
    let mut ws = WindowState::new(800, 600);
    ws.switch(KEY_FORWARD, true);
    c.update(&ws, u64::MAX, unit_z(), unit_neg_x());
    let pos = c.get_pos();
    assert_eq!(pos.x, 0);
    assert_eq!(pos.y, 0);
    assert_eq!(pos.z, i64::MAX);
}

#[test]
fn a_key_never_set_is_not_down() {
    let ws = WindowState::new(640, 480);
    assert!(!ws.is_down(KEY_FORWARD));
    assert!(!ws.is_down(0));
    assert!(!ws.is_down(u32::MAX));
}

#[test]
fn switch_records_the_latest_state_per_key() {
    let mut ws = WindowState::new(640, 480);
    ws.switch(KEY_FORWARD, true);
    assert!(ws.is_down(KEY_FORWARD));
    assert!(!ws.is_down(KEY_BACK));
    ws.switch(KEY_FORWARD, false);
    assert!(!ws.is_down(KEY_FORWARD));
}

// 1920 / 1080 in millionths: about 1.7778.
#[test]
fn aspect_of_full_hd_window() {
    let ws = WindowState::new(1920, 1080);
    assert_eq!(ws.get_aspect(), Some(1_777_777));
}

// A zero-height window reports no aspect instead of dividing by zero.
#[test]
fn zero_height_window_has_no_aspect() {
    let mut ws = WindowState::new(1024, 768);
    ws.update_size(1024, 0);
    assert_eq!(ws.get_aspect(), None);
}

#[test]
fn aspect_of_the_largest_window() {
    let ws = WindowState::new(u32::MAX, 1);
    assert_eq!(ws.get_aspect(), Some(u32::MAX as u64 * 1_000_000));
}

#[test]
fn geometry_updates_are_recorded() {
    let mut ws = WindowState::new(1920, 1080);
    assert_eq!(ws.get_window_size(), (1920, 1080));
    assert_eq!(ws.get_mouse_pos(), (960, 540));
    ws.update_size(800, 600);
    assert_eq!(ws.get_window_size(), (800, 600));
    assert_eq!(ws.get_aspect(), Some(1_333_333));
    ws.update_mouse(-5, 17);
    assert_eq!(ws.get_mouse_pos(), (-5, 17));
}
