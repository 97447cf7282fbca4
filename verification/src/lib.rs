//! Verified core of a minimal real-time rendering loop.
//!
//! The library owns the frame orchestration bookkeeping — swap-chain image
//! acquisition outcomes, command submission records, in-flight resource
//! lifetime tracking — together with the camera displacement logic, the
//! keyboard/window state, and the frames-per-second clock. The platform
//! collaborators (window, device, queue, swap chain) live outside the
//! library and feed it plain values each tick.

pub mod camera;
pub mod fps_counter;
pub mod renderer;
pub mod window_state;
