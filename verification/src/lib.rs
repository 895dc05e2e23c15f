//! Verified core of an orbital-mechanics sandbox: the time-warp ladder,
//! the game-mode state machine, the log ring buffer, the frame-space
//! sibling cache, the orbit propagation order, transfer routing and the
//! text helpers used by the menus and the editor.
pub mod clock;
pub mod game_state;
pub mod propagation;
pub mod broadphase;
pub mod log_capture;
pub mod text;
pub mod routing;
pub mod scene;
pub mod hierarchy;
pub mod names;
