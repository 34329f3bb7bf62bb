//! Session-orchestration core for a multiplayer endless-runner game.
//!
//! All lengths, velocities and accelerations are fixed-point integers in
//! milli-units (1000 units per metre, per metre/second, ...), and all times
//! are integer milliseconds.  The caller supplies the current time to every
//! operation that needs one; the core itself performs no I/O.
pub mod config_options;
pub mod map_generator;
pub mod math;
pub mod obstacles;
pub mod rng;
pub mod session;
pub mod session_exec;
pub mod sessions_manager;
pub mod timer;
pub mod validator;
