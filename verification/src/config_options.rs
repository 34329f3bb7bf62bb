//! Static configuration of the dispatcher and of each session.
use vstd::prelude::*;

verus! {

#[derive(Clone, Copy, Debug)]
pub struct ConfigOptions {
    pub session_exec: SessionExecConfig,
    pub session: SessionConfig,
}

#[derive(Clone, Copy, Debug)]
pub struct SessionExecConfig {
    pub max_sessions: usize,
    pub allow_multiple_inactive_sessions: bool,
    pub dummy_sessions: bool,
}

#[derive(Clone, Copy, Debug)]
pub struct SessionConfig {
    pub max_users: usize,
    pub max_username_len: usize,
}

} // verus!
