//! Per-match actor: the roster, the lifecycle state machine, the private
//! timer table and the session's network resources.
//!
//! Times are milliseconds; the caller passes the current time into every
//! operation that needs one.
use vstd::prelude::*;
use vstd::string::StrSliceExecFns;
use vstd::multiset::Multiset;
use crate::config_options::SessionConfig;
use crate::map_generator::GameMap;
use crate::session_exec::TxData;
use crate::session_exec::RxData;
use crate::session_exec::QueryType;
use crate::session_exec::QueryResponseType;
use crate::session_exec::TransmissionQueue;
use crate::sessions_manager::SessionState;
use crate::timer::Timer;
use crate::timer::TimerEntry;
use crate::timer::spec_index_of;
use crate::timer::due_actions;
use crate::sessions_manager::SessionNetworkResources;

verus! {

/// Horizontal acceleration of the player, milli-units per second squared.
pub const X_ACC: i64 = 300;

/// Initial horizontal velocity, milli-units per second.
pub const INITIAL_X_VEL: i64 = 8_000;

/// Gravity, milli-units per second squared.
pub const GRAVITY: i64 = -60_000;

/// Vertical launch velocity of a jump, milli-units per second.
pub const JUMP_VEL: i64 = 15_000;

/// Fixed countdown length before a game starts.
pub const COUNTDOWN_MS: u64 = 4_000;

/// Fixed upper bound on a running game.
pub const MAX_GAME_MS: u64 = 1_800_000;

/// Longest accepted waiting time before the game is force-started.
pub const MAX_WAIT_MS: u64 = 300_000;

/// Upper bound on the wall-clock times handed into the core.
pub const NOW_MAX: u64 = 4_000_000_000_000_000;

#[derive(Clone, Copy, Debug)]
pub enum SessionStatus {
    Uninit,
    Waiting { start_time: u64, timeout: u64, duration: u64 },
    Countdown { start: u64, duration: u64 },
    Active { start_time: u64, max_duration: u64 },
    Ended,
}

/// Position of a status along the one-way lifecycle
/// `Uninit -> Waiting -> Countdown -> Active -> Ended`.
pub open spec fn status_rank(s: SessionStatus) -> int {
    match s {
        SessionStatus::Uninit => 0,
        SessionStatus::Waiting { .. } => 1,
        SessionStatus::Countdown { .. } => 2,
        SessionStatus::Active { .. } => 3,
        SessionStatus::Ended => 4,
    }
}

/// Every timestamp a status carries was some caller's `now`, and every
/// duration is one the machine fixes.
pub open spec fn status_times_ok(s: SessionStatus) -> bool {
    match s {
        SessionStatus::Uninit => true,
        SessionStatus::Waiting { start_time, duration, .. } =>
            start_time <= NOW_MAX && duration <= MAX_WAIT_MS,
        SessionStatus::Countdown { start, duration } =>
            start <= NOW_MAX && duration == COUNTDOWN_MS,
        SessionStatus::Active { start_time, max_duration } =>
            start_time <= NOW_MAX && max_duration == MAX_GAME_MS,
        SessionStatus::Ended => true,
    }
}

#[derive(Clone, Copy, PartialEq, Eq, Structural, Debug)]
pub enum PlayerStatus {
    Connected,
    Disconnected,
}

pub struct PlayerData {
    pub id: u64,
    pub username: String,
    pub score: u64,
    pub addr: u64,
    pub status: PlayerStatus,
    pub curr_tick: u64,
}

impl PlayerData {
    pub fn new(id: u64, username: String, addr: u64) -> (p: PlayerData)
        ensures
            p == (PlayerData {
                id,
                username,
                score: 0,
                addr,
                status: PlayerStatus::Connected,
                curr_tick: 0,
            }),
    {
        PlayerData { id, username, score: 0, addr, status: PlayerStatus::Connected, curr_tick: 0 }
    }

    pub fn username(&self) -> (name: &String)
        ensures
            name == &self.username,
    {
        &self.username
    }

    pub fn disconnect(&mut self)
        ensures
            *final(self) == (PlayerData { status: PlayerStatus::Disconnected, ..*old(self) }),
    {
        self.status = PlayerStatus::Disconnected;
    }

    pub fn connect(&mut self)
        ensures
            *final(self) == (PlayerData { status: PlayerStatus::Connected, ..*old(self) }),
    {
        self.status = PlayerStatus::Connected;
    }
}

/// Move-only token standing for one connection's channel pair; the
/// transport layer holds the real endpoints under the same address.
/// Owning the token is owning the connection: it lives in exactly one of
/// the registry or one session's resource pool, and every operation that
/// fails hands it back.
pub struct PlayerChannel {
    pub addr: u64,
}

/// Everything a session timer can do when it fires.
#[derive(Clone, Copy, PartialEq, Eq, Structural, Debug)]
pub enum SessionAction {
    LaunchAndPregenerate,
    Activate,
}

/// Most timer ids a session ever allocates in each phase: the waiting
/// timer first, then the countdown timer.
pub open spec fn timer_budget(s: SessionStatus) -> int {
    match s {
        SessionStatus::Uninit => 0,
        SessionStatus::Waiting { .. } => 1,
        _ => 3,
    }
}

/// The game score after `elapsed_ms` of play: the distance run, in whole
/// units, under the game's fixed velocity model.
pub open spec fn spec_score(elapsed_ms: int) -> int {
    (INITIAL_X_VEL * elapsed_ms / 1_000 + X_ACC * elapsed_ms * elapsed_ms / 2_000_000) / 1_000
}

/// The score grows with the time played.
pub fn curr_score(elapsed_ms: u64) -> (score: u64)
    requires
        elapsed_ms <= MAX_GAME_MS,
    ensures
        score == spec_score(elapsed_ms as int),
{
    proof {
        let t = elapsed_ms as int;
        assert(0 <= INITIAL_X_VEL * t <= 8_000 * 1_800_000) by (nonlinear_arith)
            requires 0 <= t <= 1_800_000;
        assert(0 <= X_ACC * t <= 300 * 1_800_000) by (nonlinear_arith)
            requires 0 <= t <= 1_800_000;
        assert(0 <= X_ACC * t * t <= 300 * 1_800_000 * 1_800_000) by (nonlinear_arith)
            requires 0 <= t <= 1_800_000;
        vstd::arithmetic::div_mod::lemma_div_pos_is_pos(INITIAL_X_VEL * t, 1_000);
        vstd::arithmetic::div_mod::lemma_div_is_ordered(
            INITIAL_X_VEL * t, 8_000int * 1_800_000, 1_000);
        vstd::arithmetic::div_mod::lemma_div_pos_is_pos(X_ACC * t * t, 2_000_000);
        vstd::arithmetic::div_mod::lemma_div_is_ordered(
            X_ACC * t * t, 300int * 1_800_000 * 1_800_000, 2_000_000);
        vstd::arithmetic::div_mod::lemma_div_pos_is_pos(
            INITIAL_X_VEL * t / 1_000 + X_ACC * t * t / 2_000_000, 1_000);
    }
    let t = elapsed_ms as i64;
    ((INITIAL_X_VEL * t / 1_000 + X_ACC * t * t / 2_000_000) / 1_000) as u64
}

/// The waiting duration a session accepts: the requested seconds, capped
/// at five minutes, in milliseconds.
pub open spec fn spec_wait_ms(wait_time_s: u64) -> u64 {
    if wait_time_s >= 300 {
        MAX_WAIT_MS
    } else {
        (wait_time_s * 1_000) as u64
    }
}

/// The queue entry's recipients are exactly the session's channel
/// addresses, in table order (a session broadcast).
pub open spec fn sent_to_all(entry: (Vec<u64>, TxData), net: SessionNetworkResources) -> bool {
    &&& entry.0@.len() == net.channels.items@.len()
    &&& forall|k: int| 0 <= k < net.channels.items@.len()
        ==> entry.0@[k] == (#[trigger] net.channels.items@[k]).1.addr
}

/// Every player of the roster has reported a final (nonzero) score.
pub open spec fn all_scores_final(items: Seq<(u64, PlayerData)>) -> bool {
    forall|i: int| 0 <= i < items.len() ==> (#[trigger] items[i]).1.score > 0
}

/// The score a game-over at `now` fixes for a player of a game started at
/// `start`: the already-final score if nonzero, else the live score of
/// the capped elapsed time.
pub open spec fn final_score(p: PlayerData, start: u64, now: u64) -> u64 {
    if p.score > 0 {
        p.score
    } else {
        let elapsed: u64 = if now >= start { (now - start) as u64 } else { 0u64 };
        let capped: u64 = if elapsed > MAX_GAME_MS { MAX_GAME_MS } else { elapsed };
        spec_score(capped as int) as u64
    }
}

/// What launching from `Waiting` does: the waiting timer is cancelled and
/// a one-shot `Activate` timer is scheduled for `now + 4 s`; the status
/// moves to `Countdown { start: now, 4 s }`; the countdown start is
/// announced to every joined channel; nothing else of the state changes.
pub open spec fn launch_effect(pre: SessionState, post: SessionState,
                               tpre: Timer<SessionAction>, tpost: Timer<SessionAction>,
                               qpre: TransmissionQueue, qpost: TransmissionQueue,
                               now: u64) -> bool {
    &&& pre.status matches SessionStatus::Waiting { timeout, .. } && {
        let without = if spec_index_of(tpre.timers@, timeout) >= 0 {
            tpre.timers@.remove(spec_index_of(tpre.timers@, timeout))
        } else {
            tpre.timers@
        };
        tpost.timers@ == without.push(TimerEntry {
            id: tpre.next_id,
            fire_at: (now + COUNTDOWN_MS) as u64,
            action: SessionAction::Activate,
            repeating: false,
        })
    }
    &&& tpost.next_id == tpre.next_id + 1
    &&& post.status matches SessionStatus::Countdown { start, duration }
        && start == now && duration == COUNTDOWN_MS
    &&& post == (SessionState { status: post.status, ..pre })
    &&& qpost.queue@.len() == qpre.queue@.len() + 1
    &&& qpost.queue@.subrange(0, qpre.queue@.len() as int) == qpre.queue@
    &&& qpost.closable@ == qpre.closable@
    &&& qpost.queue@.last().1 == (TxData::GameCountdownStart {
        duration: (COUNTDOWN_MS / 1_000) as u32,
    })
    &&& sent_to_all(qpost.queue@.last(), pre.net)
}

pub struct Session {
    pub timers: Timer<SessionAction>,
}

impl Session {
    /// The timer table is well formed and its id counter within the
    /// phase's allocation budget.
    pub open spec fn wf(self, status: SessionStatus) -> bool {
        &&& self.timers.wf()
        &&& self.timers.next_id as int <= timer_budget(status)
    }

    /// Sets a fresh state up for this session.  The session id is chosen
    /// by the dispatcher that owns the table.
    pub fn new(state: &mut SessionState, session_name: String, config: SessionConfig,
               session_id: u64) -> (s: Session)
        requires
            old(state).wf(),
            config.max_users <= 1_000_000,
        ensures
            s.wf(final(state).status),
            final(state).wf(),
            final(state).session_name == session_name,
            final(state).config == config,
            final(state).session_id == session_id,
            final(state).status is Uninit,
            final(state).host_id == 0,
            final(state).player_data.items@.len() == 0,
            final(state).net.channels.items@.len() == 0,
            final(state).map@.len() == 0,
    {
        state.session_name = session_name;
        state.config = config;
        state.map = GameMap::new(INITIAL_X_VEL, X_ACC, GRAVITY, JUMP_VEL);
        state.session_id = session_id;
        state.status = SessionStatus::Uninit;
        state.host_id = 0;
        state.next_player_id = 1;
        state.player_data = crate::sessions_manager::Pool::new();
        state.net = crate::sessions_manager::SessionNetworkResources::new();
        Session { timers: Timer::new() }
    }

    /// Admits the creating player as host and enters `Waiting`, scheduling
    /// the one-shot timer that will force the launch after the waiting
    /// duration.  Rejected — the channel handed back untouched — exactly
    /// when the username exceeds the configured length limit.
    pub fn with_host(self, state: &mut SessionState, queue: &mut TransmissionQueue,
                     channel: PlayerChannel, username: String, addr: u64, wait_time: u64,
                     now: u64) -> (r: Result<Session, PlayerChannel>)
        requires
            old(state).wf(),
            old(state).status is Uninit,
            old(state).host_id == 0,
            old(state).player_data.items@.len() == 0,
            old(state).net.channels.items@.len() == 0,
            self.wf(old(state).status),
            now <= NOW_MAX,
        ensures
            r is Err <==> username@.len() > old(state).config.max_username_len,
            r matches Err(c) ==> c == channel && *final(state) == *old(state)
                && *final(queue) == *old(queue),
            r matches Ok(s) ==> {
                &&& final(state).wf()
                &&& s.wf(final(state).status)
                &&& s.timers.timers@ =~= seq![(TimerEntry {
                    id: self.timers.next_id,
                    fire_at: (now + spec_wait_ms(wait_time)) as u64,
                    action: SessionAction::LaunchAndPregenerate,
                    repeating: false,
                })]
                &&& s.timers.next_id == self.timers.next_id + 1
                &&& final(state).status matches SessionStatus::Waiting { start_time, duration, .. }
                    && start_time == now && duration == spec_wait_ms(wait_time)
                &&& final(state).host_id == old(state).next_player_id
                &&& final(state).player_data@ == old(state).player_data@.insert(
                    old(state).next_player_id,
                    PlayerData {
                        id: old(state).next_player_id,
                        username,
                        score: 0,
                        addr,
                        status: PlayerStatus::Connected,
                        curr_tick: 0,
                    })
                &&& final(state).net.channels@ == old(state).net.channels@.insert(
                    old(state).next_player_id, channel)
                &&& final(state).net.channels.items@
                    =~= seq![(old(state).next_player_id, channel)]
                &&& final(state).session_id == old(state).session_id
                &&& final(state).session_name == old(state).session_name
                &&& final(state).config == old(state).config
                &&& final(state).map == old(state).map
                &&& final(queue).queue@.len() == old(queue).queue@.len() + 2
                &&& final(queue).queue@[old(queue).queue@.len() as int].1
                    == (TxData::SessionCreationResponse {
                        creation_succeeded: true,
                        session_id: Some(old(state).session_id),
                    })
                &&& final(queue).queue@[old(queue).queue@.len() as int].0@ == seq![channel.addr]
                &&& final(queue).queue@.last().1 == (TxData::UserCreationResponse {
                    creation_succeeded: true,
                    user_id: Some(old(state).next_player_id),
                })
                &&& final(queue).queue@.last().0@ == seq![channel.addr]
                &&& final(queue).queue@.subrange(0, old(queue).queue@.len() as int)
                    == old(queue).queue@
            },
    {
        if username.as_str().unicode_len() > state.config.max_username_len {
            return Err(channel);
        }
        let mut s = self;
        let host_id = state.next_player_id;
        state.next_player_id = state.next_player_id + 1;
        state.host_id = host_id;
        let chan_addr = channel.addr;
        let pushed = state.player_data.push(
            host_id, PlayerData::new(host_id, username, addr));
        proof {
            assert(pushed);
        }
        queue.send_to_addr(chan_addr, TxData::SessionCreationResponse {
            creation_succeeded: true,
            session_id: Some(state.session_id),
        });
        let ghost q1 = queue.queue@;
        queue.send_to_addr(chan_addr, TxData::UserCreationResponse {
            creation_succeeded: true,
            user_id: Some(host_id),
        });
        let net_pushed = state.net.push_channel(host_id, channel);
        proof {
            assert(net_pushed);
            assert(final(queue).queue@.subrange(0, old(queue).queue@.len() as int)
                =~= old(queue).queue@);
        }
        let duration = if wait_time >= 300 { MAX_WAIT_MS } else { wait_time * 1_000 };
        proof {
            if s.timers.timers@.len() > 0 {
                assert(s.timers.timers@[0].id < s.timers.next_id);
            }
            assert(s.timers.timers@ =~= Seq::<TimerEntry<SessionAction>>::empty());
        }
        let tid = s.timers.set_timeout(now, duration, SessionAction::LaunchAndPregenerate);
        state.status = SessionStatus::Waiting { start_time: now, timeout: tid, duration };
        proof {
            lemma_single_player_wf(*state);
        }
        Ok(s)
    }

    /// Does this username already belong to a player of the session?
    pub fn username_exists(&self, state: &SessionState, username: &String) -> (taken: bool)
        ensures
            taken <==> state.username_taken(username@),
    {
        let items = state.player_data.items_ref();
        let mut i: usize = 0;
        while i < items.len()
            invariant
                i <= items@.len(),
                items == &state.player_data.items,
                forall|j: int| 0 <= j < i
                    ==> (#[trigger] state.player_data.items@[j]).1.username@ != username@,
            decreases items@.len() - i,
        {
            if eq_strings(items[i].1.username(), username) {
                proof {
                    assert((#[trigger] state.player_data.items@[i as int]).1.username@
                        == username@);
                }
                return true;
            }
            i = i + 1;
        }
        false
    }

    /// Admits a guest player.  Rejected exactly when a host exists and the
    /// session is no longer `Waiting`, the roster is full, the username is
    /// over the configured limit, or the username is already taken; a
    /// failed admission sends `creationSucceeded == false` (unless the
    /// session was simply not joinable) and hands the channel back.
    pub fn create_user(&mut self, state: &mut SessionState, queue: &mut TransmissionQueue,
                       addr: u64, channel: PlayerChannel, username: String, now: u64)
        -> (r: Result<(), PlayerChannel>)
        requires
            old(state).wf(),
            old(self).wf(old(state).status),
            now <= NOW_MAX,
        ensures
            final(state).wf(),
            final(self).wf(final(state).status),
            status_rank(final(state).status) >= status_rank(old(state).status),
            r is Err <==> {
                ||| old(state).host_id != 0 && !(old(state).status is Waiting)
                ||| old(state).player_data.items@.len() >= old(state).config.max_users
                ||| username@.len() > old(state).config.max_username_len
                ||| old(state).username_taken(username@)
            },
            r matches Err(c) ==> c == channel && *final(state) == *old(state) && *final(self) == *old(self),
            r is Err && old(state).host_id != 0 && !(old(state).status is Waiting)
                ==> *final(queue) == *old(queue),
            r is Err && !(old(state).host_id != 0 && !(old(state).status is Waiting)) ==> {
                &&& final(queue).queue@.len() == old(queue).queue@.len() + 1
                &&& final(queue).queue@.subrange(0, old(queue).queue@.len() as int)
                    == old(queue).queue@
                &&& final(queue).closable@ == old(queue).closable@
                &&& final(queue).queue@.last().1 == (TxData::UserCreationResponse {
                    creation_succeeded: false,
                    user_id: None,
                })
                &&& final(queue).queue@.last().0@ == seq![channel.addr]
            },
            r is Ok ==> {
                &&& final(state).player_data@ == old(state).player_data@.insert(
                    old(state).next_player_id,
                    PlayerData {
                        id: old(state).next_player_id,
                        username,
                        score: 0,
                        addr,
                        status: PlayerStatus::Connected,
                        curr_tick: 0,
                    })
                &&& final(state).player_data.items@.len() == old(state).player_data.items@.len() + 1
                &&& final(state).net.channels@ == old(state).net.channels@.insert(
                    old(state).next_player_id, channel)
                &&& final(state).net.channels.items@
                    == old(state).net.channels.items@.push(
                        (old(state).next_player_id, channel))
                &&& final(state).next_player_id == old(state).next_player_id + 1
                &&& (old(state).host_id != 0 ==> final(state).host_id == old(state).host_id
                    && final(state).status == old(state).status
                    && *final(self) == *old(self))
                &&& (old(state).host_id == 0 ==> final(state).host_id == old(state).next_player_id
                    && (final(state).status matches SessionStatus::Waiting { start_time, duration, .. }
                        && start_time == now && duration == MAX_WAIT_MS)
                    && final(self).timers.timers@ =~= seq![(TimerEntry {
                        id: old(self).timers.next_id,
                        fire_at: (now + MAX_WAIT_MS) as u64,
                        action: SessionAction::LaunchAndPregenerate,
                        repeating: false,
                    })]
                    && final(self).timers.next_id == old(self).timers.next_id + 1)
                &&& final(queue).queue@.len() == old(queue).queue@.len() + 1
                &&& final(queue).queue@.subrange(0, old(queue).queue@.len() as int)
                    == old(queue).queue@
                &&& final(queue).closable@ == old(queue).closable@
                &&& final(queue).queue@.last().1 == (TxData::UserCreationResponse {
                    creation_succeeded: true,
                    user_id: Some(old(state).next_player_id),
                })
                &&& final(queue).queue@.last().0@ == seq![channel.addr]
            },
            final(state).session_id == old(state).session_id,
            final(state).session_name == old(state).session_name,
            final(state).config == old(state).config,
            final(state).map == old(state).map,
    {
        if state.host_id != 0 {
            match state.status {
                SessionStatus::Waiting { .. } => {},
                _ => {
                    return Err(channel);
                },
            }
        }
        let over_capacity = state.player_data.len() >= state.config.max_users;
        let name_too_long = username.as_str().unicode_len() > state.config.max_username_len;
        let name_taken = self.username_exists(state, &username);
        if over_capacity || name_too_long || name_taken {
            queue.send_to_addr(channel.addr, TxData::UserCreationResponse {
                creation_succeeded: false,
                user_id: None,
            });
            return Err(channel);
        }
        let id = state.next_player_id;
        state.next_player_id = state.next_player_id + 1;
        if state.host_id == 0 {
            state.host_id = id;
            proof {
                if self.timers.timers@.len() > 0 {
                    assert(self.timers.timers@[0].id < self.timers.next_id);
                }
                assert(self.timers.timers@ =~= Seq::<TimerEntry<SessionAction>>::empty());
            }
            let tid = self.timers.set_timeout(now, MAX_WAIT_MS,
                SessionAction::LaunchAndPregenerate);
            state.status = SessionStatus::Waiting {
                start_time: now,
                timeout: tid,
                duration: MAX_WAIT_MS,
            };
        }
        let chan_addr = channel.addr;
        let ghost old_items = old(state).player_data.items@;
        proof {
            if old(state).player_data.spec_contains(id) {
                let j = choose|j: int| 0 <= j < old_items.len()
                    && (#[trigger] old_items[j]).0 == id;
                assert(old(state).player_data.items@[j].0 == id);
                assert(old(state).player_data.items@[j].0 < old(state).next_player_id);
            }
            if old(state).net.channels.spec_contains(id) {
                let j = choose|j: int| 0 <= j < old(state).net.channels.items@.len()
                    && (#[trigger] old(state).net.channels.items@[j]).0 == id;
                assert(old(state).net.channels.items@[j].0 < old(state).next_player_id);
            }
        }
        let pushed = state.player_data.push(id, PlayerData::new(id, username, addr));
        let net_pushed = state.net.push_channel(id, channel);
        proof {
            assert(pushed);
            assert(net_pushed);
        }
        queue.send_to_addr(chan_addr, TxData::UserCreationResponse {
            creation_succeeded: true,
            user_id: Some(id),
        });
        proof {
            assert forall|i: int| 0 <= i < state.net.channels.items@.len()
                implies (#[trigger] state.net.channels.items@[i]).0
                    < state.next_player_id by {
                if i < old(state).net.channels.items@.len() {
                    assert(state.net.channels.items@[i]
                        == old(state).net.channels.items@[i]);
                }
            }
            assert(state.player_data.items@.subrange(
                0, old(state).player_data.items@.len() as int)
                =~= old(state).player_data.items@);
            lemma_added_player_wf(*old(state), *state, id);
        }
        Ok(())
    }

    /// Re-binds a returning player's connection: replaces the stored
    /// address, swaps the resource-pool entry for the new channel, and
    /// confirms the login.  Rejected exactly when the user id is unknown
    /// to this session.
    pub fn login_user(&mut self, state: &mut SessionState, queue: &mut TransmissionQueue,
                      addr: u64, user_id: u64, channel: PlayerChannel)
        -> (r: Result<(), PlayerChannel>)
        requires
            old(state).wf(),
            old(self).wf(old(state).status),
        ensures
            final(state).wf(),
            final(self).wf(final(state).status),
            *final(self) == *old(self),
            final(state).status == old(state).status,
            r is Err <==> !old(state).player_data@.dom().contains(user_id),
            r matches Err(c) ==> c == channel && *final(state) == *old(state)
                && *final(queue) == *old(queue),
            r is Ok ==> {
                &&& final(state).player_data@ == old(state).player_data@.insert(
                    user_id,
                    PlayerData {
                        addr,
                        status: PlayerStatus::Connected,
                        ..old(state).player_data@[user_id]
                    })
                &&& final(state).net.channels@ == old(state).net.channels@.remove(user_id)
                    .insert(user_id, channel)
                &&& forall|j: int| 0 <= j < final(state).net.channels.items@.len()
                    ==> (#[trigger] final(state).net.channels.items@[j]).1.addr
                            == channel.addr
                        || exists|k: int| 0 <= k < old(state).net.channels.items@.len()
                            && (#[trigger] old(state).net.channels.items@[k]).1.addr
                                == final(state).net.channels.items@[j].1.addr
                &&& final(queue).queue@.len() == old(queue).queue@.len() + 1
                &&& final(queue).queue@.subrange(0, old(queue).queue@.len() as int)
                    == old(queue).queue@
                &&& final(queue).closable@ == old(queue).closable@
                &&& final(queue).queue@.last().1
                    == (TxData::LoginResponse { succeeded: true })
                &&& final(queue).queue@.last().0@ == seq![channel.addr]
            },
            final(state).session_id == old(state).session_id,
            final(state).session_name == old(state).session_name,
            final(state).config == old(state).config,
            final(state).map == old(state).map,
            final(state).host_id == old(state).host_id,
    {
        proof {
            crate::sessions_manager::lemma_seq_to_map(state.player_data.items@);
        }
        let found = state.player_data.get(user_id);
        let updated: PlayerData;
        match found {
            None => {
                return Err(channel);
            },
            Some(p) => {
                updated = PlayerData {
                    id: p.id,
                    username: p.username.clone(),
                    score: p.score,
                    addr,
                    status: PlayerStatus::Connected,
                    curr_tick: p.curr_tick,
                };
            },
        }
        let set_ok = state.player_data.set(user_id, updated);
        proof {
            assert(set_ok);
        }
        let popped = state.net.pop_channel(user_id);
        let ghost pre_net = old(state).net.channels.items@;
        let ghost mid_net = state.net.channels.items@;
        proof {
            crate::sessions_manager::lemma_seq_to_map(mid_net);
            crate::sessions_manager::lemma_seq_to_map(pre_net);
            if popped is Some {
                assert(!state.net.channels@.dom().contains(user_id));
                assert(!state.net.channels.spec_contains(user_id));
            }
        }
        let chan_addr = channel.addr;
        let net_pushed = state.net.push_channel(user_id, channel);
        proof {
            assert(net_pushed);
            if popped is None {
                assert(state.net.channels@ =~= old(state).net.channels@
                    .remove(user_id).insert(user_id, channel));
            }
            // the final channel keys are old keys, or the (known) user id
            let kidx = crate::sessions_manager::spec_key_index(pre_net, user_id);
            let pj = choose|j: int| 0 <= j < old(state).player_data.items@.len()
                && (#[trigger] old(state).player_data.items@[j]).0 == user_id;
            assert(user_id < state.next_player_id);
            assert forall|i: int| 0 <= i < state.net.channels.items@.len()
                implies (#[trigger] state.net.channels.items@[i]).0
                    < state.next_player_id by {
                if i < mid_net.len() {
                    assert(state.net.channels.items@[i] == mid_net[i]);
                    if popped is Some {
                        assert(0 <= kidx < pre_net.len());
                        assert(mid_net == pre_net.update(
                            kidx, pre_net.last()).drop_last());
                        if i == kidx {
                            assert(mid_net[i] == pre_net[pre_net.len() - 1]);
                        } else {
                            assert(mid_net[i] == pre_net[i]);
                        }
                    } else {
                        assert(mid_net[i] == pre_net[i]);
                    }
                } else {
                    assert(state.net.channels.items@[i].0 == user_id);
                }
            }
            let pres = old(state).player_data.items@;
            let pk = crate::sessions_manager::spec_key_index(pres, user_id);
            crate::sessions_manager::lemma_seq_to_map(pres);
            assert(pres[pk].1 == old(state).player_data@[user_id]);
            assert(state.player_data.items@ == pres.update(pk,
                (pres[pk].0, PlayerData {
                    username: pres[pk].1.username,
                    id: pres[pk].1.id,
                    ..state.player_data.items@[pk].1
                })));
            lemma_updated_player_wf(*old(state), *state, user_id);
        }
        queue.send_to_addr(chan_addr, TxData::LoginResponse { succeeded: true });
        Ok(())
    }

    /// Starts the countdown: a no-op unless the session is `Waiting`; on
    /// success cancels the waiting timer, notifies every joined player,
    /// and schedules the timer that will activate the game.
    pub fn launch_game(&mut self, state: &mut SessionState, queue: &mut TransmissionQueue,
                       now: u64)
        requires
            old(state).wf(),
            old(self).wf(old(state).status),
            now <= NOW_MAX,
        ensures
            final(state).wf(),
            final(self).wf(final(state).status),
            status_rank(final(state).status) >= status_rank(old(state).status),
            !(old(state).status is Waiting) ==> *final(state) == *old(state) && *final(self) == *old(self)
                && *final(queue) == *old(queue),
            old(state).status is Waiting ==> launch_effect(
                *old(state), *final(state), old(self).timers, final(self).timers,
                *old(queue), *final(queue), now),
            final(state).map == old(state).map,
            final(state).player_data@ == old(state).player_data@,
            final(state).net == old(state).net,
    {
        let timeout_id: u64;
        match state.status {
            SessionStatus::Waiting { timeout, .. } => {
                timeout_id = timeout;
            },
            _ => {
                return ;
            },
        }
        self.timers.remove(timeout_id);
        state.status = SessionStatus::Countdown { start: now, duration: COUNTDOWN_MS };
        let to = state.net.addrs();
        queue.send_to_many(to, TxData::GameCountdownStart {
            duration: (COUNTDOWN_MS / 1_000) as u32,
        });
        self.timers.set_timeout(now, COUNTDOWN_MS, SessionAction::Activate);
    }

    /// Authorization gate for an explicit launch: only the host may force
    /// the start; any other requester is dropped without a response.
    pub fn launch_game_req(&mut self, state: &mut SessionState, queue: &mut TransmissionQueue,
                           user_id: u64, now: u64)
        requires
            old(state).wf(),
            old(self).wf(old(state).status),
            now <= NOW_MAX,
        ensures
            final(state).wf(),
            final(self).wf(final(state).status),
            status_rank(final(state).status) >= status_rank(old(state).status),
            user_id != old(state).host_id ==> *final(state) == *old(state) && *final(self) == *old(self)
                && *final(queue) == *old(queue),
            user_id == old(state).host_id && old(state).status is Waiting
                ==> launch_effect(
                    *old(state), *final(state), old(self).timers, final(self).timers,
                    *old(queue), *final(queue), now),
            user_id == old(state).host_id && !(old(state).status is Waiting)
                ==> *final(state) == *old(state) && *final(self) == *old(self)
                    && *final(queue) == *old(queue),
            final(state).map == old(state).map,
            final(state).player_data@ == old(state).player_data@,
            final(state).session_id == old(state).session_id,
            final(state).session_name == old(state).session_name,
            final(state).config == old(state).config,
            final(state).host_id == old(state).host_id,
            final(state).net == old(state).net,
    {
        if user_id != state.host_id {
            return ;
        }
        self.launch_game(state, queue, now);
    }

    /// Answers a map page: the stations `index*100 ..= index*100+99`,
    /// generating the deficit first.  Pages beyond the course bound
    /// (10 000 stations — far past the reach of a maximum-length game,
    /// and the bound that keeps the generator's cursor arithmetic within
    /// `i64`) are protocol errors and are dropped without a response, as
    /// are requests from players without a channel.
    pub fn map_req(&mut self, state: &mut SessionState, queue: &mut TransmissionQueue,
                   player_id: u64, index: u32)
        requires
            old(state).wf(),
            old(self).wf(old(state).status),
        ensures
            final(state).wf(),
            final(self).wf(final(state).status),
            *final(self) == *old(self),
            final(state).status == old(state).status,
            final(state).map@.subrange(0, old(state).map@.len() as int) == old(state).map@,
            final(state).player_data@ == old(state).player_data@,
            final(state).session_id == old(state).session_id,
            final(state).session_name == old(state).session_name,
            final(state).config == old(state).config,
            final(state).host_id == old(state).host_id,
            index < 100 && old(state).net.channels@.dom().contains(player_id) ==> {
                &&& final(state).map@.len() >= (index + 1) * 100
                &&& final(queue).queue@.len() == old(queue).queue@.len() + 1
                &&& final(queue).queue@.last().1 matches TxData::MapData { map }
                    && map@.map_values(|st: crate::map_generator::MapStation| st@)
                        =~= final(state).map@.subrange(
                            index as int * 100, index as int * 100 + 100)
                &&& final(queue).queue@.last().0@
                    == seq![old(state).net.channels@[player_id].addr]
            },
            !(index < 100 && old(state).net.channels@.dom().contains(player_id))
                ==> *final(state) == *old(state) && *final(queue) == *old(queue),
            final(state).net == old(state).net,
    {
        if index >= 100 {
            return ;
        }
        let to_addr: u64;
        match state.net.tx(player_id) {
            None => {
                return ;
            },
            Some(a) => {
                to_addr = a;
            },
        }
        let from = (index as usize) * 100;
        let to = from + 99;
        let page = state.map.get_map(from, to);
        proof {
            assert(page@.map_values(|st: crate::map_generator::MapStation| st@)
                =~= state.map@.subrange(index as int * 100, index as int * 100 + 100));
        }
        queue.send_to_addr(to_addr, TxData::MapData { map: page });
    }

    /// Fans a position report out to every connected channel of the
    /// session, under the sender's next tick number; unknown senders are
    /// dropped.
    pub fn on_broadcast_req(&mut self, state: &mut SessionState,
                            queue: &mut TransmissionQueue, id: u64, pos_y: i64, pos_x: i64,
                            tick: u64)
        requires
            old(state).wf(),
            old(self).wf(old(state).status),
        ensures
            final(state).wf(),
            final(self).wf(final(state).status),
            *final(self) == *old(self),
            final(state).status == old(state).status,
            final(state).map == old(state).map,
            final(state).session_id == old(state).session_id,
            final(state).session_name == old(state).session_name,
            final(state).config == old(state).config,
            final(state).host_id == old(state).host_id,
            final(state).net == old(state).net,
            !old(state).player_data@.dom().contains(id)
                ==> *final(state) == *old(state) && *final(queue) == *old(queue),
            old(state).player_data@.dom().contains(id) ==> {
                &&& final(state).player_data@ == old(state).player_data@.insert(id, PlayerData {
                    curr_tick: tick_next(old(state).player_data@[id].curr_tick),
                    ..old(state).player_data@[id]
                })
                &&& final(queue).queue@.len() == old(queue).queue@.len() + 1
                &&& final(queue).queue@.subrange(0, old(queue).queue@.len() as int)
                    == old(queue).queue@
                &&& final(queue).closable@ == old(queue).closable@
                &&& final(queue).queue@.last().1 == (TxData::Broadcast {
                    username: old(state).player_data@[id].username,
                    pos_x,
                    pos_y,
                    tick: tick_next(old(state).player_data@[id].curr_tick),
                })
                &&& sent_to_all(final(queue).queue@.last(), old(state).net)
            },
    {
        proof {
            crate::sessions_manager::lemma_seq_to_map(state.player_data.items@);
        }
        let found = state.player_data.get(id);
        let updated: PlayerData;
        let username: String;
        let new_tick: u64;
        match found {
            None => {
                return ;
            },
            Some(p) => {
                new_tick = if p.curr_tick < u64::MAX { p.curr_tick + 1 } else { p.curr_tick };
                username = p.username.clone();
                updated = PlayerData {
                    id: p.id,
                    username: p.username.clone(),
                    score: p.score,
                    addr: p.addr,
                    status: p.status,
                    curr_tick: new_tick,
                };
            },
        }
        let set_ok = state.player_data.set(id, updated);
        proof {
            assert(set_ok);
            let pres = old(state).player_data.items@;
            let pk = crate::sessions_manager::spec_key_index(pres, id);
            crate::sessions_manager::lemma_seq_to_map(pres);
            assert(pres[pk].1 == old(state).player_data@[id]);
            assert(state.player_data.items@ == pres.update(pk,
                (pres[pk].0, PlayerData {
                    username: pres[pk].1.username,
                    id: pres[pk].1.id,
                    ..state.player_data.items@[pk].1
                })));
            lemma_updated_player_wf(*old(state), *state, id);
        }
        let to = state.net.addrs();
        queue.send_to_many(to, TxData::Broadcast {
            username,
            pos_x,
            pos_y,
            tick: new_tick,
        });
    }

    /// The roster's (username, score) pairs, sorted ascending by score: a
    /// player's finalized score when nonzero, else the live score of the
    /// running game (zero outside `Active`).
    pub fn get_leaderboard(&self, state: &SessionState, now: u64) -> (board: Vec<(String, u64)>)
        requires
            state.wf(),
            now <= NOW_MAX,
        ensures
            board@.len() == state.player_data.items@.len(),
            sorted_by_score(board@),
            board@.to_multiset() == leaderboard_entries(
                state.player_data.items@, live_score(state.status, now)).to_multiset(),
    {
        let live = match state.status {
            SessionStatus::Active { start_time, .. } => {
                let elapsed = if now >= start_time { now - start_time } else { 0 };
                let capped = if elapsed > MAX_GAME_MS { MAX_GAME_MS } else { elapsed };
                curr_score(capped)
            },
            _ => 0,
        };
        let items = state.player_data.items_ref();
        let mut board: Vec<(String, u64)> = Vec::new();
        let mut i: usize = 0;
        while i < items.len()
            invariant
                i <= items@.len(),
                items == &state.player_data.items,
                live == live_score(state.status, now),
                board@ =~= leaderboard_entries(items@.subrange(0, i as int), live),
            decreases items@.len() - i,
        {
            let p = &items[i].1;
            let score = if p.score > 0 { p.score } else { live };
            board.push((p.username.clone(), score));
            proof {
                assert(items@.subrange(0, i as int + 1).drop_last()
                    =~= items@.subrange(0, i as int));
            }
            i = i + 1;
        }
        proof {
            assert(items@.subrange(0, items@.len() as int) =~= items@);
        }
        sort_by_score(board)
    }

    /// The status tag and its per-variant time: seconds left of waiting or
    /// countdown, seconds elapsed of a running game, zero otherwise.
    pub fn get_status(&self, state: &SessionState, now: u64) -> (r: (&'static str, i64))
        requires
            state.wf(),
            now <= NOW_MAX,
        ensures
            r.1 == status_time(state.status, now),
            state.status is Waiting ==> r.0@ == "Waiting"@,
            state.status is Countdown ==> r.0@ == "Countdown"@,
            state.status is Active ==> r.0@ == "Active"@,
            state.status is Uninit ==> r.0@ == "Uninit"@,
            state.status is Ended ==> r.0@ == "Ended"@,
    {
        match state.status {
            SessionStatus::Waiting { start_time, duration, .. } => {
                let elapsed = if now >= start_time { now - start_time } else { 0 };
                ("Waiting", (duration / 1_000) as i64 - (elapsed / 1_000) as i64)
            },
            SessionStatus::Countdown { start, duration } => {
                let elapsed = if now >= start { now - start } else { 0 };
                ("Countdown", (duration / 1_000) as i64 - (elapsed / 1_000) as i64)
            },
            SessionStatus::Active { start_time, .. } => {
                let elapsed = if now >= start_time { now - start_time } else { 0 };
                ("Active", (elapsed / 1_000) as i64)
            },
            SessionStatus::Uninit => ("Uninit", 0),
            SessionStatus::Ended => ("Ended", 0),
        }
    }

    /// Finalizes a player's score at game over, reports it to the player
    /// and to the whole session, and ends the session once every player
    /// has finished.  Outside `Active`, or for unknown players, the
    /// request is dropped.
    pub fn on_game_over(&mut self, state: &mut SessionState, queue: &mut TransmissionQueue,
                        user_id: u64, now: u64)
        requires
            old(state).wf(),
            old(self).wf(old(state).status),
            now <= NOW_MAX,
        ensures
            final(state).wf(),
            final(self).wf(final(state).status),
            *final(self) == *old(self),
            status_rank(final(state).status) >= status_rank(old(state).status),
            final(state).map == old(state).map,
            final(state).session_id == old(state).session_id,
            final(state).session_name == old(state).session_name,
            final(state).config == old(state).config,
            final(state).host_id == old(state).host_id,
            final(state).net == old(state).net,
            !(old(state).status is Active) || !old(state).player_data@.dom().contains(user_id)
                ==> *final(state) == *old(state) && *final(queue) == *old(queue),
            old(state).status matches SessionStatus::Active { start_time, .. } ==> {
                old(state).player_data@.dom().contains(user_id) ==> {
                    let fscore = final_score(
                        old(state).player_data@[user_id], start_time, now);
                    &&& final(state).player_data@ == old(state).player_data@.insert(
                        user_id,
                        (PlayerData {
                            score: fscore,
                            ..old(state).player_data@[user_id]
                        }))
                    &&& final(state).status == (
                        if all_scores_final(final(state).player_data.items@) {
                            SessionStatus::Ended
                        } else {
                            old(state).status
                        })
                    &&& final(queue).queue@.subrange(0, old(queue).queue@.len() as int)
                        == old(queue).queue@
                    &&& final(queue).closable@ == old(queue).closable@
                    &&& final(queue).queue@.last().1 == (TxData::UserGameOverBroadcast {
                        username: old(state).player_data@[user_id].username,
                        score: fscore,
                    })
                    &&& sent_to_all(final(queue).queue@.last(), old(state).net)
                    &&& old(state).net.channels@.dom().contains(user_id) ==> {
                        &&& final(queue).queue@.len() == old(queue).queue@.len() + 2
                        &&& final(queue).queue@[old(queue).queue@.len() as int].1
                            == (TxData::UserGameOver { score: fscore, user_id })
                        &&& final(queue).queue@[old(queue).queue@.len() as int].0@
                            =~= seq![old(state).net.channels@[user_id].addr]
                    }
                    &&& !old(state).net.channels@.dom().contains(user_id)
                        ==> final(queue).queue@.len() == old(queue).queue@.len() + 1
                }
            },
    {
        let start: u64;
        match state.status {
            SessionStatus::Active { start_time, .. } => {
                start = start_time;
            },
            _ => {
                return ;
            },
        }
        proof {
            crate::sessions_manager::lemma_seq_to_map(state.player_data.items@);
        }
        let found = state.player_data.get(user_id);
        let updated: PlayerData;
        let username: String;
        let score: u64;
        match found {
            None => {
                return ;
            },
            Some(p) => {
                let elapsed = if now >= start { now - start } else { 0 };
                let capped = if elapsed > MAX_GAME_MS { MAX_GAME_MS } else { elapsed };
                score = if p.score > 0 { p.score } else { curr_score(capped) };
                username = p.username.clone();
                updated = PlayerData {
                    id: p.id,
                    username: p.username.clone(),
                    score,
                    addr: p.addr,
                    status: p.status,
                    curr_tick: p.curr_tick,
                };
            },
        }
        let set_ok = state.player_data.set(user_id, updated);
        proof {
            assert(set_ok);
            let pres = old(state).player_data.items@;
            let pk = crate::sessions_manager::spec_key_index(pres, user_id);
            crate::sessions_manager::lemma_seq_to_map(pres);
            assert(pres[pk].1 == old(state).player_data@[user_id]);
            assert(state.player_data.items@ == pres.update(pk,
                (pres[pk].0, PlayerData {
                    username: pres[pk].1.username,
                    id: pres[pk].1.id,
                    ..state.player_data.items@[pk].1
                })));
            lemma_updated_player_wf(*old(state), *state, user_id);
        }
        match state.net.tx(user_id) {
            Some(a) => {
                queue.send_to_addr(a, TxData::UserGameOver { score, user_id });
            },
            None => {},
        }
        let to = state.net.addrs();
        queue.send_to_many(to, TxData::UserGameOverBroadcast { username, score });
        if self.all_finished(state) {
            state.status = SessionStatus::Ended;
        }
    }

    /// Has every player reported a final (nonzero) score?
    fn all_finished(&self, state: &SessionState) -> (done: bool)
        ensures
            done <==> forall|i: int| 0 <= i < state.player_data.items@.len()
                ==> (#[trigger] state.player_data.items@[i]).1.score > 0,
    {
        let items = state.player_data.items_ref();
        let mut i: usize = 0;
        while i < items.len()
            invariant
                i <= items@.len(),
                items == &state.player_data.items,
                forall|j: int| 0 <= j < i
                    ==> (#[trigger] state.player_data.items@[j]).1.score > 0,
            decreases items@.len() - i,
        {
            if items[i].1.score == 0 {
                return false;
            }
            i = i + 1;
        }
        true
    }

    /// One tick of the session: fires due timers (forced launch and
    /// pre-generation, countdown expiry into `Active`) and ends a game
    /// that has exceeded its maximum duration.  Returns whether the
    /// session has just ended and may be removed.
    #[verifier::rlimit(100)]
    pub fn game_loop(&mut self, state: &mut SessionState, queue: &mut TransmissionQueue,
                     now: u64) -> (finished: bool)
        requires
            old(state).wf(),
            old(self).wf(old(state).status),
            now <= NOW_MAX,
        ensures
            final(state).wf(),
            final(self).wf(final(state).status),
            status_rank(final(state).status) >= status_rank(old(state).status),
            final(state).map@.subrange(0, old(state).map@.len() as int) == old(state).map@,
            finished ==> final(state).status is Ended,
            // the game is over exactly when an already-running game has
            // exceeded its maximum duration
            finished <==> (old(state).status matches SessionStatus::Active {
                start_time, max_duration } && now > start_time + max_duration),
            old(state).status is Uninit ==> final(state).status is Uninit,
            old(state).status is Waiting ==> !(final(state).status is Ended),
            old(state).status is Countdown ==> !(final(state).status is Ended),
            // a running game survives the tick unchanged until its
            // deadline passes, and ends then
            old(state).status matches SessionStatus::Active { start_time, max_duration }
                ==> {
                &&& (now > start_time + max_duration ==> final(state).status is Ended)
                &&& (now <= start_time + max_duration
                    ==> final(state).status == old(state).status)
            },
            // the forced launch: a due waiting timer moves a Waiting
            // session into the countdown, announces it, pre-extends the
            // course, and arms the activation timer
            old(state).status is Waiting && due_actions(old(self).timers.timers@, now)
                .contains(SessionAction::LaunchAndPregenerate) ==> {
                &&& final(state).status matches SessionStatus::Countdown { start, duration }
                    && start == now && duration == COUNTDOWN_MS
                &&& final(state).map@.len() >= 100
                &&& final(queue).queue@.len() == old(queue).queue@.len() + 1
                &&& final(queue).queue@[old(queue).queue@.len() as int].1
                    == (TxData::GameCountdownStart {
                        duration: (COUNTDOWN_MS / 1_000) as u32,
                    })
                &&& sent_to_all(final(queue).queue@[old(queue).queue@.len() as int],
                    old(state).net)
                &&& final(self).timers.timers@.len() >= 1
                &&& final(self).timers.timers@.last() == (TimerEntry {
                    id: old(self).timers.next_id,
                    fire_at: (now + COUNTDOWN_MS) as u64,
                    action: SessionAction::Activate,
                    repeating: false,
                })
            },
            // countdown expiry: a due activation timer starts the game and
            // announces it to every joined channel
            old(state).status is Countdown && due_actions(old(self).timers.timers@, now)
                .contains(SessionAction::Activate) ==> {
                &&& final(state).status matches SessionStatus::Active {
                    start_time, max_duration }
                    && start_time == now && max_duration == MAX_GAME_MS
                &&& exists|q: int| old(queue).queue@.len() <= q
                    < final(queue).queue@.len()
                    && (#[trigger] final(queue).queue@[q]).1 == TxData::GameStart
                    && sent_to_all(final(queue).queue@[q], old(state).net)
            },
            final(queue).queue@.len() >= old(queue).queue@.len(),
            final(queue).queue@.subrange(0, old(queue).queue@.len() as int)
                == old(queue).queue@,
            final(queue).closable@ == old(queue).closable@,
            final(state).session_id == old(state).session_id,
            final(state).config == old(state).config,
            final(state).net == old(state).net,
    {
        proof {
            if old(state).status is Uninit {
                // no timer was ever scheduled before the first player
                if self.timers.timers@.len() > 0 {
                    assert(self.timers.timers@[0].id < self.timers.next_id);
                }
            }
        }
        proof {
            if old(state).status is Waiting {
                // a waiting session has allocated at most one timer id, so
                // it holds at most one timer and at most one action fires
                if self.timers.timers@.len() >= 2 {
                    assert(self.timers.timers@[0].id < 1);
                    assert(self.timers.timers@[1].id < 1);
                    assert(self.timers.timers@[0].id != self.timers.timers@[1].id);
                }
                crate::timer::lemma_due_len(self.timers.timers@, now);
            }
        }
        let fired = self.timers.exec_timers(now);
        let ghost due0 = due_actions(old(self).timers.timers@, now);
        proof {
            if old(state).status is Waiting
                && due0.contains(SessionAction::LaunchAndPregenerate) {
                let k = choose|k: int| 0 <= k < due0.len()
                    && due0[k] == SessionAction::LaunchAndPregenerate;
                assert(due0 =~= seq![SessionAction::LaunchAndPregenerate]);
            }
        }
        let mut i: usize = 0;
        while i < fired.len()
            invariant
                state.wf(),
                self.wf(state.status),
                status_rank(state.status) >= status_rank(old(state).status),
                old(state).map@.len() <= state.map@.len(),
                state.map@.subrange(0, old(state).map@.len() as int) == old(state).map@,
                state.session_id == old(state).session_id,
                state.config == old(state).config,
                state.net == old(state).net,
                now <= NOW_MAX,
                fired@ == due0,
                i == 0 ==> self.timers.next_id == old(self).timers.next_id
                    && queue.queue@ == old(queue).queue@
                    && state.status == old(state).status
                    && state.map@ == old(state).map@,
                old(queue).queue@.len() <= queue.queue@.len(),
                queue.queue@.subrange(0, old(queue).queue@.len() as int)
                    == old(queue).queue@,
                queue.closable@ == old(queue).closable@,
                old(state).status is Uninit ==> state.status is Uninit,
                old(state).status is Waiting ==> !(state.status is Ended)
                    && (state.status matches SessionStatus::Active { start_time, .. }
                        ==> start_time == now),
                old(state).status is Active ==> state.status == old(state).status,
                !(old(state).status is Active) ==> (state.status matches
                    SessionStatus::Active { start_time, .. } ==> start_time == now),
                old(state).status is Waiting
                    && due0 =~= seq![SessionAction::LaunchAndPregenerate]
                    && i >= 1 ==> {
                    &&& state.status matches SessionStatus::Countdown { start, duration }
                        && start == now && duration == COUNTDOWN_MS
                    &&& state.map@.len() >= 100
                    &&& queue.queue@.len() == old(queue).queue@.len() + 1
                    &&& queue.queue@[old(queue).queue@.len() as int].1
                        == (TxData::GameCountdownStart {
                            duration: (COUNTDOWN_MS / 1_000) as u32,
                        })
                    &&& sent_to_all(queue.queue@[old(queue).queue@.len() as int],
                        old(state).net)
                    &&& self.timers.timers@.len() >= 1
                    &&& self.timers.timers@.last() == (TimerEntry {
                        id: old(self).timers.next_id,
                        fire_at: (now + COUNTDOWN_MS) as u64,
                        action: SessionAction::Activate,
                        repeating: false,
                    })
                },
                old(state).status is Countdown ==> !(state.status is Ended),
                old(state).status is Countdown
                    && !(exists|k: int| 0 <= k < i && fired@[k] == SessionAction::Activate)
                    ==> state.status == old(state).status,
                old(state).status is Countdown
                    && (exists|k: int| 0 <= k < i && fired@[k] == SessionAction::Activate)
                    ==> {
                    &&& state.status matches SessionStatus::Active {
                        start_time, max_duration }
                        && start_time == now && max_duration == MAX_GAME_MS
                    &&& exists|q: int| old(queue).queue@.len() <= q < queue.queue@.len()
                        && (#[trigger] queue.queue@[q]).1 == TxData::GameStart
                        && sent_to_all(queue.queue@[q], old(state).net)
                },
            decreases fired@.len() - i,
        {
            let ghost q_pre = queue.queue@;
            match fired[i] {
                SessionAction::LaunchAndPregenerate => {
                    self.launch_game(state, queue, now);
                    let ghost pre = state.map@;
                    if state.map.len() < 100 {
                        let page = state.map.get_map(0, 99);
                        proof {
                            assert(state.map@.subrange(0, pre.len() as int) == pre);
                            lemma_prefix_transitive(
                                old(state).map@, pre, state.map@);
                        }
                    }
                    proof {
                        if old(state).status is Waiting
                            && due0 =~= seq![SessionAction::LaunchAndPregenerate] {
                            assert(i == 0);
                            assert(queue.queue@[old(queue).queue@.len() as int].1
                                == (TxData::GameCountdownStart {
                                    duration: (COUNTDOWN_MS / 1_000) as u32,
                                }));
                            assert(sent_to_all(
                                queue.queue@[old(queue).queue@.len() as int],
                                old(state).net));
                            assert(self.timers.timers@.last() == (TimerEntry {
                                id: old(self).timers.next_id,
                                fire_at: (now + COUNTDOWN_MS) as u64,
                                action: SessionAction::Activate,
                                repeating: false,
                            }));
                            assert(state.map@.len() >= 100);
                        }
                    }
                },
                SessionAction::Activate => {
                    match state.status {
                        SessionStatus::Countdown { .. } => {
                            state.status = SessionStatus::Active {
                                start_time: now,
                                max_duration: MAX_GAME_MS,
                            };
                            let to = state.net.addrs();
                            queue.send_to_many(to, TxData::GameStart);
                            proof {
                                assert(queue.queue@[q_pre.len() as int].1
                                    == TxData::GameStart);
                                assert(sent_to_all(queue.queue@[q_pre.len() as int],
                                    old(state).net));
                            }
                        },
                        _ => {},
                    }
                },
            }
            proof {
                assert(queue.queue@.subrange(0, q_pre.len() as int) =~= q_pre);
                assert forall|q: int| 0 <= q < q_pre.len()
                    implies #[trigger] queue.queue@[q] == q_pre[q] by {
                    assert(queue.queue@.subrange(0, q_pre.len() as int)[q]
                        == queue.queue@[q]);
                }
                if old(state).status is Countdown {
                    if exists|k: int| 0 <= k < i && fired@[k] == SessionAction::Activate {
                        let q0 = choose|q: int| old(queue).queue@.len() <= q < q_pre.len()
                            && (#[trigger] q_pre[q]).1 == TxData::GameStart
                            && sent_to_all(q_pre[q], old(state).net);
                        assert(queue.queue@[q0] == q_pre[q0]);
                    } else {
                        if fired@[i as int] == SessionAction::Activate {
                            // this iteration took a still-counting session
                            // into the running game
                            assert(queue.queue@[q_pre.len() as int].1
                                == TxData::GameStart);
                        }
                    }
                }
            }
            i = i + 1;
        }
        match state.status {
            SessionStatus::Active { start_time, max_duration } => {
                let elapsed = if now >= start_time { now - start_time } else { 0 };
                if elapsed > max_duration {
                    state.status = SessionStatus::Ended;
                    true
                } else {
                    false
                }
            },
            _ => false,
        }
    }

    /// Routes one parsed message from a session-bound connection to the
    /// operation it asks for; kinds the dispatcher handles itself, and
    /// validation payloads from unknown players, are dropped.
    #[verifier::rlimit(100)]
    pub fn on_recv(&mut self, state: &mut SessionState, queue: &mut TransmissionQueue,
                   player_id: u64, rx_data: RxData, now: u64)
        requires
            old(state).wf(),
            old(self).wf(old(state).status),
            now <= NOW_MAX,
        ensures
            final(state).wf(),
            final(self).wf(final(state).status),
            status_rank(final(state).status) >= status_rank(old(state).status),
            final(state).map@.subrange(0, old(state).map@.len() as int) == old(state).map@,
            final(state).session_id == old(state).session_id,
            final(state).config == old(state).config,
            final(state).net == old(state).net,
            // a position report from a known player bumps that player's
            // tick and fans the report out; unknown senders are dropped
            rx_data matches RxData::BroadcastReq { pos_x, pos_y, .. } ==> {
                &&& *final(self) == *old(self)
                &&& final(state).status == old(state).status
                &&& (!old(state).player_data@.dom().contains(player_id)
                    ==> *final(state) == *old(state) && *final(queue) == *old(queue))
                &&& (old(state).player_data@.dom().contains(player_id) ==> {
                    &&& final(state).player_data@ == old(state).player_data@.insert(
                        player_id,
                        (PlayerData {
                            curr_tick: tick_next(
                                old(state).player_data@[player_id].curr_tick),
                            ..old(state).player_data@[player_id]
                        }))
                    &&& final(queue).queue@.len() == old(queue).queue@.len() + 1
                    &&& final(queue).queue@.last().1 == (TxData::Broadcast {
                        username: old(state).player_data@[player_id].username,
                        pos_x,
                        pos_y,
                        tick: tick_next(old(state).player_data@[player_id].curr_tick),
                    })
                    &&& sent_to_all(final(queue).queue@.last(), old(state).net)
                })
            },
            // only the host may force the launch, and only while waiting
            rx_data matches RxData::LaunchGame { user_id, .. } ==> {
                &&& (user_id != old(state).host_id ==> *final(state) == *old(state)
                    && *final(self) == *old(self) && *final(queue) == *old(queue))
                &&& (user_id == old(state).host_id && old(state).status is Waiting
                    ==> launch_effect(*old(state), *final(state), old(self).timers,
                        final(self).timers, *old(queue), *final(queue), now))
                &&& (user_id == old(state).host_id && !(old(state).status is Waiting)
                    ==> *final(state) == *old(state) && *final(queue) == *old(queue))
            },
            // a map page goes back to the requester; out-of-range pages
            // and channel-less requesters are dropped
            rx_data matches RxData::MapReq { user_id, index, .. } ==> {
                &&& *final(self) == *old(self)
                &&& final(state).status == old(state).status
                &&& (index < 100 && old(state).net.channels@.dom().contains(user_id) ==> {
                    &&& final(state).map@.len() >= (index + 1) * 100
                    &&& final(queue).queue@.len() == old(queue).queue@.len() + 1
                    &&& (final(queue).queue@.last().1 matches TxData::MapData { map }
                        && map@.map_values(|st: crate::map_generator::MapStation| st@)
                            =~= final(state).map@.subrange(
                                index as int * 100, index as int * 100 + 100))
                    &&& final(queue).queue@.last().0@
                        == seq![old(state).net.channels@[user_id].addr]
                })
                &&& (!(index < 100 && old(state).net.channels@.dom().contains(user_id))
                    ==> *final(state) == *old(state) && *final(queue) == *old(queue))
            },
            // a game-over report finalizes the reporter's score and ends
            // the session once every score is final
            rx_data matches RxData::GameOver { user_id, .. } ==> {
                &&& *final(self) == *old(self)
                &&& (!(old(state).status is Active)
                    || !old(state).player_data@.dom().contains(user_id)
                    ==> *final(state) == *old(state) && *final(queue) == *old(queue))
                &&& (old(state).status matches SessionStatus::Active { start_time, .. } ==> {
                    old(state).player_data@.dom().contains(user_id) ==> {
                        let fscore = final_score(
                            old(state).player_data@[user_id], start_time, now);
                        &&& final(state).player_data@ == old(state).player_data@.insert(
                            user_id,
                            (PlayerData {
                                score: fscore,
                                ..old(state).player_data@[user_id]
                            }))
                        &&& final(state).status == (
                            if all_scores_final(final(state).player_data.items@) {
                                SessionStatus::Ended
                            } else {
                                old(state).status
                            })
                        &&& final(queue).queue@.last().1 == (TxData::UserGameOverBroadcast {
                            username: old(state).player_data@[user_id].username,
                            score: fscore,
                        })
                        &&& sent_to_all(final(queue).queue@.last(), old(state).net)
                    }
                })
            },
            // a status query for this session is answered on the sender's
            // own channel
            rx_data matches RxData::Query {
                query: QueryType::SessionStatus { session_id } } ==> {
                &&& *final(self) == *old(self)
                &&& *final(state) == *old(state)
                &&& (session_id == old(state).session_id
                    && old(state).net.channels@.dom().contains(player_id) ==> {
                    &&& final(queue).queue@.len() == old(queue).queue@.len() + 1
                    &&& (final(queue).queue@.last().1 matches TxData::QueryResponse {
                        query_res }
                        && (query_res matches QueryResponseType::SessionStatus {
                            time, .. }
                            && time == status_time(old(state).status, now)))
                    &&& final(queue).queue@.last().0@
                        == seq![old(state).net.channels@[player_id].addr]
                })
                &&& (!(session_id == old(state).session_id
                    && old(state).net.channels@.dom().contains(player_id))
                    ==> *final(queue) == *old(queue))
            },
            // message kinds the dispatcher handles itself, and validation
            // payloads, are dropped without any effect
            rx_data matches RxData::ValidationData { .. } ==> *final(state) == *old(state)
                && *final(self) == *old(self) && *final(queue) == *old(queue),
            rx_data matches RxData::GameEvent { .. } ==> *final(state) == *old(state)
                && *final(self) == *old(self) && *final(queue) == *old(queue),
            rx_data matches RxData::CreateSession { .. } ==> *final(state) == *old(state)
                && *final(self) == *old(self) && *final(queue) == *old(queue),
            rx_data matches RxData::CreateUser { .. } ==> *final(state) == *old(state)
                && *final(self) == *old(self) && *final(queue) == *old(queue),
            rx_data matches RxData::Login { .. } ==> *final(state) == *old(state)
                && *final(self) == *old(self) && *final(queue) == *old(queue),
    {
        proof {
            assert(state.map@.subrange(0, state.map@.len() as int) =~= state.map@);
        }
        match rx_data {
            RxData::BroadcastReq { pos_x, pos_y, tick } => {
                self.on_broadcast_req(state, queue, player_id, pos_y, pos_x, tick);
            },
            RxData::ValidationData { .. } => {
                // Anti-cheat verdicts are out of the session's scope; the
                // event is logged by the validator, not here.
            },
            RxData::LaunchGame { user_id, .. } => {
                self.launch_game_req(state, queue, user_id, now);
            },
            RxData::MapReq { user_id, index, .. } => {
                self.map_req(state, queue, user_id, index);
            },
            RxData::GameOver { user_id, .. } => {
                self.on_game_over(state, queue, user_id, now);
            },
            RxData::Query { query: QueryType::SessionStatus { session_id } } => {
                if session_id == state.session_id {
                    match state.net.tx(player_id) {
                        Some(a) => {
                            let (tag, time) = self.get_status(state, now);
                            queue.send_to_addr(a, TxData::QueryResponse {
                                query_res: QueryResponseType::SessionStatus {
                                    status: tag,
                                    time,
                                },
                            });
                        },
                        None => {},
                    }
                }
            },
            _ => {},
        }
    }
}

/// The next broadcast tick: one more, held at the numeric ceiling.
pub open spec fn tick_next(t: u64) -> u64 {
    if t < u64::MAX {
        (t + 1) as u64
    } else {
        t
    }
}

/// The live score all still-running players share at `now`.
pub open spec fn live_score(status: SessionStatus, now: u64) -> u64 {
    match status {
        SessionStatus::Active { start_time, .. } => {
            let elapsed = if now >= start_time { now - start_time } else { 0 };
            let capped = if elapsed > MAX_GAME_MS { MAX_GAME_MS as int } else { elapsed };
            spec_score(capped) as u64
        },
        _ => 0,
    }
}

/// The per-variant time that `get_status` reports, in whole seconds.
pub open spec fn status_time(status: SessionStatus, now: u64) -> int {
    match status {
        SessionStatus::Waiting { start_time, duration, .. } => {
            let elapsed: int = if now >= start_time { now - start_time } else { 0 };
            duration / 1_000 - elapsed / 1_000
        },
        SessionStatus::Countdown { start, duration } => {
            let elapsed: int = if now >= start { now - start } else { 0 };
            duration / 1_000 - elapsed / 1_000
        },
        SessionStatus::Active { start_time, .. } => {
            let elapsed: int = if now >= start_time { now - start_time } else { 0 };
            elapsed / 1_000
        },
        SessionStatus::Uninit => 0,
        SessionStatus::Ended => 0,
    }
}

/// The unsorted leaderboard: each roster entry's username with its
/// finalized score if nonzero, else the shared live score.
pub open spec fn leaderboard_entries(items: Seq<(u64, PlayerData)>, live: u64)
    -> Seq<(String, u64)> {
    items.map_values(|e: (u64, PlayerData)|
        (e.1.username, if e.1.score > 0 { e.1.score } else { live }))
}

/// Ascending by score.
pub open spec fn sorted_by_score(s: Seq<(String, u64)>) -> bool {
    forall|i: int, j: int| 0 <= i < j < s.len() ==> (#[trigger] s[i]).1 <= (#[trigger] s[j]).1
}

/// String equality over the character view.
fn eq_strings(a: &String, b: &String) -> (r: bool)
    ensures
        r <==> a@ == b@,
{
    *a == *b
}

/// Selection sort on the score column: same entries, ascending scores.
fn sort_by_score(v: Vec<(String, u64)>) -> (r: Vec<(String, u64)>)
    ensures
        r@.len() == v@.len(),
        sorted_by_score(r@),
        r@.to_multiset() == v@.to_multiset(),
{
    broadcast use vstd::seq_lib::group_to_multiset_ensures;
    broadcast use vstd::multiset::group_multiset_axioms;

    let mut rest = v;
    let mut out: Vec<(String, u64)> = Vec::new();
    while rest.len() > 0
        invariant
            out@.len() + rest@.len() == v@.len(),
            sorted_by_score(out@),
            out@.to_multiset().add(rest@.to_multiset()) == v@.to_multiset(),
            forall|i: int, j: int| 0 <= i < out@.len() && 0 <= j < rest@.len()
                ==> (#[trigger] out@[i]).1 <= (#[trigger] rest@[j]).1,
        decreases rest@.len(),
    {
        let mut m: usize = 0;
        let mut i: usize = 1;
        while i < rest.len()
            invariant
                m < i <= rest@.len(),
                rest@.len() > 0,
                forall|j: int| 0 <= j < i ==> rest@[m as int].1 <= (#[trigger] rest@[j]).1,
            decreases rest@.len() - i,
        {
            if rest[i].1 < rest[m].1 {
                m = i;
            }
            i = i + 1;
        }
        let ghost rest_before = rest@;
        let ghost out_before = out@;
        let x = rest.remove(m);
        proof {
            rest_before.to_multiset_ensures();
            assert(rest_before.contains(x)) by {
                assert(rest_before[m as int] == x);
            }
            assert(rest_before.to_multiset().count(x) > 0);
            assert(rest@ == rest_before.remove(m as int));
            assert(rest_before.remove(m as int).to_multiset()
                == rest_before.to_multiset().remove(rest_before[m as int]));
            assert(rest@.to_multiset() == rest_before.to_multiset().remove(x));
            assert forall|j: int| 0 <= j < rest@.len()
                implies x.1 <= (#[trigger] rest@[j]).1 by {
                if j < m {
                    assert(rest@[j] == rest_before[j]);
                } else {
                    assert(rest@[j] == rest_before[j + 1]);
                }
            }
        }
        out.push(x);
        proof {
            out_before.to_multiset_ensures();
            assert(out@ == out_before.push(x));
            assert(out_before.push(x).to_multiset() =~= out_before.to_multiset().insert(x));
            assert(out@.to_multiset() == out_before.to_multiset().insert(x));
            assert(out@.to_multiset().add(rest@.to_multiset())
                =~= out_before.to_multiset().add(rest_before.to_multiset()));
            assert forall|i: int, j: int| 0 <= i < j < out@.len()
                implies (#[trigger] out@[i]).1 <= (#[trigger] out@[j]).1 by {
                if j == out@.len() - 1 {
                    assert(out@[i] == out_before[i]);
                    assert(out@[j] == x);
                    assert(out_before[i].1 <= rest_before[m as int].1);
                }
            }
            assert forall|i: int, j: int| 0 <= i < out@.len() && 0 <= j < rest@.len()
                implies (#[trigger] out@[i]).1 <= (#[trigger] rest@[j]).1 by {
                if i == out@.len() - 1 {
                    assert(out@[i] == x);
                }
            }
        }
    }
    proof {
        assert(rest@.to_multiset() =~= Multiset::<(String, u64)>::empty());
        assert(out@.to_multiset().add(rest@.to_multiset()) =~= out@.to_multiset());
    }
    out
}

/// A session whose roster was just reduced to its first player is well
/// formed.
proof fn lemma_single_player_wf(state: SessionState)
    requires
        state.map.wf(),
        state.player_data.wf(),
        state.net.channels.wf(),
        state.config.max_users <= 1_000_000,
        forall|i: int| 0 <= i < state.net.channels.items@.len()
            ==> (#[trigger] state.net.channels.items@[i]).0 < state.next_player_id,
        state.player_data.items@.len() == 1,
        state.player_data.items@[0].0 == state.player_data.items@[0].1.id,
        1 <= state.player_data.items@[0].0,
        state.player_data.items@[0].0 < state.next_player_id,
        state.next_player_id as int == 1 + state.player_data.items@.len(),
        state.host_id == state.player_data.items@[0].0,
        status_times_ok(state.status),
    ensures
        state.wf(),
{
}

/// Appending one fresh player (under a fresh id and an untaken username)
/// keeps the state well formed.
proof fn lemma_added_player_wf(pre: SessionState, post: SessionState, id: u64)
    requires
        pre.wf(),
        post.map == pre.map,
        post.net.channels.wf(),
        forall|i: int| 0 <= i < post.net.channels.items@.len()
            ==> (#[trigger] post.net.channels.items@[i]).0 < post.next_player_id,
        post.config == pre.config,
        post.next_player_id as int == pre.next_player_id as int + 1,
        id == pre.next_player_id,
        post.player_data.wf(),
        post.player_data.items@.len() == pre.player_data.items@.len() + 1,
        post.player_data.items@.subrange(0, pre.player_data.items@.len() as int)
            == pre.player_data.items@,
        post.player_data.items@.last().0 == id,
        post.player_data.items@.last().1.id == id,
        !pre.username_taken(post.player_data.items@.last().1.username@),
        post.host_id == if pre.host_id == 0 { id } else { pre.host_id },
        status_times_ok(post.status),
    ensures
        post.wf(),
{
    let pres = pre.player_data.items@;
    let posts = post.player_data.items@;
    assert(forall|j: int| 0 <= j < pres.len()
        ==> #[trigger] posts[j] == pres[j]);
    assert forall|i: int, j: int| 0 <= i < j < posts.len()
        implies (#[trigger] posts[i]).1.username@ != (#[trigger] posts[j]).1.username@ by {
        if j == posts.len() - 1 {
            assert(!pre.username_taken(posts[j].1.username@));
            assert(posts[i] == pres[i]);
        }
    }
    assert forall|i: int| 0 <= i < posts.len()
        implies (#[trigger] posts[i]).1.id == posts[i].0
            && 1 <= posts[i].0 < post.next_player_id by {
        if i < posts.len() - 1 {
            assert(posts[i] == pres[i]);
        }
    }
    if post.host_id != 0 {
        if pre.host_id != 0 {
            let j = choose|j: int| 0 <= j < pres.len()
                && (#[trigger] pres[j]).0 == pre.host_id;
            assert(posts[j].0 == pre.host_id);
        } else {
            assert(posts[posts.len() - 1].0 == id);
        }
    }
}

/// Replacing one roster entry's value — same id, same username — keeps
/// the state well formed.
proof fn lemma_updated_player_wf(pre: SessionState, post: SessionState, id: u64)
    requires
        pre.wf(),
        post.map == pre.map,
        post.net.channels.wf(),
        forall|i: int| 0 <= i < post.net.channels.items@.len()
            ==> (#[trigger] post.net.channels.items@[i]).0 < post.next_player_id,
        post.config == pre.config,
        post.next_player_id == pre.next_player_id,
        post.host_id == pre.host_id,
        post.status == pre.status,
        post.player_data.wf(),
        post.player_data.items@.len() == pre.player_data.items@.len(),
        exists|k: int| 0 <= k < pre.player_data.items@.len()
            && post.player_data.items@ == pre.player_data.items@.update(
                k,
                ((#[trigger] pre.player_data.items@[k]).0,
                 PlayerData {
                    username: pre.player_data.items@[k].1.username,
                    id: pre.player_data.items@[k].1.id,
                    ..post.player_data.items@[k].1
                 })),
    ensures
        post.wf(),
{
    let pres = pre.player_data.items@;
    let posts = post.player_data.items@;
    let k = choose|k: int| 0 <= k < pres.len()
        && posts == pres.update(
            k,
            ((#[trigger] pres[k]).0,
             PlayerData {
                username: pres[k].1.username,
                id: pres[k].1.id,
                ..posts[k].1
             }));
    assert(forall|j: int| 0 <= j < posts.len() && j != k
        ==> #[trigger] posts[j] == pres[j]);
    assert(posts[k].0 == pres[k].0);
    assert(posts[k].1.username == pres[k].1.username);
    assert(posts[k].1.id == pres[k].1.id);
    assert forall|i: int, j: int| 0 <= i < j < posts.len()
        implies (#[trigger] posts[i]).1.username@ != (#[trigger] posts[j]).1.username@ by {
        assert(pres[i].1.username@ != pres[j].1.username@);
    }
    if post.host_id != 0 {
        let j = choose|j: int| 0 <= j < pres.len() && (#[trigger] pres[j]).0 == pre.host_id;
        assert(posts[j].0 == pre.host_id);
    }
}

/// Prefix preservation composes.
proof fn lemma_prefix_transitive<T>(a: Seq<T>, b: Seq<T>, c: Seq<T>)
    requires
        a.len() <= b.len() <= c.len(),
        b.subrange(0, a.len() as int) == a,
        c.subrange(0, b.len() as int) == b,
    ensures
        c.subrange(0, a.len() as int) == a,
{
    assert forall|i: int| 0 <= i < a.len()
        implies c.subrange(0, a.len() as int)[i] == a[i] by {
        assert(b.subrange(0, a.len() as int)[i] == b[i]);
        assert(c.subrange(0, b.len() as int)[i] == c[i]);
    }
    assert(c.subrange(0, a.len() as int) =~= a);
}

} // verus!
