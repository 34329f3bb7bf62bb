//! Anti-cheat event log: a per-player chronological event store with a
//! nearest-timestamp binary search.  The engine only supplies the data
//! structure; turning a lookup into an accept/reject verdict is a
//! deliberate extension point and not implemented here.
use vstd::prelude::*;
use crate::map_generator::MapStation;
use crate::sessions_manager::Pool;

verus! {

/// The kinematics a session's play is judged against, in milli-units.
#[derive(Clone, Copy, Debug)]
pub struct SessionPhysicsConfig {
    pub initial_vel: i64,
    pub x_acc: i64,
    pub gravity: i64,
    pub jump_vel: i64,
}

pub struct AntiCheatConfig {
    pub physics: SessionPhysicsConfig,
    pub map: Vec<MapStation>,
    pub map_req_segment_length: usize,
}

/// One observed player action, positions in milli-units, times in
/// milliseconds since game start.
#[derive(Clone, Copy, PartialEq, Eq, Structural, Debug)]
pub enum PlayerEvent {
    PositionBroadcast { x: i64, y: i64 },
    Jump { x: i64, t: u64 },
    Duck { x: i64, t: u64 },
    GameOverBroadcast { x: i64, t: u64 },
    SpeedUp { x: i64, t: u64, speed_up_factor: i64 },
}

#[derive(Clone, Copy, PartialEq, Eq, Structural, Debug)]
pub enum SessionEvent {
    CountdownStart,
    GameStart,
    GameEnd,
}

/// Distance between two timestamps.
pub open spec fn ts_dist(a: u64, b: u64) -> int {
    if a >= b {
        a - b
    } else {
        b - a
    }
}

/// The entry at `i` is nearest to `target` among all entries of the log;
/// between two equidistant entries the earlier timestamp wins.
pub open spec fn nearest_at(log: Seq<(u64, PlayerEvent)>, i: int, target: u64) -> bool {
    forall|j: int| 0 <= j < log.len()
        ==> ts_dist(log[i].0, target) < ts_dist((#[trigger] log[j]).0, target)
            || (ts_dist(log[i].0, target) == ts_dist(log[j].0, target)
                && log[i].0 <= log[j].0)
}

/// Timestamps never decrease along a log.
pub open spec fn log_sorted(log: Seq<(u64, PlayerEvent)>) -> bool {
    forall|i: int, j: int| 0 <= i < j < log.len()
        ==> (#[trigger] log[i]).0 <= (#[trigger] log[j]).0
}

pub struct AntiCheat {
    pub config: AntiCheatConfig,
    pub players: Pool<Vec<(u64, PlayerEvent)>>,
    pub session_events: Vec<SessionEvent>,
}

impl AntiCheat {
    /// Every player's log is chronological.
    pub open spec fn wf(self) -> bool {
        &&& self.players.wf()
        &&& forall|i: int| 0 <= i < self.players.items@.len()
            ==> log_sorted((#[trigger] self.players.items@[i]).1@)
    }

    pub fn new(config: AntiCheatConfig) -> (v: AntiCheat)
        ensures
            v.wf(),
            v.players.items@.len() == 0,
            v.session_events@.len() == 0,
            v.config == config,
    {
        AntiCheat { config, players: Pool::new(), session_events: Vec::new() }
    }

    /// Opens an empty log for a player — rejected exactly when the player
    /// is already registered.
    pub fn register_player(&mut self, id: u64) -> (r: Result<(), &'static str>)
        requires
            old(self).wf(),
        ensures
            final(self).wf(),
            r is Err <==> old(self).players.spec_contains(id),
            r is Err ==> *final(self) == *old(self),
            r is Ok ==> final(self).players.items@ == old(self).players.items@.push(
                (id, final(self).players.items@.last().1))
                && final(self).players.items@.last().1@.len() == 0,
            final(self).config == old(self).config,
    {
        let empty: Vec<(u64, PlayerEvent)> = Vec::new();
        let pushed = self.players.push(id, empty);
        if !pushed {
            return Err("Duplicate player");
        }
        proof {
            assert forall|i: int| 0 <= i < self.players.items@.len()
                implies log_sorted((#[trigger] self.players.items@[i]).1@) by {
                if i < old(self).players.items@.len() {
                    assert(self.players.items@[i] == old(self).players.items@[i]);
                }
            }
        }
        Ok(())
    }

    /// Appends an event to a player's log — rejected when the player is
    /// unknown, or when the event would break the log's chronological
    /// order.
    pub fn register_player_event(&mut self, id: u64, event: PlayerEvent,
                                 elapsed_time: u64) -> (r: Result<(), &'static str>)
        requires
            old(self).wf(),
        ensures
            final(self).wf(),
            r is Err <==> {
                ||| !old(self).players.spec_contains(id)
                ||| {
                    let log = old(self).players@[id]@;
                    log.len() > 0 && log.last().0 > elapsed_time
                }
            },
            r is Err ==> final(self).players@ == old(self).players@
                && final(self).session_events == old(self).session_events,
            r is Ok ==> final(self).players@ == old(self).players@.insert(
                id, final(self).players@[id])
                && final(self).players@[id]@ == old(self).players@[id]@.push(
                    (elapsed_time, event)),
            final(self).config == old(self).config,
    {
        proof {
            crate::sessions_manager::lemma_seq_to_map(self.players.items@);
        }
        let popped = self.players.pop(id);
        match popped {
            None => Err("No such registered player"),
            Some(e) => {
                let mut log = e.1;
                if log.len() > 0 && log[log.len() - 1].0 > elapsed_time {
                    let ghost mid = self.players.items@;
                    let back = self.players.push(id, log);
                    proof {
                        assert(back);
                        lemma_players_wf_after_reinsert(
                            old(self).players.items@, mid, self.players.items@, id);
                        assert(final(self).players@ =~= old(self).players@);
                    }
                    return Err("Out of order event");
                }
                log.push((elapsed_time, event));
                let ghost mid = self.players.items@;
                let back = self.players.push(id, log);
                proof {
                    assert(back);
                    lemma_players_sorted_after(
                        old(self).players.items@, mid, self.players.items@, id,
                        elapsed_time, event);
                    crate::sessions_manager::lemma_seq_to_map(self.players.items@);
                    assert(final(self).players@ =~= old(self).players@.insert(
                        id, final(self).players@[id]));
                }
                Ok(())
            },
        }
    }

    /// The stored event whose timestamp is nearest to `timestamp`; between
    /// two equidistant candidates the earlier one wins.  `None` for an
    /// unknown player or an empty log.
    pub fn get_nearest_event(&self, timestamp: u64, player_id: u64)
        -> (r: Option<&PlayerEvent>)
        requires
            self.wf(),
        ensures
            r is None <==> !self.players@.dom().contains(player_id)
                || self.players@[player_id]@.len() == 0,
            r matches Some(e) ==> exists|i: int|
                0 <= i < self.players@[player_id]@.len()
                    && *e == (#[trigger] self.players@[player_id]@[i]).1
                    && nearest_at(self.players@[player_id]@, i, timestamp),
    {
        proof {
            crate::sessions_manager::lemma_seq_to_map(self.players.items@);
        }
        let events = match self.players.get(player_id) {
            None => {
                return None;
            },
            Some(v) => v,
        };
        if events.len() == 0 {
            return None;
        }
        let ghost log = events@;
        proof {
            let j = choose|j: int| 0 <= j < self.players.items@.len()
                && (#[trigger] self.players.items@[j]).0 == player_id;
            assert(self.players.items@[j].1 == self.players@[player_id]);
            assert(log_sorted(log));
        }
        // lower bound: first index with timestamp at or above the target
        let mut lo: usize = 0;
        let mut hi: usize = events.len();
        while lo < hi
            invariant
                lo <= hi <= log.len(),
                log == events@,
                log.len() > 0,
                log_sorted(log),
                forall|j: int| 0 <= j < lo ==> (#[trigger] log[j]).0 < timestamp,
                forall|j: int| hi <= j < log.len() ==> (#[trigger] log[j]).0 >= timestamp,
            decreases hi - lo,
        {
            let mid = lo + (hi - lo) / 2;
            if events[mid].0 < timestamp {
                lo = mid + 1;
            } else {
                hi = mid;
            }
        }
        let best: usize;
        if lo == 0 {
            best = 0;
        } else if lo == events.len() {
            best = events.len() - 1;
        } else {
            let below = events[lo - 1].0;
            let above = events[lo].0;
            if timestamp - below <= above - timestamp {
                best = lo - 1;
            } else {
                best = lo;
            }
        }
        proof {
            assert(nearest_at(log, best as int, timestamp)) by {
                assert forall|j: int| 0 <= j < log.len()
                    implies ts_dist(log[best as int].0, timestamp)
                        < ts_dist((#[trigger] log[j]).0, timestamp)
                        || (ts_dist(log[best as int].0, timestamp)
                            == ts_dist(log[j].0, timestamp)
                            && log[best as int].0 <= log[j].0) by {
                    if j < lo {
                        assert(log[j].0 <= log[lo as int - 1].0);
                    } else {
                        assert(log[lo as int].0 <= log[j].0);
                    }
                }
            }
        }
        Some(&events[best].1)
    }
}

/// Pushing a player's unchanged (hence still sorted) log back in keeps
/// every log chronological.
proof fn lemma_players_wf_after_reinsert(pre: Seq<(u64, Vec<(u64, PlayerEvent)>)>,
                                         mid: Seq<(u64, Vec<(u64, PlayerEvent)>)>,
                                         post: Seq<(u64, Vec<(u64, PlayerEvent)>)>,
                                         id: u64)
    requires
        crate::sessions_manager::keys_unique(pre),
        forall|i: int| 0 <= i < pre.len() ==> log_sorted((#[trigger] pre[i]).1@),
        0 <= crate::sessions_manager::spec_key_index(pre, id) < pre.len(),
        pre[crate::sessions_manager::spec_key_index(pre, id)].0 == id,
        mid == pre.update(crate::sessions_manager::spec_key_index(pre, id),
            pre.last()).drop_last(),
        post.len() == mid.len() + 1,
        forall|i: int| 0 <= i < mid.len() ==> #[trigger] post[i] == mid[i],
        post.last() == (id, pre[crate::sessions_manager::spec_key_index(pre, id)].1),
    ensures
        forall|i: int| 0 <= i < post.len() ==> log_sorted((#[trigger] post[i]).1@),
{
    let k = crate::sessions_manager::spec_key_index(pre, id);
    assert forall|i: int| 0 <= i < post.len()
        implies log_sorted((#[trigger] post[i]).1@) by {
        if i < mid.len() {
            assert(post[i] == mid[i]);
            if i == k {
                assert(mid[i] == pre[pre.len() - 1]);
            } else {
                assert(mid[i] == pre[i]);
            }
        } else {
            assert(post[i].1 == pre[k].1);
        }
    }
}

/// Appending an in-order event keeps every log chronological.
proof fn lemma_players_sorted_after(pre: Seq<(u64, Vec<(u64, PlayerEvent)>)>,
                                    mid: Seq<(u64, Vec<(u64, PlayerEvent)>)>,
                                    post: Seq<(u64, Vec<(u64, PlayerEvent)>)>, id: u64,
                                    elapsed_time: u64, event: PlayerEvent)
    requires
        crate::sessions_manager::keys_unique(pre),
        forall|i: int| 0 <= i < pre.len() ==> log_sorted((#[trigger] pre[i]).1@),
        0 <= crate::sessions_manager::spec_key_index(pre, id) < pre.len(),
        pre[crate::sessions_manager::spec_key_index(pre, id)].0 == id,
        mid == pre.update(crate::sessions_manager::spec_key_index(pre, id),
            pre.last()).drop_last(),
        post.len() == mid.len() + 1,
        forall|i: int| 0 <= i < mid.len() ==> #[trigger] post[i] == mid[i],
        post.last().1@ == pre[crate::sessions_manager::spec_key_index(pre, id)].1@
            .push((elapsed_time, event)),
        pre[crate::sessions_manager::spec_key_index(pre, id)].1@.len() == 0
            || pre[crate::sessions_manager::spec_key_index(pre, id)].1@.last().0
                <= elapsed_time,
    ensures
        forall|i: int| 0 <= i < post.len() ==> log_sorted((#[trigger] post[i]).1@),
{
    let k = crate::sessions_manager::spec_key_index(pre, id);
    assert forall|i: int| 0 <= i < post.len()
        implies log_sorted((#[trigger] post[i]).1@) by {
        if i < mid.len() {
            assert(post[i] == mid[i]);
            if i == k {
                assert(mid[i] == pre[pre.len() - 1]);
            } else {
                assert(mid[i] == pre[i]);
            }
        } else {
            let oldlog = pre[k].1@;
            let newlog = post[i].1@;
            assert(newlog == oldlog.push((elapsed_time, event)));
            assert forall|p: int, q: int| 0 <= p < q < newlog.len()
                implies (#[trigger] newlog[p]).0 <= (#[trigger] newlog[q]).0 by {
                if q == newlog.len() - 1 {
                    assert(newlog[p] == oldlog[p]);
                    assert(oldlog[p].0 <= oldlog.last().0);
                } else {
                    assert(newlog[p] == oldlog[p] && newlog[q] == oldlog[q]);
                }
            }
        }
    }
}

} // verus!
