//! Parsed wire messages, the outbound effect queue, and the dispatcher
//! that owns the session table.
//!
//! The transport layer (sockets, framing, JSON) lives outside the core: it
//! hands in `ChannelData` events carrying already-parsed `RxData` values
//! and carries out the `TxData` effects collected in the
//! `TransmissionQueue`.
use vstd::prelude::*;
use vstd::string::StrSliceExecFns;
use crate::map_generator::MapStation;
use crate::config_options::ConfigOptions;
use crate::session::Session;
use crate::session::SessionStatus;
use crate::session::PlayerChannel;
use crate::session::sorted_by_score;
use crate::session::leaderboard_entries;
use crate::session::live_score;
use crate::session::status_time;
use crate::session::status_rank;
use crate::session::SessionAction;
use crate::session::PlayerData;
use crate::session::PlayerStatus;
use crate::timer::due_actions;
use crate::sessions_manager::SessionState;
use crate::sessions_manager::Pool;
use crate::sessions_manager::spec_key_index;
use crate::sessions_manager::seq_to_map;
use crate::sessions_manager::lemma_seq_to_map;
use crate::sessions_manager::keys_unique;
use crate::sessions_manager::spec_contains_key;

verus! {

#[derive(Clone, Copy, PartialEq, Eq, Structural, Debug)]
pub enum SessionStatusSimplified {
    Waiting,
    Busy,
    Ended,
}

#[derive(Debug)]
pub enum QueryType {
    Sessions,
    LeaderBoard { session_id: u64 },
    SessionStatus { session_id: u64 },
}

#[derive(Debug)]
pub enum QueryResponseType {
    Sessions { sessions: Vec<(u64, String, SessionStatusSimplified, Vec<String>)> },
    LeaderBoard { session_id: u64, scores: Vec<(String, u64)> },
    SessionStatus { status: &'static str, time: i64 },
}

/// Outbound message kinds.  Positions are in milli-units.
#[derive(Debug)]
#[allow(inconsistent_fields)]
pub enum TxData {
    QueryResponse { query_res: QueryResponseType },
    SessionCreationResponse { creation_succeeded: bool, session_id: Option<u64> },
    UserCreationResponse { creation_succeeded: bool, user_id: Option<u64> },
    LoginResponse { succeeded: bool },
    Broadcast { username: String, pos_x: i64, pos_y: i64, tick: u64 },
    GameCountdownStart { duration: u32 },
    GameStart,
    MapData { map: Vec<MapStation> },
    UserGameOverBroadcast { username: String, score: u64 },
    UserGameOver { score: u64, user_id: u64 },
    GameEvent { username: String, event: GameEvent },
    InvalidationNotice,
}

#[derive(Clone, Copy, PartialEq, Eq, Structural, Debug)]
pub enum GameEvent {
    Jump { pos: i64 },
    DuckStart { pos: i64 },
    DuckEnd { pos: i64 },
}

#[derive(Clone, Copy, PartialEq, Eq, Structural, Debug)]
pub enum PlayerMove {
    Neutral,
    Up,
    Down,
}

/// Inbound message kinds, already parsed off the wire.
#[derive(Debug)]
#[allow(inconsistent_fields)]
pub enum RxData {
    Query { query: QueryType },
    CreateSession { username: String, session_name: String, wait_time: u64 },
    CreateUser { session_id: u64, username: String },
    Login { session_id: u64, user_id: u64 },
    LaunchGame { session_id: u64, user_id: u64 },
    BroadcastReq { pos_x: i64, pos_y: i64, tick: u64 },
    ValidationData {
        session_id: u64,
        user_id: u64,
        pos_x: i64,
        score: u64,
        timestamp: u64,
        move_dir: Option<PlayerMove>,
    },
    MapReq { session_id: u64, user_id: u64, index: u32 },
    GameEvent { user_id: u64, event: GameEvent },
    GameOver { session_id: u64, user_id: u64 },
}

/// Connection-lifecycle events from the transport layer.  A connection is
/// identified by an abstract address token.
#[derive(Debug)]
pub enum ChannelData {
    Connect { addr: u64 },
    Message { addr: u64, msg: RxData },
    Disconnect { addr: u64 },
}

/// Outbound effects: each entry is a message and the addresses it goes to.
/// The core only queues; the transport layer drains and sends.
pub struct TransmissionQueue {
    pub queue: Vec<(Vec<u64>, TxData)>,
    pub closable: Vec<u64>,
}

impl TransmissionQueue {
    pub fn new() -> (q: TransmissionQueue)
        ensures
            q.queue@ =~= Seq::<(Vec<u64>, TxData)>::empty(),
            q.closable@ =~= Seq::<u64>::empty(),
    {
        TransmissionQueue { queue: Vec::new(), closable: Vec::new() }
    }

    /// Queues `msg` for a single address.
    pub fn send_to_addr(&mut self, addr: u64, msg: TxData)
        ensures
            final(self).queue@.len() == old(self).queue@.len() + 1,
            final(self).queue@.last().0@ =~= seq![addr],
            final(self).queue@.last().1 == msg,
            final(self).queue@.subrange(0, old(self).queue@.len() as int)
                == old(self).queue@,
            final(self).closable@ == old(self).closable@,
    {
        let mut to: Vec<u64> = Vec::new();
        to.push(addr);
        self.queue.push((to, msg));
        proof {
            assert(self.queue@.subrange(0, old(self).queue@.len() as int)
                =~= old(self).queue@);
        }
    }

    /// Queues `msg` for every address in `to` (a broadcast).
    pub fn send_to_many(&mut self, to: Vec<u64>, msg: TxData)
        ensures
            final(self).queue@.len() == old(self).queue@.len() + 1,
            final(self).queue@.last().0 == to,
            final(self).queue@.last().1 == msg,
            final(self).queue@.subrange(0, old(self).queue@.len() as int)
                == old(self).queue@,
            final(self).closable@ == old(self).closable@,
    {
        self.queue.push((to, msg));
        proof {
            assert(self.queue@.subrange(0, old(self).queue@.len() as int)
                =~= old(self).queue@);
        }
    }

    /// Marks a connection for the transport layer to close.
    pub fn close_con(&mut self, addr: u64)
        ensures
            final(self).closable@ == old(self).closable@.push(addr),
            final(self).queue@ == old(self).queue@,
    {
        self.closable.push(addr);
    }

    /// Hands the queued messages out and leaves the queue empty.
    pub fn take_queue(&mut self) -> (q: Vec<(Vec<u64>, TxData)>)
        ensures
            q == old(self).queue,
            final(self).queue@ =~= Seq::<(Vec<u64>, TxData)>::empty(),
            final(self).closable@ == old(self).closable@,
    {
        let mut q: Vec<(Vec<u64>, TxData)> = Vec::new();
        core::mem::swap(&mut q, &mut self.queue);
        q
    }

    /// Hands the addresses to close out and leaves the list empty.
    pub fn take_closable(&mut self) -> (c: Vec<u64>)
        ensures
            c == old(self).closable,
            final(self).closable@ =~= Seq::<u64>::empty(),
            final(self).queue@ == old(self).queue@,
    {
        let mut c: Vec<u64> = Vec::new();
        core::mem::swap(&mut c, &mut self.closable);
        c
    }
}

/// One session of the table: the actor and its data.
pub struct SessionEntry {
    pub session: Session,
    pub state: SessionState,
}

/// Some session of the table is still waiting for its game to start.
pub open spec fn exists_waiting(items: Seq<(u64, SessionEntry)>) -> bool {
    exists|i: int| 0 <= i < items.len() && (#[trigger] items[i]).1.state.status is Waiting
}

/// The address belongs to the host of some session of the table.
pub open spec fn hosts_some_session(items: Seq<(u64, SessionEntry)>, addr: u64) -> bool {
    exists|i: int| 0 <= i < items.len() && {
        let st = (#[trigger] items[i]).1.state;
        st.host_id != 0 && st.player_data@.dom().contains(st.host_id)
            && st.player_data@[st.host_id].addr == addr
    }
}

/// The admission rule for a new session (the requester's username length
/// is checked against the per-session limit, the rest against the
/// dispatcher's configuration).
pub open spec fn create_session_rejected(items: Seq<(u64, SessionEntry)>,
                                         config: ConfigOptions, addr: u64,
                                         username: Seq<char>) -> bool {
    ||| items.len() >= config.session_exec.max_sessions
    ||| exists_waiting(items) && !config.session_exec.allow_multiple_inactive_sessions
    ||| username.len() > config.session.max_username_len
    ||| hosts_some_session(items, addr)
}

/// The resource table of one session entry.
pub open spec fn session_net(e: (u64, SessionEntry)) -> Seq<(u64, PlayerChannel)> {
    e.1.state.net.channels.items@
}

/// Some session's resource pool holds a channel bound to this address.
pub open spec fn addr_session_owned(sessions: Seq<(u64, SessionEntry)>, addr: u64) -> bool {
    exists|i: int, j: int| 0 <= i < sessions.len()
        && 0 <= j < session_net(#[trigger] sessions[i]).len()
        && (#[trigger] session_net(sessions[i])[j]).1.addr == addr
}

/// Exclusive ownership of connections: no address in the registry is also
/// held by any session's resource pool, so each channel has exactly one
/// owner at any instant.
pub open spec fn ownership_disjoint(registry: Seq<(u64, PlayerChannel)>,
                                    sessions: Seq<(u64, SessionEntry)>) -> bool {
    forall|r: int, i: int, j: int|
        0 <= r < registry.len() && 0 <= i < sessions.len()
            && 0 <= j < session_net(#[trigger] sessions[i]).len()
        ==> (#[trigger] registry[r]).0 != (#[trigger] session_net(sessions[i])[j]).1.addr
}

/// What a `CreateSession` request does: a requester without a registry
/// channel is dropped; a rejected request (or an exhausted id counter)
/// answers `creationSucceeded == false` and changes no table; an admitted
/// one moves the requester's channel into a fresh `Waiting` session
/// appended under a fresh id, and answers with the two creation
/// responses.
pub open spec fn session_creation_outcome(pre: SessionExecutor, post: SessionExecutor,
                                          addr: u64, username: String) -> bool {
    &&& (!pre.channels.spec_contains(addr) ==> post == pre)
    &&& (pre.channels.spec_contains(addr)
        && create_session_rejected(pre.sessions.items@, pre.config, addr, username@) ==> {
        &&& post.sessions == pre.sessions
        &&& post.channels == pre.channels
        &&& post.tx_queue.queue@.len() == pre.tx_queue.queue@.len() + 1
        &&& post.tx_queue.queue@.last().1 == (TxData::SessionCreationResponse {
            creation_succeeded: false,
            session_id: None,
        })
        &&& post.tx_queue.queue@.last().0@ == seq![addr]
    })
    &&& (pre.channels.spec_contains(addr)
        && pre.next_session_id == u64::MAX
        && !create_session_rejected(pre.sessions.items@, pre.config, addr, username@) ==> {
        &&& post.sessions == pre.sessions
        &&& post.channels == pre.channels
        &&& post.tx_queue.queue@.len() == pre.tx_queue.queue@.len() + 1
    })
    &&& (pre.channels.spec_contains(addr)
        && pre.next_session_id < u64::MAX
        && !create_session_rejected(pre.sessions.items@, pre.config, addr, username@) ==> {
        &&& post.sessions.items@.len() == pre.sessions.items@.len() + 1
        &&& post.sessions.items@.last().0 == pre.next_session_id
        &&& post.sessions.items@.last().1.state.status is Waiting
        &&& post.sessions.items@.subrange(0, pre.sessions.items@.len() as int)
            == pre.sessions.items@
        &&& post.channels@ == pre.channels@.remove(addr)
        &&& post.next_session_id == pre.next_session_id + 1
        &&& post.tx_queue.queue@.len() == pre.tx_queue.queue@.len() + 2
    })
}

/// The coarse status reported in session listings.
pub open spec fn spec_simplified(s: SessionStatus) -> SessionStatusSimplified {
    match s {
        SessionStatus::Uninit | SessionStatus::Waiting { .. } =>
            SessionStatusSimplified::Waiting,
        SessionStatus::Countdown { .. } | SessionStatus::Active { .. } =>
            SessionStatusSimplified::Busy,
        SessionStatus::Ended => SessionStatusSimplified::Ended,
    }
}

/// One table entry in good standing: a well-formed session whose id is
/// its key, assigned from the dispatcher's counter.
pub open spec fn entry_ok(e: (u64, SessionEntry), next: u64) -> bool {
    &&& e.1.state.wf()
    &&& e.1.session.wf(e.1.state.status)
    &&& e.1.state.session_id == e.0
    &&& 1 <= e.0 < next
}

/// The table after swap-removing the entry at index `k`.
pub open spec fn after_pop(pre: Seq<(u64, SessionEntry)>, k: int)
    -> Seq<(u64, SessionEntry)> {
    pre.update(k, pre.last()).drop_last()
}

/// What routing a `CreateUser` does.  With the named session and a
/// registry channel for the requester present, admission follows the
/// session's own rule: on rejection the channel returns to the registry
/// intact and the tables are exactly as before (no token is lost); on
/// success the channel moves into the session's resource pool and the
/// new player joins the roster.  Otherwise nothing changes.
pub open spec fn create_user_routed(pre: SessionExecutor, post: SessionExecutor,
                                    addr: u64, session_id: u64, username: String)
    -> bool {
    &&& (!pre.sessions.spec_contains(session_id) || !pre.channels.spec_contains(addr)
        ==> post.sessions == pre.sessions && post.channels == pre.channels
            && post.tx_queue == pre.tx_queue)
    &&& (pre.sessions.spec_contains(session_id) && pre.channels.spec_contains(addr) ==> {
        let st = pre.sessions@[session_id].state;
        let not_joinable = st.host_id != 0 && !(st.status is Waiting);
        let rejected = {
            ||| not_joinable
            ||| st.player_data.items@.len() >= st.config.max_users
            ||| username@.len() > st.config.max_username_len
            ||| st.username_taken(username@)
        };
        &&& (rejected ==> {
            &&& post.channels@ == pre.channels@
            &&& post.sessions@ == pre.sessions@
            &&& (not_joinable ==> post.tx_queue.queue@ == pre.tx_queue.queue@)
            &&& (!not_joinable ==> {
                &&& post.tx_queue.queue@.len() == pre.tx_queue.queue@.len() + 1
                &&& post.tx_queue.queue@.last().1 == (TxData::UserCreationResponse {
                    creation_succeeded: false,
                    user_id: None,
                })
                &&& post.tx_queue.queue@.last().0@ == seq![addr]
            })
        })
        &&& (!rejected ==> {
            &&& post.channels@ == pre.channels@.remove(addr)
            &&& post.sessions@.dom() == pre.sessions@.dom()
            &&& post.sessions@[session_id].state.net.channels@
                == st.net.channels@.insert(st.next_player_id, pre.channels@[addr])
            &&& post.sessions@[session_id].state.player_data@
                == st.player_data@.insert(st.next_player_id, (PlayerData {
                    id: st.next_player_id,
                    username,
                    score: 0,
                    addr,
                    status: PlayerStatus::Connected,
                    curr_tick: 0,
                }))
            &&& post.tx_queue.queue@.len() == pre.tx_queue.queue@.len() + 1
            &&& post.tx_queue.queue@.last().1 == (TxData::UserCreationResponse {
                creation_succeeded: true,
                user_id: Some(st.next_player_id),
            })
            &&& post.tx_queue.queue@.last().0@ == seq![addr]
        })
    })
}

/// What routing a `Login` does: with session and registry channel present,
/// an unknown user id hands the channel back (tables as before, nothing
/// sent); a known one re-binds the player's stored address and swaps the
/// session's pool entry for the requester's channel.
pub open spec fn login_routed(pre: SessionExecutor, post: SessionExecutor, addr: u64,
                              session_id: u64, user_id: u64) -> bool {
    &&& (!pre.sessions.spec_contains(session_id) || !pre.channels.spec_contains(addr)
        ==> post.sessions == pre.sessions && post.channels == pre.channels
            && post.tx_queue == pre.tx_queue)
    &&& (pre.sessions.spec_contains(session_id) && pre.channels.spec_contains(addr) ==> {
        let st = pre.sessions@[session_id].state;
        &&& (!st.player_data@.dom().contains(user_id) ==> {
            &&& post.channels@ == pre.channels@
            &&& post.sessions@ == pre.sessions@
            &&& post.tx_queue.queue@ == pre.tx_queue.queue@
        })
        &&& (st.player_data@.dom().contains(user_id) ==> {
            &&& post.channels@ == pre.channels@.remove(addr)
            &&& post.sessions@.dom() == pre.sessions@.dom()
            &&& post.sessions@[session_id].state.net.channels@
                == st.net.channels@.remove(user_id).insert(user_id, pre.channels@[addr])
            &&& post.sessions@[session_id].state.player_data@
                == st.player_data@.insert(user_id, (PlayerData {
                    addr,
                    status: PlayerStatus::Connected,
                    ..st.player_data@[user_id]
                }))
            &&& post.tx_queue.queue@.len() == pre.tx_queue.queue@.len() + 1
            &&& post.tx_queue.queue@.last().1 == (TxData::LoginResponse { succeeded: true })
            &&& post.tx_queue.queue@.last().0@ == seq![addr]
        })
    })
}

/// The dispatcher: sole owner of the session table and of the registry of
/// not-yet-joined connections.  One instance runs the whole tick loop;
/// the transport layer polls it with events and drains its queue.
pub struct SessionExecutor {
    pub sessions: Pool<SessionEntry>,
    pub channels: Pool<PlayerChannel>,
    pub tx_queue: TransmissionQueue,
    pub closable_sessions: Vec<u64>,
    pub config: ConfigOptions,
    pub next_session_id: u64,
}

impl SessionExecutor {
    /// Both tables are well formed; each table entry's session carries its
    /// own key as id, ids come from the counter, and every registry entry
    /// is keyed by the address of the channel it owns.
    pub open spec fn wf(self) -> bool {
        &&& self.sessions.wf()
        &&& self.channels.wf()
        &&& self.config.session.max_users <= 1_000_000
        &&& 1 <= self.next_session_id
        &&& forall|i: int| 0 <= i < self.sessions.items@.len()
            ==> entry_ok(#[trigger] self.sessions.items@[i], self.next_session_id)
        &&& forall|i: int| 0 <= i < self.channels.items@.len()
            ==> (#[trigger] self.channels.items@[i]).1.addr == self.channels.items@[i].0
        &&& ownership_disjoint(self.channels.items@, self.sessions.items@)
    }

    pub fn new(config: ConfigOptions) -> (ex: SessionExecutor)
        requires
            config.session.max_users <= 1_000_000,
        ensures
            ex.wf(),
            ex.sessions.items@.len() == 0,
            ex.channels.items@.len() == 0,
            ex.tx_queue.queue@.len() == 0,
            ex.config == config,
    {
        SessionExecutor {
            sessions: Pool::new(),
            channels: Pool::new(),
            tx_queue: TransmissionQueue::new(),
            closable_sessions: Vec::new(),
            config,
            next_session_id: 1,
        }
    }

    /// The dispatcher mints the channel token for a fresh connection: from
    /// here on, exactly one owner holds it.
    pub fn on_connect(&mut self, addr: u64)
        requires
            old(self).wf(),
        ensures
            final(self).wf(),
            !old(self).channels.spec_contains(addr)
                && !addr_session_owned(old(self).sessions.items@, addr)
                ==> final(self).channels@ == old(self).channels@.insert(
                    addr, PlayerChannel { addr }),
            old(self).channels.spec_contains(addr)
                || addr_session_owned(old(self).sessions.items@, addr)
                ==> *final(self) == *old(self),
            final(self).sessions == old(self).sessions,
            final(self).config == old(self).config,
    {
        match self.find_session_for_addr(addr) {
            Some(_) => {
                return ;
            },
            None => {},
        }
        let ghost pre_reg = self.channels.items@;
        let pushed = self.channels.push(addr, PlayerChannel { addr });
        proof {
            if pushed {
                lemma_registry_push(pre_reg, self.channels.items@, addr,
                    PlayerChannel { addr });
                lemma_disjoint_reg_push(pre_reg, self.channels.items@,
                    self.sessions.items@, addr, PlayerChannel { addr });
            }
        }
    }

    /// A dropped connection leaves the registry; its token is destroyed.
    pub fn on_disconnect(&mut self, addr: u64)
        requires
            old(self).wf(),
        ensures
            final(self).wf(),
            final(self).channels@ == old(self).channels@.remove(addr),
            final(self).sessions == old(self).sessions,
            final(self).config == old(self).config,
    {
        let popped = self.channels.pop(addr);
        proof {
            if popped is None {
                crate::sessions_manager::lemma_seq_to_map(old(self).channels.items@);
                assert(final(self).channels@ =~= old(self).channels@.remove(addr));
            } else {
                lemma_registry_pop(old(self).channels.items@, addr);
            }
        }
    }

    /// Admission control and creation of a new session (P5-style rule):
    /// rejected — `creationSucceeded == false` — exactly when the table is
    /// full, a `Waiting` session exists while multiple inactive sessions
    /// are disallowed, the username is over the limit, or the requester
    /// already hosts a session.  A requester without a registry channel is
    /// dropped.  On success the requester's channel moves into the new
    /// session, whose host they become.
    #[verifier::rlimit(100)]
    pub fn create_session(&mut self, addr: u64, wait_time: u64, username: String,
                          session_name: String, now: u64)
        requires
            old(self).wf(),
            now <= crate::session::NOW_MAX,
        ensures
            final(self).wf(),
            final(self).config == old(self).config,
            session_creation_outcome(*old(self), *final(self), addr, username),
    {
        let has_channel = match self.channels.get(addr) {
            Some(_) => true,
            None => false,
        };
        if !has_channel {
            return ;
        }
        let over_sessions = self.sessions.len() >= self.config.session_exec.max_sessions;
        let waiting_blocked = self.some_session_waiting()
            && !self.config.session_exec.allow_multiple_inactive_sessions;
        let name_too_long = username.as_str().unicode_len()
            > self.config.session.max_username_len;
        let already_host = self.hosts_a_session(addr);
        if over_sessions || waiting_blocked || name_too_long || already_host {
            self.tx_queue.send_to_addr(addr, TxData::SessionCreationResponse {
                creation_succeeded: false,
                session_id: None,
            });
            return ;
        }
        if self.next_session_id == u64::MAX {
            self.tx_queue.send_to_addr(addr, TxData::SessionCreationResponse {
                creation_succeeded: false,
                session_id: None,
            });
            return ;
        }
        let popped = self.channels.pop(addr);
        let channel = match popped {
            Some(e) => e.1,
            None => {
                proof {
                    assert(false);
                }
                PlayerChannel { addr }
            },
        };
        proof {
            lemma_registry_pop(old(self).channels.items@, addr);
            assert(channel.addr == addr) by {
                crate::sessions_manager::lemma_seq_to_map(old(self).channels.items@);
                let j = crate::sessions_manager::spec_key_index(
                    old(self).channels.items@, addr);
                assert(old(self).channels.items@[j].1.addr
                    == old(self).channels.items@[j].0);
            }
        }
        let sid = self.next_session_id;
        self.next_session_id = self.next_session_id + 1;
        let mut state = SessionState::default();
        let session = Session::new(&mut state, session_name, self.config.session, sid);
        let created = session.with_host(&mut state, &mut self.tx_queue, channel,
            username, addr, wait_time, now);
        match created {
            Ok(session) => {
                let entry = SessionEntry { session, state };
                let ghost old_items = self.sessions.items@;
                let pushed_ok = self.sessions.push(sid, entry);
                proof {
                    assert(pushed_ok) by {
                        if old(self).sessions.spec_contains(sid) {
                            let j = choose|j: int| 0 <= j < old_items.len()
                                && (#[trigger] old_items[j]).0 == sid;
                        }
                    }
                    assert(self.sessions.items@.subrange(
                        0, old(self).sessions.items@.len() as int)
                        =~= old(self).sessions.items@);
                    assert forall|i: int| 0 <= i < self.sessions.items@.len()
                        implies {
                            let e = #[trigger] self.sessions.items@[i];
                            e.1.state.wf() && e.1.session.wf(e.1.state.status)
                                && e.1.state.session_id == e.0
                                && 1 <= e.0 < self.next_session_id
                        } by {
                        if i < old_items.len() {
                            assert(self.sessions.items@[i] == old_items[i]);
                        }
                    }
                    // ownership: the registry lost the address, the new
                    // session is its sole owner
                    lemma_disjoint_reg_pop(old(self).channels.items@,
                        old(self).sessions.items@, addr);
                    assert forall|r: int, j: int| 0 <= r < self.channels.items@.len()
                        && 0 <= j < entry.state.net.channels.items@.len()
                        implies (#[trigger] self.channels.items@[r]).0
                            != (#[trigger] entry.state.net.channels.items@[j]).1.addr by {
                        assert(entry.state.net.channels.items@[j].1.addr == addr);
                        if self.channels.items@[r].0 == addr {
                            assert(spec_contains_key(self.channels.items@, addr));
                        }
                    }
                    lemma_disjoint_sess_push(self.channels.items@, old_items,
                        self.sessions.items@, sid, entry);
                }
            },
            Err(_) => {
                // with_host rejects only an over-long username, which
                // admission control has already excluded.
                proof {
                    assert(false);
                }
            },
        }
    }

    /// Is some session of the table in `Waiting`?
    fn some_session_waiting(&self) -> (r: bool)
        ensures
            r <==> exists_waiting(self.sessions.items@),
    {
        let items = self.sessions.items_ref();
        let mut i: usize = 0;
        while i < items.len()
            invariant
                i <= items@.len(),
                items == &self.sessions.items,
                forall|j: int| 0 <= j < i
                    ==> !((#[trigger] self.sessions.items@[j]).1.state.status is Waiting),
            decreases items@.len() - i,
        {
            match items[i].1.state.status {
                SessionStatus::Waiting { .. } => {
                    proof {
                        assert((#[trigger] self.sessions.items@[i as int]).1.state.status
                            is Waiting);
                    }
                    return true;
                },
                _ => {},
            }
            i = i + 1;
        }
        false
    }

    /// Does the address belong to the host of some session?
    fn hosts_a_session(&self, addr: u64) -> (r: bool)
        requires
            self.wf(),
        ensures
            r <==> hosts_some_session(self.sessions.items@, addr),
    {
        let items = self.sessions.items_ref();
        let mut i: usize = 0;
        while i < items.len()
            invariant
                i <= items@.len(),
                items == &self.sessions.items,
                self.wf(),
                forall|j: int| 0 <= j < i ==> !{
                    let st = (#[trigger] self.sessions.items@[j]).1.state;
                    st.host_id != 0 && st.player_data@.dom().contains(st.host_id)
                        && st.player_data@[st.host_id].addr == addr
                },
            decreases items@.len() - i,
        {
            let st = &items[i].1.state;
            proof {
                crate::sessions_manager::lemma_seq_to_map(st.player_data.items@);
            }
            if st.host_id != 0 {
                match st.player_data.get(st.host_id) {
                    Some(p) => {
                        if p.addr == addr {
                            proof {
                                assert({
                                    let s2 = (#[trigger] self.sessions.items@[
                                        i as int]).1.state;
                                    s2.host_id != 0
                                        && s2.player_data@.dom().contains(s2.host_id)
                                        && s2.player_data@[s2.host_id].addr == addr
                                });
                            }
                            return true;
                        }
                    },
                    None => {},
                }
            }
            i = i + 1;
        }
        false
    }

    /// The session (and the player id within it) owning a connection.
    fn find_session_for_addr(&self, addr: u64) -> (r: Option<(u64, u64)>)
        requires
            self.wf(),
        ensures
            r matches Some(f) ==> self.sessions.spec_contains(f.0),
            r is Some ==> addr_session_owned(self.sessions.items@, addr),
            r is None ==> !addr_session_owned(self.sessions.items@, addr),
    {
        let items = self.sessions.items_ref();
        let mut i: usize = 0;
        while i < items.len()
            invariant
                i <= items@.len(),
                items == &self.sessions.items,
                self.wf(),
                forall|p: int, q: int| 0 <= p < i
                    && 0 <= q < session_net(#[trigger] self.sessions.items@[p]).len()
                    ==> (#[trigger] session_net(self.sessions.items@[p])[q]).1.addr != addr,
            decreases items@.len() - i,
        {
            let net_items = items[i].1.state.net.channels.items_ref();
            let mut j: usize = 0;
            while j < net_items.len()
                invariant
                    j <= net_items@.len(),
                    i < items@.len(),
                    items == &self.sessions.items,
                    net_items == &self.sessions.items@[i as int].1.state.net.channels.items,
                    forall|q: int| 0 <= q < j
                        ==> (#[trigger] session_net(
                            self.sessions.items@[i as int])[q]).1.addr != addr,
                decreases net_items@.len() - j,
            {
                if net_items[j].1.addr == addr {
                    proof {
                        assert((#[trigger] self.sessions.items@[i as int]).0
                            == self.sessions.items@[i as int].0);
                        assert(session_net(self.sessions.items@[i as int])[j as int]
                            .1.addr == addr);
                    }
                    return Some((items[i].0, net_items[j].0));
                }
                proof {
                    assert(session_net(self.sessions.items@[i as int])[j as int].1.addr
                        != addr);
                }
                j = j + 1;
            }
            i = i + 1;
        }
        proof {
            if addr_session_owned(self.sessions.items@, addr) {
                let (p, q) = choose|p: int, q: int| 0 <= p < self.sessions.items@.len()
                    && 0 <= q < session_net(#[trigger] self.sessions.items@[p]).len()
                    && (#[trigger] session_net(self.sessions.items@[p])[q]).1.addr == addr;
                assert(session_net(self.sessions.items@[p])[q].1.addr != addr);
            }
        }
        None
    }

    /// Routes one event from the transport layer: connection lifecycle,
    /// registry-held requests (queries, session and user creation, login),
    /// and session-bound play messages, which go to the owning session.
    pub fn process_channel_msg(&mut self, msg: ChannelData, now: u64)
        requires
            old(self).wf(),
            now <= crate::session::NOW_MAX,
        ensures
            final(self).wf(),
            final(self).config == old(self).config,
            msg matches ChannelData::Connect { addr } ==> {
                &&& !old(self).channels.spec_contains(addr)
                    && !addr_session_owned(old(self).sessions.items@, addr)
                    ==> final(self).channels@ == old(self).channels@.insert(
                        addr, PlayerChannel { addr })
                        && final(self).sessions == old(self).sessions
                &&& old(self).channels.spec_contains(addr)
                    || addr_session_owned(old(self).sessions.items@, addr)
                    ==> *final(self) == *old(self)
            },
            msg matches ChannelData::Disconnect { addr }
                ==> final(self).channels@ == old(self).channels@.remove(addr)
                    && final(self).sessions == old(self).sessions,
            msg matches ChannelData::Message { addr, msg: rx } ==> {
                &&& (rx matches RxData::CreateSession { username, .. }
                    ==> session_creation_outcome(*old(self), *final(self), addr,
                        username))
                &&& (rx matches RxData::CreateUser { session_id, username }
                    ==> create_user_routed(*old(self), *final(self), addr, session_id,
                        username))
                &&& (rx matches RxData::Login { session_id, user_id }
                    ==> login_routed(*old(self), *final(self), addr, session_id,
                        user_id))
                &&& (rx matches RxData::Query { .. }
                    ==> final(self).sessions == old(self).sessions
                        && final(self).channels == old(self).channels)
            },
    {
        match msg {
            ChannelData::Connect { addr } => {
                self.on_connect(addr);
            },
            ChannelData::Disconnect { addr } => {
                self.on_disconnect(addr);
            },
            ChannelData::Message { addr, msg } => {
                self.route_message(addr, msg, now);
            },
        }
    }

    /// Routes one parsed message.
    fn route_message(&mut self, addr: u64, msg: RxData, now: u64)
        requires
            old(self).wf(),
            now <= crate::session::NOW_MAX,
        ensures
            final(self).wf(),
            final(self).config == old(self).config,
            msg matches RxData::CreateSession { username, .. }
                ==> session_creation_outcome(*old(self), *final(self), addr, username),
            msg matches RxData::CreateUser { session_id, username }
                ==> create_user_routed(*old(self), *final(self), addr, session_id,
                    username),
            msg matches RxData::Login { session_id, user_id }
                ==> login_routed(*old(self), *final(self), addr, session_id, user_id),
            // queries and play messages never touch the registry
            msg matches RxData::Query { .. } ==> final(self).sessions == old(self).sessions
                && final(self).channels == old(self).channels,
            !(msg matches RxData::CreateSession { .. })
                && !(msg matches RxData::CreateUser { .. })
                && !(msg matches RxData::Login { .. })
                ==> final(self).channels == old(self).channels
                    && final(self).next_session_id == old(self).next_session_id,
    {
        match msg {
            RxData::Query { query } => {
                self.handle_query(addr, query, now);
            },
            RxData::CreateSession { username, session_name, wait_time } => {
                self.create_session(addr, wait_time, username, session_name, now);
            },
            RxData::CreateUser { session_id, username } => {
                self.forward_create_user(addr, session_id, username, now);
            },
            RxData::Login { session_id, user_id } => {
                self.forward_login(addr, session_id, user_id, now);
            },
            _ => {
                match self.find_session_for_addr(addr) {
                    Some(owner) => {
                        self.forward_to_session(owner.0, owner.1, msg, now);
                    },
                    None => {},
                }
            },
        }
    }

    /// Hands one play message to the session owning the connection: the
    /// entry is taken out of the table, operated on by value, and put
    /// back under the same id.
    #[verifier::rlimit(100)]
    fn forward_to_session(&mut self, session_id: u64, player_id: u64, msg: RxData, now: u64)
        requires
            old(self).wf(),
            now <= crate::session::NOW_MAX,
        ensures
            final(self).wf(),
            final(self).config == old(self).config,
            final(self).channels == old(self).channels,
            final(self).next_session_id == old(self).next_session_id,
    {
        let ghost pre_table = self.sessions.items@;
        let popped = self.sessions.pop(session_id);
        match popped {
            None => {},
            Some(e) => {
                let ghost kidx = spec_key_index(pre_table, session_id);
                let mut entry = e.1;
                proof {
                    lemma_popped_entry_ok(pre_table, session_id, self.next_session_id, e);
                    lemma_pop_table(pre_table, session_id, self.next_session_id);
                    lemma_disjoint_sess_pop(self.channels.items@, pre_table, session_id);
                    lemma_entry_free_of_registry(self.channels.items@, pre_table, kidx);
                    lemma_seq_to_map(pre_table);
                    assert(seq_to_map(pre_table)[pre_table[kidx].0] == pre_table[kidx].1);
                    assert(session_net(pre_table[kidx]) == entry.state.net.channels.items@);
                }
                entry.session.on_recv(&mut entry.state, &mut self.tx_queue,
                    player_id, msg, now);
                let ghost mid_table = self.sessions.items@;
                let pushed = self.sessions.push(session_id, entry);
                proof {
                    assert(pushed);
                    lemma_push_table(mid_table, self.sessions.items@, session_id, entry,
                        self.next_session_id);
                    lemma_disjoint_sess_push(self.channels.items@, mid_table,
                        self.sessions.items@, session_id, entry);
                }
            },
        }
    }

    /// Forwards a `CreateUser` to the named session, transferring the
    /// requester's channel from the registry to the session on success and
    /// back on failure.
    #[verifier::rlimit(100)]
    fn forward_create_user(&mut self, addr: u64, session_id: u64, username: String, now: u64)
        requires
            old(self).wf(),
            now <= crate::session::NOW_MAX,
        ensures
            final(self).wf(),
            final(self).config == old(self).config,
            final(self).next_session_id == old(self).next_session_id,
            final(self).tx_queue.queue@.subrange(0, old(self).tx_queue.queue@.len() as int)
                == old(self).tx_queue.queue@,
            final(self).tx_queue.closable@ == old(self).tx_queue.closable@,
            create_user_routed(*old(self), *final(self), addr, session_id, username),
    {
        proof {
            assert(self.tx_queue.queue@.subrange(
                0, self.tx_queue.queue@.len() as int) =~= self.tx_queue.queue@);
            lemma_seq_to_map(self.channels.items@);
        }
        let has_session = match self.sessions.get(session_id) {
            Some(_) => true,
            None => false,
        };
        if !has_session {
            return ;
        }
        let popped_chan = self.channels.pop(addr);
        let channel = match popped_chan {
            Some(c) => c.1,
            None => {
                return ;
            },
        };
        proof {
            lemma_registry_pop(old(self).channels.items@, addr);
            assert(channel.addr == addr) by {
                crate::sessions_manager::lemma_seq_to_map(old(self).channels.items@);
                let j = crate::sessions_manager::spec_key_index(
                    old(self).channels.items@, addr);
                assert(old(self).channels.items@[j].1.addr
                    == old(self).channels.items@[j].0);
            }
        }
        let ghost reg0 = old(self).channels.items@;
        let ghost reg1 = self.channels.items@;
        let ghost ka = crate::sessions_manager::spec_key_index(reg0, addr);
        proof {
            lemma_disjoint_reg_pop(reg0, old(self).sessions.items@, addr);
            lemma_reg_addr_free_of_sessions(reg0, old(self).sessions.items@, ka);
        }
        let ghost pre_table = self.sessions.items@;
        proof {
            lemma_seq_to_map(pre_table);
        }
        let popped = self.sessions.pop(session_id);
        match popped {
            None => {
                proof {
                    // the session was just looked up, so the pop cannot miss
                    assert(false);
                }
                let _ = self.channels.push(addr, channel);
            },
            Some(e) => {
                let ghost ks = spec_key_index(pre_table, session_id);
                let mut entry = e.1;
                let ghost net0 = entry.state.net.channels.items@;
                proof {
                    lemma_popped_entry_ok(pre_table, session_id, self.next_session_id, e);
                    lemma_pop_table(pre_table, session_id, self.next_session_id);
                    lemma_disjoint_sess_pop(reg1, pre_table, session_id);
                    lemma_entry_free_of_registry(reg1, pre_table, ks);
                    lemma_seq_to_map(pre_table);
                    assert(seq_to_map(pre_table)[pre_table[ks].0] == pre_table[ks].1);
                    assert(session_net(pre_table[ks]) == net0);
                    lemma_owned_after_pop(pre_table, ks, addr);
                    // the popped session holds no channel under this address
                    assert forall|j: int| 0 <= j < net0.len()
                        implies (#[trigger] net0[j]).1.addr != addr by {
                        if net0[j].1.addr == addr {
                            assert(session_net(pre_table[ks])[j].1.addr == addr);
                            assert(addr_session_owned(old(self).sessions.items@, addr));
                        }
                    }
                }
                let ghost st0 = entry.state;
                let r = entry.session.create_user(&mut entry.state, &mut self.tx_queue,
                    addr, channel, username, now);
                let ghost was_ok = r is Ok;
                match r {
                    Ok(_) => {
                        proof {
                            assert forall|rr: int, j: int|
                                0 <= rr < self.channels.items@.len()
                                && 0 <= j < entry.state.net.channels.items@.len()
                                implies (#[trigger] self.channels.items@[rr]).0
                                    != (#[trigger] entry.state.net.channels.items@[j])
                                        .1.addr by {
                                if j < net0.len() {
                                    assert(entry.state.net.channels.items@[j] == net0[j]);
                                } else {
                                    assert(entry.state.net.channels.items@[j].1.addr
                                        == addr);
                                    if self.channels.items@[rr].0 == addr {
                                        assert(spec_contains_key(
                                            self.channels.items@, addr));
                                    }
                                }
                            }
                        }
                    },
                    Err(ch) => {
                        let ghost mid_reg = self.channels.items@;
                        let back = self.channels.push(addr, ch);
                        proof {
                            assert(back);
                            lemma_registry_push(mid_reg, self.channels.items@, addr, ch);
                            lemma_disjoint_reg_push(mid_reg, self.channels.items@,
                                self.sessions.items@, addr, ch);
                            assert forall|rr: int, j: int|
                                0 <= rr < self.channels.items@.len()
                                && 0 <= j < entry.state.net.channels.items@.len()
                                implies (#[trigger] self.channels.items@[rr]).0
                                    != (#[trigger] entry.state.net.channels.items@[j])
                                        .1.addr by {
                                if rr < mid_reg.len() {
                                    assert(self.channels.items@[rr] == mid_reg[rr]);
                                } else {
                                    assert(self.channels.items@[rr].0 == addr);
                                }
                            }
                        }
                    },
                }
                let ghost mid_table = self.sessions.items@;
                let pushed = self.sessions.push(session_id, entry);
                proof {
                    assert(pushed);
                    lemma_push_table(mid_table, self.sessions.items@, session_id, entry,
                        self.next_session_id);
                    lemma_disjoint_sess_push(self.channels.items@, mid_table,
                        self.sessions.items@, session_id, entry);
                    assert(st0 == old(self).sessions@[session_id].state);
                    assert(self.sessions@
                        == old(self).sessions@.remove(session_id).insert(
                            session_id, entry));
                    if was_ok {
                        assert(self.sessions@.dom()
                            =~= old(self).sessions@.dom());
                        assert(self.sessions@[session_id].state == entry.state);
                    } else {
                        assert(entry == e.1);
                        assert(self.sessions@ =~= old(self).sessions@);
                        assert(self.channels@ =~= old(self).channels@);
                    }
                }
            },
        }
    }

    /// Forwards a `Login` to the named session, with the same channel
    /// hand-off discipline as `forward_create_user`.
    #[verifier::rlimit(100)]
    fn forward_login(&mut self, addr: u64, session_id: u64, user_id: u64, now: u64)
        requires
            old(self).wf(),
            now <= crate::session::NOW_MAX,
        ensures
            final(self).wf(),
            final(self).config == old(self).config,
            final(self).next_session_id == old(self).next_session_id,
            final(self).tx_queue.queue@.subrange(0, old(self).tx_queue.queue@.len() as int)
                == old(self).tx_queue.queue@,
            final(self).tx_queue.closable@ == old(self).tx_queue.closable@,
            login_routed(*old(self), *final(self), addr, session_id, user_id),
    {
        proof {
            assert(self.tx_queue.queue@.subrange(
                0, self.tx_queue.queue@.len() as int) =~= self.tx_queue.queue@);
            lemma_seq_to_map(self.channels.items@);
        }
        let has_session = match self.sessions.get(session_id) {
            Some(_) => true,
            None => false,
        };
        if !has_session {
            return ;
        }
        let popped_chan = self.channels.pop(addr);
        let channel = match popped_chan {
            Some(c) => c.1,
            None => {
                return ;
            },
        };
        proof {
            lemma_registry_pop(old(self).channels.items@, addr);
            assert(channel.addr == addr) by {
                crate::sessions_manager::lemma_seq_to_map(old(self).channels.items@);
                let j = crate::sessions_manager::spec_key_index(
                    old(self).channels.items@, addr);
                assert(old(self).channels.items@[j].1.addr
                    == old(self).channels.items@[j].0);
            }
        }
        let ghost reg0 = old(self).channels.items@;
        let ghost reg1 = self.channels.items@;
        let ghost ka = crate::sessions_manager::spec_key_index(reg0, addr);
        proof {
            lemma_disjoint_reg_pop(reg0, old(self).sessions.items@, addr);
            lemma_reg_addr_free_of_sessions(reg0, old(self).sessions.items@, ka);
        }
        let ghost pre_table = self.sessions.items@;
        proof {
            lemma_seq_to_map(pre_table);
        }
        let popped = self.sessions.pop(session_id);
        match popped {
            None => {
                proof {
                    // the session was just looked up, so the pop cannot miss
                    assert(false);
                }
                let _ = self.channels.push(addr, channel);
            },
            Some(e) => {
                let ghost ks = spec_key_index(pre_table, session_id);
                let mut entry = e.1;
                let ghost net0 = entry.state.net.channels.items@;
                proof {
                    lemma_popped_entry_ok(pre_table, session_id, self.next_session_id, e);
                    lemma_pop_table(pre_table, session_id, self.next_session_id);
                    lemma_disjoint_sess_pop(reg1, pre_table, session_id);
                    lemma_entry_free_of_registry(reg1, pre_table, ks);
                    lemma_seq_to_map(pre_table);
                    assert(seq_to_map(pre_table)[pre_table[ks].0] == pre_table[ks].1);
                    assert(session_net(pre_table[ks]) == net0);
                    lemma_owned_after_pop(pre_table, ks, addr);
                    // the popped session holds no channel under this address
                    assert forall|j: int| 0 <= j < net0.len()
                        implies (#[trigger] net0[j]).1.addr != addr by {
                        if net0[j].1.addr == addr {
                            assert(session_net(pre_table[ks])[j].1.addr == addr);
                            assert(addr_session_owned(old(self).sessions.items@, addr));
                        }
                    }
                }
                let ghost st0 = entry.state;
                let r = entry.session.login_user(&mut entry.state, &mut self.tx_queue,
                    addr, user_id, channel);
                let ghost was_ok = r is Ok;
                match r {
                    Ok(_) => {
                        proof {
                            assert forall|rr: int, j: int|
                                0 <= rr < self.channels.items@.len()
                                && 0 <= j < entry.state.net.channels.items@.len()
                                implies (#[trigger] self.channels.items@[rr]).0
                                    != (#[trigger] entry.state.net.channels.items@[j])
                                        .1.addr by {
                                let a2 = entry.state.net.channels.items@[j].1.addr;
                                if a2 == addr {
                                    if self.channels.items@[rr].0 == addr {
                                        assert(spec_contains_key(
                                            self.channels.items@, addr));
                                    }
                                } else {
                                    let k2 = choose|k2: int| 0 <= k2 < net0.len()
                                        && (#[trigger] net0[k2]).1.addr == a2;
                                    assert(self.channels.items@[rr].0 != net0[k2].1.addr);
                                }
                            }
                        }
                    },
                    Err(ch) => {
                        let ghost mid_reg = self.channels.items@;
                        let back = self.channels.push(addr, ch);
                        proof {
                            assert(back);
                            lemma_registry_push(mid_reg, self.channels.items@, addr, ch);
                            lemma_disjoint_reg_push(mid_reg, self.channels.items@,
                                self.sessions.items@, addr, ch);
                            assert forall|rr: int, j: int|
                                0 <= rr < self.channels.items@.len()
                                && 0 <= j < entry.state.net.channels.items@.len()
                                implies (#[trigger] self.channels.items@[rr]).0
                                    != (#[trigger] entry.state.net.channels.items@[j])
                                        .1.addr by {
                                if rr < mid_reg.len() {
                                    assert(self.channels.items@[rr] == mid_reg[rr]);
                                } else {
                                    assert(self.channels.items@[rr].0 == addr);
                                }
                            }
                        }
                    },
                }
                let ghost mid_table = self.sessions.items@;
                let pushed = self.sessions.push(session_id, entry);
                proof {
                    assert(pushed);
                    lemma_push_table(mid_table, self.sessions.items@, session_id, entry,
                        self.next_session_id);
                    lemma_disjoint_sess_push(self.channels.items@, mid_table,
                        self.sessions.items@, session_id, entry);
                    assert(st0 == old(self).sessions@[session_id].state);
                    assert(self.sessions@
                        == old(self).sessions@.remove(session_id).insert(
                            session_id, entry));
                    if was_ok {
                        assert(self.sessions@.dom()
                            =~= old(self).sessions@.dom());
                        assert(self.sessions@[session_id].state == entry.state);
                    } else {
                        assert(entry == e.1);
                        assert(self.sessions@ =~= old(self).sessions@);
                        assert(self.channels@ =~= old(self).channels@);
                    }
                }
            },
        }
    }

    /// Answers a query from the session-table contents.
    pub fn handle_query(&mut self, addr: u64, query: QueryType, now: u64)
        requires
            old(self).wf(),
            now <= crate::session::NOW_MAX,
        ensures
            final(self).wf(),
            final(self).config == old(self).config,
            final(self).sessions == old(self).sessions,
            final(self).channels == old(self).channels,
            final(self).next_session_id == old(self).next_session_id,
            final(self).tx_queue.queue@.subrange(0, old(self).tx_queue.queue@.len() as int)
                == old(self).tx_queue.queue@,
            final(self).tx_queue.closable@ == old(self).tx_queue.closable@,
            // a leaderboard query for a known session is answered with
            // that session's sorted scores; unknown sessions are dropped
            query matches QueryType::LeaderBoard { session_id } ==> {
                &&& (old(self).sessions.spec_contains(session_id) ==> {
                    &&& final(self).tx_queue.queue@.len()
                        == old(self).tx_queue.queue@.len() + 1
                    &&& (final(self).tx_queue.queue@.last().1 matches TxData::QueryResponse {
                        query_res }
                        && (query_res matches QueryResponseType::LeaderBoard {
                            session_id: sid, scores }
                            && sid == session_id
                            && sorted_by_score(scores@)
                            && scores@.len() == old(self).sessions@[session_id]
                                .state.player_data.items@.len()
                            && scores@.to_multiset() == leaderboard_entries(
                                old(self).sessions@[session_id].state.player_data.items@,
                                live_score(old(self).sessions@[session_id].state.status,
                                    now)).to_multiset()))
                    &&& final(self).tx_queue.queue@.last().0@ == seq![addr]
                })
                &&& (!old(self).sessions.spec_contains(session_id)
                    ==> *final(self) == *old(self))
            },
            // a status query for a known session is answered with the
            // per-variant time
            query matches QueryType::SessionStatus { session_id } ==> {
                &&& (old(self).sessions.spec_contains(session_id) ==> {
                    &&& final(self).tx_queue.queue@.len()
                        == old(self).tx_queue.queue@.len() + 1
                    &&& (final(self).tx_queue.queue@.last().1 matches TxData::QueryResponse {
                        query_res }
                        && (query_res matches QueryResponseType::SessionStatus { time, .. }
                            && time == status_time(
                                old(self).sessions@[session_id].state.status, now)))
                    &&& final(self).tx_queue.queue@.last().0@ == seq![addr]
                })
                &&& (!old(self).sessions.spec_contains(session_id)
                    ==> *final(self) == *old(self))
            },
            // a sessions listing reports one row per session: its id, its
            // name, its coarse status and its roster's usernames
            query matches QueryType::Sessions ==> {
                &&& final(self).tx_queue.queue@.len() == old(self).tx_queue.queue@.len() + 1
                &&& (final(self).tx_queue.queue@.last().1 matches TxData::QueryResponse {
                    query_res }
                    && (query_res matches QueryResponseType::Sessions { sessions }
                        && sessions@.len() == old(self).sessions.items@.len()
                        && forall|k: int| 0 <= k < sessions@.len() ==> {
                            let e = (#[trigger] old(self).sessions.items@[k]).1;
                            sessions@[k].0 == old(self).sessions.items@[k].0
                                && sessions@[k].1@ == e.state.session_name@
                                && sessions@[k].2 == spec_simplified(e.state.status)
                                && sessions@[k].3@.len()
                                    == e.state.player_data.items@.len()
                        }))
                &&& final(self).tx_queue.queue@.last().0@ == seq![addr]
            },
    {
        match query {
            QueryType::LeaderBoard { session_id } => {
                let found = self.sessions.get(session_id);
                match found {
                    Some(e) => {
                        proof {
                            lemma_lookup_entry_ok(*old(self), session_id, *e);
                        }
                        let scores = e.session.get_leaderboard(&e.state, now);
                        self.tx_queue.send_to_addr(addr, TxData::QueryResponse {
                            query_res: QueryResponseType::LeaderBoard {
                                session_id,
                                scores,
                            },
                        });
                    },
                    None => {},
                }
            },
            QueryType::SessionStatus { session_id } => {
                let found = self.sessions.get(session_id);
                match found {
                    Some(e) => {
                        proof {
                            lemma_lookup_entry_ok(*old(self), session_id, *e);
                        }
                        let (tag, time) = e.session.get_status(&e.state, now);
                        self.tx_queue.send_to_addr(addr, TxData::QueryResponse {
                            query_res: QueryResponseType::SessionStatus {
                                status: tag,
                                time,
                            },
                        });
                    },
                    None => {},
                }
            },
            QueryType::Sessions => {
                let listing = self.list_sessions();
                self.tx_queue.send_to_addr(addr, TxData::QueryResponse {
                    query_res: QueryResponseType::Sessions { sessions: listing },
                });
            },
        }
    }

    /// One row per session: id, display name, coarse status, usernames.
    fn list_sessions(&self) -> (rows: Vec<(u64, String, SessionStatusSimplified, Vec<String>)>)
        requires
            self.wf(),
        ensures
            rows@.len() == self.sessions.items@.len(),
            forall|k: int| 0 <= k < rows@.len() ==> {
                let e = (#[trigger] self.sessions.items@[k]).1;
                rows@[k].0 == self.sessions.items@[k].0
                    && rows@[k].1@ == e.state.session_name@
                    && rows@[k].2 == spec_simplified(e.state.status)
                    && rows@[k].3@.len() == e.state.player_data.items@.len()
            },
    {
        let items = self.sessions.items_ref();
        let mut rows: Vec<(u64, String, SessionStatusSimplified, Vec<String>)> = Vec::new();
        let mut i: usize = 0;
        while i < items.len()
            invariant
                i <= items@.len(),
                items == &self.sessions.items,
                rows@.len() == i,
                forall|k: int| 0 <= k < rows@.len() ==> {
                    let e = (#[trigger] self.sessions.items@[k]).1;
                    rows@[k].0 == self.sessions.items@[k].0
                        && rows@[k].1@ == e.state.session_name@
                        && rows@[k].2 == spec_simplified(e.state.status)
                        && rows@[k].3@.len() == e.state.player_data.items@.len()
                },
            decreases items@.len() - i,
        {
            let e = &items[i].1;
            let status = match e.state.status {
                SessionStatus::Waiting { .. } | SessionStatus::Uninit =>
                    SessionStatusSimplified::Waiting,
                SessionStatus::Active { .. } | SessionStatus::Countdown { .. } =>
                    SessionStatusSimplified::Busy,
                SessionStatus::Ended => SessionStatusSimplified::Ended,
            };
            let players = e.state.player_data.items_ref();
            let mut names: Vec<String> = Vec::new();
            let mut j: usize = 0;
            while j < players.len()
                invariant
                    j <= players@.len(),
                    i < items@.len(),
                    items == &self.sessions.items,
                    players == &self.sessions.items@[i as int].1.state.player_data.items,
                    names@.len() == j,
                decreases players@.len() - j,
            {
                names.push(players[j].1.username().clone());
                j = j + 1;
            }
            rows.push((items[i].0, e.state.session_name.clone(), status, names));
            i = i + 1;
        }
        rows
    }

    /// Removes a session from the table, marking each of its player
    /// connections for the transport layer to close (the released side of
    /// the ownership hand-off).
    #[verifier::rlimit(60)]
    pub fn close_session(&mut self, s_id: u64)
        requires
            old(self).wf(),
        ensures
            final(self).wf(),
            final(self).config == old(self).config,
            final(self).sessions@ == old(self).sessions@.remove(s_id),
    {
        let popped = self.sessions.pop(s_id);
        match popped {
            None => {
                proof {
                    crate::sessions_manager::lemma_seq_to_map(old(self).sessions.items@);
                    assert(final(self).sessions@ =~= old(self).sessions@.remove(s_id));
                }
            },
            Some(e) => {
                let net_items = e.1.state.net.channels.items_ref();
                let mut j: usize = 0;
                while j < net_items.len()
                    invariant
                        j <= net_items@.len(),
                        net_items@ == e.1.state.net.channels.items@,
                        self.wf(),
                        self.config == old(self).config,
                        self.sessions@ == old(self).sessions@.remove(s_id),
                    decreases net_items@.len() - j,
                {
                    self.tx_queue.close_con(net_items[j].1.addr);
                    j = j + 1;
                }
            },
        }
    }

    /// One pass of the tick loop: every session's `game_loop` runs once —
    /// due timers fire, a game past its deadline ends — and every session
    /// that has reached `Ended` is removed, each of its channel addresses
    /// marked for the transport layer to close.
    #[verifier::rlimit(100)]
    #[verifier::spinoff_prover]
    pub fn run(&mut self, now: u64)
        requires
            old(self).wf(),
            now <= crate::session::NOW_MAX,
        ensures
            final(self).wf(),
            final(self).config == old(self).config,
            final(self).channels == old(self).channels,
            final(self).next_session_id == old(self).next_session_id,
            final(self).tx_queue.queue@.subrange(0, old(self).tx_queue.queue@.len() as int)
                == old(self).tx_queue.queue@,
            final(self).tx_queue.closable@.subrange(
                0, old(self).tx_queue.closable@.len() as int)
                == old(self).tx_queue.closable@,
            forall|i: int| 0 <= i < final(self).sessions.items@.len()
                ==> !((#[trigger] final(self).sessions.items@[i]).1.state.status is Ended),
            // no session is invented
            forall|i: int| 0 <= i < final(self).sessions.items@.len()
                ==> old(self).sessions@.dom().contains(
                    (#[trigger] final(self).sessions.items@[i]).0),
            // sessions not yet running always survive the pass
            forall|i: int| 0 <= i < old(self).sessions.items@.len()
                && status_rank((#[trigger] old(self).sessions.items@[i]).1.state.status)
                    <= 2
                ==> final(self).sessions@.dom().contains(old(self).sessions.items@[i].0),
            // a running game survives exactly until its deadline passes
            forall|i: int| 0 <= i < old(self).sessions.items@.len() ==> {
                (#[trigger] old(self).sessions.items@[i]).1.state.status matches
                    SessionStatus::Active { start_time, max_duration }
                    ==> (final(self).sessions@.dom().contains(
                        old(self).sessions.items@[i].0)
                        <==> now <= start_time + max_duration)
            },
            // a due waiting timer launches its session's countdown
            forall|i: int| 0 <= i < old(self).sessions.items@.len() ==> {
                let e = #[trigger] old(self).sessions.items@[i];
                e.1.state.status is Waiting
                    && due_actions(e.1.session.timers.timers@, now)
                        .contains(SessionAction::LaunchAndPregenerate)
                    ==> final(self).sessions@[e.0].state.status is Countdown
            },
            // a due activation timer starts its session's game
            forall|i: int| 0 <= i < old(self).sessions.items@.len() ==> {
                let e = #[trigger] old(self).sessions.items@[i];
                e.1.state.status is Countdown
                    && due_actions(e.1.session.timers.timers@, now)
                        .contains(SessionAction::Activate)
                    ==> final(self).sessions@[e.0].state.status is Active
            },
            // every channel address of a removed session is marked closable
            forall|i: int, m: int| 0 <= i < old(self).sessions.items@.len()
                && !final(self).sessions@.dom().contains(
                    (#[trigger] old(self).sessions.items@[i]).0)
                && 0 <= m < session_net(old(self).sessions.items@[i]).len()
                ==> final(self).tx_queue.closable@.contains(
                    (#[trigger] session_net(old(self).sessions.items@[i])[m]).1.addr),
    {
        let ids = self.session_ids();
        proof {
            assert forall|p: int, q: int| 0 <= p < q < ids@.len()
                implies ids@[p] != ids@[q] by {
                assert(ids@[p] == (#[trigger] self.sessions.items@[p]).0);
                assert(ids@[q] == (#[trigger] self.sessions.items@[q]).0);
            }
            lemma_seq_to_map(self.sessions.items@);
            assert forall|j: int| 0 <= j < ids@.len()
                implies self.sessions@.dom().contains(#[trigger] ids@[j])
                    && self.sessions@[ids@[j]] == old(self).sessions.items@[j].1 by {
                assert(self.sessions.items@[j].0 == ids@[j]);
                assert(spec_contains_key(self.sessions.items@, ids@[j]));
                assert(seq_to_map(self.sessions.items@)[self.sessions.items@[j].0]
                    == self.sessions.items@[j].1);
            }
        }
        let mut k: usize = 0;
        while k < ids.len()
            invariant
                k <= ids@.len(),
                self.wf(),
                self.config == old(self).config,
                now <= crate::session::NOW_MAX,
                forall|p: int, q: int| 0 <= p < q < ids@.len()
                    ==> ids@[p] != ids@[q],
                ids@.len() == old(self).sessions.items@.len(),
                forall|j: int| 0 <= j < ids@.len()
                    ==> ids@[j] == (#[trigger] old(self).sessions.items@[j]).0,
                self.channels == old(self).channels,
                self.next_session_id == old(self).next_session_id,
                old(self).tx_queue.queue@.len() <= self.tx_queue.queue@.len(),
                self.tx_queue.queue@.subrange(0, old(self).tx_queue.queue@.len() as int)
                    == old(self).tx_queue.queue@,
                old(self).tx_queue.closable@.len() <= self.tx_queue.closable@.len(),
                self.tx_queue.closable@.subrange(
                    0, old(self).tx_queue.closable@.len() as int)
                    == old(self).tx_queue.closable@,
                forall|i: int| 0 <= i < self.sessions.items@.len()
                    ==> !((#[trigger] self.sessions.items@[i]).1.state.status is Ended)
                        || exists|j: int| k <= j < ids@.len()
                            && ids@[j] == self.sessions.items@[i].0,
                // the sessions not yet handled still carry their old value
                forall|j: int| k <= j < ids@.len()
                    ==> self.sessions@.dom().contains(#[trigger] ids@[j])
                        && self.sessions@[ids@[j]]
                            == old(self).sessions.items@[j].1,
                // no session is invented
                forall|i: int| 0 <= i < self.sessions.items@.len()
                    ==> old(self).sessions@.dom().contains(
                        (#[trigger] self.sessions.items@[i]).0),
                // handled sessions: survival and effects
                forall|j: int| 0 <= j < k
                    && status_rank((#[trigger] old(self).sessions.items@[j]).1
                        .state.status) <= 2
                    ==> self.sessions@.dom().contains(ids@[j]),
                forall|j: int| 0 <= j < k ==> {
                    (#[trigger] old(self).sessions.items@[j]).1.state.status matches
                        SessionStatus::Active { start_time, max_duration }
                        ==> (self.sessions@.dom().contains(ids@[j])
                            <==> now <= start_time + max_duration)
                },
                forall|j: int| 0 <= j < k ==> {
                    let e = #[trigger] old(self).sessions.items@[j];
                    e.1.state.status is Waiting
                        && due_actions(e.1.session.timers.timers@, now)
                            .contains(SessionAction::LaunchAndPregenerate)
                        ==> self.sessions@[e.0].state.status is Countdown
                },
                forall|j: int| 0 <= j < k ==> {
                    let e = #[trigger] old(self).sessions.items@[j];
                    e.1.state.status is Countdown
                        && due_actions(e.1.session.timers.timers@, now)
                            .contains(SessionAction::Activate)
                        ==> self.sessions@[e.0].state.status is Active
                },
                forall|j: int, m: int| 0 <= j < k
                    && !self.sessions@.dom().contains(#[trigger] ids@[j])
                    && 0 <= m < session_net(old(self).sessions.items@[j]).len()
                    ==> self.tx_queue.closable@.contains(
                        (#[trigger] session_net(old(self).sessions.items@[j])[m]).1.addr),
            decreases ids@.len() - k,
        {
            let sid = ids[k];
            let ghost pre_table = self.sessions.items@;
            let ghost closable0 = self.tx_queue.closable@;
            let ghost dom0 = self.sessions@;
            proof {
                lemma_seq_to_map(pre_table);
            }
            let popped = self.sessions.pop(sid);
            match popped {
                None => {
                    proof {
                        // the session for a pending id is still in the
                        // table, so the pop cannot miss
                        assert(false);
                    }
                },
                Some(e) => {
                    let ghost ks = spec_key_index(pre_table, sid);
                    let mut entry = e.1;
                    proof {
                        lemma_popped_entry_ok(pre_table, sid, self.next_session_id, e);
                        lemma_pop_table(pre_table, sid, self.next_session_id);
                        lemma_disjoint_sess_pop(self.channels.items@, pre_table, sid);
                        lemma_entry_free_of_registry(self.channels.items@, pre_table, ks);
                        assert(seq_to_map(pre_table)[pre_table[ks].0] == pre_table[ks].1);
                        assert(session_net(pre_table[ks])
                            == entry.state.net.channels.items@);
                        assert(entry == old(self).sessions.items@[k as int].1);
                    }
                    let finished = entry.session.game_loop(&mut entry.state,
                        &mut self.tx_queue, now);
                    let ended = match entry.state.status {
                        SessionStatus::Ended => true,
                        _ => false,
                    };
                    if ended {
                        let ghost table_now = self.sessions.items@;
                        let ghost closable_pre = self.tx_queue.closable@;
                        let net_items = entry.state.net.channels.items_ref();
                        let mut j: usize = 0;
                        while j < net_items.len()
                            invariant
                                j <= net_items@.len(),
                                net_items == &entry.state.net.channels.items,
                                self.wf(),
                                self.config == old(self).config,
                                self.sessions.items@ == table_now,
                                self.channels == old(self).channels,
                                self.next_session_id == old(self).next_session_id,
                                old(self).tx_queue.queue@.len()
                                    <= self.tx_queue.queue@.len(),
                                self.tx_queue.queue@.subrange(
                                    0, old(self).tx_queue.queue@.len() as int)
                                    == old(self).tx_queue.queue@,
                                closable_pre.len() <= self.tx_queue.closable@.len(),
                                self.tx_queue.closable@.subrange(
                                    0, closable_pre.len() as int) == closable_pre,
                                old(self).tx_queue.closable@.len() <= closable_pre.len(),
                                closable_pre.subrange(
                                    0, old(self).tx_queue.closable@.len() as int)
                                    == old(self).tx_queue.closable@,
                                forall|m: int| 0 <= m < j
                                    ==> self.tx_queue.closable@.contains(
                                        (#[trigger] net_items@[m]).1.addr),
                            decreases net_items@.len() - j,
                        {
                            let ghost c_pre = self.tx_queue.closable@;
                            self.tx_queue.close_con(net_items[j].1.addr);
                            proof {
                                assert(self.tx_queue.closable@.last()
                                    == net_items@[j as int].1.addr);
                                assert(self.tx_queue.closable@.subrange(
                                    0, closable_pre.len() as int) =~= closable_pre);
                                assert(self.tx_queue.closable@.subrange(
                                    0, old(self).tx_queue.closable@.len() as int)
                                    =~= old(self).tx_queue.closable@);
                                assert forall|m: int| 0 <= m < j + 1
                                    implies self.tx_queue.closable@.contains(
                                        (#[trigger] net_items@[m]).1.addr) by {
                                    if m < j {
                                        let w = choose|w: int| 0 <= w < c_pre.len()
                                            && c_pre[w] == net_items@[m].1.addr;
                                        assert(self.tx_queue.closable@[w]
                                            == c_pre[w]);
                                    } else {
                                        assert(self.tx_queue.closable@[
                                            self.tx_queue.closable@.len() - 1]
                                            == net_items@[m].1.addr);
                                    }
                                }
                            }
                            j = j + 1;
                        }
                        proof {
                            assert forall|m: int| 0 <= m
                                < session_net(old(self).sessions.items@[k as int]).len()
                                implies self.tx_queue.closable@.contains(
                                    (#[trigger] session_net(
                                        old(self).sessions.items@[k as int])[m])
                                        .1.addr) by {
                                assert(net_items@[m] == session_net(
                                    old(self).sessions.items@[k as int])[m]);
                            }
                            assert(!self.sessions@.dom().contains(ids@[k as int]));
                        }
                    } else {
                        let ghost mid_table = self.sessions.items@;
                        let pushed = self.sessions.push(sid, entry);
                        proof {
                            assert(pushed);
                            lemma_push_table(mid_table, self.sessions.items@, sid,
                                entry, self.next_session_id);
                            lemma_disjoint_sess_push(self.channels.items@, mid_table,
                                self.sessions.items@, sid, entry);
                        }
                    }
                },
            }
            proof {
                assert forall|i: int| 0 <= i < self.sessions.items@.len()
                    implies !((#[trigger] self.sessions.items@[i]).1.state.status
                        is Ended)
                        || exists|j: int| k + 1 <= j < ids@.len()
                            && ids@[j] == self.sessions.items@[i].0 by {
                    let key = self.sessions.items@[i].0;
                    if self.sessions.items@[i].1.state.status is Ended {
                        // the entry survived this step, so its key is not
                        // the one just handled, and its pending index moves
                        // past k
                        assert(key != sid);
                        let j = choose|j: int| k <= j < ids@.len() && ids@[j] == key;
                        assert(j != k);
                    }
                }
                // marks from earlier iterations survive: the closable list
                // only grows, and other sessions' membership is untouched
                assert(self.tx_queue.closable@.subrange(0, closable0.len() as int)
                    =~= closable0);
                assert forall|j: int, m: int| 0 <= j < k + 1
                    && !self.sessions@.dom().contains(#[trigger] ids@[j])
                    && 0 <= m < session_net(old(self).sessions.items@[j]).len()
                    implies self.tx_queue.closable@.contains(
                        (#[trigger] session_net(old(self).sessions.items@[j])[m])
                            .1.addr) by {
                    if j < k {
                        assert(ids@[j] != ids@[k as int]);
                        assert(dom0.dom().contains(ids@[j])
                            == self.sessions@.dom().contains(ids@[j]));
                        let w = choose|w: int| 0 <= w < closable0.len()
                            && closable0[w] == session_net(
                                old(self).sessions.items@[j])[m].1.addr;
                        assert(self.tx_queue.closable@.subrange(
                            0, closable0.len() as int)[w] == closable0[w]);
                        assert(self.tx_queue.closable@[w] == closable0[w]);
                    }
                }
            }
            k = k + 1;
        }
    }

    /// The keys of every session, in table order.
    fn session_ids(&self) -> (ids: Vec<u64>)
        ensures
            ids@.len() == self.sessions.items@.len(),
            forall|k: int| 0 <= k < ids@.len()
                ==> ids@[k] == (#[trigger] self.sessions.items@[k]).0,
    {
        let items = self.sessions.items_ref();
        let mut ids: Vec<u64> = Vec::new();
        let mut i: usize = 0;
        while i < items.len()
            invariant
                i <= items@.len(),
                items == &self.sessions.items,
                ids@.len() == i,
                forall|k: int| 0 <= k < ids@.len()
                    ==> ids@[k] == (#[trigger] self.sessions.items@[k]).0,
            decreases items@.len() - i,
        {
            ids.push(items[i].0);
            i = i + 1;
        }
        ids
    }
}

/// Swap-removing the entry for `sid` keeps every remaining entry in good
/// standing and takes `sid` out of the keys.
pub proof fn lemma_pop_table(pre: Seq<(u64, SessionEntry)>, sid: u64, next: u64)
    requires
        crate::sessions_manager::keys_unique(pre),
        forall|i: int| 0 <= i < pre.len() ==> entry_ok(#[trigger] pre[i], next),
        0 <= crate::sessions_manager::spec_key_index(pre, sid) < pre.len(),
        pre[crate::sessions_manager::spec_key_index(pre, sid)].0 == sid,
    ensures
        forall|i: int| 0 <= i
            < after_pop(pre, crate::sessions_manager::spec_key_index(pre, sid)).len()
            ==> entry_ok(#[trigger] after_pop(
                pre, crate::sessions_manager::spec_key_index(pre, sid))[i], next),
        !crate::sessions_manager::spec_contains_key(
            after_pop(pre, crate::sessions_manager::spec_key_index(pre, sid)), sid),
{
    let k = crate::sessions_manager::spec_key_index(pre, sid);
    let post = after_pop(pre, k);
    assert forall|i: int| 0 <= i < post.len()
        implies entry_ok(#[trigger] post[i], next) by {
        if i == k {
            assert(post[i] == pre[pre.len() - 1]);
        } else {
            assert(post[i] == pre[i]);
        }
    }
    assert forall|i: int| 0 <= i < post.len()
        implies (#[trigger] post[i]).0 != sid by {
        if i == k {
            assert(post[i] == pre[pre.len() - 1]);
            assert(k < pre.len() - 1);
        } else {
            assert(post[i] == pre[i]);
        }
    }
}

/// Pushing a good entry under a fresh key keeps every entry in good
/// standing.
pub proof fn lemma_push_table(pre: Seq<(u64, SessionEntry)>,
                              post: Seq<(u64, SessionEntry)>, sid: u64,
                              entry: SessionEntry, next: u64)
    requires
        forall|i: int| 0 <= i < pre.len() ==> entry_ok(#[trigger] pre[i], next),
        post == pre.push((sid, entry)),
        entry_ok((sid, entry), next),
    ensures
        forall|i: int| 0 <= i < post.len() ==> entry_ok(#[trigger] post[i], next),
{
    assert forall|i: int| 0 <= i < post.len()
        implies entry_ok(#[trigger] post[i], next) by {
        if i < pre.len() {
            assert(post[i] == pre[i]);
        } else {
            assert(post[i] == (sid, entry));
        }
    }
}

/// The entry a successful lookup or pop hands out is in good standing.
pub proof fn lemma_popped_entry_ok(pre: Seq<(u64, SessionEntry)>, sid: u64, next: u64,
                                   e: (u64, SessionEntry))
    requires
        keys_unique(pre),
        forall|i: int| 0 <= i < pre.len() ==> entry_ok(#[trigger] pre[i], next),
        0 <= spec_key_index(pre, sid) < pre.len(),
        pre[spec_key_index(pre, sid)].0 == sid,
        e.1 == seq_to_map(pre)[sid],
        e.0 == sid,
    ensures
        entry_ok(e, next),
{
    lemma_seq_to_map(pre);
    let k = spec_key_index(pre, sid);
    assert(seq_to_map(pre)[pre[k].0] == pre[k].1);
    assert(entry_ok(pre[k], next));
}

/// Swap-removing a registry entry keeps every remaining entry keyed by
/// its channel's address, and takes the address out of the keys.
pub proof fn lemma_registry_pop(pre: Seq<(u64, PlayerChannel)>, addr: u64)
    requires
        keys_unique(pre),
        forall|i: int| 0 <= i < pre.len()
            ==> (#[trigger] pre[i]).1.addr == pre[i].0,
        0 <= spec_key_index(pre, addr) < pre.len(),
        pre[spec_key_index(pre, addr)].0 == addr,
    ensures
        forall|i: int| 0 <= i
            < pre.update(spec_key_index(pre, addr), pre.last()).drop_last().len()
            ==> (#[trigger] pre.update(
                spec_key_index(pre, addr), pre.last()).drop_last()[i]).1.addr
                == pre.update(spec_key_index(pre, addr), pre.last()).drop_last()[i].0,
        !spec_contains_key(
            pre.update(spec_key_index(pre, addr), pre.last()).drop_last(), addr),
{
    let k = spec_key_index(pre, addr);
    let post = pre.update(k, pre.last()).drop_last();
    assert forall|i: int| 0 <= i < post.len()
        implies (#[trigger] post[i]).1.addr == post[i].0 && post[i].0 != addr by {
        if i == k {
            assert(post[i] == pre[pre.len() - 1]);
            assert(k < pre.len() - 1);
        } else {
            assert(post[i] == pre[i]);
        }
    }
}

/// Handing a channel back in keeps every registry entry keyed by its
/// channel's address.
pub proof fn lemma_registry_push(pre: Seq<(u64, PlayerChannel)>,
                                 post: Seq<(u64, PlayerChannel)>, addr: u64,
                                 ch: PlayerChannel)
    requires
        forall|i: int| 0 <= i < pre.len()
            ==> (#[trigger] pre[i]).1.addr == pre[i].0,
        post == pre.push((addr, ch)),
        ch.addr == addr,
    ensures
        forall|i: int| 0 <= i < post.len()
            ==> (#[trigger] post[i]).1.addr == post[i].0,
{
    assert forall|i: int| 0 <= i < post.len()
        implies (#[trigger] post[i]).1.addr == post[i].0 by {
        if i < pre.len() {
            assert(post[i] == pre[i]);
        } else {
            assert(post[i] == (addr, ch));
        }
    }
}

/// Taking a channel out of the registry cannot create a second owner.
pub proof fn lemma_disjoint_reg_pop(reg: Seq<(u64, PlayerChannel)>,
                                    sessions: Seq<(u64, SessionEntry)>, addr: u64)
    requires
        ownership_disjoint(reg, sessions),
        0 <= spec_key_index(reg, addr) < reg.len(),
    ensures
        ownership_disjoint(
            reg.update(spec_key_index(reg, addr), reg.last()).drop_last(), sessions),
{
    let k = spec_key_index(reg, addr);
    let reg2 = reg.update(k, reg.last()).drop_last();
    assert forall|r: int, i: int, j: int|
        0 <= r < reg2.len() && 0 <= i < sessions.len()
            && 0 <= j < session_net(#[trigger] sessions[i]).len()
        implies (#[trigger] reg2[r]).0
            != (#[trigger] session_net(sessions[i])[j]).1.addr by {
        if r == k {
            assert(reg2[r] == reg[reg.len() - 1]);
        } else {
            assert(reg2[r] == reg[r]);
        }
    }
}

/// A channel may return to the registry if no session holds its address.
pub proof fn lemma_disjoint_reg_push(reg: Seq<(u64, PlayerChannel)>,
                                     reg2: Seq<(u64, PlayerChannel)>,
                                     sessions: Seq<(u64, SessionEntry)>, addr: u64,
                                     ch: PlayerChannel)
    requires
        ownership_disjoint(reg, sessions),
        reg2 == reg.push((addr, ch)),
        !addr_session_owned(sessions, addr),
    ensures
        ownership_disjoint(reg2, sessions),
{
    assert forall|r: int, i: int, j: int|
        0 <= r < reg2.len() && 0 <= i < sessions.len()
            && 0 <= j < session_net(#[trigger] sessions[i]).len()
        implies (#[trigger] reg2[r]).0
            != (#[trigger] session_net(sessions[i])[j]).1.addr by {
        if r < reg.len() {
            assert(reg2[r] == reg[r]);
        } else {
            assert(reg2[r] == (addr, ch));
            if session_net(sessions[i])[j].1.addr == addr {
                assert(addr_session_owned(sessions, addr));
            }
        }
    }
}

/// Taking a session out of the table cannot create a second owner.
pub proof fn lemma_disjoint_sess_pop(reg: Seq<(u64, PlayerChannel)>,
                                     sessions: Seq<(u64, SessionEntry)>, sid: u64)
    requires
        ownership_disjoint(reg, sessions),
        0 <= spec_key_index(sessions, sid) < sessions.len(),
    ensures
        ownership_disjoint(reg, after_pop(sessions, spec_key_index(sessions, sid))),
{
    let k = spec_key_index(sessions, sid);
    let sess2 = after_pop(sessions, k);
    assert forall|r: int, i: int, j: int|
        0 <= r < reg.len() && 0 <= i < sess2.len()
            && 0 <= j < session_net(#[trigger] sess2[i]).len()
        implies (#[trigger] reg[r]).0
            != (#[trigger] session_net(sess2[i])[j]).1.addr by {
        if i == k {
            assert(sess2[i] == sessions[sessions.len() - 1]);
        } else {
            assert(sess2[i] == sessions[i]);
        }
    }
}

/// A session whose channel addresses all avoid the registry may enter the
/// table.
pub proof fn lemma_disjoint_sess_push(reg: Seq<(u64, PlayerChannel)>,
                                      sessions: Seq<(u64, SessionEntry)>,
                                      sessions2: Seq<(u64, SessionEntry)>, sid: u64,
                                      entry: SessionEntry)
    requires
        ownership_disjoint(reg, sessions),
        sessions2 == sessions.push((sid, entry)),
        forall|r: int, j: int| 0 <= r < reg.len()
            && 0 <= j < entry.state.net.channels.items@.len()
            ==> (#[trigger] reg[r]).0
                != (#[trigger] entry.state.net.channels.items@[j]).1.addr,
    ensures
        ownership_disjoint(reg, sessions2),
{
    assert forall|r: int, i: int, j: int|
        0 <= r < reg.len() && 0 <= i < sessions2.len()
            && 0 <= j < session_net(#[trigger] sessions2[i]).len()
        implies (#[trigger] reg[r]).0
            != (#[trigger] session_net(sessions2[i])[j]).1.addr by {
        if i < sessions.len() {
            assert(sessions2[i] == sessions[i]);
        } else {
            assert(sessions2[i] == (sid, entry));
        }
    }
}

/// Every address of the entry at `k` avoids the registry.
pub proof fn lemma_entry_free_of_registry(reg: Seq<(u64, PlayerChannel)>,
                                          sessions: Seq<(u64, SessionEntry)>, k: int)
    requires
        ownership_disjoint(reg, sessions),
        0 <= k < sessions.len(),
    ensures
        forall|r: int, j: int| 0 <= r < reg.len()
            && 0 <= j < session_net(sessions[k]).len()
            ==> (#[trigger] reg[r]).0 != (#[trigger] session_net(sessions[k])[j]).1.addr,
{
    assert forall|r: int, j: int| 0 <= r < reg.len()
        && 0 <= j < session_net(sessions[k]).len()
        implies (#[trigger] reg[r]).0
            != (#[trigger] session_net(sessions[k])[j]).1.addr by {
        assert(0 <= k < sessions.len() && 0 <= j < session_net(sessions[k]).len());
    }
}

/// An address owned by no session of the full table is owned by none
/// after one session is swap-removed.
pub proof fn lemma_owned_after_pop(sessions: Seq<(u64, SessionEntry)>, k: int, a: u64)
    requires
        0 <= k < sessions.len(),
        !addr_session_owned(sessions, a),
    ensures
        !addr_session_owned(after_pop(sessions, k), a),
{
    let sess2 = after_pop(sessions, k);
    if addr_session_owned(sess2, a) {
        let (i, j) = choose|i: int, j: int| 0 <= i < sess2.len()
            && 0 <= j < session_net(#[trigger] sess2[i]).len()
            && (#[trigger] session_net(sess2[i])[j]).1.addr == a;
        if i == k {
            assert(sess2[i] == sessions[sessions.len() - 1]);
            assert(session_net(sessions[sessions.len() - 1])[j].1.addr == a);
        } else {
            assert(sess2[i] == sessions[i]);
            assert(session_net(sessions[i])[j].1.addr == a);
        }
    }
}

/// An address held in the registry is owned by no session.
pub proof fn lemma_reg_addr_free_of_sessions(reg: Seq<(u64, PlayerChannel)>,
                                             sessions: Seq<(u64, SessionEntry)>, k: int)
    requires
        ownership_disjoint(reg, sessions),
        0 <= k < reg.len(),
    ensures
        !addr_session_owned(sessions, reg[k].0),
{
    if addr_session_owned(sessions, reg[k].0) {
        let (i, j) = choose|i: int, j: int| 0 <= i < sessions.len()
            && 0 <= j < session_net(#[trigger] sessions[i]).len()
            && (#[trigger] session_net(sessions[i])[j]).1.addr == reg[k].0;
        assert(reg[k].0 != session_net(sessions[i])[j].1.addr);
    }
}

/// The entry a table lookup hands out is in good standing.
pub proof fn lemma_lookup_entry_ok(ex: SessionExecutor, sid: u64, e: SessionEntry)
    requires
        ex.wf(),
        ex.sessions.spec_contains(sid),
        e == ex.sessions@[sid],
    ensures
        entry_ok((sid, e), ex.next_session_id),
{
    lemma_seq_to_map(ex.sessions.items@);
    let j = choose|j: int| 0 <= j < ex.sessions.items@.len()
        && (#[trigger] ex.sessions.items@[j]).0 == sid;
    assert(seq_to_map(ex.sessions.items@)[ex.sessions.items@[j].0]
        == ex.sessions.items@[j].1);
    assert(entry_ok(ex.sessions.items@[j], ex.next_session_id));
}

} // verus!
