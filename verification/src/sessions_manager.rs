//! The session table's backing store and the per-session network-resource
//! tables: an associative container with cheap lookup and append, and
//! swap-remove deletion, plus the structures built on it.
use vstd::prelude::*;
use vstd::pervasive::VecAdditionalExecFns;
use crate::map_generator::GameMap;
use crate::config_options::SessionConfig;
use crate::session::PlayerChannel;
use crate::session::PlayerData;
use crate::session::SessionStatus;
use crate::session::status_times_ok;
use crate::session_exec::TransmissionQueue;
use crate::session_exec::TxData;

verus! {

/// No key occurs twice.
pub open spec fn keys_unique<T>(s: Seq<(u64, T)>) -> bool {
    forall|i: int, j: int| 0 <= i < j < s.len() ==> (#[trigger] s[i]).0 != (#[trigger] s[j]).0
}

/// Index of the entry with the given key, or `-1`.
pub open spec fn spec_key_index<T>(s: Seq<(u64, T)>, key: u64) -> int
    decreases s.len(),
{
    if s.len() == 0 {
        -1
    } else if s.last().0 == key {
        s.len() - 1
    } else {
        spec_key_index(s.drop_last(), key)
    }
}

pub open spec fn spec_contains_key<T>(s: Seq<(u64, T)>, key: u64) -> bool {
    exists|i: int| 0 <= i < s.len() && (#[trigger] s[i]).0 == key
}

/// The association the entries denote.
pub open spec fn seq_to_map<T>(s: Seq<(u64, T)>) -> Map<u64, T>
    decreases s.len(),
{
    if s.len() == 0 {
        Map::empty()
    } else {
        seq_to_map(s.drop_last()).insert(s.last().0, s.last().1)
    }
}

/// The map holds a key exactly when some entry carries it, and — when keys
/// are unique — maps each entry's key to that entry's value.
pub proof fn lemma_seq_to_map<T>(s: Seq<(u64, T)>)
    ensures
        forall|k: u64| #[trigger] seq_to_map(s).dom().contains(k) <==> spec_contains_key(s, k),
        keys_unique(s) ==> forall|i: int| 0 <= i < s.len()
            ==> seq_to_map(s)[(#[trigger] s[i]).0] == s[i].1,
    decreases s.len(),
{
    if s.len() > 0 {
        lemma_seq_to_map(s.drop_last());
        assert(forall|j: int| 0 <= j < s.len() - 1 ==> #[trigger] s.drop_last()[j] == s[j]);
        assert forall|k: u64| #[trigger] seq_to_map(s).dom().contains(k)
            implies spec_contains_key(s, k) by {
            if k == s.last().0 {
                assert(s[s.len() - 1].0 == k);
            } else {
                assert(seq_to_map(s.drop_last()).dom().contains(k));
                assert(spec_contains_key(s.drop_last(), k));
                let i = choose|i: int| 0 <= i < s.drop_last().len()
                    && (#[trigger] s.drop_last()[i]).0 == k;
                assert(s[i].0 == k);
            }
        }
        assert forall|k: u64| spec_contains_key(s, k)
            implies #[trigger] seq_to_map(s).dom().contains(k) by {
            let i = choose|i: int| 0 <= i < s.len() && (#[trigger] s[i]).0 == k;
            if i < s.len() - 1 {
                assert(s.drop_last()[i].0 == k);
                assert(spec_contains_key(s.drop_last(), k));
                assert(seq_to_map(s.drop_last()).dom().contains(k));
            }
        }
        if keys_unique(s) {
            assert forall|i: int| 0 <= i < s.len()
                implies seq_to_map(s)[(#[trigger] s[i]).0] == s[i].1 by {
                if i < s.len() - 1 {
                    assert(s[i].0 != s.last().0);
                    assert(s.drop_last()[i] == s[i]);
                }
            }
        }
    }
}

/// An associative container with amortized O(1) append and swap-remove
/// deletion.  Lookup here is a linear scan; the contract leaves the
/// lookup strategy open, so an index map could be swapped in without
/// touching any caller.
pub struct Pool<T> {
    pub items: Vec<(u64, T)>,
}

impl<T> Pool<T> {
    /// Keys are unique; everything else follows from the entry sequence.
    pub open spec fn wf(self) -> bool {
        keys_unique(self.items@)
    }

    /// The association held: each key to the last value pushed for it and
    /// not yet popped.
    pub open spec fn view(self) -> Map<u64, T> {
        seq_to_map(self.items@)
    }

    pub open spec fn spec_contains(self, key: u64) -> bool {
        spec_contains_key(self.items@, key)
    }

    pub fn new() -> (p: Pool<T>)
        ensures
            p.wf(),
            p.items@ =~= Seq::<(u64, T)>::empty(),
            p@ =~= Map::<u64, T>::empty(),
    {
        Pool { items: Vec::new() }
    }

    pub fn len(&self) -> (n: usize)
        ensures
            n == self.items@.len(),
    {
        self.items.len()
    }

    /// All entries, in an order that is stable until the next `pop`.
    pub fn items_ref(&self) -> (items: &Vec<(u64, T)>)
        ensures
            items == &self.items,
    {
        &self.items
    }

    /// Index of the entry holding `key`, if any.
    fn index_of(&self, key: u64) -> (r: Option<usize>)
        ensures
            r is Some <==> self.spec_contains(key),
            r matches Some(i) ==> i < self.items@.len() && self.items@[i as int].0 == key,
            r matches Some(i) ==> spec_key_index(self.items@, key) >= 0,
            self.wf() ==> (r matches Some(i) ==> i as int == spec_key_index(self.items@, key)),
    {
        let mut i: usize = 0;
        while i < self.items.len()
            invariant
                i <= self.items@.len(),
                forall|j: int| 0 <= j < i ==> (#[trigger] self.items@[j]).0 != key,
            decreases self.items@.len() - i,
        {
            if self.items[i].0 == key {
                proof {
                    if keys_unique(self.items@) {
                        lemma_key_index_finds(self.items@, key, i as int);
                    }
                    lemma_key_index_found_somewhere(self.items@, key, i as int);
                }
                return Some(i);
            }
            i = i + 1;
        }
        None
    }

    /// Appends `value` under `key` — refused (returning `false`, changing
    /// nothing) exactly when the key is already present.
    pub fn push(&mut self, key: u64, value: T) -> (ok: bool)
        requires
            old(self).wf(),
        ensures
            final(self).wf(),
            ok <==> !old(self).spec_contains(key),
            ok ==> final(self).items@ == old(self).items@.push((key, value)),
            ok ==> final(self)@ == old(self)@.insert(key, value),
            !ok ==> *final(self) == *old(self),
    {
        match self.index_of(key) {
            Some(_) => false,
            None => {
                self.items.push((key, value));
                proof {
                    assert(self.items@.drop_last() =~= old(self).items@);
                    assert forall|i: int, j: int| 0 <= i < j < self.items@.len()
                        implies (#[trigger] self.items@[i]).0
                            != (#[trigger] self.items@[j]).0 by {
                        if j == self.items@.len() - 1 {
                            assert(old(self).items@[i].0 != key);
                        }
                    }
                }
                true
            },
        }
    }

    /// Removes and returns the entry for `key`, swapping the last entry
    /// into its place; entries for other keys are untouched.
    pub fn pop(&mut self, key: u64) -> (r: Option<(u64, T)>)
        requires
            old(self).wf(),
        ensures
            final(self).wf(),
            r is Some <==> old(self).spec_contains(key),
            r is None ==> *final(self) == *old(self),
            r matches Some(e) ==> e.0 == key && e.1 == old(self)@[key],
            r is Some ==> final(self)@ == old(self)@.remove(key),
            r is Some ==> final(self).items@ == old(self).items@.update(
                spec_key_index(old(self).items@, key),
                old(self).items@.last()).drop_last(),
            r is Some ==> 0 <= spec_key_index(old(self).items@, key)
                < old(self).items@.len()
                && old(self).items@[spec_key_index(old(self).items@, key)].0 == key,
    {
        let ghost s = self.items@;
        match self.index_of(key) {
            None => None,
            Some(i) => {
                let entry = self.items.swap_remove(i);
                proof {
                    lemma_swap_remove_map(s, i as int);
                    lemma_seq_to_map(s);
                }
                Some(entry)
            },
        }
    }

    /// The value stored under `key`, if any.
    pub fn get(&self, key: u64) -> (r: Option<&T>)
        requires
            self.wf(),
        ensures
            r is Some <==> self.spec_contains(key),
            r matches Some(v) ==> *v == self@[key],
    {
        proof {
            lemma_seq_to_map(self.items@);
        }
        match self.index_of(key) {
            None => None,
            Some(i) => Some(&self.items[i].1),
        }
    }

    /// Replaces the value stored under `key` in place; `false` (and no
    /// change) when the key is absent.
    pub fn set(&mut self, key: u64, value: T) -> (ok: bool)
        requires
            old(self).wf(),
        ensures
            final(self).wf(),
            ok <==> old(self).spec_contains(key),
            ok ==> final(self)@ == old(self)@.insert(key, value),
            ok ==> final(self).items@ == old(self).items@.update(
                spec_key_index(old(self).items@, key), (key, value)),
            ok ==> 0 <= spec_key_index(old(self).items@, key) < old(self).items@.len()
                && old(self).items@[spec_key_index(old(self).items@, key)].0 == key,
            !ok ==> *final(self) == *old(self),
    {
        let ghost s = self.items@;
        match self.index_of(key) {
            None => false,
            Some(i) => {
                self.items.set(i, (key, value));
                proof {
                    assert(self.items@ =~= s.update(i as int, (key, value)));
                    assert forall|p: int, q: int| 0 <= p < q < self.items@.len()
                        implies (#[trigger] self.items@[p]).0
                            != (#[trigger] self.items@[q]).0 by {
                        assert(s[p].0 != s[q].0);
                    }
                    lemma_update_map(s, i as int, value);
                }
                true
            },
        }
    }
}

/// A linear scan that stops at the first match agrees with
/// `spec_key_index` when keys are unique.
proof fn lemma_key_index_finds<T>(s: Seq<(u64, T)>, key: u64, i: int)
    requires
        keys_unique(s),
        0 <= i < s.len(),
        s[i].0 == key,
    ensures
        spec_key_index(s, key) == i,
    decreases s.len(),
{
    if s.len() > 0 {
        if s.last().0 == key {
            assert(i == s.len() - 1);
        } else {
            assert(s.drop_last()[i] == s[i]);
            assert(forall|p: int| 0 <= p < s.len() - 1 ==> #[trigger] s.drop_last()[p] == s[p]);
            lemma_key_index_finds(s.drop_last(), key, i);
        }
    }
}

/// If some entry holds the key, `spec_key_index` points at an entry
/// holding it.
proof fn lemma_key_index_found_somewhere<T>(s: Seq<(u64, T)>, key: u64, i: int)
    requires
        0 <= i < s.len(),
        s[i].0 == key,
    ensures
        0 <= spec_key_index(s, key) < s.len(),
        s[spec_key_index(s, key)].0 == key,
    decreases s.len(),
{
    if s.last().0 != key {
        assert(s.drop_last()[i] == s[i]);
        lemma_key_index_found_somewhere(s.drop_last(), key, i);
        assert(s[spec_key_index(s, key)] == s.drop_last()[spec_key_index(s, key)]);
    }
}

/// Swap-removing index `i` takes exactly that key out of the map and
/// keeps the sequence's keys unique.
proof fn lemma_swap_remove_map<T>(s: Seq<(u64, T)>, i: int)
    requires
        keys_unique(s),
        0 <= i < s.len(),
    ensures
        keys_unique(s.update(i, s.last()).drop_last()),
        seq_to_map(s.update(i, s.last()).drop_last()) == seq_to_map(s).remove(s[i].0),
{
    let t = s.update(i, s.last()).drop_last();
    lemma_seq_to_map(s);
    lemma_seq_to_map(t);
    assert forall|p: int, q: int| 0 <= p < q < t.len()
        implies (#[trigger] t[p]).0 != (#[trigger] t[q]).0 by {
        let sp = if p == i { s.len() - 1 } else { p };
        let sq = if q == i { s.len() - 1 } else { q };
        assert(t[p] == s[sp] && t[q] == s[sq]);
    }
    let m1 = seq_to_map(t);
    let m2 = seq_to_map(s).remove(s[i].0);
    assert forall|k: u64| m1.dom().contains(k) implies m2.dom().contains(k) && m1[k] == m2[k] by {
        let j = choose|j: int| 0 <= j < t.len() && (#[trigger] t[j]).0 == k;
        let sj = if j == i { s.len() - 1 } else { j };
        assert(t[j] == s[sj]);
        assert(s[sj].0 == k);
        assert(k != s[i].0);
        assert(seq_to_map(s)[k] == s[sj].1);
        assert(m1[k] == t[j].1);
    }
    assert forall|k: u64| m2.dom().contains(k) implies m1.dom().contains(k) by {
        let j = choose|j: int| 0 <= j < s.len() && (#[trigger] s[j]).0 == k;
        assert(j != i);
        if j == s.len() - 1 {
            if i < s.len() - 1 {
                assert(t[i] == s[j]);
            }
        } else {
            assert(t[j] == s[j]);
        }
    }
    assert(m1 =~= m2);
}

/// Updating the entry at `i` with a new value under the same key is a map
/// insert of that key.
proof fn lemma_update_map<T>(s: Seq<(u64, T)>, i: int, value: T)
    requires
        keys_unique(s),
        0 <= i < s.len(),
    ensures
        seq_to_map(s.update(i, (s[i].0, value))) == seq_to_map(s).insert(s[i].0, value),
{
    let t = s.update(i, (s[i].0, value));
    lemma_seq_to_map(s);
    lemma_seq_to_map(t);
    assert forall|p: int, q: int| 0 <= p < q < t.len()
        implies (#[trigger] t[p]).0 != (#[trigger] t[q]).0 by {
        assert(s[p].0 != s[q].0);
    }
    let m1 = seq_to_map(t);
    let m2 = seq_to_map(s).insert(s[i].0, value);
    assert forall|k: u64| m1.dom().contains(k) implies m2.dom().contains(k) && m1[k] == m2[k] by {
        let j = choose|j: int| 0 <= j < t.len() && (#[trigger] t[j]).0 == k;
        assert(m1[k] == t[j].1);
        if j != i {
            assert(t[j] == s[j]);
            assert(k != s[i].0);
            assert(s[j].0 == k);
        }
    }
    assert forall|k: u64| m2.dom().contains(k) implies m1.dom().contains(k) by {
        if k != s[i].0 {
            let j = choose|j: int| 0 <= j < s.len() && (#[trigger] s[j]).0 == k;
            assert(t[j].0 == k);
        } else {
            assert(t[i].0 == k);
        }
    }
    assert(m1 =~= m2);
}

/// The pool's observation law: after a push of `value` under `key`,
/// `get` observes `value` at `key` until that key is popped, after which
/// the key is absent — and in both cases every other key observes exactly
/// what it did before.  `push`, `pop`, `set` and `get` speak of the same
/// map view, so this pins `get` down for any sequence of pushes and pops.
pub proof fn lemma_pool_observation<T>(before: Map<u64, T>, key: u64, value: T,
                                       other: u64)
    requires
        other != key,
    ensures
        before.insert(key, value)[key] == value,
        before.insert(key, value).dom().contains(key),
        !before.remove(key).dom().contains(key),
        before.insert(key, value).dom().contains(other) == before.dom().contains(other),
        before.remove(key).dom().contains(other) == before.dom().contains(other),
        before.dom().contains(other) ==> before.insert(key, value)[other] == before[other],
        before.dom().contains(other) ==> before.remove(key)[other] == before[other],
{
}

/// The channel pairs a session owns, keyed by player id.  Ownership is
/// exclusive: a channel token moves in through `push_channel` and leaves
/// only through `pop_channel`.
pub struct SessionNetworkResources {
    pub channels: Pool<PlayerChannel>,
}

impl SessionNetworkResources {
    pub fn new() -> (n: SessionNetworkResources)
        ensures
            n.channels.wf(),
            n.channels.items@ =~= Seq::<(u64, PlayerChannel)>::empty(),
            n.channels@ =~= Map::<u64, PlayerChannel>::empty(),
    {
        SessionNetworkResources { channels: Pool::new() }
    }

    /// Takes ownership of a channel for a player; refused if the player
    /// already owns one.
    pub fn push_channel(&mut self, id: u64, channel: PlayerChannel) -> (ok: bool)
        requires
            old(self).channels.wf(),
        ensures
            final(self).channels.wf(),
            ok <==> !old(self).channels.spec_contains(id),
            ok ==> final(self).channels@ == old(self).channels@.insert(id, channel),
            ok ==> final(self).channels.items@ == old(self).channels.items@.push((id, channel)),
            !ok ==> *final(self) == *old(self),
    {
        self.channels.push(id, channel)
    }

    /// Hands the player's channel back out, releasing ownership.
    pub fn pop_channel(&mut self, id: u64) -> (r: Option<PlayerChannel>)
        requires
            old(self).channels.wf(),
        ensures
            final(self).channels.wf(),
            r is Some <==> old(self).channels.spec_contains(id),
            r is None ==> *final(self) == *old(self),
            r matches Some(c) ==> c == old(self).channels@[id],
            r is Some ==> final(self).channels@ == old(self).channels@.remove(id),
            r is Some ==> final(self).channels.items@ == old(self).channels.items@.update(
                spec_key_index(old(self).channels.items@, id),
                old(self).channels.items@.last()).drop_last(),
            r is Some ==> 0 <= spec_key_index(old(self).channels.items@, id)
                < old(self).channels.items@.len()
                && old(self).channels.items@[
                    spec_key_index(old(self).channels.items@, id)].0 == id,
    {
        match self.channels.pop(id) {
            None => None,
            Some(e) => Some(e.1),
        }
    }

    /// The address bound to a player's channel, if the player owns one.
    pub fn tx(&self, id: u64) -> (r: Option<u64>)
        requires
            self.channels.wf(),
        ensures
            r is Some <==> self.channels@.dom().contains(id),
            r matches Some(a) ==> a == self.channels@[id].addr,
    {
        proof {
            lemma_seq_to_map(self.channels.items@);
        }
        match self.channels.get(id) {
            None => None,
            Some(c) => Some(c.addr),
        }
    }

    /// The addresses of every owned channel, in table order.
    pub fn addrs(&self) -> (r: Vec<u64>)
        ensures
            r@.len() == self.channels.items@.len(),
            forall|k: int| 0 <= k < r@.len()
                ==> r@[k] == (#[trigger] self.channels.items@[k]).1.addr,
    {
        let items = self.channels.items_ref();
        let mut r: Vec<u64> = Vec::new();
        let mut i: usize = 0;
        while i < items.len()
            invariant
                i <= items@.len(),
                items == &self.channels.items,
                r@.len() == i,
                forall|k: int| 0 <= k < r@.len()
                    ==> r@[k] == (#[trigger] self.channels.items@[k]).1.addr,
            decreases items@.len() - i,
        {
            r.push(items[i].1.addr);
            i = i + 1;
        }
        r
    }

    /// Queues a message for every owned channel (a session broadcast).
    pub fn emit(&self, queue: &mut TransmissionQueue, msg: TxData)
        ensures
            final(queue).queue@.len() == old(queue).queue@.len() + 1,
            final(queue).queue@.last().1 == msg,
            final(queue).queue@.last().0@.len() == self.channels.items@.len(),
            forall|k: int| 0 <= k < self.channels.items@.len()
                ==> final(queue).queue@.last().0@[k]
                    == (#[trigger] self.channels.items@[k]).1.addr,
            final(queue).queue@.subrange(0, old(queue).queue@.len() as int)
                == old(queue).queue@,
            final(queue).closable@ == old(queue).closable@,
    {
        let to = self.addrs();
        queue.send_to_many(to, msg);
    }
}

/// All the data of one session; the `Session` actor works on it through
/// an exclusive reference.
pub struct SessionState {
    pub net: SessionNetworkResources,
    pub map: GameMap,
    pub player_data: Pool<PlayerData>,
    pub session_id: u64,
    pub session_name: String,
    pub host_id: u64,
    pub next_player_id: u64,
    pub config: SessionConfig,
    pub status: SessionStatus,
}

impl SessionState {
    /// Does some player of the session already carry this username?
    pub open spec fn username_taken(self, name: Seq<char>) -> bool {
        exists|i: int| 0 <= i < self.player_data.items@.len()
            && (#[trigger] self.player_data.items@[i]).1.username@ == name
    }

    /// The session's standing invariant: the course and both tables are
    /// well formed; player ids are the table keys, assigned from the
    /// counter in order; usernames are unique within the session; a
    /// nonzero host id belongs to a player; and the status carries sane
    /// times.
    pub open spec fn wf(self) -> bool {
        &&& self.map.wf()
        &&& self.player_data.wf()
        &&& self.net.channels.wf()
        &&& self.config.max_users <= 1_000_000
        &&& forall|i: int| 0 <= i < self.net.channels.items@.len()
            ==> (#[trigger] self.net.channels.items@[i]).0 < self.next_player_id
        &&& self.next_player_id as int == 1 + self.player_data.items@.len()
        &&& forall|i: int| 0 <= i < self.player_data.items@.len()
            ==> (#[trigger] self.player_data.items@[i]).1.id == self.player_data.items@[i].0
                && 1 <= self.player_data.items@[i].0 < self.next_player_id
        &&& forall|i: int, j: int| 0 <= i < j < self.player_data.items@.len()
            ==> (#[trigger] self.player_data.items@[i]).1.username@
                != (#[trigger] self.player_data.items@[j]).1.username@
        &&& (self.host_id != 0 ==> self.player_data.spec_contains(self.host_id))
        &&& (self.host_id == 0 ==> self.status is Uninit)
        &&& status_times_ok(self.status)
    }
}

impl Default for SessionState {
    /// An empty state with the game's standard kinematics; `Session::new`
    /// then fills in name, config and id.
    fn default() -> (s: SessionState)
        ensures
            s.wf(),
            s.status is Uninit,
            s.host_id == 0,
            s.player_data.items@.len() == 0,
            s.net.channels.items@.len() == 0,
            s.map@.len() == 0,
    {
        SessionState {
            net: SessionNetworkResources::new(),
            map: GameMap::new(
                crate::session::INITIAL_X_VEL,
                crate::session::X_ACC,
                crate::session::GRAVITY,
                crate::session::JUMP_VEL,
            ),
            player_data: Pool::new(),
            session_id: 0,
            session_name: String::new(),
            host_id: 0,
            next_player_id: 1,
            config: SessionConfig { max_users: 0, max_username_len: 0 },
            status: SessionStatus::Uninit,
        }
    }
}

} // verus!
