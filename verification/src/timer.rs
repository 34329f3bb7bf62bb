//! Timer table: pending one-shot or repeating actions with absolute fire
//! times.  Callbacks are a closed set of tagged actions carried as data;
//! the owner dispatches the fired actions by exhaustive match.
use vstd::prelude::*;

verus! {

pub struct TimerEntry<A> {
    pub id: u64,
    pub fire_at: u64,
    pub action: A,
    pub repeating: bool,
}

/// Actions of the timers that are due at `now`, in table order.  A timer
/// fires once its deadline has passed.
pub open spec fn due_actions<A>(s: Seq<TimerEntry<A>>, now: u64) -> Seq<A>
    decreases s.len(),
{
    if s.len() == 0 {
        Seq::empty()
    } else if s.last().fire_at < now {
        due_actions(s.drop_last(), now).push(s.last().action)
    } else {
        due_actions(s.drop_last(), now)
    }
}

/// Entries that remain after a pass at `now`: one-shot timers that fired
/// are removed, repeating and not-yet-due timers stay.
pub open spec fn surviving<A>(s: Seq<TimerEntry<A>>, now: u64) -> Seq<TimerEntry<A>>
    decreases s.len(),
{
    if s.len() == 0 {
        Seq::empty()
    } else if s.last().fire_at < now && !s.last().repeating {
        surviving(s.drop_last(), now)
    } else {
        surviving(s.drop_last(), now).push(s.last())
    }
}

/// Index of the entry with the given id, or `-1`.
pub open spec fn spec_index_of<A>(s: Seq<TimerEntry<A>>, id: u64) -> int
    decreases s.len(),
{
    if s.len() == 0 {
        -1
    } else if s.last().id == id {
        s.len() - 1
    } else {
        spec_index_of(s.drop_last(), id)
    }
}

pub struct Timer<A> {
    pub timers: Vec<TimerEntry<A>>,
    pub next_id: u64,
}

impl<A: Copy> Timer<A> {
    /// Ids are unique, and all below the id counter.
    pub open spec fn wf(self) -> bool {
        &&& forall|i: int| 0 <= i < self.timers@.len()
            ==> (#[trigger] self.timers@[i]).id < self.next_id
        &&& forall|i: int, j: int| 0 <= i < j < self.timers@.len()
            ==> self.timers@[i].id != self.timers@[j].id
    }

    pub fn new() -> (t: Timer<A>)
        ensures
            t.wf(),
            t.timers@ =~= Seq::<TimerEntry<A>>::empty(),
            t.next_id == 0,
    {
        Timer { timers: Vec::new(), next_id: 0 }
    }

    /// Schedules `action` to fire once, `delay` milliseconds after `now`.
    pub fn set_timeout(&mut self, now: u64, delay: u64, action: A) -> (id: u64)
        requires
            old(self).wf(),
            now + delay <= u64::MAX - 1,
            old(self).next_id < u64::MAX,
        ensures
            final(self).wf(),
            id == old(self).next_id,
            final(self).next_id == old(self).next_id + 1,
            final(self).timers@ =~= old(self).timers@.push(TimerEntry {
                id, fire_at: (now + delay) as u64, action, repeating: false }),
    {
        let id = self.next_id;
        self.next_id = self.next_id + 1;
        self.timers.push(TimerEntry { id, fire_at: now + delay, action, repeating: false });
        id
    }

    /// Schedules `action` to fire on every pass from `delay` milliseconds
    /// after `now` on.
    pub fn set_interval(&mut self, now: u64, delay: u64, action: A) -> (id: u64)
        requires
            old(self).wf(),
            now + delay <= u64::MAX - 1,
            old(self).next_id < u64::MAX,
        ensures
            final(self).wf(),
            id == old(self).next_id,
            final(self).next_id == old(self).next_id + 1,
            final(self).timers@ =~= old(self).timers@.push(TimerEntry {
                id, fire_at: (now + delay) as u64, action, repeating: true }),
    {
        let id = self.next_id;
        self.next_id = self.next_id + 1;
        self.timers.push(TimerEntry { id, fire_at: now + delay, action, repeating: true });
        id
    }

    /// Cancels the pending timer with the given id, if any.
    pub fn remove(&mut self, id: u64)
        requires
            old(self).wf(),
        ensures
            final(self).wf(),
            final(self).next_id == old(self).next_id,
            spec_index_of(old(self).timers@, id) < 0
                ==> final(self).timers@ == old(self).timers@,
            spec_index_of(old(self).timers@, id) >= 0
                ==> final(self).timers@
                    == old(self).timers@.remove(spec_index_of(old(self).timers@, id)),
    {
        let ghost s = self.timers@;
        let mut i: usize = 0;
        while i < self.timers.len()
            invariant
                self == old(self),
                old(self).wf(),
                s == self.timers@,
                i <= s.len(),
                forall|j: int| 0 <= j < i ==> (#[trigger] s[j]).id != id,
            decreases self.timers@.len() - i,
        {
            if self.timers[i].id == id {
                proof {
                    lemma_index_of_finds(s, id, i as int);
                }
                self.timers.remove(i);
                proof {
                    assert forall|p: int, q: int| 0 <= p < q < self.timers@.len()
                        implies self.timers@[p].id != self.timers@[q].id by {
                        assert(self.timers@[p] == if p < i { s[p] } else { s[p + 1] });
                        assert(self.timers@[q] == if q < i { s[q] } else { s[q + 1] });
                    }
                    assert forall|p: int| 0 <= p < self.timers@.len()
                        implies (#[trigger] self.timers@[p]).id < self.next_id by {
                        assert(self.timers@[p] == if p < i { s[p] } else { s[p + 1] });
                    }
                }
                return ;
            }
            i = i + 1;
        }
        proof {
            lemma_index_of_absent(s, id);
        }
    }

    /// Runs one pass at `now`: returns the actions of every due timer (in
    /// table order) and removes the one-shot timers among them.
    pub fn exec_timers(&mut self, now: u64) -> (fired: Vec<A>)
        requires
            old(self).wf(),
        ensures
            final(self).wf(),
            final(self).next_id == old(self).next_id,
            fired@ == due_actions(old(self).timers@, now),
            final(self).timers@ == surviving(old(self).timers@, now),
    {
        let ghost s = self.timers@;
        let mut fired: Vec<A> = Vec::new();
        let mut kept: Vec<TimerEntry<A>> = Vec::new();
        let mut i: usize = 0;
        while i < self.timers.len()
            invariant
                self == old(self),
                s == self.timers@,
                i <= s.len(),
                fired@ == due_actions(s.subrange(0, i as int), now),
                kept@ == surviving(s.subrange(0, i as int), now),
            decreases s.len() - i,
        {
            let entry = &self.timers[i];
            proof {
                assert(s.subrange(0, i as int + 1).drop_last() =~= s.subrange(0, i as int));
                assert(s.subrange(0, i as int + 1).last() == s[i as int]);
            }
            if entry.fire_at < now {
                fired.push(entry.action);
                if entry.repeating {
                    kept.push(TimerEntry {
                        id: entry.id,
                        fire_at: entry.fire_at,
                        action: entry.action,
                        repeating: entry.repeating,
                    });
                }
            } else {
                kept.push(TimerEntry {
                    id: entry.id,
                    fire_at: entry.fire_at,
                    action: entry.action,
                    repeating: entry.repeating,
                });
            }
            i = i + 1;
        }
        proof {
            assert(s.subrange(0, s.len() as int) =~= s);
            lemma_surviving_wf(s, now, self.next_id);
        }
        self.timers = kept;
        fired
    }
}

/// A pass never fires more actions than there are timers.
pub proof fn lemma_due_len<A>(s: Seq<TimerEntry<A>>, now: u64)
    ensures
        due_actions(s, now).len() <= s.len(),
    decreases s.len(),
{
    if s.len() > 0 {
        lemma_due_len(s.drop_last(), now);
    }
}

/// A timer whose deadline has passed fires on this pass.
pub proof fn lemma_due_contains<A>(s: Seq<TimerEntry<A>>, now: u64, i: int)
    requires
        0 <= i < s.len(),
        s[i].fire_at < now,
    ensures
        due_actions(s, now).contains(s[i].action),
    decreases s.len(),
{
    if i == s.len() - 1 {
        assert(due_actions(s, now).last() == s[i].action);
    } else {
        assert(s.drop_last()[i] == s[i]);
        lemma_due_contains(s.drop_last(), now, i);
        let pre = due_actions(s.drop_last(), now);
        let j = choose|j: int| 0 <= j < pre.len() && pre[j] == s[i].action;
        if s.last().fire_at < now {
            assert(due_actions(s, now)[j] == pre[j]);
        }
    }
}

/// If a scan finds `id` first at index `i`, that is what `spec_index_of`
/// returns.
proof fn lemma_index_of_finds<A>(s: Seq<TimerEntry<A>>, id: u64, i: int)
    requires
        0 <= i < s.len(),
        s[i].id == id,
        forall|j: int| 0 <= j < i ==> (#[trigger] s[j]).id != id,
        forall|p: int, q: int| 0 <= p < q < s.len() ==> s[p].id != s[q].id,
    ensures
        spec_index_of(s, id) == i,
    decreases s.len(),
{
    if s.len() > 0 {
        if s.last().id == id {
            assert(i == s.len() - 1);
        } else {
            assert(s.drop_last()[i] == s[i]);
            lemma_index_of_finds(s.drop_last(), id, i);
        }
    }
}

/// If no entry has `id`, `spec_index_of` reports it absent.
proof fn lemma_index_of_absent<A>(s: Seq<TimerEntry<A>>, id: u64)
    requires
        forall|j: int| 0 <= j < s.len() ==> (#[trigger] s[j]).id != id,
    ensures
        spec_index_of(s, id) < 0,
    decreases s.len(),
{
    if s.len() > 0 {
        lemma_index_of_absent(s.drop_last(), id);
    }
}

/// A pass keeps ids unique and below the counter.
proof fn lemma_surviving_wf<A>(s: Seq<TimerEntry<A>>, now: u64, bound: u64)
    requires
        forall|i: int| 0 <= i < s.len() ==> (#[trigger] s[i]).id < bound,
        forall|i: int, j: int| 0 <= i < j < s.len() ==> s[i].id != s[j].id,
    ensures
        forall|i: int| 0 <= i < surviving(s, now).len()
            ==> (#[trigger] surviving(s, now)[i]).id < bound,
        forall|i: int, j: int| 0 <= i < j < surviving(s, now).len()
            ==> surviving(s, now)[i].id != surviving(s, now)[j].id,
        forall|i: int| 0 <= i < surviving(s, now).len()
            ==> exists|k: int| 0 <= k < s.len() && s[k] == #[trigger] surviving(s, now)[i],
    decreases s.len(),
{
    if s.len() > 0 {
        lemma_surviving_wf(s.drop_last(), now, bound);
        assert(forall|j: int| 0 <= j < s.drop_last().len()
            ==> #[trigger] s.drop_last()[j] == s[j]);
        let sv = surviving(s, now);
        let pre = surviving(s.drop_last(), now);
        if s.last().fire_at < now && !s.last().repeating {
            assert(sv == pre);
        } else {
            assert(sv == pre.push(s.last()));
            assert forall|i: int| 0 <= i < sv.len()
                implies exists|k: int| 0 <= k < s.len() && s[k] == #[trigger] sv[i] by {
                if i < pre.len() {
                    assert(sv[i] == pre[i]);
                    let k = choose|k: int| 0 <= k < s.drop_last().len()
                        && s.drop_last()[k] == pre[i];
                    assert(s[k] == sv[i]);
                } else {
                    assert(sv[i] == s.last());
                    assert(s[s.len() - 1] == sv[i]);
                }
            }
            assert forall|i: int, j: int| 0 <= i < j < sv.len()
                implies sv[i].id != sv[j].id by {
                if j < pre.len() {
                } else {
                    assert(sv[j] == s.last());
                    let k = choose|k: int| 0 <= k < s.drop_last().len()
                        && s.drop_last()[k] == pre[i];
                    assert(s[k].id != s[s.len() - 1].id);
                }
            }
        }
    }
}

/// Demonstrates the timer table: one pending one-shot action.
pub fn timer_test() {
    let mut timer: Timer<(i64, i64)> = Timer::new();
    let id = timer.set_timeout(0, 1_000_000, (1, 3));
    assert(timer.timers@.len() == 1);
    assert(timer.timers@[0].action == (1i64, 3i64));
    assert(id == 0);
}

} // verus!
