//! The round-robin slot scheduler: a FIFO of registered painters, the front
//! one holding the current slot.
//!
//! The scheduler never sends anything itself. Each tick, the caller asks
//! for the painter whose slot ends (`slot_holder`), tries to deliver
//! `SlotEnd` to its mailbox and reports the outcome (`slot_end_result`);
//! then asks for the next painter (`next_painter`), tries to deliver
//! `SlotStart` and reports it (`slot_start_result`), until a start is
//! delivered or nobody is left.
use vstd::prelude::*;

use crate::message::{CurrentlyPaintingUser, Payload, WebSocketMessage};
use crate::session::SlotEvent;

verus! {

broadcast use vstd::seq_lib::group_seq_properties;

/// A registered painter and the mailbox its slot events go to.
pub struct ActiveUser<M> {
    pub username: String,
    pub id: u64,
    pub mailbox: M,
}

/// A queue entry as the contracts see it: username and id.
pub type Entry = (Seq<char>, u64);

/// The scheduler as the contracts see it.
pub struct SchedulerView {
    pub queue: Seq<Entry>,
    pub active_users: Seq<Seq<char>>,
    /// The front painter has been sent `SlotStart` and not yet `SlotEnd`.
    pub slot_open: bool,
    pub next_id: nat,
    /// Every slot event delivered, with the id of the painter it went to.
    pub log: Seq<(u64, SlotEvent)>,
}

pub struct UserScheduler<M> {
    /// All active usernames, in the order they joined.
    active_users: Vec<String>,
    /// The painters in turn order; the front one is next or current.
    users_queue: Vec<ActiveUser<M>>,
    slot_open: bool,
    next_id: u64,
    slot_duration_ms: u64,
    log: Ghost<Seq<(u64, SlotEvent)>>,
}

pub open spec fn entry_of<M>(u: ActiveUser<M>) -> Entry {
    (u.username@, u.id)
}

pub open spec fn entries_of<M>(q: Seq<ActiveUser<M>>) -> Seq<Entry> {
    q.map_values(|u: ActiveUser<M>| entry_of(u))
}

pub open spec fn names_of(q: Seq<Entry>) -> Seq<Seq<char>> {
    q.map_values(|e: Entry| e.0)
}

/// The slot events delivered to painter `id`, in order.
pub open spec fn events_for(log: Seq<(u64, SlotEvent)>, id: u64) -> Seq<SlotEvent>
    decreases log.len(),
{
    if log.len() == 0 {
        seq![]
    } else if log.last().0 == id {
        events_for(log.drop_last(), id).push(log.last().1)
    } else {
        events_for(log.drop_last(), id)
    }
}

/// `SlotStart`, `SlotEnd`, `SlotStart`, ...
pub open spec fn alternates(s: Seq<SlotEvent>) -> bool {
    forall|i: int| 0 <= i < s.len() ==> #[trigger] s[i] == (if i % 2 == 0 {
        SlotEvent::SlotStart
    } else {
        SlotEvent::SlotEnd
    })
}

/// No two entries share an id or a username.
pub open spec fn distinct_entries(q: Seq<Entry>) -> bool {
    forall|i: int, j: int|
        0 <= i < q.len() && 0 <= j < q.len() && i != j ==> #[trigger] q[i].1 != #[trigger] q[j].1 && q[i].0 != q[j].0
}

pub open spec fn distinct_names(s: Seq<Seq<char>>) -> bool {
    forall|i: int, j: int| 0 <= i < s.len() && 0 <= j < s.len() && i != j ==> #[trigger] s[i] != #[trigger] s[j]
}

pub open spec fn not_named(name: Seq<char>) -> spec_fn(Entry) -> bool {
    |e: Entry| e.0 != name
}

pub open spec fn other_name(name: Seq<char>) -> spec_fn(Seq<char>) -> bool {
    |n: Seq<char>| n != name
}

impl SchedulerView {
    pub open spec fn wf(self) -> bool {
        &&& distinct_entries(self.queue)
        &&& distinct_names(self.active_users)
        &&& forall|i: int| 0 <= i < self.queue.len() ==> #[trigger] self.queue[i].1 < self.next_id
        &&& forall|k: int| 0 <= k < self.log.len() ==> #[trigger] self.log[k].0 < self.next_id
        &&& forall|i: int| 0 <= i < self.queue.len() ==> self.active_users.contains(#[trigger] self.queue[i].0)
        &&& forall|j: int| 0 <= j < self.active_users.len() ==> names_of(self.queue).contains(#[trigger] self.active_users[j])
        &&& self.slot_open ==> self.queue.len() > 0
        &&& forall|id: u64| alternates(#[trigger] events_for(self.log, id))
        &&& forall|i: int| 0 <= i < self.queue.len() ==> (#[trigger] events_for(self.log, self.queue[i].1).len() % 2 == 1
            <==> (self.slot_open && i == 0))
    }

    /// After `SlotEnd` reached the slot holder: it goes to the back.
    pub open spec fn after_slot_end(self) -> Self {
        SchedulerView {
            queue: self.queue.drop_first().push(self.queue[0]),
            slot_open: false,
            log: self.log.push((self.queue[0].1, SlotEvent::SlotEnd)),
            ..self
        }
    }

    /// After `SlotStart` reached the front painter.
    pub open spec fn after_slot_start(self) -> Self {
        SchedulerView { slot_open: true, log: self.log.push((self.queue[0].1, SlotEvent::SlotStart)), ..self }
    }

    /// After `name` left: all its entries go, and so does the slot if the
    /// front painter held it.
    pub open spec fn without(self, name: Seq<char>) -> Self {
        SchedulerView {
            queue: self.queue.filter(not_named(name)),
            active_users: self.active_users.filter(other_name(name)),
            slot_open: self.slot_open && self.queue[0].0 != name,
            ..self
        }
    }

    /// One tick in which every mailbox takes its event.
    pub open spec fn successful_tick(self) -> Self {
        let v = if self.slot_open {
            self.after_slot_end()
        } else {
            self
        };
        if v.queue.len() > 0 {
            v.after_slot_start()
        } else {
            v
        }
    }
}

impl SchedulerView {
    /// After `name` registered with the fresh id `next_id`.
    pub open spec fn registered(self, name: Seq<char>) -> Self {
        SchedulerView {
            queue: self.queue.push((name, self.next_id as u64)),
            active_users: if self.active_users.contains(name) {
                self.active_users
            } else {
                self.active_users.push(name)
            },
            next_id: self.next_id + 1,
            ..self
        }
    }
}

/// `n` ticks in which every mailbox takes its event.
pub open spec fn successful_ticks(v: SchedulerView, n: nat) -> SchedulerView
    decreases n,
{
    if n == 0 {
        v
    } else {
        successful_ticks(v.successful_tick(), (n - 1) as nat)
    }
}

/// The usernames of `q`, rotated so that `first` leads where it occurs.
pub open spec fn rotated_names(q: Seq<Entry>, pos: int) -> Seq<Seq<char>> {
    names_of(q).subrange(pos, q.len() as int) + names_of(q).subrange(0, pos)
}

proof fn lemma_events_for_push(log: Seq<(u64, SlotEvent)>, x: (u64, SlotEvent), id: u64)
    ensures
        events_for(log.push(x), id) == (if x.0 == id {
            events_for(log, id).push(x.1)
        } else {
            events_for(log, id)
        }),
{
    assert(log.push(x).drop_last() =~= log);
}

proof fn lemma_events_for_fresh(log: Seq<(u64, SlotEvent)>, id: u64)
    requires
        forall|k: int| 0 <= k < log.len() ==> #[trigger] log[k].0 != id,
    ensures
        events_for(log, id).len() == 0,
    decreases log.len(),
{
    if log.len() > 0 {
        lemma_events_for_fresh(log.drop_last(), id);
    }
}

proof fn lemma_filter_keeps_distinct_entries(q: Seq<Entry>, p: spec_fn(Entry) -> bool)
    requires
        distinct_entries(q),
    ensures
        distinct_entries(q.filter(p)),
        forall|i: int| 0 <= i < q.filter(p).len() ==> q.contains(#[trigger] q.filter(p)[i]),
    decreases q.len(),
{
    reveal(Seq::filter);
    if q.len() > 0 {
        let d = q.drop_last();
        assert(distinct_entries(d));
        lemma_filter_keeps_distinct_entries(d, p);
        let fd = d.filter(p);
        if p(q.last()) {
            let f = fd.push(q.last());
            assert(q.filter(p) == f);
            assert forall|i: int| 0 <= i < fd.len() implies #[trigger] fd[i].1 != q.last().1 && fd[i].0 != q.last().0 by {
                assert(d.contains(fd[i]));
                let k = choose|k: int| 0 <= k < d.len() && d[k] == fd[i];
                assert(q[k] == d[k]);
            }
            assert forall|i: int| 0 <= i < f.len() implies q.contains(#[trigger] f[i]) by {
                if i < fd.len() {
                    assert(d.contains(fd[i]));
                    let k = choose|k: int| 0 <= k < d.len() && d[k] == fd[i];
                    assert(q[k] == d[k]);
                } else {
                    assert(q[q.len() - 1] == f[i]);
                }
            }
        } else {
            assert forall|i: int| 0 <= i < fd.len() implies q.contains(#[trigger] fd[i]) by {
                assert(d.contains(fd[i]));
                let k = choose|k: int| 0 <= k < d.len() && d[k] == fd[i];
                assert(q[k] == d[k]);
            }
        }
    }
}

proof fn lemma_filter_front<A>(q: Seq<A>, p: spec_fn(A) -> bool)
    requires
        q.len() > 0,
        p(q[0]),
    ensures
        q.filter(p).len() > 0,
        q.filter(p)[0] == q[0],
{
    assert(q =~= seq![q[0]] + q.drop_first());
    Seq::filter_distributes_over_add(seq![q[0]], q.drop_first(), p);
    reveal(Seq::filter);
    assert(seq![q[0]].drop_last() =~= Seq::<A>::empty());
    assert(seq![q[0]].filter(p) =~= seq![q[0]]);
}

proof fn lemma_after_slot_end_wf(v: SchedulerView)
    requires
        v.wf(),
        v.slot_open,
    ensures
        v.after_slot_end().wf(),
{
    let w = v.after_slot_end();
    let q = v.queue;
    let n = q.len();
    let q2 = w.queue;
    assert(forall|i: int| 0 <= i < n - 1 ==> #[trigger] q2[i] == q[i + 1]);
    assert(q2[n - 1] == q[0]);
    assert forall|i: int, j: int| 0 <= i < q2.len() && 0 <= j < q2.len() && i != j implies #[trigger] q2[i].1
        != #[trigger] q2[j].1 && q2[i].0 != q2[j].0 by {
        let a = if i == n - 1 { 0 } else { i + 1 };
        let b = if j == n - 1 { 0 } else { j + 1 };
        assert(q2[i] == q[a] && q2[j] == q[b]);
        assert(q[a].1 != q[b].1 && q[a].0 != q[b].0);
    }
    assert forall|i: int| 0 <= i < q2.len() implies #[trigger] q2[i].1 < w.next_id && w.active_users.contains(
        q2[i].0,
    ) by {
        let a = if i == n - 1 { 0 } else { i + 1 };
        assert(q2[i] == q[a]);
    }
    assert forall|k: int| 0 <= k < w.log.len() implies #[trigger] w.log[k].0 < w.next_id by {
        if k < v.log.len() {
            assert(w.log[k] == v.log[k]);
        }
    }
    assert forall|j: int| 0 <= j < w.active_users.len() implies names_of(q2).contains(
        #[trigger] w.active_users[j],
    ) by {
        let name = w.active_users[j];
        assert(names_of(q).contains(name));
        let k = choose|k: int| 0 <= k < names_of(q).len() && names_of(q)[k] == name;
        let a = if k == 0 { n - 1 } else { k - 1 };
        assert(names_of(q2)[a] == name);
    }
    assert forall|id: u64| alternates(#[trigger] events_for(w.log, id)) by {
        lemma_events_for_push(v.log, (q[0].1, SlotEvent::SlotEnd), id);
        assert(events_for(v.log, q[0].1).len() % 2 == 1);
    }
    assert forall|i: int| 0 <= i < q2.len() implies (#[trigger] events_for(w.log, q2[i].1).len() % 2 == 1 <==> (
    w.slot_open && i == 0)) by {
        lemma_events_for_push(v.log, (q[0].1, SlotEvent::SlotEnd), q2[i].1);
        let a = if i == n - 1 { 0 } else { i + 1 };
        assert(q2[i] == q[a]);
        assert(events_for(v.log, q[a].1).len() % 2 == 1 <==> (v.slot_open && a == 0));
    }
}

proof fn lemma_after_slot_start_wf(v: SchedulerView)
    requires
        v.wf(),
        !v.slot_open,
        v.queue.len() > 0,
    ensures
        v.after_slot_start().wf(),
{
    let w = v.after_slot_start();
    let q = v.queue;
    assert forall|k: int| 0 <= k < w.log.len() implies #[trigger] w.log[k].0 < w.next_id by {
        if k < v.log.len() {
            assert(w.log[k] == v.log[k]);
        }
    }
    assert(events_for(v.log, q[0].1).len() % 2 == 0);
    assert forall|id: u64| alternates(#[trigger] events_for(w.log, id)) by {
        lemma_events_for_push(v.log, (q[0].1, SlotEvent::SlotStart), id);
    }
    assert forall|i: int| 0 <= i < q.len() implies (#[trigger] events_for(w.log, q[i].1).len() % 2 == 1 <==> (
    w.slot_open && i == 0)) by {
        lemma_events_for_push(v.log, (q[0].1, SlotEvent::SlotStart), q[i].1);
    }
}

proof fn lemma_without_wf(v: SchedulerView, name: Seq<char>)
    requires
        v.wf(),
    ensures
        v.without(name).wf(),
{
    let w = v.without(name);
    let q = v.queue;
    let p = not_named(name);
    let f = q.filter(p);
    lemma_filter_keeps_distinct_entries(q, p);
    assert forall|i: int| 0 <= i < f.len() implies (#[trigger] f[i]).0 != name && exists|k: int|
        0 <= k < q.len() && q[k] == f[i] by {
        q.lemma_filter_pred(p, i);
        assert(q.contains(f[i]));
    }
    assert forall|i: int| 0 <= i < f.len() implies #[trigger] f[i].1 < w.next_id by {
        let k = choose|k: int| 0 <= k < q.len() && q[k] == f[i];
    }
    let au = v.active_users;
    let g = au.filter(other_name(name));
    assert forall|i: int, j: int| 0 <= i < g.len() && 0 <= j < g.len() && i != j implies #[trigger] g[i]
        != #[trigger] g[j] by {
        lemma_filter_keeps_distinct_names(au, other_name(name));
    }
    assert forall|i: int| 0 <= i < f.len() implies g.contains(#[trigger] f[i].0) by {
        let k = choose|k: int| 0 <= k < q.len() && q[k] == f[i];
        assert(au.contains(q[k].0));
        let m = choose|m: int| 0 <= m < au.len() && au[m] == q[k].0;
        au.lemma_filter_contains(other_name(name), m);
    }
    assert forall|j: int| 0 <= j < g.len() implies names_of(f).contains(#[trigger] g[j]) by {
        au.lemma_filter_pred(other_name(name), j);
        au.lemma_filter_contains_rev(other_name(name), g[j]);
        let m = choose|m: int| 0 <= m < au.len() && au[m] == g[j];
        assert(names_of(q).contains(au[m]));
        let k = choose|k: int| 0 <= k < names_of(q).len() && names_of(q)[k] == au[m];
        q.lemma_filter_contains(p, k);
        let t = choose|t: int| 0 <= t < f.len() && f[t] == q[k];
        assert(names_of(f)[t] == g[j]);
    }
    if q.len() > 0 && p(q[0]) {
        lemma_filter_front(q, p);
    }
    assert forall|i: int| 0 <= i < f.len() implies (#[trigger] events_for(w.log, f[i].1).len() % 2 == 1 <==> (
    w.slot_open && i == 0)) by {
        let k = choose|k: int| 0 <= k < q.len() && q[k] == f[i];
        if k == 0 && i != 0 {
            lemma_filter_front(q, p);
            assert(f[0].1 == f[i].1);
        }
        if w.slot_open && i == 0 {
            lemma_filter_front(q, p);
            assert(q[k].1 == q[0].1);
        }
    }
}

proof fn lemma_filter_keeps_distinct_names(s: Seq<Seq<char>>, p: spec_fn(Seq<char>) -> bool)
    requires
        distinct_names(s),
    ensures
        distinct_names(s.filter(p)),
    decreases s.len(),
{
    reveal(Seq::filter);
    if s.len() > 0 {
        let d = s.drop_last();
        assert(distinct_names(d));
        lemma_filter_keeps_distinct_names(d, p);
        let fd = d.filter(p);
        if p(s.last()) {
            assert forall|i: int| 0 <= i < fd.len() implies #[trigger] fd[i] != s.last() by {
                d.lemma_filter_pred(p, i);
                d.lemma_filter_contains_rev(p, fd[i]);
                let k = choose|k: int| 0 <= k < d.len() && d[k] == fd[i];
                assert(s[k] == d[k]);
            }
            let f = fd.push(s.last());
            assert(s.filter(p) == f);
            assert forall|i: int, j: int| 0 <= i < f.len() && 0 <= j < f.len() && i != j implies #[trigger] f[i]
                != #[trigger] f[j] by {
                if i < fd.len() && j < fd.len() {
                    assert(f[i] == fd[i] && f[j] == fd[j]);
                }
            }
        }
    }
}

proof fn lemma_registered_wf(v: SchedulerView, name: Seq<char>)
    requires
        v.wf(),
        v.next_id < u64::MAX,
        !names_of(v.queue).contains(name),
    ensures
        v.registered(name).wf(),
{
    let w = v.registered(name);
    let id = v.next_id as u64;
    let n = v.queue.len();
    assert forall|i: int, j: int| 0 <= i < w.queue.len() && 0 <= j < w.queue.len() && i != j implies #[trigger] w.queue[i].1
        != #[trigger] w.queue[j].1 && w.queue[i].0 != w.queue[j].0 by {
        if i < n && j < n {
            assert(v.queue[i].1 != v.queue[j].1 && v.queue[i].0 != v.queue[j].0);
        } else if i < n {
            assert(v.queue[i].1 < v.next_id);
            assert(names_of(v.queue)[i] == v.queue[i].0);
        } else {
            assert(v.queue[j].1 < v.next_id);
            assert(names_of(v.queue)[j] == v.queue[j].0);
        }
    }
    assert forall|k: int| 0 <= k < v.log.len() implies #[trigger] v.log[k].0 != id by {}
    lemma_events_for_fresh(v.log, id);
    assert forall|i: int| 0 <= i < w.queue.len() implies w.active_users.contains(#[trigger] w.queue[i].0) by {
        if i < v.queue.len() {
            assert(v.active_users.contains(v.queue[i].0));
            let m = choose|m: int| 0 <= m < v.active_users.len() && v.active_users[m] == v.queue[i].0;
            assert(w.active_users[m] == v.queue[i].0);
        } else if !v.active_users.contains(name) {
            assert(w.active_users[v.active_users.len() as int] == name);
        }
    }
    assert forall|j: int| 0 <= j < w.active_users.len() implies names_of(w.queue).contains(
        #[trigger] w.active_users[j],
    ) by {
        if j < v.active_users.len() {
            assert(names_of(v.queue).contains(v.active_users[j]));
            let k = choose|k: int| 0 <= k < names_of(v.queue).len() && names_of(v.queue)[k] == v.active_users[j];
            assert(names_of(w.queue)[k] == v.active_users[j]);
        } else {
            assert(names_of(w.queue)[v.queue.len() as int] == name);
        }
    }
}

/// The usernames held in `v`.
pub open spec fn views_of(v: Seq<String>) -> Seq<Seq<char>> {
    v.map_values(|s: String| s@)
}

proof fn lemma_views_push(v: Seq<String>, x: String)
    ensures
        views_of(v.push(x)) == views_of(v).push(x@),
{
    assert(views_of(v.push(x)) =~= views_of(v).push(x@));
}

proof fn lemma_views_remove(v: Seq<String>, i: int)
    requires
        0 <= i < v.len(),
    ensures
        views_of(v.remove(i)) == views_of(v).remove(i),
{
    assert(views_of(v.remove(i)) =~= views_of(v).remove(i));
}

proof fn lemma_entries_push<M>(q: Seq<ActiveUser<M>>, x: ActiveUser<M>)
    ensures
        entries_of(q.push(x)) == entries_of(q).push(entry_of(x)),
{
    assert(entries_of(q.push(x)) =~= entries_of(q).push(entry_of(x)));
}

proof fn lemma_entries_remove<M>(q: Seq<ActiveUser<M>>, i: int)
    requires
        0 <= i < q.len(),
    ensures
        entries_of(q.remove(i)) == entries_of(q).remove(i),
{
    assert(entries_of(q.remove(i)) =~= entries_of(q).remove(i));
}

/// One step of filtering `orig` in place: the first `k` elements are
/// filtered, the element at `pre.len()` is `orig[k]`, and keeping or
/// dropping it gives the state for `k + 1`.
proof fn lemma_filter_loop_step<A>(orig: Seq<A>, k: int, p: spec_fn(A) -> bool)
    requires
        0 <= k < orig.len(),
    ensures
        ({
            let pre = orig.take(k).filter(p);
            let cur = pre + orig.skip(k);
            &&& cur[pre.len() as int] == orig[k]
            &&& pre.len() < cur.len()
            &&& p(orig[k]) ==> cur == orig.take(k + 1).filter(p) + orig.skip(k + 1)
                && orig.take(k + 1).filter(p).len() == pre.len() + 1
            &&& !p(orig[k]) ==> cur.remove(pre.len() as int) == orig.take(k + 1).filter(p) + orig.skip(k + 1)
                && orig.take(k + 1).filter(p).len() == pre.len()
        }),
{
    reveal(Seq::filter);
    assert(orig.take(k + 1).drop_last() =~= orig.take(k));
    assert(orig.take(k + 1).last() == orig[k]);
    let pre = orig.take(k).filter(p);
    let cur = pre + orig.skip(k);
    if p(orig[k]) {
        assert(orig.take(k + 1).filter(p) == pre.push(orig[k]));
        assert(cur =~= orig.take(k + 1).filter(p) + orig.skip(k + 1));
    } else {
        assert(orig.take(k + 1).filter(p) == pre);
        assert(cur.remove(pre.len() as int) =~= orig.take(k + 1).filter(p) + orig.skip(k + 1));
    }
}

impl<M> View for UserScheduler<M> {
    type V = SchedulerView;

    closed spec fn view(&self) -> SchedulerView {
        SchedulerView {
            queue: entries_of(self.users_queue@),
            active_users: views_of(self.active_users@),
            slot_open: self.slot_open,
            next_id: self.next_id as nat,
            log: self.log@,
        }
    }
}

/// `pos` is where `x` first occurs in `s`, or 0 where it does not occur.
pub open spec fn is_first_index(s: Seq<Seq<char>>, x: Seq<char>, pos: int) -> bool {
    ||| (0 <= pos < s.len() && s[pos] == x && forall|j: int| 0 <= j < pos ==> s[j] != x)
    ||| (pos == 0 && !s.contains(x))
}

impl<M> UserScheduler<M> {
    pub fn new(slot_duration_ms: u64) -> (r: Self)
        ensures
            r@.wf(),
            r@.queue.len() == 0,
            r@.active_users.len() == 0,
            !r@.slot_open,
            r@.next_id == 0,
            r@.log.len() == 0,
            r.spec_slot_duration_ms() == slot_duration_ms,
    {
        let ghost empty_log: Seq<(u64, SlotEvent)> = seq![];
        let r = UserScheduler {
            active_users: Vec::new(),
            users_queue: Vec::new(),
            slot_open: false,
            next_id: 0,
            slot_duration_ms,
            log: Ghost(empty_log),
        };
        assert(r@.queue =~= seq![]);
        assert(r@.active_users =~= seq![]);
        r
    }

    pub closed spec fn spec_slot_duration_ms(&self) -> u64 {
        self.slot_duration_ms
    }

    pub fn slot_duration_ms(&self) -> (r: u64)
        ensures
            r == self.spec_slot_duration_ms(),
    {
        self.slot_duration_ms
    }

    /// Appends `username` to the turn queue under a fresh id, which it
    /// returns; `None`, with nothing changed, where the name is already
    /// queued or ids are used up.
    pub fn register_user(&mut self, username: String, mailbox: M) -> (r: Option<u64>)
        requires
            old(self)@.wf(),
        ensures
            final(self)@.wf(),
            final(self).spec_slot_duration_ms() == old(self).spec_slot_duration_ms(),
            old(self)@.next_id < u64::MAX && !names_of(old(self)@.queue).contains(username@) ==> r == Some(
                old(self)@.next_id as u64,
            ) && final(self)@ == old(self)@.registered(username@),
            old(self)@.next_id >= u64::MAX || names_of(old(self)@.queue).contains(username@) ==> r is None
                && final(self)@ == old(self)@,
    {
        if self.next_id == u64::MAX {
            return None;
        }
        let mut known = false;
        let mut i: usize = 0;
        while i < self.active_users.len()
            invariant
                i <= self.active_users@.len(),
                known == exists|j: int| 0 <= j < i && self.active_users@[j]@ == username@,
            decreases self.active_users@.len() - i,
        {
            if self.active_users[i].eq(&username) {
                known = true;
            }
            i = i + 1;
        }
        let ghost au = views_of(self.active_users@);
        let ghost names = names_of(self@.queue);
        assert(known == au.contains(username@)) by {
            if known {
                let j = choose|j: int| 0 <= j < i && self.active_users@[j]@ == username@;
                assert(au[j] == username@);
            }
        }
        assert(known == names.contains(username@)) by {
            if au.contains(username@) {
                let j = choose|j: int| 0 <= j < au.len() && au[j] == username@;
                assert(names.contains(au[j]));
            }
            if names.contains(username@) {
                let k = choose|k: int| 0 <= k < names.len() && names[k] == username@;
                assert(self@.queue[k].0 == names[k]);
                assert(au.contains(self@.queue[k].0));
            }
        }
        if known {
            return None;
        }
        proof {
            lemma_registered_wf(self@, username@);
        }
        let id = self.next_id;
        let ghost before = self.active_users@;
        let name = username.clone();
        self.active_users.push(name);
        proof {
            lemma_views_push(before, name);
        }
        let ghost q = self.users_queue@;
        let user = ActiveUser { username, id, mailbox };
        self.users_queue.push(user);
        proof {
            lemma_entries_push(q, user);
        }
        self.next_id = self.next_id + 1;
        Some(id)
    }

    /// Removes every entry of `username` from the turn queue and from the
    /// active users; a slot it held is over.
    pub fn unregister_user(&mut self, username: &String)
        requires
            old(self)@.wf(),
        ensures
            final(self)@.wf(),
            final(self).spec_slot_duration_ms() == old(self).spec_slot_duration_ms(),
            final(self)@ == old(self)@.without(username@),
    {
        proof {
            lemma_without_wf(self@, username@);
        }
        let ghost v0 = self@;
        if self.slot_open && self.users_queue[0].username.eq(username) {
            self.slot_open = false;
        }
        let ghost p = not_named(username@);
        let ghost orig = entries_of(self.users_queue@);
        let ghost mut k: int = 0;
        let mut i: usize = 0;
        while i < self.users_queue.len()
            invariant
                0 <= k <= orig.len(),
                p == not_named(username@),
                self.slot_open == (v0.slot_open && v0.queue.len() > 0 && v0.queue[0].0 != username@),
                self.next_id == v0.next_id,
                self.log == v0.log,
                self.slot_duration_ms == old(self).slot_duration_ms,
                views_of(self.active_users@) == v0.active_users,
                entries_of(self.users_queue@) == orig.take(k).filter(p) + orig.skip(k),
                i == orig.take(k).filter(p).len(),
            decreases self.users_queue@.len() - i,
        {
            proof {
                lemma_filter_loop_step(orig, k, p);
            }
            assert(entries_of(self.users_queue@)[i as int] == entry_of(self.users_queue@[i as int]));
            if self.users_queue[i].username.eq(username) {
                let ghost before = self.users_queue@;
                let _ = self.users_queue.remove(i);
                proof {
                    lemma_entries_remove(before, i as int);
                }
            } else {
                i = i + 1;
            }
            proof {
                k = k + 1;
            }
        }
        assert(orig.take(k) =~= orig);
        assert(entries_of(self.users_queue@) =~= orig.filter(p));
        let ghost pa = other_name(username@);
        let ghost aorig = views_of(self.active_users@);
        let ghost mut ka: int = 0;
        let mut j: usize = 0;
        while j < self.active_users.len()
            invariant
                0 <= ka <= aorig.len(),
                pa == other_name(username@),
                self.slot_open == (v0.slot_open && v0.queue.len() > 0 && v0.queue[0].0 != username@),
                self.next_id == v0.next_id,
                self.log == v0.log,
                self.slot_duration_ms == old(self).slot_duration_ms,
                entries_of(self.users_queue@) == v0.queue.filter(not_named(username@)),
                views_of(self.active_users@) == aorig.take(ka).filter(pa) + aorig.skip(ka),
                j == aorig.take(ka).filter(pa).len(),
            decreases self.active_users@.len() - j,
        {
            proof {
                lemma_filter_loop_step(aorig, ka, pa);
            }
            assert(views_of(self.active_users@)[j as int] == self.active_users@[j as int]@);
            if self.active_users[j].eq(username) {
                let ghost before = self.active_users@;
                let _ = self.active_users.remove(j);
                proof {
                    lemma_views_remove(before, j as int);
                }
            } else {
                j = j + 1;
            }
            proof {
                ka = ka + 1;
            }
        }
        assert(aorig.take(ka) =~= aorig);
        assert(views_of(self.active_users@) =~= aorig.filter(pa));
        assert(self@ == v0.without(username@));
    }

    /// The painter whose slot is open, if any: it is due a `SlotEnd`.
    pub fn slot_holder(&self) -> (r: Option<&ActiveUser<M>>)
        requires
            self@.wf(),
        ensures
            r is Some <==> self@.slot_open,
            r matches Some(u) ==> entry_of(*u) == self@.queue[0],
    {
        if self.slot_open {
            Some(&self.users_queue[0])
        } else {
            None
        }
    }

    /// Records whether `SlotEnd` reached the slot holder. If it did, the
    /// holder goes to the back of the queue; if its mailbox is gone, the
    /// painter leaves the scheduler.
    pub fn slot_end_result(&mut self, delivered: bool)
        requires
            old(self)@.wf(),
            old(self)@.slot_open,
        ensures
            final(self)@.wf(),
            final(self).spec_slot_duration_ms() == old(self).spec_slot_duration_ms(),
            delivered ==> final(self)@ == old(self)@.after_slot_end(),
            !delivered ==> final(self)@ == old(self)@.without(old(self)@.queue[0].0),
    {
        if delivered {
            proof {
                lemma_after_slot_end_wf(self@);
            }
            let ghost v0 = self@;
            let front = self.users_queue.remove(0);
            self.log = Ghost(self.log@.push((front.id, SlotEvent::SlotEnd)));
            self.users_queue.push(front);
            self.slot_open = false;
            assert(self@.queue =~= v0.queue.drop_first().push(v0.queue[0]));
        } else {
            let name = self.users_queue[0].username.clone();
            self.unregister_user(&name);
        }
    }

    /// The painter due the next `SlotStart`, if nobody holds the slot and
    /// the queue is not empty.
    pub fn next_painter(&self) -> (r: Option<&ActiveUser<M>>)
        requires
            self@.wf(),
        ensures
            r is Some <==> (!self@.slot_open && self@.queue.len() > 0),
            r matches Some(u) ==> entry_of(*u) == self@.queue[0],
    {
        if !self.slot_open && self.users_queue.len() > 0 {
            Some(&self.users_queue[0])
        } else {
            None
        }
    }

    /// Records whether `SlotStart` reached the front painter. If it did, its
    /// slot is open and the event naming it for spectators is returned; if
    /// its mailbox is gone, the painter leaves the scheduler.
    pub fn slot_start_result(&mut self, delivered: bool) -> (r: Option<WebSocketMessage>)
        requires
            old(self)@.wf(),
            !old(self)@.slot_open,
            old(self)@.queue.len() > 0,
        ensures
            final(self)@.wf(),
            final(self).spec_slot_duration_ms() == old(self).spec_slot_duration_ms(),
            delivered ==> final(self)@ == old(self)@.after_slot_start() && (r matches Some(m) && m.payload
                matches Some(Payload::CurrentlyPaintingUser(c)) && c.currently_painting@ == old(
                self,
            )@.queue[0].0),
            !delivered ==> final(self)@ == old(self)@.without(old(self)@.queue[0].0) && r is None,
    {
        if delivered {
            proof {
                lemma_after_slot_start_wf(self@);
            }
            self.log = Ghost(self.log@.push((self.users_queue[0].id, SlotEvent::SlotStart)));
            self.slot_open = true;
            let name = self.users_queue[0].username.clone();
            Some(
                WebSocketMessage {
                    payload: Some(Payload::CurrentlyPaintingUser(CurrentlyPaintingUser { currently_painting: name })),
                },
            )
        } else {
            let name = self.users_queue[0].username.clone();
            self.unregister_user(&name);
            None
        }
    }

    /// The usernames in play order, starting with the painter who joined
    /// first among those active.
    pub fn all_users_as_ordered_list(&self) -> (r: Vec<String>)
        requires
            self@.wf(),
        ensures
            self@.active_users.len() == 0 ==> r@.len() == 0,
            self@.active_users.len() > 0 ==> exists|pos: int|
                is_first_index(names_of(self@.queue), self@.active_users[0], pos) && views_of(r@)
                    == rotated_names(self@.queue, pos),
    {
        if self.active_users.len() == 0 {
            return Vec::new();
        }
        let oldest = &self.active_users[0];
        let ghost names = names_of(self@.queue);
        let n = self.users_queue.len();
        let mut pos: usize = 0;
        let mut found = false;
        while pos < n && !found
            invariant
                n == names.len(),
                names == names_of(self@.queue),
                pos <= n,
                found ==> pos < n && names[pos as int] == oldest@,
                forall|j: int| 0 <= j < pos ==> names[j] != oldest@,
            decreases n - pos + (if found { 0int } else { 1 }),
        {
            if self.users_queue[pos].username.eq(oldest) {
                found = true;
            } else {
                pos = pos + 1;
            }
        }
        if !found {
            pos = 0;
            assert(!names.contains(self@.active_users[0]));
        }
        let mut out: Vec<String> = Vec::new();
        let mut i: usize = pos;
        while i < n
            invariant
                pos <= i <= n,
                n == names.len(),
                names == names_of(self@.queue),
                views_of(out@) == names.subrange(pos as int, i as int),
            decreases n - i,
        {
            let ghost prev = out@;
            let name = self.users_queue[i].username.clone();
            assert(entries_of(self.users_queue@)[i as int] == entry_of(self.users_queue@[i as int]));
            out.push(name);
            proof {
                lemma_views_push(prev, name);
            }
            assert(views_of(out@) =~= names.subrange(pos as int, i + 1));
            i = i + 1;
        }
        let mut i: usize = 0;
        while i < pos
            invariant
                i <= pos <= n,
                n == names.len(),
                names == names_of(self@.queue),
                views_of(out@) == names.subrange(pos as int, n as int) + names.subrange(0, i as int),
            decreases pos - i,
        {
            let ghost prev = out@;
            let name = self.users_queue[i].username.clone();
            assert(entries_of(self.users_queue@)[i as int] == entry_of(self.users_queue@[i as int]));
            out.push(name);
            proof {
                lemma_views_push(prev, name);
            }
            assert(views_of(out@) =~= names.subrange(pos as int, n as int) + names.subrange(0, i + 1));
            i = i + 1;
        }
        assert(is_first_index(names, self@.active_users[0], pos as int));
        assert(views_of(out@) == rotated_names(self@.queue, pos as int));
        out
    }
}

/// Every painter is sent `SlotStart` and `SlotEnd` in strict alternation,
/// starting with `SlotStart`, whatever the interleaving of registrations,
/// departures and ticks (each operation keeps `wf`, which includes this).
pub proof fn lemma_slot_events_alternate(v: SchedulerView, id: u64)
    requires
        v.wf(),
    ensures
        alternates(events_for(v.log, id)),
        events_for(v.log, id).len() > 0 ==> events_for(v.log, id)[0] == SlotEvent::SlotStart,
{
}

/// Fair rotation: while every mailbox takes its events, the painter at
/// position `k` of a queue of `N` painters has its slot opened within `N`
/// ticks (within `k` ticks while another painter holds the slot, `k + 1`
/// otherwise). A painter registers at the back, so within `N` ticks.
pub proof fn lemma_turn_within_queue_length(v: SchedulerView, k: int)
    requires
        v.wf(),
        0 <= k < v.queue.len(),
        !(v.slot_open && k == 0),
    ensures
        ({
            let t = if v.slot_open { k } else { k + 1 };
            &&& 1 <= t <= v.queue.len()
            &&& successful_ticks(v, t as nat).slot_open
            &&& successful_ticks(v, t as nat).queue[0] == v.queue[k]
        }),
    decreases 2 * k + (if v.slot_open { 0int } else { 1 }),
{
    if !v.slot_open {
        let w = v.after_slot_start();
        assert(v.successful_tick() == w);
        lemma_after_slot_start_wf(v);
        if k == 0 {
            assert(successful_ticks(w, 0) == w);
        } else {
            lemma_turn_within_queue_length(w, k);
        }
        assert(successful_ticks(v, (k + 1) as nat) == successful_ticks(w, k as nat));
    } else {
        let u = v.after_slot_end();
        lemma_after_slot_end_wf(v);
        let w = u.after_slot_start();
        assert(u.queue.len() > 0);
        assert(v.successful_tick() == w);
        lemma_after_slot_start_wf(u);
        assert(w.queue[k - 1] == v.queue[k]);
        if k == 1 {
            assert(successful_ticks(w, 0) == w);
        } else {
            lemma_turn_within_queue_length(w, k - 1);
        }
        assert(successful_ticks(v, k as nat) == successful_ticks(w, (k - 1) as nat));
    }
}

/// A painter that registers into a scheduler with `N - 1` others has its
/// slot opened within `N` ticks in which every mailbox takes its events.
pub proof fn lemma_registered_painter_starts_within_queue_length(v: SchedulerView, name: Seq<char>)
    requires
        v.wf(),
        v.next_id < u64::MAX,
        !names_of(v.queue).contains(name),
    ensures
        ({
            let w = v.registered(name);
            let t = if w.slot_open { (w.queue.len() - 1) as nat } else { w.queue.len() };
            &&& 1 <= t <= w.queue.len()
            &&& successful_ticks(w, t).slot_open
            &&& successful_ticks(w, t).queue[0] == (name, v.next_id as u64)
        }),
{
    let w = v.registered(name);
    lemma_registered_wf(v, name);
    lemma_turn_within_queue_length(w, w.queue.len() - 1);
}

} // verus!
