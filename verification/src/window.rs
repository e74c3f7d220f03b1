//! Tumbling windows that hand each key's values of a window over at once
//! (the holistic aggregation of Arc-Lang's keyed `window`).
//!
//! Values are grouped by the pane of their time and by their key, kept in
//! time order (values with equal times in arrival order). A watermark closes
//! every pane that ends before it: for each closed pane, in order of start,
//! each key's values are sent on, stamped with the pane's end, in the order
//! the keys first arrived; then the watermark itself is passed on.
use crate::duration::Duration;
use crate::event::Event;
use crate::event::KeyedEvent;
use crate::ops::lookup;
use crate::panes::assignable;
use crate::panes::is_pane_pos;
use crate::panes::expired_count;
use crate::panes::is_expired_count;
use crate::panes::lemma_expired_count_unique;
use crate::panes::pane_view;
use crate::panes::lemma_lookup_last;
use crate::panes::lemma_pane_pos_unique;
use crate::panes::pane_pos;
use crate::panes::start_of;
use crate::panes::with_entry;
use crate::panes::Panes;
use crate::time::in_range;
use crate::time::Time;
use vstd::laws_eq::obeys_concrete_eq;
use vstd::prelude::*;

verus! {

/// `p` is where a value at time `t` goes in `s`: after every element not
/// later than `t` that precedes the later ones.
pub open spec fn is_insert_pos<T>(s: Seq<(Time, T)>, t: int, p: int) -> bool {
    &&& 0 <= p <= s.len()
    &&& forall|j: int| p <= j < s.len() ==> #[trigger] s[j].0@ > t
    &&& p > 0 ==> s[p - 1].0@ <= t
}

/// The position a value at time `t` takes in `s`.
pub open spec fn insert_pos<T>(s: Seq<(Time, T)>, t: int) -> int {
    choose|p: int| is_insert_pos(s, t, p)
}

/// `s` with `x` placed after the elements not later than it: kept in time
/// order, equal times in arrival order.
pub open spec fn insert_sorted<T>(s: Seq<(Time, T)>, x: (Time, T)) -> Seq<(Time, T)> {
    s.insert(insert_pos(s, x.0@), x)
}

/// The elements of `s` are in time order.
pub open spec fn time_sorted<T>(s: Seq<(Time, T)>) -> bool {
    forall|i: int, j: int| 0 <= i < j < s.len() ==> s[i].0@ <= s[j].0@
}

/// At most one position is where a value goes.
pub proof fn lemma_insert_pos_unique<T>(s: Seq<(Time, T)>, t: int, p: int)
    requires
        is_insert_pos(s, t, p),
    ensures
        insert_pos(s, t) == p,
{
    let c = insert_pos(s, t);
    assert(is_insert_pos(s, t, c));
    if c < p {
        assert(s[p - 1].0@ > t);
    } else if c > p {
        assert(s[c - 1].0@ > t);
    }
}

/// There is a position where a value goes.
pub proof fn lemma_insert_pos_exists<T>(s: Seq<(Time, T)>, t: int)
    ensures
        is_insert_pos(s, t, insert_pos(s, t)),
    decreases s.len(),
{
    if s.len() == 0 {
        assert(is_insert_pos(s, t, 0));
    } else if s.last().0@ <= t {
        assert(is_insert_pos(s, t, s.len() as int));
    } else {
        lemma_insert_pos_exists(s.drop_last(), t);
        let p = insert_pos(s.drop_last(), t);
        assert(is_insert_pos(s, t, p)) by {
            assert forall|j: int| p <= j < s.len() implies #[trigger] s[j].0@ > t by {
                if j < s.len() - 1 {
                    assert(s.drop_last()[j] == s[j]);
                }
            }
            if p > 0 {
                assert(s.drop_last()[p - 1] == s[p - 1]);
            }
        }
    }
}

/// Placing a value keeps a time-ordered sequence in time order.
pub proof fn lemma_insert_sorted_sorted<T>(s: Seq<(Time, T)>, x: (Time, T))
    requires
        time_sorted(s),
    ensures
        time_sorted(insert_sorted(s, x)),
        insert_sorted(s, x).to_multiset() == s.to_multiset().insert(x),
{
    lemma_insert_pos_exists(s, x.0@);
    let p = insert_pos(s, x.0@);
    let r = insert_sorted(s, x);
    assert forall|i: int, j: int| 0 <= i < j < r.len() implies r[i].0@ <= r[j].0@ by {
        if j < p {
        } else if j == p {
            if i < p {
                assert(s[i].0@ <= s[p - 1].0@);
            }
        } else if i < p {
            assert(s[i].0@ <= s[j - 1].0@);
        } else if i == p {
            assert(s[j - 1].0@ > x.0@);
        } else {
        }
    }
    broadcast use vstd::seq_lib::group_seq_properties;
    assert(r == s.take(p) + seq![x] + s.skip(p)) by {
        assert(r =~= s.take(p) + seq![x] + s.skip(p));
    }
    assert(s == s.take(p) + s.skip(p)) by {
        assert(s =~= s.take(p) + s.skip(p));
    }
    vstd::seq_lib::lemma_multiset_commutative(s.take(p) + seq![x], s.skip(p));
    vstd::seq_lib::lemma_multiset_commutative(s.take(p), seq![x]);
    vstd::seq_lib::lemma_multiset_commutative(s.take(p), s.skip(p));
}

/// Places `x` after the elements of `v` not later than it.
pub fn insert_in_time_order<T>(v: &mut Vec<(Time, T)>, x: (Time, T))
    ensures
        final(v)@ == insert_sorted(old(v)@, x),
{
    let mut p = v.len();
    while p > 0 && x.0.is_before(&v[p - 1].0)
        invariant
            p <= v@.len(),
            v@ == old(v)@,
            forall|j: int| p <= j < v@.len() ==> #[trigger] v@[j].0@ > x.0@,
        decreases p,
    {
        p = p - 1;
    }
    proof {
        assert(is_insert_pos(v@, x.0@, p as int));
        lemma_insert_pos_unique(v@, x.0@, p as int);
    }
    v.insert(p, x);
}

/// The values of a group, in its order, without their times.
pub open spec fn values_of<T>(items: Seq<(Time, T)>) -> Seq<T> {
    items.map_values(|x: (Time, T)| x.1)
}

/// The abstract state of a holistic window: each pane's start and, for each
/// key, the values received for it in time order.
pub open spec fn items_view<K, T>(ps: Seq<(int, Seq<(K, Vec<(Time, T)>)>)>) -> Seq<
    (int, Seq<(K, Seq<(Time, T)>)>),
> {
    ps.map_values(
        |p: (int, Seq<(K, Vec<(Time, T)>)>)|
            (p.0, p.1.map_values(|g: (K, Vec<(Time, T)>)| (g.0, g.1@))),
    )
}

/// The state after a value at time `item.0` with key `k` is added to the
/// pane starting at `s`.
pub open spec fn add_item<K, T>(
    hv: Seq<(int, Seq<(K, Seq<(Time, T)>)>)>,
    s: int,
    k: K,
    item: (Time, T),
) -> Seq<(int, Seq<(K, Seq<(Time, T)>)>)> {
    let p = pane_pos(hv, s);
    if p < hv.len() && hv[p].0 == s {
        match lookup(hv[p].1, k) {
            Some(g) => hv.update(p, (s, hv[p].1.update(g, (k, insert_sorted(hv[p].1[g].1, item))))),
            None => hv.update(p, (s, hv[p].1.push((k, seq![item])))),
        }
    } else {
        hv.insert(p, (s, seq![(k, seq![item])]))
    }
}

/// What closing one pane sends on: for each key in order, the key's values
/// stamped with the pane's end.
pub open spec fn pane_batches<K, T>(pane: (int, Seq<(K, Seq<(Time, T)>)>), d: int) -> Seq<(int, K, Seq<T>)> {
    pane.1.map_values(|g: (K, Seq<(Time, T)>)| (pane.0 + d, g.0, values_of(g.1)))
}

/// What closing the panes `closed` sends on: the batches of each pane, the
/// panes in order.
pub open spec fn closed_batches<K, T>(closed: Seq<(int, Seq<(K, Seq<(Time, T)>)>)>, d: int) -> Seq<
    (int, K, Seq<T>),
>
    decreases closed.len(),
{
    if closed.len() == 0 {
        Seq::empty()
    } else {
        closed_batches(closed.drop_last(), d) + pane_batches(closed.last(), d)
    }
}

/// The view of an emitted batch: its time, key and values.
pub open spec fn batch_view<K, T>(b: (Time, K, Vec<T>)) -> (int, K, Seq<T>) {
    (b.0@, b.1, b.2@)
}

/// Two lists with the same keys at the same places find a key at the same place.
pub proof fn lemma_lookup_same_keys<K, A, B>(a: Seq<(K, A)>, b: Seq<(K, B)>, k: K)
    requires
        a.len() == b.len(),
        forall|i: int| 0 <= i < a.len() ==> #[trigger] a[i].0 == b[i].0,
    ensures
        lookup(a, k) == lookup(b, k),
{
    if exists|i: int| 0 <= i < a.len() && a[i].0 == k {
        let ia = choose|i: int| 0 <= i < a.len() && a[i].0 == k && forall|j: int| 0 <= j < i ==> a[j].0 != k;
        let ib = choose|i: int| 0 <= i < b.len() && b[i].0 == k && forall|j: int| 0 <= j < i ==> b[j].0 != k;
        let w = choose|i: int| 0 <= i < a.len() && a[i].0 == k;
        assert(b[w].0 == k);
        lemma_first_index_exists(a, k, w);
        lemma_first_index_exists(b, k, w);
        if ia < ib {
            assert(b[ia].0 == k);
        } else if ib < ia {
            assert(a[ib].0 == k);
        }
    } else {
        if exists|i: int| 0 <= i < b.len() && b[i].0 == k {
            let w = choose|i: int| 0 <= i < b.len() && b[i].0 == k;
            assert(a[w].0 == k);
        }
    }
}

/// If a key occurs somewhere, it has a first occurrence.
pub proof fn lemma_first_index_exists<K, A>(a: Seq<(K, A)>, k: K, w: int)
    requires
        0 <= w < a.len(),
        a[w].0 == k,
    ensures
        exists|i: int| 0 <= i < a.len() && a[i].0 == k && forall|j: int| 0 <= j < i ==> a[j].0 != k,
    decreases w,
{
    if exists|j: int| 0 <= j < w && a[j].0 == k {
        let j = choose|j: int| 0 <= j < w && a[j].0 == k;
        lemma_first_index_exists(a, k, j);
    } else {
        assert(0 <= w < a.len() && a[w].0 == k && forall|j: int| 0 <= j < w ==> a[j].0 != k);
    }
}

/// Two pane lists with the same starts at the same places have the same
/// position for a start.
pub proof fn lemma_pane_pos_same_starts<A, B>(a: Seq<(int, A)>, b: Seq<(int, B)>, s: int)
    requires
        a.len() == b.len(),
        forall|i: int| 0 <= i < a.len() ==> #[trigger] a[i].0 == b[i].0,
    ensures
        pane_pos(a, s) == pane_pos(b, s),
{
    let p = pane_pos_witness(a, s);
    assert forall|j: int| 0 <= j < p implies #[trigger] b[j].0 < s by {
        assert(a[j].0 == b[j].0);
    }
    if p < a.len() {
        assert(a[p].0 == b[p].0);
    }
    assert(is_pane_pos(b, s, p));
    lemma_pane_pos_unique(a, s, p);
    lemma_pane_pos_unique(b, s, p);
}

/// The position of the first pane at or after `s` exists.
pub proof fn pane_pos_witness<A>(a: Seq<(int, A)>, s: int) -> (p: int)
    ensures
        is_pane_pos(a, s, p),
{
    pane_pos_scan(a, s, 0)
}

/// Scans for the first pane at or after `s` from position `i`, all panes
/// before `i` starting before `s`.
proof fn pane_pos_scan<A>(a: Seq<(int, A)>, s: int, i: int) -> (p: int)
    requires
        0 <= i <= a.len(),
        forall|j: int| 0 <= j < i ==> #[trigger] a[j].0 < s,
    ensures
        is_pane_pos(a, s, p),
    decreases a.len() - i,
{
    if i == a.len() || a[i].0 >= s {
        i
    } else {
        pane_pos_scan(a, s, i + 1)
    }
}

/// A keyed tumbling window that hands each key's values over at once.
pub struct HolisticWindow<K, T> {
    panes: Panes<K, Vec<(Time, T)>>,
}

impl<K, T> View for HolisticWindow<K, T> {
    type V = Seq<(int, Seq<(K, Seq<(Time, T)>)>)>;

    closed spec fn view(&self) -> Seq<(int, Seq<(K, Seq<(Time, T)>)>)> {
        items_view(self.panes@)
    }
}

impl<K, T> HolisticWindow<K, T> {
    /// The window length in nanoseconds.
    pub closed spec fn length(&self) -> int {
        self.panes.length()
    }

    /// An empty window of the given length (a zero length takes no value).
    pub fn new(duration: Duration) -> (w: HolisticWindow<K, T>)
        ensures
            w@ == Seq::<(int, Seq<(K, Seq<(Time, T)>)>)>::empty(),
            w.length() == duration@,
    {
        let w = HolisticWindow { panes: Panes::new(duration) };
        proof {
            assert(w@ =~= Seq::<(int, Seq<(K, Seq<(Time, T)>)>)>::empty());
        }
        w
    }
}

impl<K: PartialEq, T> HolisticWindow<K, T> {
    /// Adds a value with its key and time.
    pub fn add(&mut self, time: Time, key: K, value: T)
        requires
            obeys_concrete_eq::<K>(),
            assignable(time@, old(self).length()),
        ensures
            final(self).length() == old(self).length(),
            final(self)@ == add_item(old(self)@, start_of(time@, old(self).length()), key, (time, value)),
    {
        let ghost old_ps = self.panes@;
        let ghost s = start_of(time@, self.length());
        let ghost k = key;
        let fresh: Vec<(Time, T)> = Vec::new();
        let ghost dflt = fresh;
        let (pi, gi) = self.panes.get_state(time, key, fresh);
        let ghost mid = self.panes@;
        let mut items = self.panes.replace_state(pi, gi, Vec::new());
        let ghost mid2 = self.panes@;
        let ghost before = items@;
        insert_in_time_order(&mut items, (time, value));
        let ghost new_items = items;
        self.panes.replace_state(pi, gi, items);
        proof {
            let ps1 = self.panes@;
            assert(mid2[pi as int].0 == s);
            assert(mid2[pi as int].1[gi as int].0 == k);
            assert(ps1[pi as int].1 =~= mid[pi as int].1.update(gi as int, (k, new_items)));
            assert(ps1 =~= mid.update(pi as int, (s, mid[pi as int].1.update(gi as int, (k, new_items)))));
            let items = new_items;
            lemma_add_item(old_ps, s, k, dflt, pi as int, gi as int, items, (time, value), ps1);
        }
    }
}

impl<K, T> HolisticWindow<K, T> {
    /// Removes the panes that end before `time` and returns, for each in
    /// order of start and each of its keys in order, the pane's end, the key
    /// and the key's values in time order.
    pub fn close(&mut self, time: Time) -> (r: Vec<(Time, K, Vec<T>)>)
        ensures
            final(self).length() == old(self).length(),
            r@.map_values(|b: (Time, K, Vec<T>)| batch_view(b)) == closed_batches(
                old(self)@.take(expired_count(old(self)@, old(self).length(), time@)),
                old(self).length(),
            ),
            final(self)@ == old(self)@.skip(expired_count(old(self)@, old(self).length(), time@)),
    {
        let ghost old_ps = self.panes@;
        let ghost hv = self@;
        let d = self.panes.duration();
        let expired = self.panes.pop_expired(time);
        let ghost n = expired_count(old_ps, d@, time@);
        proof {
            lemma_expired_same_starts(hv, old_ps, d@, time@);
            let w = expired_witness(old_ps, d@, time@, 0);
            lemma_expired_count_unique(old_ps, d@, time@, w);
            assert(0 <= n <= old_ps.len());
            assert(self.panes@ == old_ps.skip(n));
            assert forall|i: int| 0 <= i < self@.len() implies #[trigger] self@[i] == hv.skip(n)[i] by {
                assert(self.panes@[i] == old_ps[i + n]);
            }
            assert(self@ =~= hv.skip(n));
        }
        let ghost ev = items_view(expired@.map_values(|p: (Time, Vec<(K, Vec<(Time, T)>)>)| pane_view(p)));
        proof {
            let em = expired@.map_values(|p: (Time, Vec<(K, Vec<(Time, T)>)>)| pane_view(p));
            assert(em == old_ps.take(n));
            assert forall|i: int| 0 <= i < ev.len() implies #[trigger] ev[i] == hv.take(n)[i] by {
                assert(em[i] == old_ps[i]);
            }
            assert(ev =~= hv.take(n));
        }
        let mut panes = crate::iterator::Iter::new(expired);
        let mut out: Vec<(Time, K, Vec<T>)> = Vec::new();
        let ghost mut i: int = 0;
        while panes.len() > 0
            invariant
                0 <= i <= ev.len(),
                ev.len() == expired@.len(),
                panes@ == expired@.skip(i),
                d@ == old(self).length(),
                forall|j: int| 0 <= j < expired@.len() ==> in_range(#[trigger] expired@[j].0@ + d@),
                ev == items_view(expired@.map_values(|p: (Time, Vec<(K, Vec<(Time, T)>)>)| pane_view(p))),
                out@.map_values(|b: (Time, K, Vec<T>)| batch_view(b)) == closed_batches(ev.take(i), d@),
            decreases ev.len() - i,
        {
            let (start, groups) = panes.next().unwrap();
            proof {
                assert(expired@[i].0 == start);
                assert(panes@ =~= expired@.skip(i + 1));
            }
            let end = start.add_duration(d);
            let ghost base = out@.map_values(|b: (Time, K, Vec<T>)| batch_view(b));
            let ghost pane = ev[i];
            proof {
                assert(pane.0 == start@);
                assert(pane.1 == groups@.map_values(|g: (K, Vec<(Time, T)>)| (g.0, g.1@)));
            }
            let mut gs = crate::iterator::Iter::new(groups);
            let ghost mut g: int = 0;
            while gs.len() > 0
                invariant
                    0 <= g <= pane.1.len(),
                    pane.1.len() == groups@.len(),
                    gs@ == groups@.skip(g),
                    pane.1 == groups@.map_values(|q: (K, Vec<(Time, T)>)| (q.0, q.1@)),
                    end@ == pane.0 + d@,
                    out@.map_values(|b: (Time, K, Vec<T>)| batch_view(b)) == base + pane_batches(pane, d@).take(g),
                decreases pane.1.len() - g,
            {
                let (key, items) = gs.next().unwrap();
                proof {
                    assert(groups@[g] == (key, items));
                    assert(gs@ =~= groups@.skip(g + 1));
                }
                let values = values_in_order(items);
                let ghost before_out = out@.map_values(|b: (Time, K, Vec<T>)| batch_view(b));
                out.push((end, key, values));
                proof {
                    assert(out@.map_values(|b: (Time, K, Vec<T>)| batch_view(b)) =~= before_out.push(batch_view((end, key, values))));
                    assert(g < pane.1.len());
                    assert(pane_batches(pane, d@)[g] == (pane.0 + d@, key, values_of(items@)));
                    assert(out@.map_values(|b: (Time, K, Vec<T>)| batch_view(b)) =~= base + pane_batches(pane, d@).take(g + 1));
                    g = g + 1;
                }
            }
            proof {
                assert(pane_batches(pane, d@).take(g) =~= pane_batches(pane, d@));
                assert(ev.take(i + 1).drop_last() =~= ev.take(i));
                assert(ev.take(i + 1).last() == pane);
                i = i + 1;
            }
        }
        proof {
            assert(ev.take(i) =~= ev);
        }
        out
    }
}

/// What a holistic window of length `d` in state `before` does with
/// `event`: the state it goes to, `after`, and what it sends on, `out` (see
/// `HolisticWindow::step`).
pub open spec fn stepped<K, T>(
    before: Seq<(int, Seq<(K, Seq<(Time, T)>)>)>,
    d: int,
    after: Seq<(int, Seq<(K, Seq<(Time, T)>)>)>,
    event: KeyedEvent<K, T>,
    out: Seq<KeyedEvent<K, Vec<T>>>,
) -> bool {
    match event {
        KeyedEvent::Data(t, k, v) => out.len() == 0 && after == add_item(before, start_of(t@, d), k, (t, v)),
        KeyedEvent::Watermark(t) => {
            let n = expired_count(before, d, t@);
            let batches = closed_batches(before.take(n), d);
            &&& after == before.skip(n)
            &&& out.len() == batches.len() + 1
            &&& forall|i: int|
                0 <= i < batches.len() ==> (#[trigger] out[i] matches KeyedEvent::Data(t1, k, vs) && (
                t1@,
                k,
                vs@,
            ) == batches[i])
            &&& out[batches.len() as int] == KeyedEvent::<K, Vec<T>>::Watermark(t)
        },
        KeyedEvent::Snapshot(i) => after == before && out == seq![KeyedEvent::<K, Vec<T>>::Snapshot(i)],
        KeyedEvent::Sentinel => after == before && out == seq![KeyedEvent::<K, Vec<T>>::Sentinel],
    }
}

impl<K: PartialEq, T> HolisticWindow<K, T> {
    /// What the window does with one event: a value is added to its pane
    /// and key; a watermark closes the panes that end before it, sending
    /// each key's values of each closed pane (to be aggregated) and then the
    /// watermark; a snapshot request or the end marker is passed on.
    pub fn step(&mut self, event: KeyedEvent<K, T>) -> (r: Vec<KeyedEvent<K, Vec<T>>>)
        requires
            obeys_concrete_eq::<K>(),
            event matches KeyedEvent::Data(t, _, _) ==> assignable(t@, old(self).length()),
        ensures
            final(self).length() == old(self).length(),
            stepped(old(self)@, old(self).length(), final(self)@, event, r@),
    {
        let mut r: Vec<KeyedEvent<K, Vec<T>>> = Vec::new();
        match event {
            KeyedEvent::Data(t, k, v) => {
                self.add(t, k, v);
            },
            KeyedEvent::Watermark(t) => {
                let batches = self.close(t);
                let ghost bv = batches@.map_values(|b: (Time, K, Vec<T>)| batch_view(b));
                let mut it = crate::iterator::Iter::new(batches);
                let ghost all = it@;
                while it.len() > 0
                    invariant
                        it@ == all.skip(r@.len() as int),
                        r@.len() <= all.len(),
                        bv == all.map_values(|b: (Time, K, Vec<T>)| batch_view(b)),
                        forall|i: int|
                            0 <= i < r@.len() ==> (#[trigger] r@[i] matches KeyedEvent::Data(
                                t1,
                                k,
                                vs,
                            ) && (t1@, k, vs@) == bv[i]),
                    decreases all.len() - r@.len(),
                {
                    let (t1, k, vs) = it.next().unwrap();
                    proof {
                        assert(all[r@.len() as int] == (t1, k, vs));
                        assert(it@ =~= all.skip(r@.len() as int + 1));
                    }
                    r.push(KeyedEvent::Data(t1, k, vs));
                }
                r.push(KeyedEvent::Watermark(t));
            },
            KeyedEvent::Snapshot(i) => {
                r.push(KeyedEvent::Snapshot(i));
            },
            KeyedEvent::Sentinel => {
                r.push(KeyedEvent::Sentinel);
            },
        }
        r
    }
}

/// Closing the panes of the holistic window state `before`, of length `d`,
/// at the watermark `t` hands over the values `vs` for some pane and key.
pub open spec fn closes_batch<K, T>(before: Seq<(int, Seq<(K, Seq<(Time, T)>)>)>, d: int, t: int, vs: Seq<T>) -> bool {
    let batches = closed_batches(before.take(expired_count(before, d, t)), d);
    exists|i: int| 0 <= i < batches.len() && #[trigger] batches[i].2 == vs
}

/// `o` is what `compute` gives for some vector holding the values `vs`.
pub open spec fn computed_from<T, O, Co: Fn(Vec<T>) -> O>(compute: Co, vs: Seq<T>, o: O) -> bool {
    exists|v: Vec<T>| v@ == vs && #[trigger] compute.ensures((v,), o)
}

/// `e` is `b` with the values of a batch aggregated by `compute`: the same
/// control event, or a value with the batch's time and key that `compute`
/// gives for the batch's values.
pub open spec fn aggregated_event<K, T, O, Co: Fn(Vec<T>) -> O>(
    b: KeyedEvent<K, Vec<T>>,
    e: KeyedEvent<K, O>,
    compute: Co,
) -> bool {
    match b {
        KeyedEvent::Data(t, k, vs) => e matches KeyedEvent::Data(t1, k1, o) && t1 == t && k1 == k
            && computed_from(compute, vs@, o),
        KeyedEvent::Watermark(t) => e == KeyedEvent::<K, O>::Watermark(t),
        KeyedEvent::Snapshot(i) => e == KeyedEvent::<K, O>::Snapshot(i),
        KeyedEvent::Sentinel => e == KeyedEvent::<K, O>::Sentinel,
    }
}

impl<K: PartialEq, T> HolisticWindow<K, T> {
    /// `step`, with the values of each closed pane and key aggregated by
    /// `compute` (called on them in time order).
    pub fn step_with<O, Co: Fn(Vec<T>) -> O>(&mut self, event: KeyedEvent<K, T>, compute: &Co) -> (r: Vec<
        KeyedEvent<K, O>,
    >)
        requires
            obeys_concrete_eq::<K>(),
            event matches KeyedEvent::Data(t, _, _) ==> assignable(t@, old(self).length()),
            event matches KeyedEvent::Watermark(t) ==> forall|v: Vec<T>|
                closes_batch(old(self)@, old(self).length(), t@, v@) ==> #[trigger] compute.requires((v,)),
        ensures
            final(self).length() == old(self).length(),
            exists|raw: Seq<KeyedEvent<K, Vec<T>>>|
                {
                    &&& #[trigger] stepped(old(self)@, old(self).length(), final(self)@, event, raw)
                    &&& raw.len() == r@.len()
                    &&& forall|i: int| 0 <= i < raw.len() ==> #[trigger] aggregated_event(raw[i], r@[i], compute)
                },
    {
        let ghost ev = event;
        let ghost before = self@;
        let ghost d = self.length();
        let raw = self.step(event);
        let ghost rv = raw@;
        proof {
            assert forall|j: int| 0 <= j < rv.len() implies (#[trigger] rv[j] matches KeyedEvent::Data(_, _, vs)
                ==> compute.requires((vs,))) by {
                match ev {
                    KeyedEvent::Watermark(t) => {
                        let n = expired_count(before, d, t@);
                        let batches = closed_batches(before.take(n), d);
                        if j < batches.len() {
                            assert(rv[j] matches KeyedEvent::Data(t1, k, vs) && (t1@, k, vs@) == batches[j]);
                            if let KeyedEvent::Data(_, _, vs) = rv[j] {
                                assert(batches[j].2 == vs@);
                                assert(closes_batch(before, d, t@, vs@));
                            }
                        }
                    },
                    _ => {},
                }
            }
        }
        let mut it = crate::iterator::Iter::new(raw);
        let mut r: Vec<KeyedEvent<K, O>> = Vec::new();
        while it.len() > 0
            invariant
                it@ == rv.skip(r@.len() as int),
                r@.len() <= rv.len(),
                forall|j: int| 0 <= j < rv.len() ==> (#[trigger] rv[j] matches KeyedEvent::Data(_, _, vs)
                    ==> compute.requires((vs,))),
                forall|i: int| 0 <= i < r@.len() ==> #[trigger] aggregated_event(rv[i], r@[i], compute),
            decreases rv.len() - r@.len(),
        {
            let b = it.next().unwrap();
            proof {
                assert(rv[r@.len() as int] == b);
                assert(it@ =~= rv.skip(r@.len() as int + 1));
            }
            let e = match b {
                KeyedEvent::Data(t, k, vs) => {
                    let ghost w = vs;
                    let o = compute(vs);
                    proof {
                        assert(compute.ensures((w,), o));
                        assert(computed_from(*compute, w@, o));
                    }
                    KeyedEvent::Data(t, k, o)
                },
                KeyedEvent::Watermark(t) => KeyedEvent::Watermark(t),
                KeyedEvent::Snapshot(i) => KeyedEvent::Snapshot(i),
                KeyedEvent::Sentinel => KeyedEvent::Sentinel,
            };
            r.push(e);
        }
        proof {
            assert(stepped(old(self)@, old(self).length(), self@, event, rv));
        }
        r
    }
}

/// One turn of the unkeyed `window` task, which starts every turn from an
/// empty window: a value is added to a window that is then dropped, so
/// nothing is sent for it; a watermark finds no pane to close and is passed
/// on, as are snapshot requests and the end marker.
pub fn window_turn<T>(duration: Duration, event: Event<T>) -> (r: Vec<Event<Vec<T>>>)
    requires
        event matches Event::Data(t, _) ==> assignable(t@, duration@),
    ensures
        match event {
            Event::Data(_, _) => r@.len() == 0,
            Event::Watermark(t) => r@ == seq![Event::<Vec<T>>::Watermark(t)],
            Event::Snapshot(i) => r@ == seq![Event::<Vec<T>>::Snapshot(i)],
            Event::Sentinel => r@ == seq![Event::<Vec<T>>::Sentinel],
        },
{
    let mut state: HolisticWindow<u8, T> = HolisticWindow::new(duration);
    let ghost ev = event;
    let (keyed, echo) = match event {
        Event::Data(t, v) => (KeyedEvent::Data(t, 0u8, v), None),
        Event::Watermark(t) => (KeyedEvent::Watermark(t), Some(Event::Watermark(t))),
        Event::Snapshot(i) => (KeyedEvent::Snapshot(i), Some(Event::Snapshot(i))),
        Event::Sentinel => (KeyedEvent::Sentinel, Some(Event::Sentinel)),
    };
    proof {
        broadcast use vstd::laws_eq::group_laws_eq;
    }
    let ghost empty = state@;
    let out = state.step(keyed);
    let mut r: Vec<Event<Vec<T>>> = Vec::new();
    proof {
        if ev is Watermark {
            let w = expired_witness(empty, duration@, ev->Watermark_0@, 0);
            lemma_expired_count_unique(empty, duration@, ev->Watermark_0@, w);
            assert(empty.take(0) =~= Seq::<(int, Seq<(u8, Seq<(Time, T)>)>)>::empty());
            assert(closed_batches(empty.take(0), duration@) =~= Seq::<(int, u8, Seq<T>)>::empty());
        }
    }
    match echo {
        Some(e) => r.push(e),
        None => {},
    }
    let _ = out;
    r
}

/// The values of a list of timed values, in order.
fn values_in_order<T>(items: Vec<(Time, T)>) -> (r: Vec<T>)
    ensures
        r@ == values_of(items@),
{
    let ghost all = items@;
    let mut it = crate::iterator::Iter::new(items);
    let mut r: Vec<T> = Vec::new();
    while it.len() > 0
        invariant
            r@.len() <= all.len(),
            it@ == all.skip(r@.len() as int),
            r@ == values_of(all.take(r@.len() as int)),
        decreases all.len() - r@.len(),
    {
        let (_, v) = it.next().unwrap();
        proof {
            assert(it@ =~= all.skip(r@.len() as int + 1));
            assert(values_of(all.take(r@.len() as int + 1)) =~= values_of(all.take(r@.len() as int)).push(v));
        }
        r.push(v);
    }
    proof {
        assert(all.take(all.len() as int) =~= all);
    }
    r
}

/// Two pane lists with the same starts at the same places have the same
/// number of leading panes that end before `w`.
pub proof fn lemma_expired_same_starts<A, B>(a: Seq<(int, A)>, b: Seq<(int, B)>, d: int, w: int)
    requires
        a.len() == b.len(),
        forall|i: int| 0 <= i < a.len() ==> #[trigger] a[i].0 == b[i].0,
    ensures
        expired_count(a, d, w) == expired_count(b, d, w),
{
    let n = expired_witness(a, d, w, 0);
    assert forall|j: int| 0 <= j < n implies #[trigger] b[j].0 + d < w by {
        assert(a[j].0 == b[j].0);
    }
    if n < a.len() {
        assert(a[n].0 == b[n].0);
    }
    assert(is_expired_count(b, d, w, n));
    lemma_expired_count_unique(a, d, w, n);
    lemma_expired_count_unique(b, d, w, n);
}

/// Scans for the number of leading panes that end before `w` from
/// position `i`.
pub proof fn expired_witness<A>(a: Seq<(int, A)>, d: int, w: int, i: int) -> (n: int)
    requires
        0 <= i <= a.len(),
        forall|j: int| 0 <= j < i ==> #[trigger] a[j].0 + d < w,
    ensures
        is_expired_count(a, d, w, n),
    decreases a.len() - i,
{
    if i == a.len() || !(a[i].0 + d < w) {
        i
    } else {
        expired_witness(a, d, w, i + 1)
    }
}

/// Adding an item through `Panes::get_state` and two replacements gives the
/// state `add_item` describes.
proof fn lemma_add_item<K, T>(
    old_ps: Seq<(int, Seq<(K, Vec<(Time, T)>)>)>,
    s: int,
    k: K,
    dflt: Vec<(Time, T)>,
    pi: int,
    gi: int,
    v: Vec<(Time, T)>,
    item: (Time, T),
    fin: Seq<(int, Seq<(K, Vec<(Time, T)>)>)>,
)
    requires
        dflt@ == Seq::<(Time, T)>::empty(),
        0 <= pi,
        0 <= gi,
        pi == pane_pos(old_ps, s),
        pi < with_entry(old_ps, s, k, dflt).len(),
        with_entry(old_ps, s, k, dflt)[pi].0 == s,
        gi < with_entry(old_ps, s, k, dflt)[pi].1.len(),
        with_entry(old_ps, s, k, dflt)[pi].1[gi].0 == k,
        lookup(with_entry(old_ps, s, k, dflt)[pi].1, k) == Some(gi),
        v@ == insert_sorted(with_entry(old_ps, s, k, dflt)[pi].1[gi].1@, item),
        fin == with_entry(old_ps, s, k, dflt).update(
            pi,
            (s, with_entry(old_ps, s, k, dflt)[pi].1.update(gi, (k, v))),
        ),
    ensures
        items_view(fin) == add_item(items_view(old_ps), s, k, item),
{
    let mid = with_entry(old_ps, s, k, dflt);
    let hv = items_view(old_ps);
    let w = pane_pos_witness(old_ps, s);
    lemma_pane_pos_unique(old_ps, s, w);
    lemma_pane_pos_same_starts(hv, old_ps, s);
    let p = pi;
    if p < old_ps.len() && old_ps[p].0 == s {
        assert(hv[p].1.len() == old_ps[p].1.len());
        assert forall|i: int| 0 <= i < hv[p].1.len() implies #[trigger] hv[p].1[i].0 == old_ps[p].1[i].0 by {
        }
        lemma_lookup_same_keys(hv[p].1, old_ps[p].1, k);
        match lookup(old_ps[p].1, k) {
            Some(g) => {
                assert(mid == old_ps);
                assert(g == gi);
                assert(items_view(fin)[p].1 =~= hv[p].1.update(g, (k, insert_sorted(hv[p].1[g].1, item))));
                assert(items_view(fin) =~= add_item(hv, s, k, item));
            },
            None => {
                let n = old_ps[p].1.len() as int;
                assert(pane_pos(old_ps, s) == p);
                assert(mid == old_ps.update(p, (s, old_ps[p].1.push((k, dflt)))));
                assert(mid[p].1 == old_ps[p].1.push((k, dflt)));
                lemma_lookup_last(mid[p].1, k);
                assert(gi == n);
                lemma_insert_pos_unique(dflt@, item.0@, 0);
                assert(insert_sorted(dflt@, item) =~= seq![item]);
                assert(items_view(fin)[p].1 =~= hv[p].1.push((k, seq![item])));
                assert(items_view(fin) =~= add_item(hv, s, k, item));
            },
        }
    } else {
        assert(mid == old_ps.insert(p, (s, seq![(k, dflt)])));
        assert(mid[p] == (s, seq![(k, dflt)]));
        assert(gi == 0);
        lemma_insert_pos_unique(dflt@, item.0@, 0);
        assert(insert_sorted(dflt@, item) =~= seq![item]);
        assert(mid[p].1 =~= seq![(k, dflt)]);
        assert(mid[p].1.update(gi, (k, v)) =~= seq![(k, v)]);
        assert(fin =~= old_ps.insert(p, (s, seq![(k, v)])));
        let expect = hv.insert(p, (s, seq![(k, seq![item])]));
        assert(add_item(hv, s, k, item) == expect);
        let got = items_view(fin);
        assert(got.len() == expect.len());
        assert forall|i: int| 0 <= i < got.len() implies got[i] == expect[i] by {
            if i < p {
                assert(fin[i] == old_ps[i]);
            } else if i == p {
                assert(got[i].1 =~= seq![(k, seq![item])]);
            } else {
                assert(fin[i] == old_ps[i - 1]);
            }
        }
        assert(got =~= expect);
    }
}

} // verus!
