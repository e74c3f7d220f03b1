//! The per-window, per-key state of tumbling-window operators.
//!
//! A tumbling window of length `d` assigns each time `t` to the pane that
//! starts at `floor(t / d) * d`. `Panes` keeps, for each pane that holds
//! data, one state per key, the panes ordered by their start and the keys of
//! a pane listed once each in the order they first arrived. Its view is that
//! list of panes: each a start (in nanoseconds) and its keyed states.
//!
//! The panes are held in vectors rather than in an ordered map from start to
//! a hash map from key to state; the invariant `panes_ok` states what those
//! maps would give: starts in strictly increasing order and no key twice in
//! a pane.
use crate::duration::Duration;
use crate::ops::find_key;
use crate::ops::lookup;
use crate::time::div_floor_i128;
use crate::time::floor_div;
use crate::time::in_range;
use crate::time::Time;
use vstd::laws_eq::obeys_concrete_eq;
use vstd::arithmetic::div_mod::lemma_fundamental_div_mod;
use vstd::arithmetic::div_mod::lemma_mod_bound;
use vstd::prelude::*;

verus! {

/// The start of the pane of length `d` that holds time `t`.
pub open spec fn start_of(t: int, d: int) -> int {
    floor_div(t, d) * d
}

/// A time `t` can be assigned to a pane of length `d`: the length is
/// nonzero and the quotient, the pane's start and its end are valid times.
pub open spec fn assignable(t: int, d: int) -> bool {
    &&& d != 0
    &&& in_range(floor_div(t, d))
    &&& in_range(start_of(t, d))
    &&& in_range(start_of(t, d) + d)
}

/// A pane's start lies within one pane length of the times it holds: at or
/// before them for a positive length, at or after for a negative one.
pub proof fn lemma_start_near(t: int, d: int)
    requires
        d != 0,
    ensures
        d > 0 ==> t - d < start_of(t, d) <= t,
        d < 0 ==> t <= start_of(t, d) < t - d,
{
    if d > 0 {
        lemma_fundamental_div_mod(t, d);
        lemma_mod_bound(t, d);
        assert(floor_div(t, d) == t / d);
        assert(floor_div(t, d) * d == d * (t / d)) by (nonlinear_arith)
            requires
                floor_div(t, d) == t / d,
        ;
    } else {
        let b = -d;
        lemma_fundamental_div_mod(-t, b);
        lemma_mod_bound(-t, b);
        assert(floor_div(t, d) == (-t) / b);
        assert(floor_div(t, d) * d == -(b * ((-t) / b))) by (nonlinear_arith)
            requires
                b == -d,
                floor_div(t, d) == (-t) / b,
        ;
    }
}

/// The start of the pane that holds `time`: `time` divided by the length,
/// rounded down, times the length.
pub fn window_start(time: Time, duration: Duration) -> (s: Time)
    requires
        assignable(time@, duration@),
    ensures
        s@ == start_of(time@, duration@),
{
    time.div_floor(duration).mul_duration(duration)
}

/// Whether `time` can be assigned to a pane of the given length.
pub fn assignable_time(time: Time, duration: Duration) -> (r: bool)
    ensures
        r == assignable(time@, duration@),
{
    let d = duration.nanoseconds();
    let t = time.nanoseconds();
    if d == 0 {
        return false;
    }
    let q = div_floor_i128(t, d);
    if !(crate::time::MIN_UNIX_SECONDS as i128 * 1_000_000_000i128 <= q && q
        <= crate::time::MAX_UNIX_SECONDS as i128 * 1_000_000_000i128 + 999_999_999i128) {
        return false;
    }
    proof {
        lemma_start_near(t as int, d as int);
    }
    let s = q * d;
    let lo = crate::time::MIN_UNIX_SECONDS as i128 * 1_000_000_000i128;
    let hi = crate::time::MAX_UNIX_SECONDS as i128 * 1_000_000_000i128 + 999_999_999i128;
    lo <= s && s <= hi && lo <= s + d && s + d <= hi
}

/// `p` is the position of the first pane that starts at or after `s`.
pub open spec fn is_pane_pos<X>(ps: Seq<(int, X)>, s: int, p: int) -> bool {
    &&& 0 <= p <= ps.len()
    &&& forall|j: int| 0 <= j < p ==> #[trigger] ps[j].0 < s
    &&& p < ps.len() ==> ps[p].0 >= s
}

/// The position of the first pane that starts at or after `s` (the number
/// of panes that start before it, when the panes are in order).
pub open spec fn pane_pos<X>(ps: Seq<(int, X)>, s: int) -> int {
    choose|p: int| is_pane_pos(ps, s, p)
}

/// At most one position is the first pane at or after `s`.
pub proof fn lemma_pane_pos_unique<X>(ps: Seq<(int, X)>, s: int, p: int)
    requires
        is_pane_pos(ps, s, p),
    ensures
        pane_pos(ps, s) == p,
{
    let c = pane_pos(ps, s);
    assert(is_pane_pos(ps, s, c));
    if c < p {
        assert(ps[c].0 < s);
    } else if c > p {
        assert(ps[p].0 < s);
    }
}

/// `n` is the number of leading panes whose end (start plus `d`) is before `w`.
pub open spec fn is_expired_count<X>(ps: Seq<(int, X)>, d: int, w: int, n: int) -> bool {
    &&& 0 <= n <= ps.len()
    &&& forall|j: int| 0 <= j < n ==> #[trigger] ps[j].0 + d < w
    &&& n < ps.len() ==> !(ps[n].0 + d < w)
}

/// The number of leading panes whose end is before `w`.
pub open spec fn expired_count<X>(ps: Seq<(int, X)>, d: int, w: int) -> int {
    choose|n: int| is_expired_count(ps, d, w, n)
}

/// At most one number is the count of leading expired panes.
pub proof fn lemma_expired_count_unique<X>(ps: Seq<(int, X)>, d: int, w: int, n: int)
    requires
        is_expired_count(ps, d, w, n),
    ensures
        expired_count(ps, d, w) == n,
{
    let c = expired_count(ps, d, w);
    assert(is_expired_count(ps, d, w, c));
    if c < n {
        assert(ps[c].0 + d < w);
    } else if c > n {
        assert(ps[n].0 + d < w);
    }
}

/// The panes after the state of key `k` in the pane starting at `s` has
/// been made to exist, with `default` as the state of a new key.
pub open spec fn with_entry<K, S>(ps: Seq<(int, Seq<(K, S)>)>, s: int, k: K, default: S) -> Seq<
    (int, Seq<(K, S)>),
> {
    let p = pane_pos(ps, s);
    if p < ps.len() && ps[p].0 == s {
        if lookup(ps[p].1, k) is Some {
            ps
        } else {
            ps.update(p, (s, ps[p].1.push((k, default))))
        }
    } else {
        ps.insert(p, (s, seq![(k, default)]))
    }
}

/// The panes are in strictly increasing order of start, each pane's start
/// and end are valid times, and no key occurs twice in a pane.
pub open spec fn panes_ok<K, S>(ps: Seq<(int, Seq<(K, S)>)>, d: int) -> bool {
    &&& forall|i: int, j: int| 0 <= i < j < ps.len() ==> ps[i].0 < ps[j].0
    &&& forall|i: int| 0 <= i < ps.len() ==> in_range(#[trigger] ps[i].0) && in_range(ps[i].0 + d)
    &&& forall|i: int, a: int, b: int|
        0 <= i < ps.len() && 0 <= a < b < ps[i].1.len() ==> #[trigger] ps[i].1[a].0
            != #[trigger] ps[i].1[b].0
}

/// The keyed states of the panes of a tumbling window.
pub struct Panes<K, S> {
    duration: Duration,
    panes: Vec<(Time, Vec<(K, S)>)>,
}

/// The view of a stored pane: its start and its keyed states.
pub open spec fn pane_view<K, S>(p: (Time, Vec<(K, S)>)) -> (int, Seq<(K, S)>) {
    (p.0@, p.1@)
}

impl<K, S> View for Panes<K, S> {
    type V = Seq<(int, Seq<(K, S)>)>;

    closed spec fn view(&self) -> Seq<(int, Seq<(K, S)>)> {
        self.panes@.map_values(|p: (Time, Vec<(K, S)>)| pane_view(p))
    }
}

impl<K, S> Panes<K, S> {
    #[verifier::type_invariant]
    spec fn inv(self) -> bool {
        &&& (self.duration@ != 0 || self.panes@.len() == 0)
        &&& panes_ok(self.panes@.map_values(|p: (Time, Vec<(K, S)>)| pane_view(p)), self.duration@)
    }

    /// The pane length in nanoseconds.
    pub closed spec fn length(&self) -> int {
        self.duration@
    }

    /// No pane yet, for panes of the given length (a zero length takes no
    /// value).
    pub fn new(duration: Duration) -> (r: Panes<K, S>)
        ensures
            r@ == Seq::<(int, Seq<(K, S)>)>::empty(),
            r.length() == duration@,
    {
        let r = Panes { duration, panes: Vec::new() };
        proof {
            assert(r@ =~= Seq::<(int, Seq<(K, S)>)>::empty());
        }
        r
    }

    /// The pane length.
    pub fn duration(&self) -> (d: Duration)
        ensures
            d@ == self.length(),
    {
        self.duration
    }

    /// The panes are in order, within the calendar, with keys listed once.
    pub(crate) fn facts(&self)
        ensures
            panes_ok(self@, self.length()),
            self.length() != 0 || self@.len() == 0,
    {
        proof {
            use_type_invariant(self);
        }
    }

    /// The number of panes.
    pub fn len(&self) -> (n: usize)
        ensures
            n == self@.len(),
    {
        self.panes.len()
    }

}

impl<K: PartialEq, S> Panes<K, S> {
    /// Makes the state of key `key` in the pane that holds `time` exist,
    /// with `default` as the state of a key new to that pane, and returns
    /// the positions of that pane and of the key in it.
    pub fn get_state(&mut self, time: Time, key: K, default: S) -> (r: (usize, usize))
        requires
            obeys_concrete_eq::<K>(),
            assignable(time@, old(self).length()),
        ensures
            final(self).length() == old(self).length(),
            final(self)@ == with_entry(old(self)@, start_of(time@, old(self).length()), key, default),
            r.0 == pane_pos(old(self)@, start_of(time@, old(self).length())),
            r.0 < final(self)@.len(),
            final(self)@[r.0 as int].0 == start_of(time@, old(self).length()),
            r.1 < final(self)@[r.0 as int].1.len(),
            final(self)@[r.0 as int].1[r.1 as int].0 == key,
            lookup(final(self)@[r.0 as int].1, key) == Some(r.1 as int),
    {
        proof {
            use_type_invariant(&*self);
            reveal(obeys_concrete_eq);
        }
        let ghost old_view = self@;
        let d = self.duration;
        let start = window_start(time, d);
        let mut ps: Vec<(Time, Vec<(K, S)>)> = Vec::new();
        std::mem::swap(&mut ps, &mut self.panes);
        proof {
            assert(ps@.map_values(|p: (Time, Vec<(K, S)>)| pane_view(p)) == old_view);
        }
        let ghost v = old_view;
        let mut p: usize = 0;
        while p < ps.len() && ps[p].0.is_before(&start)
            invariant
                v == ps@.map_values(|q: (Time, Vec<(K, S)>)| pane_view(q)),
                p <= ps@.len(),
                forall|j: int| 0 <= j < p ==> #[trigger] v[j].0 < start@,
            decreases ps.len() - p,
        {
            p = p + 1;
        }
        proof {
            assert(is_pane_pos(v, start@, p as int));
            lemma_pane_pos_unique(v, start@, p as int);
        }
        if p < ps.len() && !start.is_before(&ps[p].0) {
            // The pane exists: find the key in it.
            assert(v[p as int].0 == start@);
            let (pt, mut groups) = ps.remove(p);
            let g = match find_key(&groups, &key) {
                Some(g) => {
                    ps.insert(p, (pt, groups));
                    proof {
                        assert(ps@ =~= old(self).panes@);
                    }
                    g
                },
                None => {
                    let n = groups.len();
                    groups.push((key, default));
                    ps.insert(p, (pt, groups));
                    proof {
                        assert(lookup(groups@, key) == Some(n as int)) by {
                            lemma_lookup_last(groups@, key);
                        }
                    }
                    n
                },
            };
            proof {
                let nv = ps@.map_values(|q: (Time, Vec<(K, S)>)| pane_view(q));
                assert(nv =~= with_entry(v, start@, key, default));
            }
            self.panes = ps;
            (p, g)
        } else {
            let mut groups: Vec<(K, S)> = Vec::new();
            groups.push((key, default));
            ps.insert(p, (start, groups));
            proof {
                let nv = ps@.map_values(|q: (Time, Vec<(K, S)>)| pane_view(q));
                assert(nv =~= with_entry(v, start@, key, default));
                lemma_start_near(time@, d@);
                assert(lookup(groups@, key) == Some(0int)) by {
                    lemma_lookup_last(Seq::<(K, S)>::empty().push((key, default)), key);
                    assert(groups@ =~= Seq::<(K, S)>::empty().push((key, default)));
                }
            }
            self.panes = ps;
            (p, 0)
        }
    }
}

impl<K: PartialEq, S> Panes<K, S> {
    /// The state of key `key` in the pane that holds `time`, if any.
    pub fn state_ref(&self, time: Time, key: &K) -> (r: Option<&S>)
        requires
            obeys_concrete_eq::<K>(),
            assignable(time@, self.length()),
        ensures
            match r {
                Some(x) => state_at(self@, start_of(time@, self.length()), *key) == Some(*x),
                None => state_at(self@, start_of(time@, self.length()), *key) is None,
            },
    {
        proof {
            use_type_invariant(self);
            reveal(state_at);
        }
        let ghost v = self@;
        let start = window_start(time, self.duration);
        let mut p: usize = 0;
        while p < self.panes.len() && self.panes[p].0.is_before(&start)
            invariant
                v == self.panes@.map_values(|q: (Time, Vec<(K, S)>)| pane_view(q)),
                p <= self.panes@.len(),
                forall|j: int| 0 <= j < p ==> #[trigger] v[j].0 < start@,
            decreases self.panes.len() - p,
        {
            p = p + 1;
        }
        proof {
            assert(is_pane_pos(v, start@, p as int));
            lemma_pane_pos_unique(v, start@, p as int);
        }
        if p < self.panes.len() && !start.is_before(&self.panes[p].0) {
            assert(v[p as int].0 == start@);
            assert(v[p as int].1 == self.panes@[p as int].1@);
            match find_key(&self.panes[p].1, key) {
                Some(g) => Some(&self.panes[p].1[g].1),
                None => None,
            }
        } else {
            None
        }
    }
}

impl<K, S> Panes<K, S> {
    /// Puts `state` in place of the state at the given positions and
    /// returns the state it replaces.
    pub fn replace_state(&mut self, pane: usize, group: usize, state: S) -> (r: S)
        requires
            pane < old(self)@.len(),
            group < old(self)@[pane as int].1.len(),
        ensures
            final(self).length() == old(self).length(),
            r == old(self)@[pane as int].1[group as int].1,
            final(self)@ == old(self)@.update(
                pane as int,
                (
                    old(self)@[pane as int].0,
                    old(self)@[pane as int].1.update(
                        group as int,
                        (old(self)@[pane as int].1[group as int].0, state),
                    ),
                ),
            ),
    {
        proof {
            use_type_invariant(&*self);
        }
        let ghost v = self@;
        let mut ps: Vec<(Time, Vec<(K, S)>)> = Vec::new();
        std::mem::swap(&mut ps, &mut self.panes);
        let (pt, mut groups) = ps.remove(pane);
        let (k, old_state) = groups.remove(group);
        groups.insert(group, (k, state));
        ps.insert(pane, (pt, groups));
        proof {
            let ng = v[pane as int].1.update(group as int, (v[pane as int].1[group as int].0, state));
            assert(ps@[pane as int].1@ =~= ng);
            assert(ps@[pane as int].0@ == v[pane as int].0);
            let nv = ps@.map_values(|q: (Time, Vec<(K, S)>)| pane_view(q));
            assert(nv =~= v.update(pane as int, (v[pane as int].0, ng)));
        }
        self.panes = ps;
        old_state
    }

    /// Removes the leading panes whose end (start plus length) is before
    /// `time` and returns them, each with its start, in order.
    pub fn pop_expired(&mut self, time: Time) -> (r: Vec<(Time, Vec<(K, S)>)>)
        ensures
            final(self).length() == old(self).length(),
            r@.map_values(|p: (Time, Vec<(K, S)>)| pane_view(p)) == old(self)@.take(
                expired_count(old(self)@, old(self).length(), time@),
            ),
            final(self)@ == old(self)@.skip(expired_count(old(self)@, old(self).length(), time@)),
            forall|i: int| 0 <= i < r@.len() ==> in_range(#[trigger] r@[i].0@ + old(self).length()),
    {
        proof {
            use_type_invariant(&*self);
        }
        let ghost v = self@;
        let d = self.duration;
        let mut ps: Vec<(Time, Vec<(K, S)>)> = Vec::new();
        std::mem::swap(&mut ps, &mut self.panes);
        let mut rev_rest = crate::iterator::Iter::new(ps);
        let mut out: Vec<(Time, Vec<(K, S)>)> = Vec::new();
        let mut done = false;
        while !done
            invariant
                v == old(self)@,
                d@ == old(self).length(),
                panes_ok(v, d@),
                out@.len() <= v.len(),
                out@.map_values(|p: (Time, Vec<(K, S)>)| pane_view(p)) == v.take(out@.len() as int),
                rev_rest@.map_values(|p: (Time, Vec<(K, S)>)| pane_view(p)) == v.skip(out@.len() as int),
                forall|j: int| 0 <= j < out@.len() ==> #[trigger] v[j].0 + d@ < time@,
                done ==> is_expired_count(v, d@, time@, out@.len() as int),
            decreases v.len() - out@.len(), (if done { 0int } else { 1int }),
        {
            let ghost before = rev_rest@;
            match rev_rest.next() {
                None => {
                    done = true;
                },
                Some(pane) => {
                    let ghost n = out@.len() as int;
                    proof {
                        assert(before.len() > 0);
                        assert(pane == before[0]);
                        let bm = before.map_values(|p: (Time, Vec<(K, S)>)| pane_view(p));
                        assert(bm[0] == pane_view(before[0]));
                        assert(bm == v.skip(n));
                        assert(bm.len() == before.len());
                        assert(v.skip(n).len() == v.len() - n);
                        assert(n < v.len());
                        assert(v.skip(n)[0] == v[n]);
                        assert(pane_view(pane) == v[n]);
                    }
                    let end = pane.0.add_duration(d);
                    if end.is_before(&time) {
                        out.push(pane);
                        proof {
                            assert(rev_rest@ == before.drop_first());
                            assert(rev_rest@.map_values(|p: (Time, Vec<(K, S)>)| pane_view(p)) =~= before.map_values(|p: (Time, Vec<(K, S)>)| pane_view(p)).drop_first());
                            assert(v.skip(n).drop_first() =~= v.skip(n + 1));
                            assert(out@.map_values(|p: (Time, Vec<(K, S)>)| pane_view(p)) =~= v.take(n + 1));
                            assert(rev_rest@.map_values(|p: (Time, Vec<(K, S)>)| pane_view(p)) =~= v.skip(n + 1));
                        }
                    } else {
                        // Put the pane back in front of the rest.
                        let mut rest = rev_rest.collect_vec();
                        rest.insert(0, pane);
                        proof {
                            assert(rest@.map_values(|p: (Time, Vec<(K, S)>)| pane_view(p)) =~= v.skip(n)) by {
                                assert(rest@ =~= before);
                            }
                        }
                        rev_rest = crate::iterator::Iter::new(rest);
                        done = true;
                    }
                },
            }
        }
        let rest = rev_rest.collect_vec();
        proof {
            lemma_expired_count_unique(v, d@, time@, out@.len() as int);
            assert forall|i: int| 0 <= i < out@.len() implies in_range(#[trigger] out@[i].0@ + d@) by {
                assert(out@.map_values(|p: (Time, Vec<(K, S)>)| pane_view(p))[i] == v[i]);
            }
            let nv = rest@.map_values(|p: (Time, Vec<(K, S)>)| pane_view(p));
            assert(panes_ok(nv, d@)) by {
                assert forall|i: int| 0 <= i < nv.len() implies nv[i] == v[i + out@.len()] by {
                    assert(v.skip(out@.len() as int)[i] == v[i + out@.len()]);
                }
            }
        }
        self.panes = rest;
        out
    }

    /// Drops the leading panes whose end is before `time`.
    pub fn gc_state(&mut self, time: Time)
        ensures
            final(self).length() == old(self).length(),
            final(self)@ == old(self)@.skip(expired_count(old(self)@, old(self).length(), time@)),
    {
        let _ = self.pop_expired(time);
    }
}

/// The state that key `k` holds in the pane starting at `s`, if any.
#[verifier::opaque]
pub open spec fn state_at<K, S>(ps: Seq<(int, Seq<(K, S)>)>, s: int, k: K) -> Option<S> {
    let p = pane_pos(ps, s);
    if p < ps.len() && ps[p].0 == s {
        match lookup(ps[p].1, k) {
            Some(g) => Some(ps[p].1[g].1),
            None => None,
        }
    } else {
        None
    }
}

/// The panes after key `k` of the pane starting at `s` gets the state `x`:
/// in place of its state if it has one, else as a new last key of that
/// pane, else in a new pane put in order of start.
#[verifier::opaque]
pub open spec fn with_state<K, S>(ps: Seq<(int, Seq<(K, S)>)>, s: int, k: K, x: S) -> Seq<
    (int, Seq<(K, S)>),
> {
    let p = pane_pos(ps, s);
    if p < ps.len() && ps[p].0 == s {
        match lookup(ps[p].1, k) {
            Some(g) => ps.update(p, (s, ps[p].1.update(g, (k, x)))),
            None => ps.update(p, (s, ps[p].1.push((k, x)))),
        }
    } else {
        ps.insert(p, (s, seq![(k, x)]))
    }
}

/// The keyed states of a pane with `f` applied to every state.
pub open spec fn map_groups<K, S, V>(gs: Seq<(K, S)>, f: spec_fn(S) -> V) -> Seq<(K, V)> {
    gs.map_values(|g: (K, S)| (g.0, f(g.1)))
}

/// The panes with `f` applied to every state.
#[verifier::opaque]
pub open spec fn map_states<K, S, V>(ps: Seq<(int, Seq<(K, S)>)>, f: spec_fn(S) -> V) -> Seq<
    (int, Seq<(K, V)>),
> {
    ps.map_values(|p: (int, Seq<(K, S)>)| (p.0, map_groups(p.1, f)))
}

/// Making a key's state exist with `Panes::get_state` and then putting `x`
/// in its place gives `with_state`; the state found there is the key's
/// state, or the default for a key new to its pane.
pub proof fn lemma_state_step<K, S>(
    old_ps: Seq<(int, Seq<(K, S)>)>,
    s: int,
    k: K,
    dflt: S,
    mid: Seq<(int, Seq<(K, S)>)>,
    pi: int,
    gi: int,
    x: S,
    fin: Seq<(int, Seq<(K, S)>)>,
)
    requires
        mid == with_entry(old_ps, s, k, dflt),
        pi == pane_pos(old_ps, s),
        0 <= pi < mid.len(),
        mid[pi].0 == s,
        0 <= gi < mid[pi].1.len(),
        mid[pi].1[gi].0 == k,
        lookup(mid[pi].1, k) == Some(gi),
        fin == mid.update(pi, (s, mid[pi].1.update(gi, (k, x)))),
    ensures
        mid[pi].1[gi].1 == match state_at(old_ps, s, k) {
            Some(y) => y,
            None => dflt,
        },
        fin == with_state(old_ps, s, k, x),
{
    reveal(state_at);
    reveal(with_state);
    let w = crate::window::pane_pos_witness(old_ps, s);
    lemma_pane_pos_unique(old_ps, s, w);
    let p = pi;
    if p < old_ps.len() && old_ps[p].0 == s {
        match lookup(old_ps[p].1, k) {
            Some(g) => {
                assert(mid == old_ps);
                assert(fin =~= with_state(old_ps, s, k, x));
            },
            None => {
                assert(mid == old_ps.update(p, (s, old_ps[p].1.push((k, dflt)))));
                lemma_lookup_last(mid[p].1, k);
                assert(gi == old_ps[p].1.len());
                assert(mid[p].1.update(gi, (k, x)) =~= old_ps[p].1.push((k, x)));
                assert(fin =~= with_state(old_ps, s, k, x));
            },
        }
    } else {
        assert(mid == old_ps.insert(p, (s, seq![(k, dflt)])));
        assert(mid[p].1 =~= seq![(k, dflt)]);
        assert(gi == 0);
        assert(mid[p].1.update(0, (k, x)) =~= seq![(k, x)]);
        assert(fin =~= old_ps.insert(p, (s, seq![(k, x)])));
    }
}

/// Applying `f` to every state keeps the starts and the keys and maps
/// each state.
pub proof fn lemma_map_states<K, S, V>(ps: Seq<(int, Seq<(K, S)>)>, f: spec_fn(S) -> V)
    ensures
        map_states(ps, f).len() == ps.len(),
        forall|i: int|
            0 <= i < ps.len() ==> #[trigger] map_states(ps, f)[i] == (ps[i].0, map_groups(ps[i].1, f)),
{
    reveal(map_states);
}

/// Applying `f` to every state commutes with replacing a pane.
pub proof fn lemma_map_states_update<K, S, V>(
    ps: Seq<(int, Seq<(K, S)>)>,
    p: int,
    pane: (int, Seq<(K, S)>),
    f: spec_fn(S) -> V,
)
    requires
        0 <= p < ps.len(),
    ensures
        map_states(ps.update(p, pane), f) == map_states(ps, f).update(p, (pane.0, map_groups(pane.1, f))),
{
    reveal(map_states);
    assert(map_states(ps.update(p, pane), f) =~= map_states(ps, f).update(p, (pane.0, map_groups(pane.1, f))));
}

/// Applying `f` to every state commutes with inserting a pane.
pub proof fn lemma_map_states_insert<K, S, V>(
    ps: Seq<(int, Seq<(K, S)>)>,
    p: int,
    pane: (int, Seq<(K, S)>),
    f: spec_fn(S) -> V,
)
    requires
        0 <= p <= ps.len(),
    ensures
        map_states(ps.insert(p, pane), f) == map_states(ps, f).insert(p, (pane.0, map_groups(pane.1, f))),
{
    reveal(map_states);
    assert(map_states(ps.insert(p, pane), f) =~= map_states(ps, f).insert(p, (pane.0, map_groups(pane.1, f))));
}

/// Applying `f` to every state commutes with looking a state up.
#[verifier::rlimit(100)]
pub proof fn lemma_map_state_at<K, S, V>(ps: Seq<(int, Seq<(K, S)>)>, s: int, k: K, f: spec_fn(S) -> V)
    ensures
        state_at(map_states(ps, f), s, k) == match state_at(ps, s, k) {
            Some(y) => Some(f(y)),
            None => None::<V>,
        },
{
    let mv = map_states(ps, f);
    lemma_map_states(ps, f);
    let w = crate::window::pane_pos_witness(ps, s);
    lemma_pane_pos_unique(ps, s, w);
    assert forall|i: int| 0 <= i < mv.len() implies #[trigger] mv[i].0 == ps[i].0 by {}
    crate::window::lemma_pane_pos_same_starts(mv, ps, s);
    let p = w;
    if p < ps.len() && ps[p].0 == s {
        let a = mv[p].1;
        let b = ps[p].1;
        assert(a.len() == b.len());
        assert(a == map_groups(b, f));
        assert forall|i: int| 0 <= i < a.len() implies #[trigger] a[i].0 == b[i].0 by {}
        crate::window::lemma_lookup_same_keys(a, b, k);
        match lookup(b, k) {
            Some(g) => {
                assert(0 <= g < b.len()) by {
                    lemma_lookup_found(b, k);
                }
                assert(a[g] == (b[g].0, f(b[g].1)));
                assert(state_at(ps, s, k) == Some(b[g].1)) by {
                    reveal(state_at);
                }
                assert(state_at(mv, s, k) == Some(a[g].1)) by {
                    reveal(state_at);
                }
            },
            None => {
                assert(state_at(ps, s, k) is None) by {
                    reveal(state_at);
                }
                assert(state_at(mv, s, k) is None) by {
                    reveal(state_at);
                }
            },
        }
    } else {
        assert(state_at(ps, s, k) is None) by {
            reveal(state_at);
        }
        assert(state_at(mv, s, k) is None) by {
            reveal(state_at);
        }
    }
}

/// A key found in a list is found at a position of the list.
pub proof fn lemma_lookup_found<K, S>(gs: Seq<(K, S)>, k: K)
    ensures
        lookup(gs, k) matches Some(g) ==> 0 <= g < gs.len() && gs[g].0 == k,
{
    if exists|i: int| 0 <= i < gs.len() && gs[i].0 == k {
        let w = choose|i: int| 0 <= i < gs.len() && gs[i].0 == k;
        crate::window::lemma_first_index_exists(gs, k, w);
    }
}

/// Applying `f` to every state commutes with putting a state in place.
pub proof fn lemma_map_with_state<K, S, V>(ps: Seq<(int, Seq<(K, S)>)>, s: int, k: K, x: S, f: spec_fn(S) -> V)
    ensures
        map_states(with_state(ps, s, k, x), f) == with_state(map_states(ps, f), s, k, f(x)),
{
    let mv = map_states(ps, f);
    lemma_map_states(ps, f);
    let w = crate::window::pane_pos_witness(ps, s);
    lemma_pane_pos_unique(ps, s, w);
    assert forall|i: int| 0 <= i < mv.len() implies #[trigger] mv[i].0 == ps[i].0 by {}
    crate::window::lemma_pane_pos_same_starts(mv, ps, s);
    let p = w;
    if p < ps.len() && ps[p].0 == s {
        let a = mv[p].1;
        let b = ps[p].1;
        assert(a == map_groups(b, f));
        assert forall|i: int| 0 <= i < a.len() implies #[trigger] a[i].0 == b[i].0 by {}
        crate::window::lemma_lookup_same_keys(a, b, k);
        match lookup(b, k) {
            Some(g) => {
                lemma_lookup_found(b, k);
                assert(with_state(ps, s, k, x) == ps.update(p, (s, b.update(g, (k, x))))) by {
                    reveal(with_state);
                }
                assert(with_state(mv, s, k, f(x)) == mv.update(p, (s, a.update(g, (k, f(x)))))) by {
                    reveal(with_state);
                }
                lemma_map_states_update(ps, p, (s, b.update(g, (k, x))), f);
                assert(map_groups(b.update(g, (k, x)), f) =~= a.update(g, (k, f(x))));
            },
            None => {
                assert(with_state(ps, s, k, x) == ps.update(p, (s, b.push((k, x))))) by {
                    reveal(with_state);
                }
                assert(with_state(mv, s, k, f(x)) == mv.update(p, (s, a.push((k, f(x)))))) by {
                    reveal(with_state);
                }
                lemma_map_states_update(ps, p, (s, b.push((k, x))), f);
                assert(map_groups(b.push((k, x)), f) =~= a.push((k, f(x))));
            },
        }
    } else {
        assert(with_state(ps, s, k, x) == ps.insert(p, (s, seq![(k, x)]))) by {
            reveal(with_state);
        }
        assert(with_state(mv, s, k, f(x)) == mv.insert(p, (s, seq![(k, f(x))]))) by {
            reveal(with_state);
        }
        lemma_map_states_insert(ps, p, (s, seq![(k, x)]), f);
        assert(map_groups(seq![(k, x)], f) =~= seq![(k, f(x))]);
    }
}

/// A key appended to a list where it was absent is found at the end.
pub proof fn lemma_lookup_last<K, S>(gs: Seq<(K, S)>, k: K)
    requires
        lookup(gs.drop_last(), k) is None,
        gs.len() > 0,
        gs.last().0 == k,
    ensures
        lookup(gs, k) == Some(gs.len() - 1),
{
    let n = gs.len() - 1;
    assert(forall|j: int| 0 <= j < n ==> gs[j].0 != k) by {
        assert forall|j: int| 0 <= j < n implies gs[j].0 != k by {
            assert(gs.drop_last()[j] == gs[j]);
            if gs[j].0 == k {
                assert(exists|i: int| 0 <= i < gs.drop_last().len() && gs.drop_last()[i].0 == k);
            }
        }
    }
    let c = choose|i: int|
        0 <= i < gs.len() && gs[i].0 == k && forall|j: int| 0 <= j < i ==> gs[j].0 != k;
    assert(0 <= n < gs.len() && gs[n].0 == k);
    if c < n {
    }
}

} // verus!
