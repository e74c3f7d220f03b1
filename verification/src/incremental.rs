//! Tumbling windows that aggregate each key's values as they arrive (the
//! incremental aggregation of Arc-Lang's keyed `window`).
//!
//! Each value is lifted into a partial aggregate and combined with the
//! partial aggregate its pane and key hold so far. A watermark closes the
//! panes that end before it: each closed pane's partial aggregates are sent
//! on, stamped with the pane's end, followed by the watermark; when a pane
//! that stays open remains, the watermark is sent once more.
use crate::duration::Duration;
use crate::event::KeyedEvent;
use crate::ops::lookup;
use crate::panes::assignable;
use crate::panes::expired_count;
use crate::panes::lemma_expired_count_unique;
use crate::panes::lemma_pane_pos_unique;
use crate::panes::pane_pos;
use crate::panes::pane_view;
use crate::panes::start_of;
use crate::panes::state_at;
use crate::panes::with_state;
use crate::panes::with_entry;
use crate::panes::Panes;
use crate::time::in_range;
use crate::time::Time;
use crate::window::expired_witness;
use crate::window::lemma_expired_same_starts;
use crate::window::lemma_lookup_same_keys;
use crate::window::lemma_pane_pos_same_starts;
use crate::window::pane_pos_witness;
use vstd::laws_eq::obeys_concrete_eq;
use vstd::prelude::*;

verus! {

/// The partial aggregates of the panes, each state taken out of its option.
pub open spec fn partials_view<K, P>(ps: Seq<(int, Seq<(K, Option<P>)>)>) -> Seq<
    (int, Seq<(K, P)>),
> {
    ps.map_values(
        |p: (int, Seq<(K, Option<P>)>)| (p.0, p.1.map_values(|g: (K, Option<P>)| (g.0, g.1.unwrap()))),
    )
}

/// `x` is what lifting `v` and combining it with the prior partial
/// aggregate (if there is one) gives.
pub open spec fn combined<T, P, L: Fn(T) -> P, C: Fn(P, P) -> P>(
    lift: L,
    combine: C,
    before: Option<P>,
    v: T,
    x: P,
) -> bool {
    exists|l: P|
        #[trigger] lift.ensures((v,), l) && match before {
            Some(b) => combine.ensures((b, l), x),
            None => x == l,
        }
}

/// Adding a value folds it in after what the pane already holds for its
/// key: where a partial aggregate `p` is held, the result is `combine`
/// applied to `p` first and the lifted value second, so values are folded
/// in the order they arrive; where none is held, the result is the lifted
/// value itself.
pub proof fn law_add_folds_in_arrival_order<T, P, L: Fn(T) -> P, C: Fn(P, P) -> P>(
    lift: L,
    combine: C,
    before: Option<P>,
    v: T,
    x: P,
)
    requires
        combined(lift, combine, before, v, x),
    ensures
        match before {
            Some(p) => exists|l: P| lift.ensures((v,), l) && combine.ensures((p, l), x),
            None => lift.ensures((v,), x),
        },
{
}

/// What closing one pane sends on before its watermark: for each key in
/// order, the pane's end, the key and its partial aggregate.
pub open spec fn pane_output<K, P>(pane: (int, Seq<(K, P)>), d: int) -> Seq<Option<(int, K, P)>> {
    pane.1.map_values(|g: (K, P)| Some((pane.0 + d, g.0, g.1)))
}

/// What closing the panes `closed` sends on, as the time, key and partial
/// aggregate of each value sent, with `None` standing for the watermark:
/// each pane's aggregates, then the watermark.
pub open spec fn closed_output<K, P>(closed: Seq<(int, Seq<(K, P)>)>, d: int) -> Seq<
    Option<(int, K, P)>,
>
    decreases closed.len(),
{
    if closed.len() == 0 {
        Seq::empty()
    } else {
        closed_output(closed.drop_last(), d) + pane_output(closed.last(), d) + seq![None]
    }
}

/// What a watermark sends on when the first `n` panes of `ps` end before
/// it: the output of closing them, and the watermark once more if a pane
/// stays open.
pub open spec fn watermark_output<K, P>(ps: Seq<(int, Seq<(K, P)>)>, n: int, d: int) -> Seq<
    Option<(int, K, P)>,
> {
    closed_output(ps.take(n), d) + if n < ps.len() {
        seq![None]
    } else {
        Seq::empty()
    }
}

/// The event `e` is what `x` describes: the watermark `w` for `None`, and
/// for a time, key and partial aggregate, a value at that time with that
/// key that `lower` gives for the partial aggregate.
pub open spec fn lowered_event<K, P, O, Lo: Fn(P) -> O>(
    e: KeyedEvent<K, O>,
    x: Option<(int, K, P)>,
    w: Time,
    lower: Lo,
) -> bool {
    match x {
        None => e == KeyedEvent::<K, O>::Watermark(w),
        Some(y) => match e {
            KeyedEvent::Data(t, k, o) => t@ == y.0 && k == y.1 && lower.ensures((y.2,), o),
            _ => false,
        },
    }
}

/// The events `r` are what `out` describes, one by one.
pub open spec fn lowered_events<K, P, O, Lo: Fn(P) -> O>(
    r: Seq<KeyedEvent<K, O>>,
    out: Seq<Option<(int, K, P)>>,
    w: Time,
    lower: Lo,
) -> bool {
    &&& r.len() == out.len()
    &&& forall|i: int| 0 <= i < out.len() ==> #[trigger] lowered_event(r[i], out[i], w, lower)
}

/// Appending an event that `x` describes keeps the events described.
proof fn lemma_lowered_push<K, P, O, Lo: Fn(P) -> O>(
    r: Seq<KeyedEvent<K, O>>,
    out: Seq<Option<(int, K, P)>>,
    w: Time,
    lower: Lo,
    e: KeyedEvent<K, O>,
    x: Option<(int, K, P)>,
)
    requires
        lowered_events(r, out, w, lower),
        lowered_event(e, x, w, lower),
    ensures
        lowered_events(r.push(e), out.push(x), w, lower),
{
    assert forall|i: int| 0 <= i < out.push(x).len() implies #[trigger] lowered_event(
        r.push(e)[i],
        out.push(x)[i],
        w,
        lower,
    ) by {
        if i < out.len() {
            assert(r.push(e)[i] == r[i]);
            assert(out.push(x)[i] == out[i]);
        }
    }
}

/// A keyed tumbling window that aggregates incrementally.
pub struct IncrementalWindow<K, P> {
    panes: Panes<K, Option<P>>,
}

impl<K, P> View for IncrementalWindow<K, P> {
    type V = Seq<(int, Seq<(K, P)>)>;

    closed spec fn view(&self) -> Seq<(int, Seq<(K, P)>)> {
        partials_view(self.panes@)
    }
}

impl<K, P> IncrementalWindow<K, P> {
    #[verifier::type_invariant]
    spec fn inv(self) -> bool {
        all_some(self.panes@)
    }

    /// The window length in nanoseconds.
    pub closed spec fn length(&self) -> int {
        self.panes.length()
    }

    /// An empty window of the given length (a zero length takes no value).
    pub fn new(duration: Duration) -> (w: IncrementalWindow<K, P>)
        ensures
            w@ == Seq::<(int, Seq<(K, P)>)>::empty(),
            w.length() == duration@,
    {
        let w = IncrementalWindow { panes: Panes::new(duration) };
        proof {
            assert(w@ =~= Seq::<(int, Seq<(K, P)>)>::empty());
        }
        w
    }
}

/// Every state of the panes holds a partial aggregate.
pub open spec fn all_some<K, P>(ps: Seq<(int, Seq<(K, Option<P>)>)>) -> bool {
    forall|i: int, g: int|
        0 <= i < ps.len() && 0 <= g < ps[i].1.len() ==> (#[trigger] ps[i].1[g]).1 is Some
}

impl<K: PartialEq, P> IncrementalWindow<K, P> {
    /// Lifts a value and combines it into its pane and key.
    #[verifier::rlimit(60)]
    pub fn add<T, L: Fn(T) -> P, C: Fn(P, P) -> P>(
        &mut self,
        time: Time,
        key: K,
        value: T,
        lift: &L,
        combine: &C,
    )
        requires
            obeys_concrete_eq::<K>(),
            assignable(time@, old(self).length()),
            forall|v: T| #[trigger] lift.requires((v,)),
            forall|a: P, b: P| #[trigger] combine.requires((a, b)),
        ensures
            final(self).length() == old(self).length(),
            exists|x: P|
                #[trigger] combined(lift, combine, state_at(old(self)@, start_of(time@, old(self).length()), key), value, x)
                    && final(self)@ == with_state(
                    old(self)@,
                    start_of(time@, old(self).length()),
                    key,
                    x,
                ) && match state_at(old(self)@, start_of(time@, old(self).length()), key) {
                    Some(p) => exists|l: P| lift.ensures((value,), l) && combine.ensures((p, l), x),
                    None => lift.ensures((value,), x),
                },
    {
        proof {
            use_type_invariant(&*self);
        }
        let ghost old_ps = self.panes@;
        let ghost s = start_of(time@, self.length());
        let ghost k = key;
        let mut ps = Panes::new(self.panes.duration());
        std::mem::swap(&mut ps, &mut self.panes);
        let (pi, gi) = ps.get_state(time, key, None);
        let ghost mid = ps@;
        let before = ps.replace_state(pi, gi, None);
        let l = lift(value);
        let x = match before {
            Some(b) => combine(b, l),
            None => l,
        };
        let ghost cleared = ps@;
        ps.replace_state(pi, gi, Some(x));
        proof {
            assert(cleared[pi as int].1 =~= mid[pi as int].1.update(gi as int, (k, None::<P>)));
            assert(ps@[pi as int].1 =~= mid[pi as int].1.update(gi as int, (k, Some(x))));
            assert(ps@ =~= mid.update(pi as int, (s, mid[pi as int].1.update(gi as int, (k, Some(x))))));
            lemma_partial_step(old_ps, s, k, mid, pi as int, gi as int, before, x, ps@);
            assert(lift.ensures((value,), l));
            assert(combined(lift, combine, state_at(partials_view(old_ps), s, k), value, x));
        }
        self.panes = ps;
        proof {
            assert(self@ == with_state(partials_view(old_ps), s, k, x));
        }
    }
}

impl<K, P> IncrementalWindow<K, P> {
    /// Removes the panes that end before `time` and returns what the
    /// watermark `time` sends on: for each closed pane in order of start,
    /// each of its keys' partial aggregates lowered with `lower` and stamped
    /// with the pane's end, then the watermark; and the watermark once more
    /// if a pane stays open.
    pub fn close<O, Lo: Fn(P) -> O>(&mut self, time: Time, lower: &Lo) -> (r: Vec<KeyedEvent<K, O>>)
        requires
            forall|p: P| #[trigger] lower.requires((p,)),
        ensures
            final(self).length() == old(self).length(),
            final(self)@ == old(self)@.skip(expired_count(old(self)@, old(self).length(), time@)),
            lowered_events(
                r@,
                watermark_output(
                    old(self)@,
                    expired_count(old(self)@, old(self).length(), time@),
                    old(self).length(),
                ),
                time,
                lower,
            ),
    {
        proof {
            use_type_invariant(&*self);
        }
        let ghost old_ps = self.panes@;
        let ghost pv = self@;
        let d = self.panes.duration();
        self.panes.facts();
        let mut ps = Panes::new(d);
        std::mem::swap(&mut ps, &mut self.panes);
        let expired = ps.pop_expired(time);
        let remaining = ps.len();
        let ghost n = expired_count(old_ps, d@, time@);
        proof {
            lemma_expired_same_starts(pv, old_ps, d@, time@);
            let w = expired_witness(old_ps, d@, time@, 0);
            lemma_expired_count_unique(old_ps, d@, time@, w);
            assert(ps@ == old_ps.skip(n));
            assert forall|i: int, g: int|
                0 <= i < ps@.len() && 0 <= g < ps@[i].1.len() implies (#[trigger] ps@[i].1[g]).1 is Some by {
                assert(ps@[i] == old_ps[i + n]);
            }
        }
        self.panes = ps;
        proof {
            assert forall|i: int| 0 <= i < self@.len() implies #[trigger] self@[i] == pv.skip(n)[i] by {
                assert(self.panes@[i] == old_ps[i + n]);
            }
            assert(self@ =~= pv.skip(n));
        }
        let ghost em = expired@.map_values(|q: (Time, Vec<(K, Option<P>)>)| pane_view(q));
        let ghost ev = pv.take(n);
        proof {
            assert(em == old_ps.take(n));
            assert(ev.len() == em.len());
        }
        let mut panes = crate::iterator::Iter::new(expired);
        let mut r: Vec<KeyedEvent<K, O>> = Vec::new();
        let ghost mut i: int = 0;
        proof {
            assert(ev.take(0) =~= Seq::<(int, Seq<(K, P)>)>::empty());
            assert(closed_output(ev.take(0), d@) =~= Seq::<Option<(int, K, P)>>::empty());
        }
        while panes.len() > 0
            invariant
                0 <= i <= ev.len(),
                ev.len() == expired@.len(),
                panes@ == expired@.skip(i),
                em == expired@.map_values(|q: (Time, Vec<(K, Option<P>)>)| pane_view(q)),
                em == old_ps.take(n),
                ev == pv.take(n),
                pv == partials_view(old_ps),
                0 <= n <= old_ps.len(),
                all_some(old_ps),
                d@ == old(self).length(),
                forall|j: int| 0 <= j < expired@.len() ==> in_range(#[trigger] expired@[j].0@ + d@),
                forall|p: P| #[trigger] lower.requires((p,)),
                lowered_events(r@, closed_output(ev.take(i), d@), time, lower),
            decreases ev.len() - i,
        {
            let (start, groups) = panes.next().unwrap();
            proof {
                assert(expired@[i].0 == start);
                assert(panes@ =~= expired@.skip(i + 1));
                assert(em[i] == old_ps[i]);
            }
            let end = start.add_duration(d);
            let ghost base = closed_output(ev.take(i), d@);
            let ghost pane = ev[i];
            proof {
                assert(pane.0 == start@);
                assert(old_ps[i].1 == groups@);
                assert(pane.1.len() == groups@.len());
            }
            let mut gs = crate::iterator::Iter::new(groups);
            let ghost mut g: int = 0;
            while gs.len() > 0
                invariant
                    0 <= g <= pane.1.len(),
                    pane.1.len() == groups@.len(),
                    gs@ == groups@.skip(g),
                    forall|j: int|
                        0 <= j < groups@.len() ==> (#[trigger] groups@[j]).1 is Some && pane.1[j] == (
                        groups@[j].0,
                        groups@[j].1.unwrap(),
                    ),
                    end@ == pane.0 + d@,
                    forall|p: P| #[trigger] lower.requires((p,)),
                    lowered_events(r@, base + pane_output(pane, d@).take(g), time, lower),
                decreases pane.1.len() - g,
            {
                let (key, state) = gs.next().unwrap();
                proof {
                    assert(groups@[g] == (key, state));
                    assert(gs@ =~= groups@.skip(g + 1));
                }
                let partial = state.unwrap();
                let o = lower(partial);
                let e = KeyedEvent::Data(end, key, o);
                proof {
                    let x = Some((pane.0 + d@, key, partial));
                    assert(pane_output(pane, d@)[g] == x);
                    assert(lowered_event(e, x, time, lower));
                    lemma_lowered_push(r@, base + pane_output(pane, d@).take(g), time, lower, e, x);
                    assert(base + pane_output(pane, d@).take(g + 1) =~= (base + pane_output(pane, d@).take(g)).push(x));
                    g = g + 1;
                }
                r.push(e);
            }
            let e = KeyedEvent::Watermark(time);
            proof {
                assert(pane_output(pane, d@).take(g) =~= pane_output(pane, d@));
                lemma_lowered_push(r@, base + pane_output(pane, d@), time, lower, e, None);
                assert(ev.take(i + 1).drop_last() =~= ev.take(i));
                assert(ev.take(i + 1).last() == pane);
                i = i + 1;
            }
            r.push(e);
        }
        proof {
            assert(ev.take(i) =~= ev);
        }
        if remaining > 0 {
            let e = KeyedEvent::Watermark(time);
            proof {
                lemma_lowered_push(r@, closed_output(ev, d@), time, lower, e, None);
            }
            r.push(e);
        } else {
            proof {
                assert(closed_output(ev, d@) + Seq::<Option<(int, K, P)>>::empty() =~= closed_output(ev, d@));
            }
        }
        r
    }
}

impl<K: PartialEq, P> IncrementalWindow<K, P> {
    /// What the window does with one event: a value is lifted and combined
    /// into its pane and key; a watermark closes the panes that end before
    /// it (see `close`); a snapshot request or the end marker is passed on.
    pub fn step<T, O, L: Fn(T) -> P, C: Fn(P, P) -> P, Lo: Fn(P) -> O>(
        &mut self,
        event: KeyedEvent<K, T>,
        lift: &L,
        combine: &C,
        lower: &Lo,
    ) -> (r: Vec<KeyedEvent<K, O>>)
        requires
            obeys_concrete_eq::<K>(),
            event matches KeyedEvent::Data(t, _, _) ==> assignable(t@, old(self).length()),
            forall|v: T| #[trigger] lift.requires((v,)),
            forall|a: P, b: P| #[trigger] combine.requires((a, b)),
            forall|p: P| #[trigger] lower.requires((p,)),
        ensures
            final(self).length() == old(self).length(),
            match event {
                KeyedEvent::Data(t, k, v) => {
                    &&& r@.len() == 0
                    &&& exists|x: P|
                        #[trigger] combined(lift, combine, state_at(old(self)@, start_of(t@, old(self).length()), k), v, x)
                            && final(self)@ == with_state(
                            old(self)@,
                            start_of(t@, old(self).length()),
                            k,
                            x,
                        )
                },
                KeyedEvent::Watermark(t) => {
                    let n = expired_count(old(self)@, old(self).length(), t@);
                    &&& final(self)@ == old(self)@.skip(n)
                    &&& lowered_events(r@, watermark_output(old(self)@, n, old(self).length()), t, lower)
                },
                KeyedEvent::Snapshot(i) => final(self)@ == old(self)@ && r@ == seq![
                    KeyedEvent::<K, O>::Snapshot(i),
                ],
                KeyedEvent::Sentinel => final(self)@ == old(self)@ && r@ == seq![
                    KeyedEvent::<K, O>::Sentinel,
                ],
            },
    {
        match event {
            KeyedEvent::Data(t, k, v) => {
                self.add(t, k, v, lift, combine);
                Vec::new()
            },
            KeyedEvent::Watermark(t) => self.close(t, lower),
            KeyedEvent::Snapshot(i) => {
                let mut r = Vec::new();
                r.push(KeyedEvent::Snapshot(i));
                r
            },
            KeyedEvent::Sentinel => {
                let mut r = Vec::new();
                r.push(KeyedEvent::Sentinel);
                r
            },
        }
    }
}

/// Putting a partial aggregate in place of a key's state, once that state
/// has been made to exist, gives `put_partial`; the state it replaces is
/// the prior partial aggregate; and every state still holds one.
#[verifier::rlimit(60)]
proof fn lemma_partial_step<K, P>(
    old_ps: Seq<(int, Seq<(K, Option<P>)>)>,
    s: int,
    k: K,
    mid: Seq<(int, Seq<(K, Option<P>)>)>,
    pi: int,
    gi: int,
    before: Option<P>,
    x: P,
    fin: Seq<(int, Seq<(K, Option<P>)>)>,
)
    requires
        all_some(old_ps),
        mid == with_entry(old_ps, s, k, None::<P>),
        pi == pane_pos(old_ps, s),
        0 <= pi < mid.len(),
        mid[pi].0 == s,
        0 <= gi < mid[pi].1.len(),
        mid[pi].1[gi].0 == k,
        lookup(mid[pi].1, k) == Some(gi),
        before == mid[pi].1[gi].1,
        fin == mid.update(pi, (s, mid[pi].1.update(gi, (k, Some(x))))),
    ensures
        state_at(partials_view(old_ps), s, k) == before,
        partials_view(fin) == with_state(partials_view(old_ps), s, k, x),
        all_some(fin),
{
    reveal(state_at);
    reveal(with_state);
    let pv = partials_view(old_ps);
    lemma_pane_pos_same_starts(pv, old_ps, s);
    let w = pane_pos_witness(old_ps, s);
    lemma_pane_pos_unique(old_ps, s, w);
    let p = pi;
    if p < old_ps.len() && old_ps[p].0 == s {
        assert(pv[p].1.len() == old_ps[p].1.len());
        assert forall|i: int| 0 <= i < pv[p].1.len() implies #[trigger] pv[p].1[i].0
            == old_ps[p].1[i].0 by {}
        lemma_lookup_same_keys(pv[p].1, old_ps[p].1, k);
        match lookup(old_ps[p].1, k) {
            Some(g) => {
                assert(mid == old_ps);
                assert(g == gi);
                assert(old_ps[p].1[g].1 is Some);
                assert(state_at(pv, s, k) == before);
                assert(partials_view(fin)[p].1 =~= pv[p].1.update(g, (k, x)));
                assert(partials_view(fin) =~= with_state(pv, s, k, x));
            },
            None => {
                assert(mid == old_ps.update(p, (s, old_ps[p].1.push((k, None::<P>)))));
                crate::panes::lemma_lookup_last(mid[p].1, k);
                assert(gi == old_ps[p].1.len());
                assert(state_at(pv, s, k) is None);
                assert(partials_view(fin)[p].1 =~= pv[p].1.push((k, x)));
                assert(partials_view(fin) =~= with_state(pv, s, k, x));
            },
        }
        assert forall|i: int, g: int|
            0 <= i < fin.len() && 0 <= g < fin[i].1.len() implies (#[trigger] fin[i].1[g]).1 is Some by {
            if i == p && g != gi {
                assert(fin[i].1[g] == mid[i].1[g]);
                assert(mid[i].1[g] == old_ps[i].1[g]);
            } else if i != p {
                assert(fin[i] == old_ps[i]);
            }
        }
    } else {
        assert(mid == old_ps.insert(p, (s, seq![(k, None::<P>)])));
        assert(mid[p].1 =~= seq![(k, None::<P>)]);
        assert(gi == 0);
        assert(state_at(pv, s, k) is None);
        assert(mid[p].1.update(0, (k, Some(x))) =~= seq![(k, Some(x))]);
        assert(fin =~= old_ps.insert(p, (s, seq![(k, Some(x))])));
        let expect = pv.insert(p, (s, seq![(k, x)]));
        let got = partials_view(fin);
        assert(got.len() == expect.len());
        assert forall|i: int| 0 <= i < got.len() implies got[i] == expect[i] by {
            if i < p {
                assert(fin[i] == old_ps[i]);
            } else if i == p {
                assert(got[i].1 =~= seq![(k, x)]);
            } else {
                assert(fin[i] == old_ps[i - 1]);
            }
        }
        assert(got =~= with_state(pv, s, k, x));
        assert forall|i: int, g: int|
            0 <= i < fin.len() && 0 <= g < fin[i].1.len() implies (#[trigger] fin[i].1[g]).1 is Some by {
            if i < p {
                assert(fin[i] == old_ps[i]);
            } else if i > p {
                assert(fin[i] == old_ps[i - 1]);
            }
        }
    }
}

} // verus!
