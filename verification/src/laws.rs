//! Properties that relate several operations of the library.
use crate::duration::lemma_trunc_div_twice;
use crate::duration::trunc_div;
use crate::event::Event;
use crate::event::KeyedEvent;
use crate::join::watermark_reply;
use crate::join::WatermarkReply;
use crate::ops::keyed_by;
use crate::ops::unkeyed;
use crate::panes::expired_count;
use crate::panes::lemma_expired_count_unique;
use crate::panes::lemma_pane_pos_unique;
use crate::panes::lemma_start_near;
use crate::panes::start_of;
use crate::time::floor_div;
use crate::time::Time;
use crate::window::expired_witness;
use crate::window::insert_sorted;
use crate::window::lemma_insert_sorted_sorted;
use crate::window::time_sorted;
use crate::window::add_item;
use crate::window::closed_batches;
use crate::window::pane_batches;
use crate::window::values_of;
use crate::window::insert_pos;
use crate::window::lemma_insert_pos_exists;
use crate::panes::pane_pos;
use crate::ops::lookup;
use vstd::arithmetic::div_mod::lemma_div_multiples_vanish;
use vstd::arithmetic::div_mod::lemma_fundamental_div_mod_converse;
use vstd::multiset::Multiset;
use vstd::prelude::*;

verus! {

broadcast use {vstd::multiset::group_multiset_axioms, vstd::seq_lib::group_to_multiset_ensures};

/// A duration made from a number of seconds reports that number of whole
/// seconds (`Duration::from_seconds`, then `Duration::seconds`).
pub proof fn law_duration_seconds_round_trip(s: i64)
    ensures
        trunc_div(s * 1_000_000_000, 1_000_000_000) == s,
{
    lemma_trunc_mul(s as int, 1_000_000_000);
}

/// A duration made from a number of milliseconds reports that number of
/// whole milliseconds.
pub proof fn law_duration_milliseconds_round_trip(ms: i64)
    ensures
        trunc_div(ms * 1_000_000, 1_000_000) == ms,
{
    lemma_trunc_mul(ms as int, 1_000_000);
}

/// A duration made from a number of microseconds reports that number of
/// whole microseconds.
pub proof fn law_duration_microseconds_round_trip(us: i64)
    ensures
        trunc_div(us * 1_000, 1_000) == us,
{
    lemma_trunc_mul(us as int, 1_000);
}

/// The whole days of a duration are its whole hours divided by 24, and its
/// whole weeks are its whole days divided by 7, each rounded toward zero.
pub proof fn law_duration_units_nest(n: int)
    ensures
        trunc_div(trunc_div(n, 3_600_000_000_000), 24) == trunc_div(n, 86_400_000_000_000),
        trunc_div(trunc_div(n, 86_400_000_000_000), 7) == trunc_div(n, 604_800_000_000_000),
{
    lemma_trunc_div_twice(n, 3_600_000_000_000, 24);
    lemma_trunc_div_twice(n, 86_400_000_000_000, 7);
}

/// A time made from a number of seconds after the epoch reports that number
/// of seconds (`Time::from_seconds`, then `Time::seconds`).
pub proof fn law_time_seconds_round_trip(s: i64)
    ensures
        floor_div(s * 1_000_000_000, 1_000_000_000) == s,
{
    lemma_div_multiples_vanish(s as int, 1_000_000_000);
    assert(1_000_000_000 * s == s * 1_000_000_000) by (nonlinear_arith);
}

/// A tumbling window of positive length `d` assigns each time `t` to the
/// pane that starts at a multiple of `d` at or before `t` and ends after
/// it; assigning the pane's start gives the same pane.
pub proof fn law_window_start(t: int, d: int)
    requires
        d > 0,
    ensures
        start_of(t, d) <= t < start_of(t, d) + d,
        start_of(t, d) % d == 0,
        start_of(start_of(t, d), d) == start_of(t, d),
{
    lemma_start_near(t, d);
    let q = floor_div(t, d);
    assert(start_of(t, d) == q * d);
    lemma_div_multiples_vanish(q, d);
    assert(d * q == q * d) by (nonlinear_arith);
    lemma_fundamental_div_mod_converse(q * d, d, q, 0);
}

/// Closing at a watermark splits panes kept in order of start: the leading
/// panes it closes all end before the watermark, and every pane left open
/// ends at or after it.
pub proof fn law_close_splits<X>(ps: Seq<(int, X)>, d: int, w: int)
    requires
        d > 0,
        forall|i: int, j: int| 0 <= i < j < ps.len() ==> ps[i].0 < ps[j].0,
    ensures
        0 <= expired_count(ps, d, w) <= ps.len(),
        forall|i: int| 0 <= i < expired_count(ps, d, w) ==> #[trigger] ps[i].0 + d < w,
        forall|i: int| expired_count(ps, d, w) <= i < ps.len() ==> #[trigger] ps[i].0 + d >= w,
{
    let n = expired_witness(ps, d, w, 0);
    lemma_expired_count_unique(ps, d, w, n);
    assert forall|i: int| n <= i < ps.len() implies #[trigger] ps[i].0 + d >= w by {
        if i > n {
            assert(ps[n].0 < ps[i].0);
        }
    }
}

/// The values of each key of each pane of a holistic window stay in time
/// order as values are added, so each closed pane hands them over in time
/// order.
pub proof fn law_items_stay_time_ordered<T>(s: Seq<(Time, T)>, x: (Time, T))
    requires
        time_sorted(s),
    ensures
        time_sorted(insert_sorted(s, x)),
        insert_sorted(s, x).to_multiset() == s.to_multiset().insert(x),
{
    lemma_insert_sorted_sorted(s, x);
}

/// A join never sends a watermark later than the new watermark of the side
/// that moved or the watermark of the other side: what it sends is the
/// smaller of the two.
pub proof fn law_join_watermark_is_minimum(own: Time, other: Time, t: Time)
    ensures
        match watermark_reply(own, other, t) {
            WatermarkReply::Close(w) => w@ <= t@ && w@ < other@,
            WatermarkReply::Forward(w) => w@ <= t@ && w@ <= other@,
            WatermarkReply::Hold => true,
        },
{
}

/// Dropping the key that `keyby` attached gives back the event it was given.
pub proof fn law_unkey_undoes_keyby<T: Clone, K, F: Fn(T) -> K>(
    e: Event<T>,
    k: KeyedEvent<K, T>,
    u: Event<T>,
    fun: F,
)
    requires
        keyed_by(e, k, fun),
        unkeyed(k, u),
    ensures
        u == e,
{
}

/// Rounding toward zero a multiple of a positive number by that number
/// gives the factor back.
proof fn lemma_trunc_mul(a: int, b: int)
    requires
        b > 0,
    ensures
        trunc_div(a * b, b) == a,
{
    if a >= 0 {
        assert(a * b >= 0) by (nonlinear_arith)
            requires
                a >= 0,
                b > 0,
        ;
        lemma_fundamental_div_mod_converse(a * b, b, a, 0);
    } else {
        assert(a * b < 0) by (nonlinear_arith)
            requires
                a < 0,
                b > 0,
        ;
        assert(-(a * b) == (-a) * b) by (nonlinear_arith);
        lemma_fundamental_div_mod_converse(-(a * b), b, -a, 0);
    }
}

/// The values that the keyed groups of a pane hold, as a multiset.
pub open spec fn group_values<K, T>(gs: Seq<(K, Seq<(Time, T)>)>) -> Multiset<T>
    decreases gs.len(),
{
    if gs.len() == 0 {
        Multiset::empty()
    } else {
        group_values(gs.drop_last()).add(values_of(gs.last().1).to_multiset())
    }
}

/// The values that the panes of a holistic window hold, as a multiset.
pub open spec fn pane_values<K, T>(ps: Seq<(int, Seq<(K, Seq<(Time, T)>)>)>) -> Multiset<T>
    decreases ps.len(),
{
    if ps.len() == 0 {
        Multiset::empty()
    } else {
        pane_values(ps.drop_last()).add(group_values(ps.last().1))
    }
}

/// The values of a list of batches, as a multiset.
pub open spec fn batch_values<K, T>(bs: Seq<(int, K, Seq<T>)>) -> Multiset<T>
    decreases bs.len(),
{
    if bs.len() == 0 {
        Multiset::empty()
    } else {
        batch_values(bs.drop_last()).add(bs.last().2.to_multiset())
    }
}

/// Adding a value to a holistic window adds exactly that value to what it
/// holds: no value is lost or doubled.
pub proof fn law_add_keeps_values<K, T>(hv: Seq<(int, Seq<(K, Seq<(Time, T)>)>)>, s: int, k: K, item: (Time, T))
    ensures
        pane_values(add_item(hv, s, k, item)) == pane_values(hv).insert(item.1),
{
    let w = crate::window::pane_pos_witness(hv, s);
    lemma_pane_pos_unique(hv, s, w);
    let p = pane_pos(hv, s);
    let r = add_item(hv, s, k, item);
    if p < hv.len() && hv[p].0 == s {
        let gs = hv[p].1;
        match lookup(gs, k) {
            Some(g) => {
                crate::panes::lemma_lookup_found(gs, k);
                let items = gs[g].1;
                let ngs = gs.update(g, (k, insert_sorted(items, item)));
                lemma_pane_values_update(hv, p, (s, ngs));
                lemma_group_values_update(gs, g, (k, insert_sorted(items, item)));
                lemma_insert_sorted_values(items, item);
                assert(r == hv.update(p, (s, ngs)));
                let vs = values_of(items).to_multiset();
                let ws = values_of(insert_sorted(items, item)).to_multiset();
                assert forall|v: T| #[trigger] pane_values(r).count(v) == pane_values(hv).insert(item.1).count(v) by {
                    assert(pane_values(r).add(group_values(gs)).count(v) == pane_values(hv).add(group_values(ngs)).count(v));
                    assert(group_values(ngs).add(vs).count(v) == group_values(gs).add(ws).count(v));
                    assert(ws.count(v) == vs.insert(item.1).count(v));
                }
                assert(pane_values(r) =~= pane_values(hv).insert(item.1));
            },
            None => {
                let ngs = gs.push((k, seq![item]));
                lemma_pane_values_update(hv, p, (s, ngs));
                assert(r == hv.update(p, (s, ngs)));
                assert(ngs.drop_last() =~= gs);
                assert(values_of(seq![item]) =~= seq![item.1]);
                assert(seq![item.1].to_multiset() =~= Multiset::singleton(item.1)) by {
                    assert(seq![item.1] =~= Seq::<T>::empty().push(item.1));
                }
                assert(group_values(ngs) =~= group_values(gs).insert(item.1));
                assert forall|v: T| #[trigger] pane_values(r).count(v) == pane_values(hv).insert(item.1).count(v) by {
                    assert(pane_values(r).add(group_values(gs)).count(v) == pane_values(hv).add(group_values(ngs)).count(v));
                }
                assert(pane_values(r) =~= pane_values(hv).insert(item.1));
            },
        }
    } else {
        let pane = (s, seq![(k, seq![item])]);
        lemma_pane_values_insert(hv, p, pane);
        assert(r == hv.insert(p, pane));
        assert(pane.1.drop_last() =~= Seq::<(K, Seq<(Time, T)>)>::empty());
        assert(values_of(seq![item]) =~= seq![item.1]);
        assert(seq![item.1].to_multiset() =~= Multiset::singleton(item.1)) by {
            assert(seq![item.1] =~= Seq::<T>::empty().push(item.1));
        }
        assert(group_values(Seq::<(K, Seq<(Time, T)>)>::empty()) == Multiset::<T>::empty());
        assert(pane.1.last() == (k, seq![item]));
        assert(group_values(pane.1) =~= Multiset::singleton(item.1));
        assert(pane_values(r) =~= pane_values(hv).insert(item.1));
    }
}

/// Closing the first `n` panes of a holistic window hands over exactly the
/// values they hold: what the batches carry and what stays make up what
/// the window held.
pub proof fn law_close_keeps_values<K, T>(hv: Seq<(int, Seq<(K, Seq<(Time, T)>)>)>, n: int, d: int)
    requires
        0 <= n <= hv.len(),
    ensures
        pane_values(hv) == batch_values(closed_batches(hv.take(n), d)).add(pane_values(hv.skip(n))),
{
    lemma_pane_values_concat(hv.take(n), hv.skip(n));
    assert(hv.take(n) + hv.skip(n) =~= hv);
    lemma_batches_hold_pane_values(hv.take(n), d);
}

/// The values of two lists of panes together.
proof fn lemma_pane_values_concat<K, T>(a: Seq<(int, Seq<(K, Seq<(Time, T)>)>)>, b: Seq<(int, Seq<(K, Seq<(Time, T)>)>)>)
    ensures
        pane_values(a + b) == pane_values(a).add(pane_values(b)),
    decreases b.len(),
{
    if b.len() == 0 {
        assert(a + b =~= a);
        assert(pane_values(a).add(Multiset::empty()) =~= pane_values(a));
    } else {
        lemma_pane_values_concat(a, b.drop_last());
        assert((a + b).drop_last() =~= a + b.drop_last());
        assert((a + b).last() == b.last());
        assert(pane_values(a + b) =~= pane_values(a).add(pane_values(b)));
    }
}

/// The values of two lists of groups together.
proof fn lemma_group_values_concat<K, T>(a: Seq<(K, Seq<(Time, T)>)>, b: Seq<(K, Seq<(Time, T)>)>)
    ensures
        group_values(a + b) == group_values(a).add(group_values(b)),
    decreases b.len(),
{
    if b.len() == 0 {
        assert(a + b =~= a);
        assert(group_values(a).add(Multiset::empty()) =~= group_values(a));
    } else {
        lemma_group_values_concat(a, b.drop_last());
        assert((a + b).drop_last() =~= a + b.drop_last());
        assert((a + b).last() == b.last());
        assert(group_values(a + b) =~= group_values(a).add(group_values(b)));
    }
}

/// The values of two lists of batches together.
proof fn lemma_batch_values_concat<K, T>(a: Seq<(int, K, Seq<T>)>, b: Seq<(int, K, Seq<T>)>)
    ensures
        batch_values(a + b) == batch_values(a).add(batch_values(b)),
    decreases b.len(),
{
    if b.len() == 0 {
        assert(a + b =~= a);
        assert(batch_values(a).add(Multiset::empty()) =~= batch_values(a));
    } else {
        lemma_batch_values_concat(a, b.drop_last());
        assert((a + b).drop_last() =~= a + b.drop_last());
        assert((a + b).last() == b.last());
        assert(batch_values(a + b) =~= batch_values(a).add(batch_values(b)));
    }
}

/// Replacing a pane changes the values held by those of the two panes.
proof fn lemma_pane_values_update<K, T>(ps: Seq<(int, Seq<(K, Seq<(Time, T)>)>)>, p: int, x: (int, Seq<(K, Seq<(Time, T)>)>))
    requires
        0 <= p < ps.len(),
    ensures
        pane_values(ps.update(p, x)).add(group_values(ps[p].1)) == pane_values(ps).add(group_values(x.1)),
{
    let pre = ps.take(p);
    let post = ps.skip(p + 1);
    assert(ps =~= pre + seq![ps[p]] + post);
    assert(ps.update(p, x) =~= pre + seq![x] + post);
    lemma_pane_values_concat(pre + seq![ps[p]], post);
    lemma_pane_values_concat(pre, seq![ps[p]]);
    lemma_pane_values_concat(pre + seq![x], post);
    lemma_pane_values_concat(pre, seq![x]);
    assert(seq![ps[p]].drop_last() =~= Seq::<(int, Seq<(K, Seq<(Time, T)>)>)>::empty());
    assert(seq![x].drop_last() =~= Seq::<(int, Seq<(K, Seq<(Time, T)>)>)>::empty());
    assert(pane_values(ps.update(p, x)).add(group_values(ps[p].1)) =~= pane_values(ps).add(group_values(x.1)));
}

/// Inserting a pane adds its values.
proof fn lemma_pane_values_insert<K, T>(ps: Seq<(int, Seq<(K, Seq<(Time, T)>)>)>, p: int, x: (int, Seq<(K, Seq<(Time, T)>)>))
    requires
        0 <= p <= ps.len(),
    ensures
        pane_values(ps.insert(p, x)) == pane_values(ps).add(group_values(x.1)),
{
    let pre = ps.take(p);
    let post = ps.skip(p);
    assert(ps =~= pre + post);
    assert(ps.insert(p, x) =~= pre + seq![x] + post);
    lemma_pane_values_concat(pre, post);
    lemma_pane_values_concat(pre + seq![x], post);
    lemma_pane_values_concat(pre, seq![x]);
    assert(seq![x].drop_last() =~= Seq::<(int, Seq<(K, Seq<(Time, T)>)>)>::empty());
    assert(pane_values(Seq::<(int, Seq<(K, Seq<(Time, T)>)>)>::empty()) == Multiset::<T>::empty());
    assert(seq![x].last() == x);
    assert(pane_values(seq![x]) =~= group_values(x.1));
    assert(pane_values(ps.insert(p, x)) =~= pane_values(ps).add(group_values(x.1)));
}

/// Replacing a group changes the values held by those of the two groups.
proof fn lemma_group_values_update<K, T>(gs: Seq<(K, Seq<(Time, T)>)>, g: int, x: (K, Seq<(Time, T)>))
    requires
        0 <= g < gs.len(),
    ensures
        group_values(gs.update(g, x)).add(values_of(gs[g].1).to_multiset()) == group_values(gs).add(
            values_of(x.1).to_multiset(),
        ),
{
    let pre = gs.take(g);
    let post = gs.skip(g + 1);
    assert(gs =~= pre + seq![gs[g]] + post);
    assert(gs.update(g, x) =~= pre + seq![x] + post);
    lemma_group_values_concat(pre + seq![gs[g]], post);
    lemma_group_values_concat(pre, seq![gs[g]]);
    lemma_group_values_concat(pre + seq![x], post);
    lemma_group_values_concat(pre, seq![x]);
    assert(seq![gs[g]].drop_last() =~= Seq::<(K, Seq<(Time, T)>)>::empty());
    assert(seq![x].drop_last() =~= Seq::<(K, Seq<(Time, T)>)>::empty());
    assert(group_values(gs.update(g, x)).add(values_of(gs[g].1).to_multiset()) =~= group_values(gs).add(
        values_of(x.1).to_multiset(),
    ));
}

/// Placing a value among timed values adds exactly its value.
proof fn lemma_insert_sorted_values<T>(s: Seq<(Time, T)>, x: (Time, T))
    ensures
        values_of(insert_sorted(s, x)).to_multiset() == values_of(s).to_multiset().insert(x.1),
{
    lemma_insert_pos_exists(s, x.0@);
    let p = insert_pos(s, x.0@);
    let a = values_of(s.take(p));
    let b = values_of(s.skip(p));
    assert(values_of(s) =~= a + b);
    assert(values_of(insert_sorted(s, x)) =~= a + seq![x.1] + b);
    vstd::seq_lib::lemma_multiset_commutative(a, b);
    vstd::seq_lib::lemma_multiset_commutative(a + seq![x.1], b);
    vstd::seq_lib::lemma_multiset_commutative(a, seq![x.1]);
    assert(seq![x.1].to_multiset() =~= Multiset::singleton(x.1)) by {
        assert(seq![x.1] =~= Seq::<T>::empty().push(x.1));
    }
    assert(values_of(insert_sorted(s, x)).to_multiset() =~= values_of(s).to_multiset().insert(x.1));
}

/// The batches of closed panes carry the values the panes held.
proof fn lemma_batches_hold_pane_values<K, T>(c: Seq<(int, Seq<(K, Seq<(Time, T)>)>)>, d: int)
    ensures
        batch_values(closed_batches(c, d)) == pane_values(c),
    decreases c.len(),
{
    if c.len() > 0 {
        lemma_batches_hold_pane_values(c.drop_last(), d);
        lemma_batch_values_concat(closed_batches(c.drop_last(), d), pane_batches(c.last(), d));
        lemma_pane_batches_values(c.last(), d);
    }
}

/// The batches of one pane carry the values its groups hold.
proof fn lemma_pane_batches_values<K, T>(pane: (int, Seq<(K, Seq<(Time, T)>)>), d: int)
    ensures
        batch_values(pane_batches(pane, d)) == group_values(pane.1),
    decreases pane.1.len(),
{
    if pane.1.len() > 0 {
        let rest = (pane.0, pane.1.drop_last());
        lemma_pane_batches_values(rest, d);
        assert(pane_batches(pane, d).drop_last() =~= pane_batches(rest, d));
        assert(pane_batches(pane, d).last() == (pane.0 + d, pane.1.last().0, values_of(pane.1.last().1)));
    } else {
        assert(pane_batches(pane, d) =~= Seq::<(int, K, Seq<T>)>::empty());
    }
}

} // verus!
