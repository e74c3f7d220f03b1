//! What the stateless stream operators do with each event they receive.
//!
//! A stream operator runs as a task that receives an event, decides what to
//! send on, sends it, and stops after the end-of-stream marker. The functions
//! here are those decisions, one event at a time; the task that receives and
//! sends lives with the caller. Every operator passes watermarks, snapshot
//! requests and the end marker on unchanged.
use crate::event::Event;
use crate::event::KeyedEvent;
use std::vec::Vec;
use vstd::laws_eq::obeys_concrete_eq;
use vstd::pervasive::cloned;
use vstd::prelude::*;

verus! {

/// `r` carries the same control event (watermark, snapshot or end) as `e`.
pub open spec fn same_control<A, B>(e: Event<A>, r: Event<B>) -> bool {
    match e {
        Event::Data(_, _) => false,
        Event::Watermark(t) => r == Event::<B>::Watermark(t),
        Event::Snapshot(i) => r == Event::<B>::Snapshot(i),
        Event::Sentinel => r == Event::<B>::Sentinel,
    }
}

/// `r` carries the same control event (watermark, snapshot or end) as `e`.
pub open spec fn same_keyed_control<K, A, L, B>(e: KeyedEvent<K, A>, r: KeyedEvent<L, B>) -> bool {
    match e {
        KeyedEvent::Data(_, _, _) => false,
        KeyedEvent::Watermark(t) => r == KeyedEvent::<L, B>::Watermark(t),
        KeyedEvent::Snapshot(i) => r == KeyedEvent::<L, B>::Snapshot(i),
        KeyedEvent::Sentinel => r == KeyedEvent::<L, B>::Sentinel,
    }
}

/// `r` carries the same control event as the keyed event `e`.
pub open spec fn unkeyed_control<K, A, B>(e: KeyedEvent<K, A>, r: Event<B>) -> bool {
    match e {
        KeyedEvent::Data(_, _, _) => false,
        KeyedEvent::Watermark(t) => r == Event::<B>::Watermark(t),
        KeyedEvent::Snapshot(i) => r == Event::<B>::Snapshot(i),
        KeyedEvent::Sentinel => r == Event::<B>::Sentinel,
    }
}

/// `r` carries, as a keyed event, the same control event as `e`.
pub open spec fn keyed_control<A, L, B>(e: Event<A>, r: KeyedEvent<L, B>) -> bool {
    match e {
        Event::Data(_, _) => false,
        Event::Watermark(t) => r == KeyedEvent::<L, B>::Watermark(t),
        Event::Snapshot(i) => r == KeyedEvent::<L, B>::Snapshot(i),
        Event::Sentinel => r == KeyedEvent::<L, B>::Sentinel,
    }
}

/// `out` is what `f` gives for some clone of `v`.
pub open spec fn applied_to_clone<T: Clone, U, F: Fn(T) -> U>(f: F, v: T, out: U) -> bool {
    exists|c: T| cloned(v, c) && #[trigger] f.ensures((c,), out)
}

/// `f` can be called on every clone of `v`.
pub open spec fn callable_on_clones<T: Clone, U, F: Fn(T) -> U>(f: F, v: T) -> bool {
    forall|c: T| #[trigger] cloned(v, c) ==> f.requires((c,))
}

/// Moves a control event to another value type.
fn pass_control<A, B>(e: Event<A>) -> (r: Event<B>)
    requires
        !(e is Data),
    ensures
        same_control(e, r),
{
    match e {
        Event::Data(_, _) => {
            proof {
                assert(false);
            }
            Event::Sentinel
        },
        Event::Watermark(t) => Event::Watermark(t),
        Event::Snapshot(i) => Event::Snapshot(i),
        Event::Sentinel => Event::Sentinel,
    }
}

/// Moves a keyed control event to other key and value types.
fn pass_keyed_control<K, A, L, B>(e: KeyedEvent<K, A>) -> (r: KeyedEvent<L, B>)
    requires
        !(e is Data),
    ensures
        same_keyed_control(e, r),
{
    match e {
        KeyedEvent::Data(_, _, _) => {
            proof {
                assert(false);
            }
            KeyedEvent::Sentinel
        },
        KeyedEvent::Watermark(t) => KeyedEvent::Watermark(t),
        KeyedEvent::Snapshot(i) => KeyedEvent::Snapshot(i),
        KeyedEvent::Sentinel => KeyedEvent::Sentinel,
    }
}

/// `map`: a value is replaced by what `f` gives for it, at the same time.
pub fn map_event<T, O, F: Fn(T) -> O>(event: Event<T>, f: &F) -> (r: Event<O>)
    requires
        event matches Event::Data(_, v) ==> f.requires((v,)),
    ensures
        match event {
            Event::Data(t, v) => r matches Event::Data(t2, o) && t2 == t && f.ensures((v,), o),
            _ => same_control(event, r),
        },
{
    match event {
        Event::Data(t, v) => Event::Data(t, f(v)),
        e => pass_control(e),
    }
}

/// `filter`: a value is passed on when `f` holds of it and dropped otherwise.
pub fn filter_event<T, F: Fn(&T) -> bool>(event: Event<T>, f: &F) -> (r: Option<Event<T>>)
    requires
        event matches Event::Data(_, v) ==> f.requires((&v,)),
    ensures
        match event {
            Event::Data(t, v) => f.ensures((&v,), r is Some) && (r is Some ==> r == Some(
                Event::Data(t, v),
            )),
            _ => r == Some(event),
        },
{
    match event {
        Event::Data(t, v) => {
            if f(&v) {
                Some(Event::Data(t, v))
            } else {
                None
            }
        },
        e => Some(e),
    }
}

/// `flat_map`: a value is replaced by each of the values `f` gives for it,
/// in order, all at the time of the value.
pub fn flat_map_event<T, O, F: Fn(T) -> Vec<O>>(event: Event<T>, f: &F) -> (r: Vec<Event<O>>)
    requires
        event matches Event::Data(_, v) ==> f.requires((v,)),
    ensures
        match event {
            Event::Data(t, v) => exists|outs: Vec<O>|
                {
                    &&& #[trigger] f.ensures((v,), outs)
                    &&& r@.len() == outs@.len()
                    &&& forall|i: int|
                        0 <= i < outs@.len() ==> #[trigger] r@[i] == Event::Data(t, outs@[i])
                },
            _ => r@.len() == 1 && same_control(event, r@[0]),
        },
{
    match event {
        Event::Data(t, v) => {
            let mut outs = f(v);
            let ghost all = outs@;
            let mut rev: Vec<Event<O>> = Vec::new();
            while outs.len() > 0
                invariant
                    outs@.len() + rev@.len() == all.len(),
                    outs@ == all.take(outs@.len() as int),
                    forall|i: int|
                        0 <= i < rev@.len() ==> #[trigger] rev@[i] == Event::Data(
                            t,
                            all[all.len() - 1 - i],
                        ),
                decreases outs.len(),
            {
                let x = outs.pop().unwrap();
                proof {
                    assert(outs@ =~= all.take(outs@.len() as int));
                }
                rev.push(Event::Data(t, x));
            }
            let mut r: Vec<Event<O>> = Vec::new();
            while rev.len() > 0
                invariant
                    rev@.len() + r@.len() == all.len(),
                    forall|i: int|
                        0 <= i < rev@.len() ==> #[trigger] rev@[i] == Event::Data(
                            t,
                            all[all.len() - 1 - i],
                        ),
                    forall|i: int| 0 <= i < r@.len() ==> #[trigger] r@[i] == Event::Data(t, all[i]),
                decreases rev.len(),
            {
                let e = rev.pop().unwrap();
                r.push(e);
            }
            r
        },
        e => {
            let mut r = Vec::new();
            r.push(pass_control(e));
            r
        },
    }
}

/// `r` is what `keyby` makes of `event`: a value is paired with the key
/// `fun` gives for a clone of it; a control event is passed on.
pub open spec fn keyed_by<T: Clone, K, F: Fn(T) -> K>(event: Event<T>, r: KeyedEvent<K, T>, fun: F) -> bool {
    match event {
        Event::Data(t, v) => r matches KeyedEvent::Data(t2, k, v2) && t2 == t && v2 == v
            && applied_to_clone(fun, v, k),
        _ => keyed_control(event, r),
    }
}

/// `r` is what `unkey` makes of `event`: a value loses its key; a control
/// event is passed on.
pub open spec fn unkeyed<K, T>(event: KeyedEvent<K, T>, r: Event<T>) -> bool {
    match event {
        KeyedEvent::Data(t, _, v) => r == Event::Data(t, v),
        _ => unkeyed_control(event, r),
    }
}

/// `keyby`: a value is paired with the key `fun` gives for a clone of it.
pub fn keyby_event<T: Clone, K, F: Fn(T) -> K>(event: Event<T>, fun: &F) -> (r: KeyedEvent<K, T>)
    requires
        event matches Event::Data(_, v) ==> callable_on_clones(*fun, v),
    ensures
        keyed_by(event, r, fun),
{
    match event {
        Event::Data(t, v) => {
            let c = v.clone();
            proof {
                assert(cloned(v, c));
            }
            let k = fun(c);
            proof {
                assert(fun.ensures((c,), k));
                assert(applied_to_clone(fun, v, k));
            }
            KeyedEvent::Data(t, k, v)
        },
        Event::Watermark(t) => KeyedEvent::Watermark(t),
        Event::Snapshot(i) => KeyedEvent::Snapshot(i),
        Event::Sentinel => KeyedEvent::Sentinel,
    }
}

/// `out` is what `fun` gives for some clone of `v` and the accumulator `acc`.
pub open spec fn scanned_with_clone<T: Clone, A, F: Fn(T, A) -> A>(fun: F, v: T, acc: A, out: A) -> bool {
    exists|c: T| cloned(v, c) && #[trigger] fun.ensures((c, acc), out)
}

/// `scan`: the accumulator becomes what `fun` gives for a clone of the value
/// and the accumulator, and a clone of the new accumulator is sent on.
/// Returns the new accumulator and the event to send.
pub fn scan_event<T: Clone, A: Clone, F: Fn(T, A) -> A>(acc: A, event: Event<T>, fun: &F) -> (r: (
    A,
    Event<A>,
))
    requires
        event matches Event::Data(_, v) ==> forall|c: T| #[trigger] cloned(v, c) ==> fun.requires((c, acc)),
    ensures
        match event {
            Event::Data(t, v) => scanned_with_clone(fun, v, acc, r.0)
                && (r.1 matches Event::Data(t2, out) && t2 == t && cloned(r.0, out)),
            _ => r.0 == acc && same_control(event, r.1),
        },
{
    match event {
        Event::Data(t, v) => {
            let c = v.clone();
            proof {
                assert(cloned(v, c));
            }
            let ghost a0 = acc;
            let next = fun(c, acc);
            proof {
                assert(fun.ensures((c, a0), next));
                assert(scanned_with_clone(fun, v, a0, next));
            }
            let out = next.clone();
            proof {
                assert(cloned(next, out));
            }
            (next, Event::Data(t, out))
        },
        e => (acc, pass_control(e)),
    }
}

/// `fork`: every event goes to both outputs; the first output gets a clone
/// of each value and the second the value itself.
pub fn fork_event<T: Clone>(event: Event<T>) -> (r: (Event<T>, Event<T>))
    ensures
        match event {
            Event::Data(t, v) => r.0 matches Event::Data(t1, c) && t1 == t && cloned(v, c)
                && r.1 == Event::Data(t, v),
            _ => same_control(event, r.0) && same_control(event, r.1),
        },
{
    match event {
        Event::Data(t, v) => {
            let c = v.clone();
            (Event::Data(t, c), Event::Data(t, v))
        },
        Event::Watermark(t) => (Event::Watermark(t), Event::Watermark(t)),
        Event::Snapshot(i) => (Event::Snapshot(i), Event::Snapshot(i)),
        Event::Sentinel => (Event::Sentinel, Event::Sentinel),
    }
}

/// Keyed `split`: every event goes to both outputs; the first output gets
/// clones of each key and value and the second the key and value
/// themselves.
pub fn keyed_split_event<K: Clone, T: Clone>(event: KeyedEvent<K, T>) -> (r: (KeyedEvent<K, T>, KeyedEvent<K, T>))
    ensures
        match event {
            KeyedEvent::Data(t, k, v) => r.0 matches KeyedEvent::Data(t1, k1, c) && t1 == t && cloned(k, k1)
                && cloned(v, c) && r.1 == KeyedEvent::Data(t, k, v),
            _ => same_keyed_control(event, r.0) && same_keyed_control(event, r.1),
        },
{
    match event {
        KeyedEvent::Data(t, k, v) => {
            let k1 = k.clone();
            let c = v.clone();
            (KeyedEvent::Data(t, k1, c), KeyedEvent::Data(t, k, v))
        },
        KeyedEvent::Watermark(t) => (KeyedEvent::Watermark(t), KeyedEvent::Watermark(t)),
        KeyedEvent::Snapshot(i) => (KeyedEvent::Snapshot(i), KeyedEvent::Snapshot(i)),
        KeyedEvent::Sentinel => (KeyedEvent::Sentinel, KeyedEvent::Sentinel),
    }
}

/// `unkey`: the key of a value is dropped.
pub fn unkey_event<K, T>(event: KeyedEvent<K, T>) -> (r: Event<T>)
    ensures
        unkeyed(event, r),
{
    match event {
        KeyedEvent::Data(t, _, v) => Event::Data(t, v),
        KeyedEvent::Watermark(t) => Event::Watermark(t),
        KeyedEvent::Snapshot(i) => Event::Snapshot(i),
        KeyedEvent::Sentinel => Event::Sentinel,
    }
}

/// Keyed `filter`: a value is passed on, with its key, when `f` holds of a
/// clone of it, and dropped otherwise.
pub fn keyed_filter_event<K, T: Clone, F: Fn(T) -> bool>(event: KeyedEvent<K, T>, f: &F) -> (r:
    Option<KeyedEvent<K, T>>)
    requires
        event matches KeyedEvent::Data(_, _, v) ==> callable_on_clones(*f, v),
    ensures
        match event {
            KeyedEvent::Data(t, k, v) => applied_to_clone(f, v, r is Some) && (r is Some ==> r
                == Some(KeyedEvent::Data(t, k, v))),
            _ => r == Some(event),
        },
{
    match event {
        KeyedEvent::Data(t, k, v) => {
            let c = v.clone();
            proof {
                assert(cloned(v, c));
            }
            let b = f(c);
            proof {
                assert(f.ensures((c,), b));
                assert(applied_to_clone(f, v, b));
            }
            if b {
                Some(KeyedEvent::Data(t, k, v))
            } else {
                None
            }
        },
        e => Some(e),
    }
}

/// Keyed `flat_map`: a value is replaced by each of the values `f` gives for
/// it, in order, each with a clone of its key and at its time.
pub fn keyed_flat_map_event<K: Clone, T, O, F: Fn(T) -> Vec<O>>(
    event: KeyedEvent<K, T>,
    f: &F,
) -> (r: Vec<KeyedEvent<K, O>>)
    requires
        event matches KeyedEvent::Data(_, _, v) ==> f.requires((v,)),
    ensures
        match event {
            KeyedEvent::Data(t, k, v) => exists|outs: Vec<O>|
                {
                    &&& #[trigger] f.ensures((v,), outs)
                    &&& r@.len() == outs@.len()
                    &&& forall|i: int|
                        0 <= i < outs@.len() ==> (#[trigger] r@[i] matches KeyedEvent::Data(
                            t2,
                            k2,
                            o,
                        ) && t2 == t && cloned(k, k2) && o == outs@[i])
                },
            _ => r@.len() == 1 && same_keyed_control(event, r@[0]),
        },
{
    match event {
        KeyedEvent::Data(t, k, v) => {
            let outs = f(v);
            let ghost all = outs@;
            let n = outs.len();
            let mut it = crate::iterator::Iter::new(outs);
            let mut r: Vec<KeyedEvent<K, O>> = Vec::new();
            while r.len() < n
                invariant
                    n == all.len(),
                    it@ == all.skip(r@.len() as int),
                    r@.len() <= all.len(),
                    forall|i: int|
                        0 <= i < r@.len() ==> (#[trigger] r@[i] matches KeyedEvent::Data(
                            t2,
                            k2,
                            o,
                        ) && t2 == t && cloned(k, k2) && o == all[i]),
                decreases all.len() - r@.len(),
            {
                let x = it.next().unwrap();
                proof {
                    assert(x == all[r@.len() as int]);
                    assert(it@ =~= all.skip(r@.len() as int + 1));
                }
                let kc = k.clone();
                r.push(KeyedEvent::Data(t, kc, x));
            }
            r
        },
        e => {
            let mut r = Vec::new();
            r.push(pass_keyed_control(e));
            r
        },
    }
}

/// Keyed `keyby`: a value gets the key `fun` gives for a clone of it in
/// place of its old key.
pub fn keyed_keyby_event<K, T: Clone, K1, F: Fn(T) -> K1>(event: KeyedEvent<K, T>, fun: &F) -> (r:
    KeyedEvent<K1, T>)
    requires
        event matches KeyedEvent::Data(_, _, v) ==> callable_on_clones(*fun, v),
    ensures
        match event {
            KeyedEvent::Data(t, _, v) => r matches KeyedEvent::Data(t2, k, v2) && t2 == t && v2 == v
                && applied_to_clone(fun, v, k),
            _ => same_keyed_control(event, r),
        },
{
    match event {
        KeyedEvent::Data(t, _, v) => {
            let c = v.clone();
            proof {
                assert(cloned(v, c));
            }
            let k = fun(c);
            proof {
                assert(fun.ensures((c,), k));
                assert(applied_to_clone(fun, v, k));
            }
            KeyedEvent::Data(t, k, v)
        },
        e => pass_keyed_control(e),
    }
}

/// The first entry of an association list whose key is `k`, if any.
pub open spec fn lookup<K, R>(index: Seq<(K, R)>, k: K) -> Option<int> {
    if exists|i: int| 0 <= i < index.len() && index[i].0 == k {
        Some(choose|i: int| 0 <= i < index.len() && index[i].0 == k && forall|j: int| 0 <= j < i ==> index[j].0 != k)
    } else {
        None
    }
}

/// `out` is what `merge` gives for `v` and some clone of `x`.
pub open spec fn merged_with_clone<T, R: Clone, O, F: Fn(T, R) -> O>(merge: F, v: T, x: R, out: O) -> bool {
    exists|c: R| cloned(x, c) && #[trigger] merge.ensures((v, c), out)
}

/// Keyed `join` with a table: a value whose key the table holds is replaced
/// by what `merge` gives for it and a clone of the table's value; a value
/// whose key the table lacks is dropped.
pub fn keyed_join_event<K: PartialEq, T, R: Clone, O, F: Fn(T, R) -> O>(
    event: KeyedEvent<K, T>,
    index: &Vec<(K, R)>,
    merge: &F,
) -> (r: Option<KeyedEvent<K, O>>)
    requires
        obeys_concrete_eq::<K>(),
        event matches KeyedEvent::Data(_, _, v) ==> forall|i: int, c: R|
            0 <= i < index@.len() && #[trigger] cloned(index@[i].1, c) ==> merge.requires((v, c)),
    ensures
        match event {
            KeyedEvent::Data(t, k, v) => match lookup(index@, k) {
                None => r is None,
                Some(i) => r matches Some(KeyedEvent::Data(t2, k2, o)) && t2 == t && k2 == k
                    && merged_with_clone(merge, v, index@[i].1, o),
            },
            _ => r matches Some(e) && same_keyed_control(event, e),
        },
{
    proof {
        reveal(obeys_concrete_eq);
    }
    match event {
        KeyedEvent::Data(t, k, v) => match find_key(index, &k) {
            Some(i) => {
                let x = index[i].1.clone();
                proof {
                    assert(cloned(index@[i as int].1, x));
                }
                let o = merge(v, x);
                proof {
                    assert(merge.ensures((v, x), o));
                    assert(merged_with_clone(merge, v, index@[i as int].1, o));
                }
                Some(KeyedEvent::Data(t, k, o))
            },
            None => None,
        },
        e => Some(pass_keyed_control(e)),
    }
}

/// The position of the first entry of an association list with key `k`.
pub fn find_key<K: PartialEq, R>(index: &Vec<(K, R)>, k: &K) -> (r: Option<usize>)
    requires
        obeys_concrete_eq::<K>(),
    ensures
        match r {
            Some(i) => lookup(index@, *k) == Some(i as int) && i < index@.len() && index@[i as int].0
                == *k,
            None => lookup(index@, *k) is None,
        },
{
    proof {
        reveal(obeys_concrete_eq);
    }
    let mut i: usize = 0;
    while i < index.len()
        invariant
            obeys_concrete_eq::<K>(),
            i <= index@.len(),
            forall|j: int| 0 <= j < i ==> index@[j].0 != *k,
        decreases index.len() - i,
    {
        proof {
            reveal(obeys_concrete_eq);
        }
        if index[i].0 == *k {
            proof {
                let w = i as int;
                assert(index@[w].0 == *k);
                assert(exists|j: int| 0 <= j < index@.len() && index@[j].0 == *k);
                let c = choose|j: int|
                    0 <= j < index@.len() && index@[j].0 == *k && forall|l: int|
                        0 <= l < j ==> index@[l].0 != *k;
                assert(0 <= w < index@.len() && index@[w].0 == *k && forall|l: int|
                    0 <= l < w ==> index@[l].0 != *k);
                if c < w {
                } else if c > w {
                }
                assert(c == w);
            }
            return Some(i);
        }
        i = i + 1;
    }
    None
}

} // verus!
