//! Finite iterators over owned items, with the adaptors of Arc-Lang's `Iter`.
//!
//! An `Iter` owns the items it has still to yield; its view is that sequence,
//! first item first.
use std::ops::ControlFlow;
use vstd::prelude::*;

verus! {

/// The items of `s` for which the matching flag of `keep` is set, in order.
pub open spec fn kept<T>(s: Seq<T>, keep: Seq<bool>) -> Seq<T>
    decreases s.len(),
{
    if s.len() == 0 || keep.len() == 0 {
        Seq::empty()
    } else {
        let rest = kept(s.drop_last(), keep.drop_last());
        if keep.last() {
            rest.push(s.last())
        } else {
            rest
        }
    }
}

/// `states` records a fold of `f` over `items` from `init` that continued
/// through every item: `states[i + 1]` is what `f` gave for `states[i]`
/// and `items[i]`.
pub open spec fn continued_fold<S, T, F: Fn(S, T) -> ControlFlow<S, S>>(
    f: F,
    init: S,
    items: Seq<T>,
    states: Seq<S>,
) -> bool {
    &&& states.len() == items.len() + 1
    &&& states[0] == init
    &&& forall|i: int|
        #![trigger items[i]]
        0 <= i < items.len() ==> call_ensures(
            f,
            (states[i], items[i]),
            ControlFlow::<S, S>::Continue(states[i + 1]),
        )
}

/// `result` is what folding `f` over `items` from `init` gives: either the
/// state after every item continued, or the state of the first break.
pub open spec fn fold_result<S, T, F: Fn(S, T) -> ControlFlow<S, S>>(
    f: F,
    init: S,
    items: Seq<T>,
    result: S,
) -> bool {
    exists|k: int, states: Seq<S>|
        0 <= k <= items.len() && #[trigger] continued_fold(f, init, items.take(k), states) && {
            ||| k == items.len() && result == states[k]
            ||| k < items.len() && call_ensures(
                f,
                (states[k], items[k]),
                ControlFlow::<S, S>::Break(result),
            )
        }
}

/// `b` is what `f` gives for some clone of `v`.
pub open spec fn tested_on_clone<T: Clone, F: Fn(T) -> bool>(f: F, v: T, b: bool) -> bool {
    exists|c: T| cloned(v, c) && #[trigger] f.ensures((c,), b)
}

/// `f` can be called at each step of folding it over `items` from `st`:
/// on the state and the first item, and then, for each state it may
/// continue with, on the rest.
pub open spec fn fold_callable<S, T, F: Fn(S, T) -> ControlFlow<S, S>>(f: F, st: S, items: Seq<T>) -> bool
    decreases items.len(),
{
    items.len() == 0 || (f.requires((st, items[0])) && forall|next: S|
        #[trigger] f.ensures((st, items[0]), ControlFlow::<S, S>::Continue(next)) ==> fold_callable(
            f,
            next,
            items.drop_first(),
        ))
}

/// An iterator over owned items.
pub struct Iter<T> {
    /// The items still to come, last item first.
    rest: Vec<T>,
}

impl<T> View for Iter<T> {
    type V = Seq<T>;

    closed spec fn view(&self) -> Seq<T> {
        self.rest@.reverse()
    }
}

/// Moves the items of `v` into a new vector in the opposite order.
fn reversed<T>(v: Vec<T>) -> (r: Vec<T>)
    ensures
        r@ == v@.reverse(),
{
    let mut v = v;
    let ghost orig = v@;
    let mut r: Vec<T> = Vec::new();
    while v.len() > 0
        invariant
            orig == v@ + r@.reverse(),
        decreases v.len(),
    {
        let x = v.pop().unwrap();
        proof {
            assert(r@.push(x).reverse() =~= seq![x] + r@.reverse());
            assert(orig =~= v@ + r@.push(x).reverse());
        }
        r.push(x);
    }
    proof {
        assert(orig =~= r@.reverse());
        assert(r@ =~= orig.reverse()) by {
            assert(r@.reverse().reverse() =~= r@);
        }
    }
    r
}

impl<T> Iter<T> {
    /// An iterator over the items of a vector, in order.
    pub fn new(items: Vec<T>) -> (it: Iter<T>)
        ensures
            it@ == items@,
    {
        let rest = reversed(items);
        proof {
            assert(rest@.reverse() =~= items@);
        }
        Iter { rest }
    }

    /// The next item, which the iterator no longer holds; `None` once the
    /// items have run out.
    pub fn next(&mut self) -> (r: Option<T>)
        ensures
            old(self)@.len() == 0 ==> r is None && final(self)@ == old(self)@,
            old(self)@.len() > 0 ==> r == Some(old(self)@[0]) && final(self)@ == old(self)@.drop_first(),
    {
        let r = self.rest.pop();
        proof {
            if old(self)@.len() > 0 {
                assert(self@ =~= old(self)@.drop_first());
            }
        }
        r
    }

    /// The number of remaining items.
    pub(crate) fn len(&self) -> (n: usize)
        ensures
            n == self@.len(),
    {
        self.rest.len()
    }

    /// The remaining items, in order.
    pub fn collect_vec(self) -> (v: Vec<T>)
        ensures
            v@ == self@,
    {
        reversed(self.rest)
    }

    /// Each remaining item paired with its position among them.
    pub fn enumerate(self) -> (it: Iter<(usize, T)>)
        ensures
            it@.len() == self@.len(),
            forall|i: int| 0 <= i < self@.len() ==> #[trigger] it@[i] == (i as usize, self@[i]),
    {
        let ghost s = self@;
        let total = self.rest.len();
        proof {
            assert(s.len() == self.rest@.len());
        }
        let mut src = self;
        let mut out: Vec<(usize, T)> = Vec::new();
        let mut i: usize = 0;
        while src.rest.len() > 0
            invariant
                s.len() <= usize::MAX,
                i == out@.len(),
                s == out@.map_values(|p: (usize, T)| p.1) + src@,
                forall|j: int| 0 <= j < i ==> #[trigger] out@[j] == (j as usize, s[j]),
            decreases src.rest.len(),
        {
            let ghost before = src@;
            let x = src.next().unwrap();
            proof {
                assert(s[i as int] == x) by {
                    assert(s =~= out@.map_values(|p: (usize, T)| p.1) + before);
                }
            }
            out.push((i, x));
            proof {
                assert(s =~= out@.map_values(|p: (usize, T)| p.1) + src@);
            }
            i = i + 1;
        }
        Iter::new(out)
    }

    /// The results of applying `f` to each remaining item, in order.
    pub fn map<U, F: Fn(T) -> U>(self, f: F) -> (it: Iter<U>)
        requires
            forall|i: int| 0 <= i < self@.len() ==> #[trigger] f.requires((self@[i],)),
        ensures
            it@.len() == self@.len(),
            forall|i: int| 0 <= i < self@.len() ==> f.ensures((self@[i],), #[trigger] it@[i]),
    {
        let ghost s = self@;
        let mut src = self;
        let mut out: Vec<U> = Vec::new();
        while src.rest.len() > 0
            invariant
                s == self@,
                forall|i: int| 0 <= i < s.len() ==> #[trigger] f.requires((s[i],)),
                out@.len() + src@.len() == s.len(),
                src@ == s.skip(out@.len() as int),
                forall|j: int| 0 <= j < out@.len() ==> f.ensures((s[j],), #[trigger] out@[j]),
            decreases src.rest.len(),
        {
            let ghost before = src@;
            let x = src.next().unwrap();
            proof {
                assert(s[out@.len() as int] == x);
                assert(src@ =~= s.skip(out@.len() as int + 1));
            }
            let y = f(x);
            out.push(y);
        }
        Iter::new(out)
    }

    /// The remaining items for which `f` holds of a clone, in order.
    pub fn filter<F: Fn(T) -> bool>(self, f: F) -> (it: Iter<T>)
        where
            T: Clone,
        requires
            forall|i: int, c: T| 0 <= i < self@.len() && #[trigger] cloned(self@[i], c) ==> f.requires((c,)),
        ensures
            exists|keep: Seq<bool>|
                {
                    &&& keep.len() == self@.len()
                    &&& forall|i: int|
                        0 <= i < self@.len() ==> tested_on_clone(f, self@[i], #[trigger] keep[i])
                    &&& it@ == kept(self@, keep)
                },
    {
        let ghost s = self@;
        let mut src = self;
        let mut out: Vec<T> = Vec::new();
        let ghost mut keep: Seq<bool> = Seq::empty();
        while src.rest.len() > 0
            invariant
                s == self@,
                forall|i: int, c: T| 0 <= i < s.len() && #[trigger] cloned(s[i], c) ==> f.requires((c,)),
                keep.len() + src@.len() == s.len(),
                src@ == s.skip(keep.len() as int),
                forall|j: int| 0 <= j < keep.len() ==> tested_on_clone(f, s[j], #[trigger] keep[j]),
                out@ == kept(s.take(keep.len() as int), keep),
            decreases src.rest.len(),
        {
            let x = src.next().unwrap();
            let ghost n = keep.len() as int;
            proof {
                assert(s[n] == x);
                assert(src@ =~= s.skip(n + 1));
            }
            let c = x.clone();
            proof {
                assert(cloned(x, c));
            }
            let b = f(c);
            proof {
                assert(f.ensures((c,), b));
                assert(tested_on_clone(f, x, b));
                let k2 = keep.push(b);
                assert(s.take(n + 1).drop_last() =~= s.take(n));
                assert(k2.drop_last() =~= keep);
                assert(s.take(n + 1).last() == x);
                keep = k2;
            }
            if b {
                out.push(x);
            }
        }
        proof {
            assert(s.take(s.len() as int) =~= s);
        }
        Iter::new(out)
    }

    /// Counts the remaining items. Returns the number one (what the
    /// counter it starts with holds after one increment) and that count.
    pub fn test(self) -> (r: (i32, usize))
        ensures
            r.0 == 1,
            r.1 == self@.len(),
    {
        let mut x: i32 = 0;
        x = x.clone() + 1;
        let mut src = self;
        let mut count: usize = 0;
        let ghost n = src@.len();
        let total = src.rest.len();
        proof {
            assert(src@.len() == src.rest@.len());
            assert(n == total);
        }
        while src.rest.len() > 0
            invariant
                count + src@.len() == n,
                n == self@.len(),
                n <= usize::MAX,
                src@.len() == src.rest@.len(),
            decreases src.rest.len(),
        {
            let _ = src.next();
            proof {
                assert(src@.len() == src.rest@.len());
            }
            count = count + 1;
        }
        (x, count)
    }

    /// Folds `f` over the remaining items from `init`, stopping at the first
    /// item for which `f` breaks, and returns the final state.
    pub fn for_each<S, F: Fn(S, T) -> ControlFlow<S, S>>(self, init: S, f: F) -> (r: S)
        requires
            fold_callable(f, init, self@),
        ensures
            fold_result(f, init, self@, r),
    {
        let ghost s = self@;
        let mut src = self;
        let mut state = init;
        let ghost mut states: Seq<S> = seq![init];
        let ghost mut k: int = 0;
        proof {
            assert(s.skip(0) =~= s);
        }
        while src.rest.len() > 0
            invariant
                fold_callable(f, state, s.skip(k)),
                s == self@,
                0 <= k <= s.len(),
                src@ == s.skip(k),
                continued_fold(f, init, s.take(k), states),
                state == states[k],
            decreases src.rest.len(),
        {
            let x = src.next().unwrap();
            proof {
                assert(s[k] == x);
                assert(src@ =~= s.skip(k + 1));
                assert(s.skip(k)[0] == x);
                assert(s.skip(k).drop_first() =~= s.skip(k + 1));
            }
            let ghost prev = state;
            let step = f(state, x);
            match step {
                ControlFlow::Continue(next) => {
                    proof {
                        let st2 = states.push(next);
                        let t2 = s.take(k + 1);
                        assert forall|i: int| #![trigger t2[i]] 0 <= i < t2.len() implies call_ensures(
                            f,
                            (st2[i], t2[i]),
                            ControlFlow::<S, S>::Continue(st2[i + 1]),
                        ) by {
                            if i < k {
                                assert(t2[i] == s.take(k)[i]);
                                assert(call_ensures(
                                    f,
                                    (states[i], s.take(k)[i]),
                                    ControlFlow::<S, S>::Continue(states[i + 1]),
                                ));
                            }
                        }
                        states = st2;
                        k = k + 1;
                    }
                    state = next;
                },
                ControlFlow::Break(done) => {
                    proof {
                        assert(call_ensures(f, (prev, x), step));
                        assert(call_ensures(f, (states[k], s[k]), ControlFlow::<S, S>::Break(done)));
                        assert(continued_fold(f, init, s.take(k), states));
                        assert(fold_result(f, init, s, done));
                    }
                    return done;
                },
            }
        }
        proof {
            assert(s.take(k) =~= s);
            assert(fold_result(f, init, s, state)) by {
                assert(continued_fold(f, init, s.take(s.len() as int), states));
            }
        }
        state
    }
}

} // verus!
