//! Windowed joins of two streams.
//!
//! Both sides' values are assigned to tumbling-window panes by their time
//! and grouped by a key computed from each value. `WindowJoin` pairs a value
//! with every value of the other side seen so far in the same pane and key;
//! `DistinctJoin` keeps at most one waiting value per pane and key and pairs
//! it with the first value of the other side. Each pair is sent on stamped
//! with the pane's start.
//!
//! Both joins follow each side's watermark: when one side's watermark falls
//! behind the other's, the panes that end before it are dropped and it is
//! passed on; when the other side's watermark lies strictly between the
//! side's old and new watermark, the other side's is passed on. The end of
//! the joined stream comes when both sides have ended.
//!
//! Each operation here decides what one event of one side does; the loop
//! that takes events from both sides as they come runs around it.
use crate::duration::Duration;
use crate::event::Event;
use crate::panes::assignable;
use crate::panes::expired_count;
use crate::panes::lemma_map_state_at;
use crate::panes::lemma_map_states;
use crate::panes::lemma_map_with_state;
use crate::panes::lemma_state_step;
use crate::panes::map_states;
use crate::panes::start_of;
use crate::panes::state_at;
use crate::panes::with_state;
use crate::panes::window_start;
use crate::panes::Panes;
use crate::time::Time;
use crate::window::expired_witness;
use crate::panes::lemma_expired_count_unique;
use vstd::laws_eq::obeys_concrete_eq;
use vstd::prelude::*;

verus! {

/// What a join sends when one side's watermark moves to a new time.
pub enum WatermarkReply {
    /// The panes that end before the time are dropped and it is sent on.
    Close(Time),
    /// The other side's watermark is sent on.
    Forward(Time),
    /// Nothing is sent.
    Hold,
}

/// The reply to a side's watermark moving from `own` to `t` while the other
/// side's watermark is `other`: close up to `t` when `t` is behind the
/// other side; forward the other side's watermark when it lies strictly
/// between `own` and `t`; else hold.
pub open spec fn watermark_reply(own: Time, other: Time, t: Time) -> WatermarkReply {
    if t@ < other@ {
        WatermarkReply::Close(t)
    } else if own@ < other@ && other@ < t@ {
        WatermarkReply::Forward(other)
    } else {
        WatermarkReply::Hold
    }
}

/// Decides the reply to a side's watermark moving from `own` to `t`.
pub fn reply_to_watermark(own: Time, other: Time, t: Time) -> (r: WatermarkReply)
    ensures
        r == watermark_reply(own, other, t),
{
    if t.is_before(&other) {
        WatermarkReply::Close(t)
    } else if own.is_before(&other) && other.is_before(&t) {
        WatermarkReply::Forward(other)
    } else {
        WatermarkReply::Hold
    }
}

/// The progress of the two sides of a join: each side's latest watermark
/// and whether it has ended.
pub struct JoinSides {
    pub left_watermark: Time,
    pub right_watermark: Time,
    pub left_done: bool,
    pub right_done: bool,
}

impl JoinSides {
    /// Both watermarks at the Unix epoch and neither side ended.
    pub fn new() -> (r: JoinSides)
        ensures
            r.left_watermark@ == 0,
            r.right_watermark@ == 0,
            !r.left_done,
            !r.right_done,
    {
        JoinSides {
            left_watermark: Time::zero(),
            right_watermark: Time::zero(),
            left_done: false,
            right_done: false,
        }
    }

    /// Whether the join takes events from the left side.
    pub fn takes_left(&self) -> (r: bool)
        ensures
            r == !self.left_done,
    {
        !self.left_done
    }

    /// Whether the join takes events from the right side.
    pub fn takes_right(&self) -> (r: bool)
        ensures
            r == !self.right_done,
    {
        !self.right_done
    }
}

/// `o` is what `joiner` gives for clones of `l` and `r`.
pub open spec fn joined_clones<T: Clone, R: Clone, O, J: Fn(T, R) -> O>(l: T, r: R, o: O, joiner: J) -> bool {
    exists|a: T, b: R| cloned(l, a) && cloned(r, b) && #[trigger] joiner.ensures((a, b), o)
}

/// `e` pairs `l` and `r` in the pane starting at `s`: a value at `s` that
/// `joiner` gives for clones of the two.
pub open spec fn joined_event<T: Clone, R: Clone, O, J: Fn(T, R) -> O>(
    e: Event<O>,
    s: int,
    l: T,
    r: R,
    joiner: J,
) -> bool {
    match e {
        Event::Data(t, o) => t@ == s && joined_clones(l, r, o, joiner),
        _ => false,
    }
}

/// `out` pairs the left value `l` with each right value of `rs` in turn.
pub open spec fn joined_left<T: Clone, R: Clone, O, J: Fn(T, R) -> O>(
    out: Seq<Event<O>>,
    s: int,
    l: T,
    rs: Seq<R>,
    joiner: J,
) -> bool {
    &&& out.len() == rs.len()
    &&& forall|j: int| 0 <= j < rs.len() ==> #[trigger] joined_event(out[j], s, l, rs[j], joiner)
}

/// `out` pairs each left value of `ls` in turn with the right value `r`.
pub open spec fn joined_right<T: Clone, R: Clone, O, J: Fn(T, R) -> O>(
    out: Seq<Event<O>>,
    s: int,
    ls: Seq<T>,
    r: R,
    joiner: J,
) -> bool {
    &&& out.len() == ls.len()
    &&& forall|j: int| 0 <= j < ls.len() ==> #[trigger] joined_event(out[j], s, ls[j], r, joiner)
}

/// The values a stored pair of lists holds.
pub open spec fn pair_view<T, R>() -> spec_fn((Vec<T>, Vec<R>)) -> (Seq<T>, Seq<R>) {
    |x: (Vec<T>, Vec<R>)| (x.0@, x.1@)
}

/// The left and right values that key `k` holds in the pane starting at
/// `s` (none of either when it holds nothing).
pub open spec fn sides_at<K, T, R>(ps: Seq<(int, Seq<(K, (Seq<T>, Seq<R>))>)>, s: int, k: K) -> (
    Seq<T>,
    Seq<R>,
) {
    match state_at(ps, s, k) {
        Some(x) => x,
        None => (Seq::empty(), Seq::empty()),
    }
}

/// A join of two streams over tumbling windows that pairs every value with
/// every value of the other side in the same pane and key.
pub struct WindowJoin<K, T, R> {
    panes: Panes<K, (Vec<T>, Vec<R>)>,
    sides: JoinSides,
}

impl<K, T, R> WindowJoin<K, T, R> {
    /// For each pane in order of start, its start and, for each key in the
    /// order it first came, the left and right values seen so far.
    pub closed spec fn pairs(&self) -> Seq<(int, Seq<(K, (Seq<T>, Seq<R>))>)> {
        map_states(self.panes@, pair_view::<T, R>())
    }

    /// The window length in nanoseconds.
    pub closed spec fn length(&self) -> int {
        self.panes.length()
    }

    /// The progress of the two sides.
    pub closed spec fn sides(&self) -> JoinSides {
        self.sides
    }

    /// The progress of the two sides.
    pub fn progress(&self) -> (r: &JoinSides)
        ensures
            *r == self.sides(),
    {
        &self.sides
    }

    /// A join with no value yet, both watermarks at the Unix epoch.
    pub fn new(duration: Duration) -> (r: WindowJoin<K, T, R>)
        ensures
            r.pairs() == Seq::<(int, Seq<(K, (Seq<T>, Seq<R>))>)>::empty(),
            r.length() == duration@,
            r.sides().left_watermark@ == 0,
            r.sides().right_watermark@ == 0,
            !r.sides().left_done,
            !r.sides().right_done,
    {
        let r = WindowJoin { panes: Panes::new(duration), sides: JoinSides::new() };
        proof {
            lemma_map_states(r.panes@, pair_view::<T, R>());
            assert(r.pairs() =~= Seq::<(int, Seq<(K, (Seq<T>, Seq<R>))>)>::empty());
        }
        r
    }

    /// Drops the panes that end before the watermark if the reply is to close.
    fn apply_reply(&mut self, reply: &WatermarkReply)
        ensures
            final(self).length() == old(self).length(),
            final(self).sides() == old(self).sides(),
            match *reply {
                WatermarkReply::Close(t) => final(self).pairs() == old(self).pairs().skip(
                    expired_count(old(self).pairs(), old(self).length(), t@),
                ),
                _ => final(self).pairs() == old(self).pairs(),
            },
    {
        match reply {
            WatermarkReply::Close(t) => {
                let ghost raw = self.panes@;
                let ghost d = self.panes.length();
                self.panes.gc_state(*t);
                proof {
                    lemma_skip_pairs(raw, d, t@);
                }
            },
            _ => {},
        }
    }
}

/// The panes after a watermark reply: the leading panes that end before
/// the watermark are dropped when the reply is to close.
pub open spec fn closed_pairs<X>(ps: Seq<(int, X)>, d: int, reply: WatermarkReply) -> Seq<(int, X)> {
    match reply {
        WatermarkReply::Close(t) => ps.skip(expired_count(ps, d, t@)),
        _ => ps,
    }
}

/// A left value `v` with key `k` in the pane starting at `s`: it is paired
/// with each right value that key holds there, and joins the left values.
pub open spec fn left_step<K, T: Clone, R: Clone, O, J: Fn(T, R) -> O>(
    before: Seq<(int, Seq<(K, (Seq<T>, Seq<R>))>)>,
    after: Seq<(int, Seq<(K, (Seq<T>, Seq<R>))>)>,
    out: Seq<Event<O>>,
    s: int,
    v: T,
    k: K,
    joiner: J,
) -> bool {
    let (ls, rs) = sides_at(before, s, k);
    &&& after == with_state(before, s, k, (ls.push(v), rs))
    &&& joined_left(out, s, v, rs, joiner)
}

/// A right value `v` with key `k` in the pane starting at `s`: each left
/// value that key holds there is paired with it, and it joins the right
/// values.
pub open spec fn right_step<K, T: Clone, R: Clone, O, J: Fn(T, R) -> O>(
    before: Seq<(int, Seq<(K, (Seq<T>, Seq<R>))>)>,
    after: Seq<(int, Seq<(K, (Seq<T>, Seq<R>))>)>,
    out: Seq<Event<O>>,
    s: int,
    v: R,
    k: K,
    joiner: J,
) -> bool {
    let (ls, rs) = sides_at(before, s, k);
    &&& after == with_state(before, s, k, (ls, rs.push(v)))
    &&& joined_right(out, s, ls, v, joiner)
}

/// Pairs the left value `l` with each right value of `rs`, stamped `start`.
fn pair_left_with<T: Clone, R: Clone, O, J: Fn(T, R) -> O>(
    l: &T,
    rs: &Vec<R>,
    start: Time,
    joiner: &J,
) -> (out: Vec<Event<O>>)
    requires
        forall|a: T, b: R| #[trigger] joiner.requires((a, b)),
    ensures
        joined_left(out@, start@, *l, rs@, joiner),
{
    let mut out: Vec<Event<O>> = Vec::new();
    let mut j: usize = 0;
    while j < rs.len()
        invariant
            j <= rs@.len(),
            out@.len() == j,
            forall|a: T, b: R| #[trigger] joiner.requires((a, b)),
            forall|i: int| 0 <= i < j ==> #[trigger] joined_event(out@[i], start@, *l, rs@[i], joiner),
        decreases rs.len() - j,
    {
        let a = l.clone();
        let b = rs[j].clone();
        proof {
            assert(cloned(*l, a));
            assert(cloned(rs@[j as int], b));
        }
        let o = joiner(a, b);
        proof {
            assert(joiner.ensures((a, b), o));
            assert(joined_clones(*l, rs@[j as int], o, joiner));
        }
        out.push(Event::Data(start, o));
        j = j + 1;
    }
    out
}

/// Pairs each left value of `ls` with the right value `r`, stamped `start`.
fn pair_with_right<T: Clone, R: Clone, O, J: Fn(T, R) -> O>(
    ls: &Vec<T>,
    r: &R,
    start: Time,
    joiner: &J,
) -> (out: Vec<Event<O>>)
    requires
        forall|a: T, b: R| #[trigger] joiner.requires((a, b)),
    ensures
        joined_right(out@, start@, ls@, *r, joiner),
{
    let mut out: Vec<Event<O>> = Vec::new();
    let mut j: usize = 0;
    while j < ls.len()
        invariant
            j <= ls@.len(),
            out@.len() == j,
            forall|a: T, b: R| #[trigger] joiner.requires((a, b)),
            forall|i: int| 0 <= i < j ==> #[trigger] joined_event(out@[i], start@, ls@[i], *r, joiner),
        decreases ls.len() - j,
    {
        let a = ls[j].clone();
        let b = r.clone();
        proof {
            assert(cloned(ls@[j as int], a));
            assert(cloned(*r, b));
        }
        let o = joiner(a, b);
        proof {
            assert(joiner.ensures((a, b), o));
            assert(joined_clones(ls@[j as int], *r, o, joiner));
        }
        out.push(Event::Data(start, o));
        j = j + 1;
    }
    out
}

/// The sides after the left side's watermark moves to `t`.
pub open spec fn left_moved(sides: JoinSides, t: Time) -> JoinSides {
    JoinSides {
        left_watermark: t,
        right_watermark: sides.right_watermark,
        left_done: sides.left_done,
        right_done: sides.right_done,
    }
}

/// The sides after the right side's watermark moves to `t`.
pub open spec fn right_moved(sides: JoinSides, t: Time) -> JoinSides {
    JoinSides {
        left_watermark: sides.left_watermark,
        right_watermark: t,
        left_done: sides.left_done,
        right_done: sides.right_done,
    }
}

/// The sides after the left side ends: it is marked ended unless the
/// right side has ended too, when the join itself ends.
pub open spec fn left_ended(sides: JoinSides) -> JoinSides {
    JoinSides {
        left_watermark: sides.left_watermark,
        right_watermark: sides.right_watermark,
        left_done: sides.left_done || !sides.right_done,
        right_done: sides.right_done,
    }
}

/// The sides after the right side ends.
pub open spec fn right_ended(sides: JoinSides) -> JoinSides {
    JoinSides {
        left_watermark: sides.left_watermark,
        right_watermark: sides.right_watermark,
        left_done: sides.left_done,
        right_done: sides.right_done || !sides.left_done,
    }
}

/// What the end of a side sends on: the end marker when the other side has
/// ended too.
pub open spec fn end_events<O>(other_done: bool) -> Seq<Event<O>> {
    if other_done {
        seq![Event::<O>::Sentinel]
    } else {
        Seq::empty()
    }
}

/// The events the end of a side sends on.
fn end_to_events<O>(other_done: bool) -> (r: Vec<Event<O>>)
    ensures
        r@ == end_events::<O>(other_done),
{
    let mut r = Vec::new();
    if other_done {
        r.push(Event::Sentinel);
    }
    proof {
        assert(r@ =~= end_events::<O>(other_done));
    }
    r
}

impl JoinSides {
    /// Moves the left watermark and returns the reply to it.
    pub fn move_left(&mut self, t: Time) -> (r: WatermarkReply)
        ensures
            r == watermark_reply(old(self).left_watermark, old(self).right_watermark, t),
            *final(self) == left_moved(*old(self), t),
    {
        let r = reply_to_watermark(self.left_watermark, self.right_watermark, t);
        self.left_watermark = t;
        r
    }

    /// Moves the right watermark and returns the reply to it.
    pub fn move_right(&mut self, t: Time) -> (r: WatermarkReply)
        ensures
            r == watermark_reply(old(self).right_watermark, old(self).left_watermark, t),
            *final(self) == right_moved(*old(self), t),
    {
        let r = reply_to_watermark(self.right_watermark, self.left_watermark, t);
        self.right_watermark = t;
        r
    }

    /// Ends the left side and returns whether the join ends.
    pub fn end_left(&mut self) -> (r: bool)
        ensures
            r == old(self).right_done,
            *final(self) == left_ended(*old(self)),
    {
        if !self.right_done {
            self.left_done = true;
        }
        self.right_done
    }

    /// Ends the right side and returns whether the join ends.
    pub fn end_right(&mut self) -> (r: bool)
        ensures
            r == old(self).left_done,
            *final(self) == right_ended(*old(self)),
    {
        if !self.left_done {
            self.right_done = true;
        }
        self.left_done
    }
}

impl<K: PartialEq, T: Clone, R: Clone> WindowJoin<K, T, R> {
    /// What one event of the left side does. Returns the events to send on
    /// and whether the join ends.
    pub fn on_left<O, FK: Fn(&T) -> K, J: Fn(T, R) -> O>(
        &mut self,
        event: Event<T>,
        left_key: &FK,
        joiner: &J,
    ) -> (r: (Vec<Event<O>>, bool))
        requires
            obeys_concrete_eq::<K>(),
            !(event is Snapshot),
            event matches Event::Data(t, _) ==> assignable(t@, old(self).length()),
            forall|v: &T| #[trigger] left_key.requires((v,)),
            forall|a: T, b: R| #[trigger] joiner.requires((a, b)),
        ensures
            final(self).length() == old(self).length(),
            match event {
                Event::Data(t, v) => {
                    &&& !r.1
                    &&& final(self).sides() == old(self).sides()
                    &&& exists|k: K|
                        #[trigger] left_key.ensures((&v,), k) && left_step(
                            old(self).pairs(),
                            final(self).pairs(),
                            r.0@,
                            start_of(t@, old(self).length()),
                            v,
                            k,
                            joiner,
                        )
                },
                Event::Watermark(t) => {
                    let reply = watermark_reply(
                        old(self).sides().left_watermark,
                        old(self).sides().right_watermark,
                        t,
                    );
                    &&& !r.1
                    &&& final(self).sides() == left_moved(old(self).sides(), t)
                    &&& r.0@ == reply_events::<O>(reply)
                    &&& final(self).pairs() == closed_pairs(old(self).pairs(), old(self).length(), reply)
                },
                _ => {
                    &&& r.1 == old(self).sides().right_done
                    &&& r.0@ == end_events::<O>(old(self).sides().right_done)
                    &&& final(self).sides() == left_ended(old(self).sides())
                    &&& final(self).pairs() == old(self).pairs()
                },
            },
    {
        match event {
            Event::Data(time, data) => {
                let key = left_key(&data);
                let ghost k = key;
                let d = self.panes.duration();
                let start = window_start(time, d);
                let ghost raw = self.panes@;
                let dflt: (Vec<T>, Vec<R>) = (Vec::new(), Vec::new());
                let ghost gd = dflt;
                let (pi, gi) = self.panes.get_state(time, key, dflt);
                let ghost mid = self.panes@;
                let (mut ls, rs) = self.panes.replace_state(pi, gi, (Vec::new(), Vec::new()));
                let ghost old_ls = ls@;
                let out = pair_left_with(&data, &rs, start, joiner);
                let ghost v = data;
                ls.push(data);
                let ghost nx = (ls, rs);
                self.panes.replace_state(pi, gi, (ls, rs));
                proof {
                    let s = start@;
                    let fin = self.panes@;
                    assert(fin[pi as int].1 =~= mid[pi as int].1.update(gi as int, (k, nx)));
                    assert(fin =~= mid.update(pi as int, (s, mid[pi as int].1.update(gi as int, (k, nx)))));
                    lemma_state_step(raw, s, k, gd, mid, pi as int, gi as int, nx, fin);
                    let f = pair_view::<T, R>();
                    lemma_map_state_at(raw, s, k, f);
                    lemma_map_with_state(raw, s, k, nx, f);
                    assert(gd.0@ =~= Seq::<T>::empty());
                    assert(gd.1@ =~= Seq::<R>::empty());
                    let sides = sides_at(map_states(raw, f), s, k);
                    assert(sides == (old_ls, nx.1@));
                    assert(f(nx) == (sides.0.push(v), sides.1));
                    assert(left_step(map_states(raw, f), self.pairs(), out@, s, v, k, joiner));
                }
                (out, false)
            },
            Event::Watermark(t) => {
                let reply = self.sides.move_left(t);
                self.apply_reply(&reply);
                (reply_to_events(reply), false)
            },
            _ => {
                let other_done = self.sides.right_done;
                let stop = self.sides.end_left();
                (end_to_events(other_done), stop)
            },
        }
    }

    /// What one event of the right side does. Returns the events to send on
    /// and whether the join ends.
    pub fn on_right<O, FK: Fn(&R) -> K, J: Fn(T, R) -> O>(
        &mut self,
        event: Event<R>,
        right_key: &FK,
        joiner: &J,
    ) -> (r: (Vec<Event<O>>, bool))
        requires
            obeys_concrete_eq::<K>(),
            !(event is Snapshot),
            event matches Event::Data(t, _) ==> assignable(t@, old(self).length()),
            forall|v: &R| #[trigger] right_key.requires((v,)),
            forall|a: T, b: R| #[trigger] joiner.requires((a, b)),
        ensures
            final(self).length() == old(self).length(),
            match event {
                Event::Data(t, v) => {
                    &&& !r.1
                    &&& final(self).sides() == old(self).sides()
                    &&& exists|k: K|
                        #[trigger] right_key.ensures((&v,), k) && right_step(
                            old(self).pairs(),
                            final(self).pairs(),
                            r.0@,
                            start_of(t@, old(self).length()),
                            v,
                            k,
                            joiner,
                        )
                },
                Event::Watermark(t) => {
                    let reply = watermark_reply(
                        old(self).sides().right_watermark,
                        old(self).sides().left_watermark,
                        t,
                    );
                    &&& !r.1
                    &&& final(self).sides() == right_moved(old(self).sides(), t)
                    &&& r.0@ == reply_events::<O>(reply)
                    &&& final(self).pairs() == closed_pairs(old(self).pairs(), old(self).length(), reply)
                },
                _ => {
                    &&& r.1 == old(self).sides().left_done
                    &&& r.0@ == end_events::<O>(old(self).sides().left_done)
                    &&& final(self).sides() == right_ended(old(self).sides())
                    &&& final(self).pairs() == old(self).pairs()
                },
            },
    {
        match event {
            Event::Data(time, data) => {
                let key = right_key(&data);
                let ghost k = key;
                let d = self.panes.duration();
                let start = window_start(time, d);
                let ghost raw = self.panes@;
                let dflt: (Vec<T>, Vec<R>) = (Vec::new(), Vec::new());
                let ghost gd = dflt;
                let (pi, gi) = self.panes.get_state(time, key, dflt);
                let ghost mid = self.panes@;
                let (ls, mut rs) = self.panes.replace_state(pi, gi, (Vec::new(), Vec::new()));
                let ghost old_rs = rs@;
                let out = pair_with_right(&ls, &data, start, joiner);
                let ghost v = data;
                rs.push(data);
                let ghost nx = (ls, rs);
                self.panes.replace_state(pi, gi, (ls, rs));
                proof {
                    let s = start@;
                    let fin = self.panes@;
                    assert(fin[pi as int].1 =~= mid[pi as int].1.update(gi as int, (k, nx)));
                    assert(fin =~= mid.update(pi as int, (s, mid[pi as int].1.update(gi as int, (k, nx)))));
                    lemma_state_step(raw, s, k, gd, mid, pi as int, gi as int, nx, fin);
                    let f = pair_view::<T, R>();
                    lemma_map_state_at(raw, s, k, f);
                    lemma_map_with_state(raw, s, k, nx, f);
                    assert(gd.0@ =~= Seq::<T>::empty());
                    assert(gd.1@ =~= Seq::<R>::empty());
                    let sides = sides_at(map_states(raw, f), s, k);
                    assert(sides == (nx.0@, old_rs));
                    assert(f(nx) == (sides.0, sides.1.push(v)));
                    assert(right_step(map_states(raw, f), self.pairs(), out@, s, v, k, joiner));
                }
                (out, false)
            },
            Event::Watermark(t) => {
                let reply = self.sides.move_right(t);
                self.apply_reply(&reply);
                (reply_to_events(reply), false)
            },
            _ => {
                let other_done = self.sides.left_done;
                let stop = self.sides.end_right();
                (end_to_events(other_done), stop)
            },
        }
    }
}

/// What a pane and key of a distinct join hold: a left value waiting for
/// its right partner, a right value waiting for its left partner, or
/// nothing.
pub enum Slot<T, R> {
    Left(T),
    Right(R),
    Empty,
}

/// What key `k` holds in the pane starting at `s` (nothing when the key has
/// no state there).
pub open spec fn slot_at<K, T, R>(ps: Seq<(int, Seq<(K, Slot<T, R>)>)>, s: int, k: K) -> Slot<T, R> {
    match state_at(ps, s, k) {
        Some(x) => x,
        None => Slot::Empty,
    }
}

/// `e` is the pair of `l` and `r` in the pane starting at `s`: a value at
/// `s` that `joiner` gives for the two.
pub open spec fn paired_event<T, R, O, J: Fn(T, R) -> O>(e: Event<O>, s: int, l: T, r: R, joiner: J) -> bool {
    match e {
        Event::Data(t, o) => t@ == s && joiner.ensures((l, r), o),
        _ => false,
    }
}

/// A left value `v` with key `k` in the pane starting at `s` of a distinct
/// join: a waiting right value is paired with it and the slot empties;
/// an empty slot takes `v`.
pub open spec fn distinct_left_step<K, T, R, O, J: Fn(T, R) -> O>(
    before: Seq<(int, Seq<(K, Slot<T, R>)>)>,
    after: Seq<(int, Seq<(K, Slot<T, R>)>)>,
    out: Seq<Event<O>>,
    s: int,
    v: T,
    k: K,
    joiner: J,
) -> bool {
    match slot_at(before, s, k) {
        Slot::Right(r) => after == with_state(before, s, k, Slot::<T, R>::Empty) && out.len() == 1
            && paired_event(out[0], s, v, r, joiner),
        _ => after == with_state(before, s, k, Slot::<T, R>::Left(v)) && out.len() == 0,
    }
}

/// A right value `v` with key `k` in the pane starting at `s` of a distinct
/// join: a waiting left value is paired with it and the slot empties; an
/// empty slot takes `v`.
pub open spec fn distinct_right_step<K, T, R, O, J: Fn(T, R) -> O>(
    before: Seq<(int, Seq<(K, Slot<T, R>)>)>,
    after: Seq<(int, Seq<(K, Slot<T, R>)>)>,
    out: Seq<Event<O>>,
    s: int,
    v: R,
    k: K,
    joiner: J,
) -> bool {
    match slot_at(before, s, k) {
        Slot::Left(l) => after == with_state(before, s, k, Slot::<T, R>::Empty) && out.len() == 1
            && paired_event(out[0], s, l, v, joiner),
        _ => after == with_state(before, s, k, Slot::<T, R>::Right(v)) && out.len() == 0,
    }
}

/// A join of two streams over tumbling windows that pairs each value with
/// the one value of the other side that waits in the same pane and key.
pub struct DistinctJoin<K, T, R> {
    panes: Panes<K, Slot<T, R>>,
    sides: JoinSides,
}

impl<K, T, R> DistinctJoin<K, T, R> {
    /// For each pane in order of start, its start and, for each key in the
    /// order it first came, what waits there.
    pub closed spec fn slots(&self) -> Seq<(int, Seq<(K, Slot<T, R>)>)> {
        self.panes@
    }

    /// The window length in nanoseconds.
    pub closed spec fn length(&self) -> int {
        self.panes.length()
    }

    /// The progress of the two sides.
    pub closed spec fn sides(&self) -> JoinSides {
        self.sides
    }

    /// The progress of the two sides.
    pub fn progress(&self) -> (r: &JoinSides)
        ensures
            *r == self.sides(),
    {
        &self.sides
    }

    /// A join with nothing waiting, both watermarks at the Unix epoch.
    pub fn new(duration: Duration) -> (r: DistinctJoin<K, T, R>)
        ensures
            r.slots() == Seq::<(int, Seq<(K, Slot<T, R>)>)>::empty(),
            r.length() == duration@,
            r.sides().left_watermark@ == 0,
            r.sides().right_watermark@ == 0,
            !r.sides().left_done,
            !r.sides().right_done,
    {
        DistinctJoin { panes: Panes::new(duration), sides: JoinSides::new() }
    }

    /// Drops the panes that end before the watermark if the reply is to close.
    fn apply_reply(&mut self, reply: &WatermarkReply)
        ensures
            final(self).length() == old(self).length(),
            final(self).sides() == old(self).sides(),
            final(self).slots() == closed_pairs(old(self).slots(), old(self).length(), *reply),
    {
        match reply {
            WatermarkReply::Close(t) => {
                self.panes.gc_state(*t);
            },
            _ => {},
        }
    }
}

impl<K: PartialEq, T, R> DistinctJoin<K, T, R> {
    /// Whether a left value with key `key` at `time` would find a left value
    /// already waiting: two values of the same side with the same key in one
    /// pane are not allowed.
    pub fn left_conflicts(&self, time: Time, key: &K) -> (r: bool)
        requires
            obeys_concrete_eq::<K>(),
            assignable(time@, self.length()),
        ensures
            r == (slot_at(self.slots(), start_of(time@, self.length()), *key) is Left),
    {
        match self.panes.state_ref(time, key) {
            Some(Slot::Left(_)) => true,
            _ => false,
        }
    }

    /// Whether a right value with key `key` at `time` would find a right
    /// value already waiting.
    pub fn right_conflicts(&self, time: Time, key: &K) -> (r: bool)
        requires
            obeys_concrete_eq::<K>(),
            assignable(time@, self.length()),
        ensures
            r == (slot_at(self.slots(), start_of(time@, self.length()), *key) is Right),
    {
        match self.panes.state_ref(time, key) {
            Some(Slot::Right(_)) => true,
            _ => false,
        }
    }

    /// What one event of the left side does. Returns the events to send on
    /// and whether the join ends.
    pub fn on_left<O, FK: Fn(&T) -> K, J: Fn(T, R) -> O>(
        &mut self,
        event: Event<T>,
        left_key: &FK,
        joiner: &J,
    ) -> (r: (Vec<Event<O>>, bool))
        requires
            obeys_concrete_eq::<K>(),
            !(event is Snapshot),
            event matches Event::Data(t, v) ==> assignable(t@, old(self).length()) && forall|k: K|
                #[trigger] left_key.ensures((&v,), k) ==> !(slot_at(
                    old(self).slots(),
                    start_of(t@, old(self).length()),
                    k,
                ) is Left),
            forall|v: &T| #[trigger] left_key.requires((v,)),
            forall|a: T, b: R| #[trigger] joiner.requires((a, b)),
        ensures
            final(self).length() == old(self).length(),
            match event {
                Event::Data(t, v) => {
                    &&& !r.1
                    &&& final(self).sides() == old(self).sides()
                    &&& exists|k: K|
                        #[trigger] left_key.ensures((&v,), k) && distinct_left_step(
                            old(self).slots(),
                            final(self).slots(),
                            r.0@,
                            start_of(t@, old(self).length()),
                            v,
                            k,
                            joiner,
                        )
                },
                Event::Watermark(t) => {
                    let reply = watermark_reply(
                        old(self).sides().left_watermark,
                        old(self).sides().right_watermark,
                        t,
                    );
                    &&& !r.1
                    &&& final(self).sides() == left_moved(old(self).sides(), t)
                    &&& r.0@ == reply_events::<O>(reply)
                    &&& final(self).slots() == closed_pairs(old(self).slots(), old(self).length(), reply)
                },
                _ => {
                    &&& r.1 == old(self).sides().right_done
                    &&& r.0@ == end_events::<O>(old(self).sides().right_done)
                    &&& final(self).sides() == left_ended(old(self).sides())
                    &&& final(self).slots() == old(self).slots()
                },
            },
    {
        match event {
            Event::Data(time, data) => {
                let key = left_key(&data);
                let ghost k = key;
                let d = self.panes.duration();
                let start = window_start(time, d);
                let ghost raw = self.panes@;
                let (pi, gi) = self.panes.get_state(time, key, Slot::Empty);
                let ghost mid = self.panes@;
                let cur = self.panes.replace_state(pi, gi, Slot::Empty);
                let ghost fin1 = self.panes@;
                let ghost v = data;
                let mut out: Vec<Event<O>> = Vec::new();
                proof {
                    let s = start@;
                    assert(fin1[pi as int].1 =~= mid[pi as int].1.update(gi as int, (k, Slot::<T, R>::Empty)));
                    assert(fin1 =~= mid.update(pi as int, (s, mid[pi as int].1.update(gi as int, (k, Slot::<T, R>::Empty)))));
                    lemma_state_step(raw, s, k, Slot::<T, R>::Empty, mid, pi as int, gi as int, Slot::<T, R>::Empty, fin1);
                    assert(cur == slot_at(raw, s, k));
                }
                match cur {
                    Slot::Right(r) => {
                        let o = joiner(data, r);
                        out.push(Event::Data(start, o));
                    },
                    Slot::Empty => {
                        self.panes.replace_state(pi, gi, Slot::Left(data));
                        proof {
                            let s = start@;
                            let fin = self.panes@;
                            assert(fin[pi as int].1 =~= mid[pi as int].1.update(gi as int, (k, Slot::<T, R>::Left(v))));
                            assert(fin =~= mid.update(pi as int, (s, mid[pi as int].1.update(gi as int, (k, Slot::<T, R>::Left(v))))));
                            lemma_state_step(raw, s, k, Slot::<T, R>::Empty, mid, pi as int, gi as int, Slot::<T, R>::Left(v), fin);
                        }
                    },
                    Slot::Left(l) => {
                        proof {
                            assert(left_key.ensures((&v,), k));
                        }
                        self.panes.replace_state(pi, gi, Slot::Left(l));
                    },
                }
                proof {
                    assert(left_key.ensures((&v,), k));
                }
                (out, false)
            },
            Event::Watermark(t) => {
                let reply = self.sides.move_left(t);
                self.apply_reply(&reply);
                (reply_to_events(reply), false)
            },
            _ => {
                let other_done = self.sides.right_done;
                let stop = self.sides.end_left();
                (end_to_events(other_done), stop)
            },
        }
    }

    /// What one event of the right side does. Returns the events to send on
    /// and whether the join ends.
    pub fn on_right<O, FK: Fn(&R) -> K, J: Fn(T, R) -> O>(
        &mut self,
        event: Event<R>,
        right_key: &FK,
        joiner: &J,
    ) -> (r: (Vec<Event<O>>, bool))
        requires
            obeys_concrete_eq::<K>(),
            !(event is Snapshot),
            event matches Event::Data(t, v) ==> assignable(t@, old(self).length()) && forall|k: K|
                #[trigger] right_key.ensures((&v,), k) ==> !(slot_at(
                    old(self).slots(),
                    start_of(t@, old(self).length()),
                    k,
                ) is Right),
            forall|v: &R| #[trigger] right_key.requires((v,)),
            forall|a: T, b: R| #[trigger] joiner.requires((a, b)),
        ensures
            final(self).length() == old(self).length(),
            match event {
                Event::Data(t, v) => {
                    &&& !r.1
                    &&& final(self).sides() == old(self).sides()
                    &&& exists|k: K|
                        #[trigger] right_key.ensures((&v,), k) && distinct_right_step(
                            old(self).slots(),
                            final(self).slots(),
                            r.0@,
                            start_of(t@, old(self).length()),
                            v,
                            k,
                            joiner,
                        )
                },
                Event::Watermark(t) => {
                    let reply = watermark_reply(
                        old(self).sides().right_watermark,
                        old(self).sides().left_watermark,
                        t,
                    );
                    &&& !r.1
                    &&& final(self).sides() == right_moved(old(self).sides(), t)
                    &&& r.0@ == reply_events::<O>(reply)
                    &&& final(self).slots() == closed_pairs(old(self).slots(), old(self).length(), reply)
                },
                _ => {
                    &&& r.1 == old(self).sides().left_done
                    &&& r.0@ == end_events::<O>(old(self).sides().left_done)
                    &&& final(self).sides() == right_ended(old(self).sides())
                    &&& final(self).slots() == old(self).slots()
                },
            },
    {
        match event {
            Event::Data(time, data) => {
                let key = right_key(&data);
                let ghost k = key;
                let d = self.panes.duration();
                let start = window_start(time, d);
                let ghost raw = self.panes@;
                let (pi, gi) = self.panes.get_state(time, key, Slot::Empty);
                let ghost mid = self.panes@;
                let cur = self.panes.replace_state(pi, gi, Slot::Empty);
                let ghost fin1 = self.panes@;
                let ghost v = data;
                let mut out: Vec<Event<O>> = Vec::new();
                proof {
                    let s = start@;
                    assert(fin1[pi as int].1 =~= mid[pi as int].1.update(gi as int, (k, Slot::<T, R>::Empty)));
                    assert(fin1 =~= mid.update(pi as int, (s, mid[pi as int].1.update(gi as int, (k, Slot::<T, R>::Empty)))));
                    lemma_state_step(raw, s, k, Slot::<T, R>::Empty, mid, pi as int, gi as int, Slot::<T, R>::Empty, fin1);
                    assert(cur == slot_at(raw, s, k));
                }
                match cur {
                    Slot::Left(l) => {
                        let o = joiner(l, data);
                        out.push(Event::Data(start, o));
                    },
                    Slot::Empty => {
                        self.panes.replace_state(pi, gi, Slot::Right(data));
                        proof {
                            let s = start@;
                            let fin = self.panes@;
                            assert(fin[pi as int].1 =~= mid[pi as int].1.update(gi as int, (k, Slot::<T, R>::Right(v))));
                            assert(fin =~= mid.update(pi as int, (s, mid[pi as int].1.update(gi as int, (k, Slot::<T, R>::Right(v))))));
                            lemma_state_step(raw, s, k, Slot::<T, R>::Empty, mid, pi as int, gi as int, Slot::<T, R>::Right(v), fin);
                        }
                    },
                    Slot::Right(r) => {
                        proof {
                            assert(right_key.ensures((&v,), k));
                        }
                        self.panes.replace_state(pi, gi, Slot::Right(r));
                    },
                }
                proof {
                    assert(right_key.ensures((&v,), k));
                }
                (out, false)
            },
            Event::Watermark(t) => {
                let reply = self.sides.move_right(t);
                self.apply_reply(&reply);
                (reply_to_events(reply), false)
            },
            _ => {
                let other_done = self.sides.left_done;
                let stop = self.sides.end_right();
                (end_to_events(other_done), stop)
            },
        }
    }
}

/// What the watermark reply sends on.
pub open spec fn reply_events<O>(reply: WatermarkReply) -> Seq<Event<O>> {
    match reply {
        WatermarkReply::Close(t) => seq![Event::<O>::Watermark(t)],
        WatermarkReply::Forward(w) => seq![Event::<O>::Watermark(w)],
        WatermarkReply::Hold => Seq::empty(),
    }
}

/// The events a watermark reply sends on.
fn reply_to_events<O>(reply: WatermarkReply) -> (r: Vec<Event<O>>)
    ensures
        r@ == reply_events::<O>(reply),
{
    let mut r = Vec::new();
    match reply {
        WatermarkReply::Close(t) => r.push(Event::Watermark(t)),
        WatermarkReply::Forward(w) => r.push(Event::Watermark(w)),
        WatermarkReply::Hold => {},
    }
    proof {
        assert(r@ =~= reply_events::<O>(reply));
    }
    r
}

/// Dropping the leading expired panes commutes with viewing the lists.
proof fn lemma_skip_pairs<K, T, R>(raw: Seq<(int, Seq<(K, (Vec<T>, Vec<R>))>)>, d: int, w: int)
    ensures
        map_states(raw.skip(expired_count(raw, d, w)), pair_view::<T, R>()) == map_states(
            raw,
            pair_view::<T, R>(),
        ).skip(expired_count(map_states(raw, pair_view::<T, R>()), d, w)),
{
    let f = pair_view::<T, R>();
    let mv = map_states(raw, f);
    lemma_map_states(raw, f);
    assert forall|i: int| 0 <= i < mv.len() implies #[trigger] mv[i].0 == raw[i].0 by {}
    crate::window::lemma_expired_same_starts(mv, raw, d, w);
    let n = expired_witness(raw, d, w, 0);
    lemma_expired_count_unique(raw, d, w, n);
    lemma_map_states(raw.skip(n), f);
    assert(map_states(raw.skip(n), f) =~= mv.skip(n));
}

/// What reaches a join from its two sides, data left out: a side's
/// watermark moving to a time, or a side's end.
pub enum JoinMove {
    LeftAt(Time),
    RightAt(Time),
    LeftEnd,
    RightEnd,
}

/// The progress of the sides after `m`.
pub open spec fn move_sides(s: JoinSides, m: JoinMove) -> JoinSides {
    match m {
        JoinMove::LeftAt(t) => left_moved(s, t),
        JoinMove::RightAt(t) => right_moved(s, t),
        JoinMove::LeftEnd => left_ended(s),
        JoinMove::RightEnd => right_ended(s),
    }
}

/// What the join sends on for `m`, data left out.
pub open spec fn move_events(s: JoinSides, m: JoinMove) -> Seq<Event<()>> {
    match m {
        JoinMove::LeftAt(t) => reply_events(watermark_reply(s.left_watermark, s.right_watermark, t)),
        JoinMove::RightAt(t) => reply_events(watermark_reply(s.right_watermark, s.left_watermark, t)),
        JoinMove::LeftEnd => end_events(s.right_done),
        JoinMove::RightEnd => end_events(s.left_done),
    }
}

/// The progress of the sides after the moves `ms`, from `s`.
pub open spec fn run_sides(s: JoinSides, ms: Seq<JoinMove>) -> JoinSides
    decreases ms.len(),
{
    if ms.len() == 0 {
        s
    } else {
        move_sides(run_sides(s, ms.drop_last()), ms.last())
    }
}

/// What the join sends on over the moves `ms`, from `s`, data left out.
pub open spec fn run_events(s: JoinSides, ms: Seq<JoinMove>) -> Seq<Event<()>>
    decreases ms.len(),
{
    if ms.len() == 0 {
        Seq::empty()
    } else {
        run_events(s, ms.drop_last()) + move_events(run_sides(s, ms.drop_last()), ms.last())
    }
}

/// The join takes `m` in the state `s`: its side has not ended, and a
/// watermark lies strictly after that side's last one.
pub open spec fn move_ok(s: JoinSides, m: JoinMove) -> bool {
    match m {
        JoinMove::LeftAt(t) => !s.left_done && s.left_watermark@ < t@,
        JoinMove::RightAt(t) => !s.right_done && s.right_watermark@ < t@,
        JoinMove::LeftEnd => !s.left_done,
        JoinMove::RightEnd => !s.right_done,
    }
}

/// The join takes each move of `ms` in turn, and none after it has ended.
pub open spec fn run_ok(s: JoinSides, ms: Seq<JoinMove>) -> bool
    decreases ms.len(),
{
    if ms.len() == 0 {
        true
    } else {
        &&& run_ok(s, ms.drop_last())
        &&& !run_events(s, ms.drop_last()).contains(Event::<()>::Sentinel)
        &&& move_ok(run_sides(s, ms.drop_last()), ms.last())
    }
}

/// The earlier of the two sides' watermarks, in nanoseconds.
pub open spec fn min_watermark(s: JoinSides) -> int {
    if s.left_watermark@ <= s.right_watermark@ {
        s.left_watermark@
    } else {
        s.right_watermark@
    }
}

/// Over a run in which each side's watermarks strictly increase and no
/// side is heard from after it ends, a join sends watermarks that strictly
/// increase, each after the earlier of the two sides' watermarks at the
/// start and none after the earlier of them at the end; it sends the end
/// marker exactly when both sides have ended, and sends nothing after it.
pub proof fn law_join_run(s: JoinSides, ms: Seq<JoinMove>)
    requires
        !s.left_done,
        !s.right_done,
        run_ok(s, ms),
    ensures
        forall|i: int, j: int|
            0 <= i < j < run_events(s, ms).len() ==> (#[trigger] run_events(s, ms)[i] matches Event::Watermark(a)
                ==> (#[trigger] run_events(s, ms)[j] matches Event::Watermark(b) ==> a@ < b@)),
        forall|i: int|
            0 <= i < run_events(s, ms).len() ==> (#[trigger] run_events(s, ms)[i] matches Event::Watermark(a)
                ==> min_watermark(s) < a@ <= min_watermark(run_sides(s, ms))),
        forall|i: int|
            0 <= i < run_events(s, ms).len() ==> (#[trigger] run_events(s, ms)[i] matches Event::Sentinel
                ==> i == run_events(s, ms).len() - 1),
        run_events(s, ms).contains(Event::<()>::Sentinel) <==> (ms.contains(JoinMove::LeftEnd) && ms.contains(
            JoinMove::RightEnd,
        )),
{
    lemma_join_run(s, ms);
}

/// The facts of `law_join_run`, with what the sides' progress records.
proof fn lemma_join_run(s: JoinSides, ms: Seq<JoinMove>)
    requires
        !s.left_done,
        !s.right_done,
        run_ok(s, ms),
    ensures
        forall|i: int, j: int|
            0 <= i < j < run_events(s, ms).len() ==> (#[trigger] run_events(s, ms)[i] matches Event::Watermark(a)
                ==> (#[trigger] run_events(s, ms)[j] matches Event::Watermark(b) ==> a@ < b@)),
        forall|i: int|
            0 <= i < run_events(s, ms).len() ==> (#[trigger] run_events(s, ms)[i] matches Event::Watermark(a)
                ==> min_watermark(s) < a@ <= min_watermark(run_sides(s, ms))),
        forall|i: int|
            0 <= i < run_events(s, ms).len() ==> (#[trigger] run_events(s, ms)[i] matches Event::Sentinel
                ==> i == run_events(s, ms).len() - 1),
        run_events(s, ms).contains(Event::<()>::Sentinel) <==> (ms.contains(JoinMove::LeftEnd) && ms.contains(
            JoinMove::RightEnd,
        )),
        !run_events(s, ms).contains(Event::<()>::Sentinel) ==> (run_sides(s, ms).left_done <==> ms.contains(
            JoinMove::LeftEnd,
        )),
        !run_events(s, ms).contains(Event::<()>::Sentinel) ==> (run_sides(s, ms).right_done <==> ms.contains(
            JoinMove::RightEnd,
        )),
        min_watermark(s) <= min_watermark(run_sides(s, ms)),
    decreases ms.len(),
{
    if ms.len() > 0 {
        let pre = ms.drop_last();
        let m = ms.last();
        lemma_join_run(s, pre);
        let st = run_sides(s, pre);
        let out0 = run_events(s, pre);
        let step = move_events(st, m);
        let out = run_events(s, ms);
        assert(out == out0 + step);
        assert(ms =~= pre.push(m));
        assert forall|x: JoinMove| ms.contains(x) <==> (pre.contains(x) || x == m) by {
            if ms.contains(x) {
                let i = choose|i: int| 0 <= i < ms.len() && ms[i] == x;
                if i < pre.len() {
                    assert(pre[i] == x);
                }
            }
            if pre.contains(x) {
                let i = choose|i: int| 0 <= i < pre.len() && pre[i] == x;
                assert(ms[i] == x);
            }
            if x == m {
                assert(ms[ms.len() - 1] == x);
            }
        }
        assert forall|e: Event<()>| out.contains(e) <==> (out0.contains(e) || step.contains(e)) by {
            if out.contains(e) {
                let i = choose|i: int| 0 <= i < out.len() && out[i] == e;
                if i < out0.len() {
                    assert(out0[i] == e);
                } else {
                    assert(step[i - out0.len()] == e);
                }
            }
            if out0.contains(e) {
                let i = choose|i: int| 0 <= i < out0.len() && out0[i] == e;
                assert(out[i] == e);
            }
            if step.contains(e) {
                let i = choose|i: int| 0 <= i < step.len() && step[i] == e;
                assert(out[out0.len() + i] == e);
            }
        }
        assert(!out0.contains(Event::<()>::Sentinel));
        let new = move_sides(st, m);
        match m {
            JoinMove::LeftAt(t) => {
                match watermark_reply(st.left_watermark, st.right_watermark, t) {
                    WatermarkReply::Close(w) => {
                        assert(step =~= seq![Event::<()>::Watermark(w)]);
                        assert(min_watermark(st) < w@ <= min_watermark(new));
                    },
                    WatermarkReply::Forward(w) => {
                        assert(step =~= seq![Event::<()>::Watermark(w)]);
                        assert(min_watermark(st) < w@ <= min_watermark(new));
                    },
                    WatermarkReply::Hold => {
                        assert(step =~= Seq::<Event<()>>::empty());
                    },
                }
            },
            JoinMove::RightAt(t) => {
                match watermark_reply(st.right_watermark, st.left_watermark, t) {
                    WatermarkReply::Close(w) => {
                        assert(step =~= seq![Event::<()>::Watermark(w)]);
                        assert(min_watermark(st) < w@ <= min_watermark(new));
                    },
                    WatermarkReply::Forward(w) => {
                        assert(step =~= seq![Event::<()>::Watermark(w)]);
                        assert(min_watermark(st) < w@ <= min_watermark(new));
                    },
                    WatermarkReply::Hold => {
                        assert(step =~= Seq::<Event<()>>::empty());
                    },
                }
            },
            JoinMove::LeftEnd => {
                if st.right_done {
                    assert(step =~= seq![Event::<()>::Sentinel]);
                    assert(step.contains(Event::<()>::Sentinel)) by {
                        assert(step[0] == Event::<()>::Sentinel);
                    }
                } else {
                    assert(step =~= Seq::<Event<()>>::empty());
                }
            },
            JoinMove::RightEnd => {
                if st.left_done {
                    assert(step =~= seq![Event::<()>::Sentinel]);
                    assert(step.contains(Event::<()>::Sentinel)) by {
                        assert(step[0] == Event::<()>::Sentinel);
                    }
                } else {
                    assert(step =~= Seq::<Event<()>>::empty());
                }
            },
        }
        assert(step.len() <= 1);
        assert forall|k: int| 0 <= k < step.len() implies (#[trigger] step[k] matches Event::Watermark(w)
            ==> min_watermark(st) < w@ <= min_watermark(new)) by {
            assert(k == 0);
        }
        assert forall|i: int, j: int|
            0 <= i < j < out.len() implies (#[trigger] out[i] matches Event::Watermark(a)
                ==> (#[trigger] out[j] matches Event::Watermark(b) ==> a@ < b@)) by {
            if j < out0.len() {
                assert(out[i] == out0[i] && out[j] == out0[j]);
                if let Event::Watermark(a) = out0[i] {
                    if let Event::Watermark(b) = out0[j] {
                        assert(a@ < b@);
                    }
                }
            } else if i < out0.len() {
                assert(out[i] == out0[i]);
                assert(out[j] == step[j - out0.len()]);
                if let Event::Watermark(a) = out0[i] {
                    if let Event::Watermark(b) = step[j - out0.len()] {
                        assert(a@ <= min_watermark(st));
                        assert(min_watermark(st) < b@);
                    }
                }
            }
        }
        assert forall|i: int| 0 <= i < out.len() implies (#[trigger] out[i] matches Event::Watermark(a)
            ==> min_watermark(s) < a@ <= min_watermark(run_sides(s, ms))) by {
            if i < out0.len() {
                assert(out[i] == out0[i]);
            } else {
                assert(out[i] == step[i - out0.len()]);
            }
        }
        assert forall|i: int| 0 <= i < out.len() implies (#[trigger] out[i] matches Event::Sentinel ==> i
            == out.len() - 1) by {
            if i < out0.len() {
                assert(out[i] == out0[i]);
                assert(out0.contains(out0[i]));
            }
        }
    }
}

} // verus!
