use arc_lang::duration::Duration;
use arc_lang::event::Event;
use arc_lang::event::KeyedEvent;
use arc_lang::iterator::Iter;
use arc_lang::ops::filter_event;
use arc_lang::ops::flat_map_event;
use arc_lang::ops::fork_event;
use arc_lang::ops::keyby_event;
use arc_lang::ops::keyed_filter_event;
use arc_lang::ops::keyed_flat_map_event;
use arc_lang::ops::keyed_join_event;
use arc_lang::ops::keyed_keyby_event;
use arc_lang::ops::keyed_split_event;
use arc_lang::ops::map_event;
use arc_lang::ops::scan_event;
use arc_lang::ops::unkey_event;
use arc_lang::source::SourceClock;
use arc_lang::time::Time;
use std::ops::ControlFlow;

fn t(s: i64) -> Time {
    Time::from_seconds(s)
}

fn data_of<T: Clone>(e: &Event<T>) -> Option<(i64, T)> {
    match e {
        Event::Data(time, v) => Some((time.seconds(), v.clone())),
        _ => None,
    }
}

#[test]
fn iter_collects_in_order() {
    let it = Iter::new(vec![1, 2, 3]);
    assert_eq!(it.collect_vec(), vec![1, 2, 3]);
}

#[test]
fn iter_next_yields_first_item() {
    let mut it = Iter::new(vec![7, 8]);
    assert_eq!(it.next(), Some(7));
    assert_eq!(it.next(), Some(8));
    assert_eq!(it.next(), None);
    assert_eq!(it.next(), None);
}

#[test]
fn iter_enumerate_map_filter() {
    let e = Iter::new(vec!['a', 'b', 'c']).enumerate().collect_vec();
    assert_eq!(e, vec![(0, 'a'), (1, 'b'), (2, 'c')]);
    let m = Iter::new(vec![1, 2, 3]).map(|x: i32| x * 10).collect_vec();
    assert_eq!(m, vec![10, 20, 30]);
    let f = Iter::new(vec![1, 2, 3, 4, 5]).filter(|x: i32| x % 2 == 1).collect_vec();
    assert_eq!(f, vec![1, 3, 5]);
}

#[test]
fn iter_for_each_folds_and_breaks() {
    let sum = Iter::new(vec![1, 2, 3, 4]).for_each(0, |s: i32, x: i32| ControlFlow::Continue(s + x));
    assert_eq!(sum, 10);
    let first_big = Iter::new(vec![1, 5, 9, 2]).for_each(0, |s: i32, x: i32| {
        if x > 4 {
            ControlFlow::Break(x)
        } else {
            ControlFlow::Continue(s + x)
        }
    });
    assert_eq!(first_big, 5);
    let empty = Iter::new(Vec::<i32>::new()).for_each(42, |s: i32, x: i32| ControlFlow::Continue(s + x));
    assert_eq!(empty, 42);
}

#[test]
fn iter_test_counts_items() {
    assert_eq!(Iter::new(vec![1, 2, 3]).test(), (1, 3));
    assert_eq!(Iter::new(Vec::<u8>::new()).test(), (1, 0));
}

#[test]
fn map_filter_flat_map_events() {
    let e = map_event(Event::Data(t(1), 20), &|x: i32| x + 1);
    assert_eq!(data_of(&e), Some((1, 21)));
    let w = map_event(Event::<i32>::Watermark(t(3)), &|x: i32| x + 1);
    assert!(matches!(w, Event::Watermark(x) if x.seconds() == 3));
    assert!(filter_event(Event::Data(t(1), 4), &|x: &i32| *x > 3).is_some());
    assert!(filter_event(Event::Data(t(1), 2), &|x: &i32| *x > 3).is_none());
    assert!(matches!(filter_event(Event::<i32>::Sentinel, &|x: &i32| *x > 3), Some(Event::Sentinel)));
    let fm = flat_map_event(Event::Data(t(2), 3), &|x: i32| vec![x, x * 2]);
    assert_eq!(fm.iter().map(data_of).collect::<Vec<_>>(), vec![Some((2, 3)), Some((2, 6))]);
    let s = flat_map_event(Event::<i32>::Snapshot(4), &|x: i32| vec![x]);
    assert!(matches!(s.as_slice(), [Event::Snapshot(4)]));
}

#[test]
fn keyby_scan_fork_unkey_events() {
    let k = keyby_event(Event::Data(t(5), 17), &|x: i32| x % 5);
    assert!(matches!(k, KeyedEvent::Data(time, 2, 17) if time.seconds() == 5));
    let u = unkey_event(k);
    assert_eq!(data_of(&u), Some((5, 17)));
    let (acc, out) = scan_event(10, Event::Data(t(1), 5), &|x: i32, a: i32| a + x);
    assert_eq!(acc, 15);
    assert_eq!(data_of(&out), Some((1, 15)));
    let (acc, out) = scan_event(10, Event::<i32>::Watermark(t(9)), &|x: i32, a: i32| a + x);
    assert_eq!(acc, 10);
    assert!(matches!(out, Event::Watermark(x) if x.seconds() == 9));
    let (a, b) = fork_event(Event::Data(t(1), String::from("x")));
    assert_eq!(data_of(&a), Some((1, String::from("x"))));
    assert_eq!(data_of(&b), Some((1, String::from("x"))));
}

#[test]
fn keyed_events() {
    let f = keyed_filter_event(KeyedEvent::Data(t(1), 'k', 3), &|x: i32| x > 2);
    assert!(matches!(f, Some(KeyedEvent::Data(_, 'k', 3))));
    assert!(keyed_filter_event(KeyedEvent::Data(t(1), 'k', 1), &|x: i32| x > 2).is_none());
    let fm = keyed_flat_map_event(KeyedEvent::Data(t(1), 'k', 2), &|x: i32| vec![x; 3]);
    assert_eq!(fm.len(), 3);
    assert!(fm.iter().all(|e| matches!(e, KeyedEvent::Data(_, 'k', 2))));
    let kk = keyed_keyby_event(KeyedEvent::Data(t(1), 'k', 12), &|x: i32| x / 10);
    assert!(matches!(kk, KeyedEvent::Data(_, 1, 12)));
    let (a, b) = keyed_split_event(KeyedEvent::Data(t(1), 'k', 12));
    assert!(matches!(a, KeyedEvent::Data(_, 'k', 12)));
    assert!(matches!(b, KeyedEvent::Data(_, 'k', 12)));
    let (a, b) = keyed_split_event(KeyedEvent::<char, i32>::Snapshot(3));
    assert!(matches!(a, KeyedEvent::Snapshot(3)));
    assert!(matches!(b, KeyedEvent::Snapshot(3)));
}

#[test]
fn keyed_join_looks_up_the_index() {
    let index = vec![('a', 100), ('b', 200), ('a', 300)];
    let j = keyed_join_event(KeyedEvent::Data(t(1), 'a', 1), &index, &|x: i32, r: i32| x + r);
    assert!(matches!(j, Some(KeyedEvent::Data(_, 'a', 101))));
    assert!(keyed_join_event(KeyedEvent::Data(t(1), 'z', 1), &index, &|x: i32, r: i32| x + r).is_none());
    let w = keyed_join_event(KeyedEvent::<char, i32>::Watermark(t(4)), &index, &|x: i32, r: i32| x + r);
    assert!(matches!(w, Some(KeyedEvent::Watermark(x)) if x.seconds() == 4));
}

#[test]
fn source_drops_late_values_and_sends_watermarks() {
    let mut clock = SourceClock::new(2, Duration::from_seconds(5));
    let s0 = clock.observe(0, t(100)).unwrap();
    assert!(s0.send);
    assert_eq!(s0.watermark.map(|w| w.seconds()), Some(95));
    let s1 = clock.observe(1, t(90)).unwrap();
    assert!(!s1.send);
    assert!(s1.watermark.is_none());
    let s2 = clock.observe(2, t(97)).unwrap();
    assert!(s2.send);
    assert_eq!(s2.watermark.map(|w| w.seconds()), Some(95));
    let s3 = clock.observe(3, t(120)).unwrap();
    assert!(s3.send);
    assert!(s3.watermark.is_none());
    let s4 = clock.observe(4, t(110)).unwrap();
    assert!(s4.send);
    assert_eq!(s4.watermark.map(|w| w.seconds()), Some(115));
}

#[test]
fn source_frequency_one_sends_watermark_every_value() {
    let mut clock = SourceClock::new(1, Duration::from_seconds(0));
    for (i, s) in [3i64, 5, 4, 9].iter().enumerate() {
        let step = clock.observe(i, t(*s)).unwrap();
        if *s == 4 {
            assert!(!step.send);
        } else {
            assert!(step.send);
            assert_eq!(step.watermark.map(|w| w.seconds()), Some(*s));
        }
    }
}

#[test]
fn source_refuses_a_watermark_before_the_calendar() {
    let mut clock = SourceClock::new(1, Duration::from_seconds(400_000_000_000));
    assert!(clock.observe(0, t(10)).is_none());
    let mut clock = SourceClock::new(2, Duration::from_seconds(400_000_000_000));
    assert!(clock.observe(0, t(10)).is_none());
    let step = clock.observe(1, t(10)).unwrap();
    assert!(step.send);
    assert!(step.watermark.is_none());
}
