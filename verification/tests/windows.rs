use arc_lang::duration::Duration;
use arc_lang::event::Event;
use arc_lang::event::KeyedEvent;
use arc_lang::incremental::IncrementalWindow;
use arc_lang::panes::assignable_time;
use arc_lang::panes::window_start;
use arc_lang::panes::Panes;
use arc_lang::time::Time;
use arc_lang::window::insert_in_time_order;
use arc_lang::window::window_turn;
use arc_lang::window::HolisticWindow;

fn t(s: i64) -> Time {
    Time::from_seconds(s)
}

fn secs(n: i64) -> Duration {
    Duration::from_seconds(n)
}

fn summary<K: Clone, T: Clone>(events: &[KeyedEvent<K, T>]) -> Vec<Option<(i64, K, T)>> {
    events
        .iter()
        .map(|e| match e {
            KeyedEvent::Data(time, k, v) => Some((time.seconds(), k.clone(), v.clone())),
            _ => None,
        })
        .collect()
}

#[test]
fn window_start_rounds_down() {
    assert_eq!(window_start(t(25), secs(10)).seconds(), 20);
    assert_eq!(window_start(t(20), secs(10)).seconds(), 20);
    assert_eq!(window_start(t(-1), secs(10)).seconds(), -10);
    assert_eq!(window_start(t(-10), secs(10)).seconds(), -10);
}

#[test]
fn law_window_contains_its_times() {
    for s in [-25i64, -10, -1, 0, 1, 9, 10, 99, 12345] {
        let start = window_start(t(s), secs(10)).seconds();
        assert!(start <= s && s < start + 10);
        assert_eq!(start.rem_euclid(10), 0);
        assert_eq!(window_start(t(start), secs(10)).seconds(), start);
    }
}

#[test]
fn assignable_time_checks_length_and_range() {
    assert!(assignable_time(t(25), secs(10)));
    assert!(!assignable_time(t(25), secs(0)));
    assert!(!assignable_time(t(253_402_300_799), secs(10)));
    assert!(assignable_time(t(253_402_300_780), secs(10)));
}

#[test]
fn insert_in_time_order_is_stable() {
    let mut v = vec![(t(1), 'a'), (t(3), 'b')];
    insert_in_time_order(&mut v, (t(2), 'c'));
    insert_in_time_order(&mut v, (t(3), 'd'));
    insert_in_time_order(&mut v, (t(0), 'e'));
    let order: Vec<char> = v.iter().map(|x| x.1).collect();
    assert_eq!(order, vec!['e', 'a', 'c', 'b', 'd']);
}

#[test]
fn panes_group_by_start_and_key() {
    let mut p: Panes<char, i32> = Panes::new(secs(10));
    let (a, ka) = p.get_state(t(15), 'x', 0);
    assert_eq!((a, ka), (0, 0));
    let (b, kb) = p.get_state(t(5), 'y', 0);
    assert_eq!((b, kb), (0, 0));
    let (c, kc) = p.get_state(t(17), 'z', 0);
    assert_eq!((c, kc), (1, 1));
    assert_eq!(p.replace_state(1, 1, 9), 0);
    assert_eq!(p.state_ref(t(11), &'z'), Some(&9));
    assert_eq!(p.state_ref(t(11), &'q'), None);
    assert_eq!(p.state_ref(t(25), &'z'), None);
    assert_eq!(p.len(), 2);
    let closed = p.pop_expired(t(11));
    assert_eq!(closed.len(), 1);
    assert_eq!(closed[0].0.seconds(), 0);
    assert_eq!(p.len(), 1);
    p.gc_state(t(20));
    assert_eq!(p.len(), 1);
    p.gc_state(t(21));
    assert_eq!(p.len(), 0);
}

#[test]
fn holistic_window_closes_panes_in_order() {
    let mut w: HolisticWindow<char, i32> = HolisticWindow::new(secs(10));
    assert!(w.step(KeyedEvent::Data(t(3), 'a', 1)).is_empty());
    assert!(w.step(KeyedEvent::Data(t(1), 'a', 2)).is_empty());
    assert!(w.step(KeyedEvent::Data(t(12), 'b', 3)).is_empty());
    assert!(w.step(KeyedEvent::Data(t(5), 'c', 4)).is_empty());
    let out = w.step(KeyedEvent::Watermark(t(11)));
    assert_eq!(
        summary(&out),
        vec![Some((10, 'a', vec![2, 1])), Some((10, 'c', vec![4])), None]
    );
    assert!(matches!(out.last(), Some(KeyedEvent::Watermark(x)) if x.seconds() == 11));
    let out = w.step(KeyedEvent::Watermark(t(20)));
    assert_eq!(summary(&out), vec![None]);
    let out = w.step(KeyedEvent::Watermark(t(21)));
    assert_eq!(summary(&out), vec![Some((20, 'b', vec![3])), None]);
    let out = w.step(KeyedEvent::Snapshot(7));
    assert!(matches!(out.as_slice(), [KeyedEvent::Snapshot(7)]));
    let out = w.step(KeyedEvent::Sentinel);
    assert!(matches!(out.as_slice(), [KeyedEvent::Sentinel]));
}

#[test]
fn holistic_window_step_with_aggregates_each_batch() {
    let mut w: HolisticWindow<char, i32> = HolisticWindow::new(secs(10));
    let sum = |vs: Vec<i32>| vs.iter().sum::<i32>();
    assert!(w.step_with(KeyedEvent::Data(t(3), 'a', 1), &sum).is_empty());
    assert!(w.step_with(KeyedEvent::Data(t(4), 'a', 2), &sum).is_empty());
    assert!(w.step_with(KeyedEvent::Data(t(5), 'b', 7), &sum).is_empty());
    let out = w.step_with(KeyedEvent::Watermark(t(10)), &sum);
    assert_eq!(summary(&out), vec![None]);
    let out = w.step_with(KeyedEvent::Watermark(t(11)), &sum);
    assert_eq!(summary(&out), vec![Some((10, 'a', 3)), Some((10, 'b', 7)), None]);
    assert!(matches!(out.last(), Some(KeyedEvent::Watermark(x)) if x.seconds() == 11));
    let out = w.step_with(KeyedEvent::Sentinel, &sum);
    assert!(matches!(out.as_slice(), [KeyedEvent::Sentinel]));
}

#[test]
fn holistic_window_close_returns_batches() {
    let mut w: HolisticWindow<u8, &str> = HolisticWindow::new(secs(5));
    w.add(t(7), 1, "late");
    w.add(t(6), 1, "early");
    let batches = w.close(t(11));
    assert_eq!(batches.len(), 1);
    assert_eq!(batches[0].0.seconds(), 10);
    assert_eq!(batches[0].1, 1);
    assert_eq!(batches[0].2, vec!["early", "late"]);
    assert!(w.close(t(100)).is_empty());
}

#[test]
fn unkeyed_window_turn_sends_only_control_events() {
    assert!(window_turn(secs(10), Event::Data(t(1), 5)).is_empty());
    let out = window_turn(secs(10), Event::<i32>::Watermark(t(50)));
    assert!(matches!(out.as_slice(), [Event::Watermark(x)] if x.seconds() == 50));
    let out = window_turn(secs(10), Event::<i32>::Snapshot(2));
    assert!(matches!(out.as_slice(), [Event::Snapshot(2)]));
    let out = window_turn(secs(10), Event::<i32>::Sentinel);
    assert!(matches!(out.as_slice(), [Event::Sentinel]));
}

#[test]
fn incremental_window_aggregates_per_key() {
    let lift = |x: i32| x as i64;
    let combine = |a: i64, b: i64| a + b;
    let lower = |p: i64| p * 100;
    let mut w: IncrementalWindow<char, i64> = IncrementalWindow::new(secs(10));
    for (s, k, v) in [(1, 'a', 1), (2, 'b', 10), (3, 'a', 2), (15, 'a', 5)] {
        let out = w.step(KeyedEvent::Data(t(s), k, v), &lift, &combine, &lower);
        assert!(out.is_empty());
    }
    let out = w.step(KeyedEvent::Watermark(t(11)), &lift, &combine, &lower);
    assert_eq!(summary(&out), vec![Some((10, 'a', 300)), Some((10, 'b', 1000)), None, None]);
    let out = w.step(KeyedEvent::Watermark(t(21)), &lift, &combine, &lower);
    assert_eq!(summary(&out), vec![Some((20, 'a', 500)), None]);
    let out = w.step(KeyedEvent::Watermark(t(31)), &lift, &combine, &lower);
    assert!(out.is_empty());
    let out = w.step(KeyedEvent::<char, i32>::Sentinel, &lift, &combine, &lower);
    assert!(matches!(out.as_slice(), [KeyedEvent::Sentinel]));
}

#[test]
fn incremental_window_watermark_before_any_pane_end() {
    let lift = |x: i32| x;
    let combine = |a: i32, b: i32| a.max(b);
    let lower = |p: i32| p;
    let mut w: IncrementalWindow<u8, i32> = IncrementalWindow::new(secs(10));
    w.add(t(1), 0, 4, &lift, &combine);
    w.add(t(2), 0, 9, &lift, &combine);
    w.add(t(3), 0, 6, &lift, &combine);
    let out = w.close(t(5), &lower);
    assert_eq!(summary(&out), vec![None]);
    let out = w.close(t(10), &lower);
    assert_eq!(summary(&out), vec![None]);
    let out = w.close(t(10_000), &lower);
    assert_eq!(summary(&out), vec![Some((10, 0, 9)), None]);
}

#[test]
fn law_holistic_window_hands_over_every_value_once() {
    let mut w: HolisticWindow<u8, u32> = HolisticWindow::new(secs(7));
    let mut sent = Vec::new();
    for i in 0u32..50 {
        let time = t(((i * 37) % 100) as i64);
        w.add(time, (i % 3) as u8, i);
        sent.push(i);
    }
    let mut got: Vec<u32> = Vec::new();
    for b in w.close(t(60)) {
        got.extend(b.2);
    }
    for b in w.close(t(1_000)) {
        got.extend(b.2);
    }
    got.sort();
    assert_eq!(got, sent);
    assert!(w.close(t(10_000)).is_empty());
}
