use arc_lang::duration::Duration;
use arc_lang::event::Event;
use arc_lang::join::reply_to_watermark;
use arc_lang::join::DistinctJoin;
use arc_lang::join::JoinSides;
use arc_lang::join::WatermarkReply;
use arc_lang::join::WindowJoin;
use arc_lang::time::Time;

fn t(s: i64) -> Time {
    Time::from_seconds(s)
}

fn watermarks<O>(events: &[Event<O>]) -> Vec<i64> {
    events
        .iter()
        .filter_map(|e| match e {
            Event::Watermark(time) => Some(time.seconds()),
            _ => None,
        })
        .collect()
}

#[test]
fn watermark_replies() {
    assert!(matches!(reply_to_watermark(t(0), t(10), t(5)), WatermarkReply::Close(x) if x.seconds() == 5));
    assert!(matches!(reply_to_watermark(t(0), t(10), t(15)), WatermarkReply::Forward(x) if x.seconds() == 10));
    assert!(matches!(reply_to_watermark(t(12), t(10), t(15)), WatermarkReply::Hold));
    assert!(matches!(reply_to_watermark(t(0), t(10), t(10)), WatermarkReply::Hold));
}

#[test]
fn law_join_sends_the_smaller_watermark() {
    for (own, other, new) in [(0i64, 10i64, 5i64), (0, 10, 15), (12, 10, 15), (3, 3, 3), (0, 0, 7)] {
        match reply_to_watermark(t(own), t(other), t(new)) {
            WatermarkReply::Close(w) | WatermarkReply::Forward(w) => {
                assert_eq!(w.seconds(), new.min(other));
            }
            WatermarkReply::Hold => {}
        }
    }
}

#[test]
fn join_sides_track_ends() {
    let mut s = JoinSides::new();
    assert!(s.takes_left() && s.takes_right());
    assert!(!s.end_left());
    assert!(!s.takes_left());
    assert!(s.end_right());
    let mut s = JoinSides::new();
    assert!(!s.end_right());
    assert!(s.end_left());
}

#[test]
fn window_join_pairs_all_values_of_a_pane_and_key() {
    let lk = |x: &(char, i32)| x.0;
    let rk = |x: &(char, &str)| x.0;
    let joiner = |l: (char, i32), r: (char, &'static str)| format!("{}{}{}", l.0, l.1, r.1);
    let mut j: WindowJoin<char, (char, i32), (char, &'static str)> = WindowJoin::new(Duration::from_seconds(10));
    let (out, stop) = j.on_left(Event::Data(t(1), ('a', 1)), &lk, &joiner);
    assert!(out.is_empty() && !stop);
    let (out, _) = j.on_left(Event::Data(t(2), ('a', 2)), &lk, &joiner);
    assert!(out.is_empty());
    let (out, _) = j.on_right(Event::Data(t(3), ('a', "x")), &rk, &joiner);
    assert_eq!(
        out.iter().map(|e| match e { Event::Data(time, o) => (time.seconds(), o.clone()), _ => (0, String::new()) }).collect::<Vec<_>>(),
        vec![(0, String::from("a1x")), (0, String::from("a2x"))]
    );
    let (out, _) = j.on_left(Event::Data(t(4), ('a', 3)), &lk, &joiner);
    assert_eq!(out.len(), 1);
    assert!(matches!(&out[0], Event::Data(_, o) if o == "a3x"));
    let (out, _) = j.on_right(Event::Data(t(14), ('a', "y")), &rk, &joiner);
    assert!(out.is_empty());
    let (out, _) = j.on_left(Event::Data(t(5), ('b', 9)), &lk, &joiner);
    assert!(out.is_empty());
}

#[test]
fn window_join_watermarks_and_end() {
    let lk = |x: &i32| *x % 2;
    let rk = |x: &i32| *x % 2;
    let joiner = |l: i32, r: i32| l * r;
    let mut j: WindowJoin<i32, i32, i32> = WindowJoin::new(Duration::from_seconds(10));
    j.on_left(Event::Data(t(1), 3), &lk, &joiner);
    let (out, _) = j.on_right(Event::Watermark(t(20)), &rk, &joiner);
    assert!(watermarks(&out).is_empty());
    let (out, _) = j.on_left(Event::Watermark(t(15)), &lk, &joiner);
    assert_eq!(watermarks(&out), vec![15]);
    let (out, _) = j.on_right(Event::Data(t(2), 5), &rk, &joiner);
    assert!(out.is_empty());
    let (out, _) = j.on_left(Event::Watermark(t(30)), &lk, &joiner);
    assert_eq!(watermarks(&out), vec![20]);
    let (out, stop) = j.on_left(Event::Sentinel, &lk, &joiner);
    assert!(out.is_empty() && !stop);
    assert!(!j.progress().takes_left());
    let (out, stop) = j.on_right(Event::Sentinel, &rk, &joiner);
    assert!(matches!(out.as_slice(), [Event::Sentinel]) && stop);
}

#[test]
fn distinct_join_pairs_one_value_per_side() {
    let lk = |x: &(u8, i32)| x.0;
    let rk = |x: &(u8, i32)| x.0;
    let joiner = |l: (u8, i32), r: (u8, i32)| l.1 - r.1;
    let mut j: DistinctJoin<u8, (u8, i32), (u8, i32)> = DistinctJoin::new(Duration::from_seconds(10));
    let (out, _) = j.on_left(Event::Data(t(1), (7, 100)), &lk, &joiner);
    assert!(out.is_empty());
    assert!(j.left_conflicts(t(2), &7));
    assert!(!j.right_conflicts(t(2), &7));
    assert!(!j.left_conflicts(t(12), &7));
    let (out, _) = j.on_right(Event::Data(t(2), (7, 1)), &rk, &joiner);
    assert!(matches!(out.as_slice(), [Event::Data(time, 99)] if time.seconds() == 0));
    assert!(!j.left_conflicts(t(2), &7));
    let (out, _) = j.on_right(Event::Data(t(3), (7, 5)), &rk, &joiner);
    assert!(out.is_empty());
    assert!(j.right_conflicts(t(3), &7));
    let (out, _) = j.on_left(Event::Data(t(4), (7, 50)), &lk, &joiner);
    assert!(matches!(out.as_slice(), [Event::Data(_, 45)]));
}

#[test]
fn distinct_join_watermarks() {
    let k = |x: &i32| *x;
    let joiner = |l: i32, r: i32| l + r;
    let mut j: DistinctJoin<i32, i32, i32> = DistinctJoin::new(Duration::from_seconds(10));
    j.on_left(Event::Data(t(1), 1), &k, &joiner);
    let (out, _) = j.on_left(Event::Watermark(t(40)), &k, &joiner);
    assert!(out.is_empty());
    let (out, _) = j.on_right(Event::Watermark(t(12)), &k, &joiner);
    assert_eq!(watermarks(&out), vec![12]);
    let (out, _) = j.on_right(Event::Data(t(2), 1), &k, &joiner);
    assert!(out.is_empty());
    assert!(j.right_conflicts(t(2), &1));
}

#[test]
fn law_join_run_sends_increasing_minimum_watermarks() {
    let mut sides = JoinSides::new();
    let mut sent: Vec<i64> = Vec::new();
    let moves: [(bool, i64); 6] = [(true, 5), (false, 3), (false, 8), (true, 7), (true, 12), (false, 20)];
    for (left, s) in moves {
        let reply = if left { sides.move_left(t(s)) } else { sides.move_right(t(s)) };
        match reply {
            WatermarkReply::Close(w) | WatermarkReply::Forward(w) => {
                let lw = sides.left_watermark.seconds();
                let rw = sides.right_watermark.seconds();
                assert_eq!(w.seconds(), lw.min(rw));
                sent.push(w.seconds());
            }
            WatermarkReply::Hold => {}
        }
    }
    assert_eq!(sent, vec![3, 5, 7, 8, 12]);
    assert!(!sides.end_left());
    assert!(sides.end_right());
}
