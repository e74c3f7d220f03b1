use arc_lang::duration::Duration;
use arc_lang::time::Time;

#[test]
fn duration_from_seconds_reports_units() {
    let d = Duration::from_seconds(90);
    assert_eq!(d.seconds(), 90);
    assert_eq!(d.milliseconds(), 90_000);
    assert_eq!(d.microseconds(), 90_000_000);
    assert_eq!(d.nanoseconds(), 90_000_000_000);
}

#[test]
fn duration_from_minutes() {
    let d = Duration::from_minutes(3);
    assert_eq!(d.seconds(), 180);
    assert_eq!(d.hours(), 0);
}

#[test]
fn duration_negative_rounds_toward_zero() {
    let d = Duration::from_milliseconds(-1500);
    assert_eq!(d.seconds(), -1);
    assert_eq!(d.milliseconds(), -1500);
    assert_eq!(d.nanoseconds(), -1_500_000_000);
    let d = Duration::from_nanoseconds(-999_999_999);
    assert_eq!(d.seconds(), 0);
    assert_eq!(d.milliseconds(), -999);
    assert_eq!(d.microseconds(), -999_999);
}

#[test]
fn duration_microseconds_and_nanoseconds() {
    let d = Duration::from_microseconds(2_500_001);
    assert_eq!(d.seconds(), 2);
    assert_eq!(d.milliseconds(), 2500);
    assert_eq!(d.microseconds(), 2_500_001);
    assert_eq!(d.nanoseconds(), 2_500_001_000);
}

#[test]
fn duration_days_hours_weeks() {
    let d = Duration::from_seconds(15 * 86_400 + 5 * 3_600 + 7);
    assert_eq!(d.days(), 15);
    assert_eq!(d.hours(), 15 * 24 + 5);
    assert_eq!(d.weeks(), 2);
    let n = Duration::from_seconds(-(15 * 86_400 + 5 * 3_600 + 7));
    assert_eq!(n.days(), -15);
    assert_eq!(n.hours(), -(15 * 24 + 5));
    assert_eq!(n.weeks(), -2);
}

#[test]
fn duration_extremes() {
    let d = Duration::from_seconds(i64::MAX);
    assert_eq!(d.seconds(), i64::MAX);
    let d = Duration::from_seconds(i64::MIN);
    assert_eq!(d.seconds(), i64::MIN);
    let d = Duration::from_nanoseconds(i64::MIN);
    assert_eq!(d.nanoseconds(), i64::MIN as i128);
}

#[test]
fn law_days_are_hours_over_24() {
    for s in [0i64, 1, 3_599, 3_600, 86_399, 86_400, 1_000_000, -1, -86_401, -7_000_000] {
        let d = Duration::from_seconds(s);
        assert_eq!(d.days(), d.hours() / 24);
        assert_eq!(d.weeks(), d.days() / 7);
    }
}

#[test]
fn time_from_seconds_round_trip() {
    for s in [0i64, 1, -1, 1_700_000_000, -62_135_596_800, 253_402_300_799] {
        assert_eq!(Time::from_seconds(s).seconds(), s);
    }
}

#[test]
fn time_seconds_round_down() {
    let t = Time::from_nanoseconds(-1);
    assert_eq!(t.seconds(), -1);
    let t = Time::from_millis(-1_500);
    assert_eq!(t.seconds(), -2);
    let t = Time::from_microseconds(1_999_999);
    assert_eq!(t.seconds(), 1);
    assert_eq!(t.nanoseconds(), 1_999_999_000);
}

#[test]
fn time_zero_is_epoch() {
    let z = Time::zero();
    assert_eq!(z.nanoseconds(), 0);
    assert_eq!(z.year(), 1970);
    assert!(z == Time::from_seconds(0));
}

#[test]
fn time_year_of_known_instants() {
    assert_eq!(Time::from_seconds(951_782_400).year(), 2000);
    assert_eq!(Time::from_seconds(-1).year(), 1969);
}

#[test]
fn time_now_is_after_2020() {
    let t = Time::now();
    assert!(t.seconds() > 1_577_836_800);
}

#[test]
fn time_arithmetic_with_durations() {
    let t = Time::from_seconds(100);
    let d = Duration::from_seconds(30);
    assert_eq!(t.add_duration(d).seconds(), 130);
    assert_eq!(t.sub_duration(d).seconds(), 70);
    assert_eq!(Time::from_nanoseconds(7).mul_duration(Duration::from_nanoseconds(6)).nanoseconds(), 42);
    assert_eq!(Time::from_nanoseconds(-7).div_duration(Duration::from_nanoseconds(2)).nanoseconds(), -3);
    assert_eq!(Time::from_nanoseconds(-7).div_floor(Duration::from_nanoseconds(2)).nanoseconds(), -4);
    assert!(Time::from_nanoseconds(5).eq_duration(&Duration::from_nanoseconds(5)));
    assert!(!Time::from_nanoseconds(5).eq_duration(&Duration::from_nanoseconds(6)));
    assert!(Time::from_seconds(1).is_before(&Time::from_seconds(2)));
    assert!(!Time::from_seconds(2).is_before(&Time::from_seconds(2)));
}

#[test]
fn time_earlier_by_keeps_offset_and_instant() {
    let t = Time::from_seconds(1_000);
    let w = t.earlier_by(Duration::from_seconds(10));
    assert_eq!(w.seconds(), 990);
}

#[test]
fn time_text_round_trip() {
    let format = String::from("[year]-[month]-[day] [hour]:[minute]:[second] [offset_hour sign:mandatory]:[offset_minute]");
    let t = Time::from_string(String::from("2021-03-04 05:06:07 +00:00"), format.clone());
    assert_eq!(t.seconds(), 1_614_834_367);
    assert_eq!(t.to_text(format), String::from("2021-03-04 05:06:07 +00:00"));
}

#[test]
fn time_text_keeps_offset() {
    let format = String::from("[year]-[month]-[day] [hour]:[minute]:[second] [offset_hour sign:mandatory]:[offset_minute]");
    let t = Time::from_string(String::from("2021-03-04 05:06:07 +02:00"), format.clone());
    assert_eq!(t.seconds(), 1_614_834_367 - 7_200);
    assert_eq!(t.to_text(format), String::from("2021-03-04 05:06:07 +02:00"));
    assert_eq!(t.year(), 2021);
}

#[test]
fn time_text_errors() {
    assert!(Time::try_from_string(String::from("not a date"), String::from("[year]")).is_none());
    assert!(Time::try_from_string(String::from("2021"), String::from("[nonsense")).is_none());
    assert!(Time::from_seconds(0).try_to_text(String::from("[bogus]")).is_none());
    assert_eq!(
        Time::from_seconds(0).try_to_text(String::from("[year]")),
        Some(String::from("1970"))
    );
}

#[test]
fn time_at_offset() {
    let t = Time::from_nanoseconds_at(0, 3_600).unwrap();
    assert_eq!(t.nanoseconds(), 0);
    assert_eq!(t.offset(), 3_600);
    assert_eq!(t.to_text(String::from("[hour]")), String::from("01"));
    assert!(Time::from_nanoseconds_at(0, 100_000).is_none());
    assert!(Time::from_nanoseconds_at(253_402_300_799_000_000_000, 60).is_none());
    assert!(Time::from_nanoseconds_at(253_402_300_799_000_000_000, -60).is_some());
}

#[test]
fn time_parses_and_formats_checks() {
    assert!(Time::parses(&String::from("1999"), &String::from("[year]")) == false);
    assert!(Time::from_seconds(0).formats(&String::from("[year]")));
    assert!(!Time::from_seconds(0).formats(&String::from("[year")));
}
