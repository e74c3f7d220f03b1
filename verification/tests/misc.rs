use arc_lang::generator::category_events;
use arc_lang::generator::progress_percent;
use arc_lang::matrix::Index;

#[test]
fn index_counts_positions() {
    assert_eq!(Index::Range(2, 5).count(), 3);
    assert_eq!(Index::Range(5, 2).count(), 0);
    assert_eq!(Index::Index(7).count(), 1);
}

#[test]
fn generator_splits_events_by_proportion() {
    let divisor = 46 + 3 + 1;
    assert_eq!(category_events(100_000_000, 1, divisor), 2_000_000);
    assert_eq!(category_events(100_000_000, 3, divisor), 6_000_000);
    assert_eq!(category_events(100_000_000, 46, divisor), 92_000_000);
    assert_eq!(category_events(7, 1, 3), 2);
}

#[test]
fn generator_reports_every_hundredth() {
    assert_eq!(progress_percent(0, 1000), Some(1));
    assert_eq!(progress_percent(5, 1000), None);
    assert_eq!(progress_percent(10, 1000), Some(2));
    assert_eq!(progress_percent(990, 1000), Some(100));
    assert_eq!(progress_percent(149, 150), Some(150));
}
