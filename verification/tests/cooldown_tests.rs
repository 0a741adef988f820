use feed_notifier::domain_types::FeedData;

const MINUTE: i64 = 60;
const T0: i64 = 1_700_000_000;

fn scope(last: Option<i64>, cooldown: u64) -> FeedData {
    FeedData { user_id: 1, category_id: None, last_item_sent: last, cooldown }
}

#[test]
fn never_evaluated_scope_takes_any_item() {
    let s = FeedData::new(1, None, 3600);
    assert_eq!(s.last_item_sent, None);
    assert!(s.eligible(i64::MIN, i64::MIN));
    assert!(s.eligible(0, 0));
    assert!(s.eligible(T0, T0 - 1));
}

#[test]
fn seeded_scope_starts_at_now() {
    let s = FeedData::seeded(7, Some(2), 60, T0);
    assert_eq!(s, FeedData { user_id: 7, category_id: Some(2), last_item_sent: Some(T0), cooldown: 60 });
}

#[test]
fn item_must_be_newer_than_the_last_sent() {
    let s = scope(Some(T0), 0);
    assert!(!s.eligible(T0 - 1, T0 + 10 * MINUTE));
    assert!(!s.eligible(T0, T0 + 10 * MINUTE));
    assert!(s.eligible(T0 + 1, T0 + 10 * MINUTE));
}

#[test]
fn cooldown_must_have_passed_and_the_boundary_counts() {
    let s = scope(Some(T0), 60);
    assert!(!s.eligible(T0 + 1, T0 + 59));
    assert!(s.eligible(T0 + 1, T0 + 60));
    assert!(s.eligible(T0 + 1, T0 + 61));
}

#[test]
fn both_conditions_are_required() {
    let s = scope(Some(T0), 60);
    assert!(!s.eligible(T0 - 1, T0 + 3600));
    assert!(!s.eligible(T0 + 30, T0 + 30));
    assert!(s.eligible(T0 + 30, T0 + 60));
}

#[test]
fn eligibility_does_not_overflow_at_the_ends_of_time() {
    let s = scope(Some(i64::MIN), u64::MAX);
    assert!(s.eligible(i64::MAX, i64::MAX));
    let s = scope(Some(i64::MIN), u64::MAX);
    assert!(!s.eligible(i64::MAX, i64::MAX - 1));
    let s = scope(Some(i64::MAX), 0);
    assert!(!s.eligible(i64::MAX, i64::MIN));
    let s = scope(Some(i64::MAX), 1);
    assert!(!s.eligible(i64::MAX, i64::MAX));
}

#[test]
fn record_delivery_takes_the_later_timestamp() {
    let mut s = scope(None, 60);
    s.record_delivery(T0);
    assert_eq!(s.last_item_sent, Some(T0));
    s.record_delivery(T0 + 5);
    assert_eq!(s.last_item_sent, Some(T0 + 5));
    s.record_delivery(T0 - 100);
    assert_eq!(s.last_item_sent, Some(T0 + 5));
    assert_eq!(s.user_id, 1);
    assert_eq!(s.category_id, None);
    assert_eq!(s.cooldown, 60);
}

#[test]
fn last_item_sent_never_decreases_over_out_of_order_deliveries() {
    let mut s = scope(Some(T0), 60);
    let mut previous = s.last_item_sent.unwrap();
    for ts in [T0 + 3, T0 - 7, T0 + 1, T0 + 3, i64::MIN, T0 + 9, 0, i64::MAX, T0] {
        s.record_delivery(ts);
        let current = s.last_item_sent.unwrap();
        assert!(current >= previous);
        assert!(current >= ts);
        previous = current;
    }
    assert_eq!(previous, i64::MAX);
}

#[test]
fn delivered_item_is_never_eligible_again() {
    let mut s = scope(Some(T0), 60);
    assert!(s.eligible(T0 + 90, T0 + 120));
    s.record_delivery(T0 + 90);
    for now in [T0 + 120, T0 + 150, T0 + 86_400, i64::MAX] {
        assert!(!s.eligible(T0 + 90, now));
        assert!(!s.eligible(T0 + 89, now));
    }
    s.record_delivery(T0 + 10);
    assert!(!s.eligible(T0 + 90, i64::MAX));
    s.record_delivery(T0 + 500);
    assert!(!s.eligible(T0 + 90, i64::MAX));
}

#[test]
fn nothing_published_before_subscription_is_ever_eligible() {
    let mut s = FeedData::seeded(1, None, 0, T0);
    for now in [T0, T0 + 1, T0 + 86_400, i64::MAX] {
        assert!(!s.eligible(T0 - 1, now));
        assert!(!s.eligible(T0 - 10 * MINUTE, now));
        assert!(!s.eligible(i64::MIN, now));
    }
    s.record_delivery(T0 - 5);
    assert_eq!(s.last_item_sent, Some(T0));
    assert!(!s.eligible(T0 - 1, i64::MAX));
    assert!(s.eligible(T0 + 1, T0 + 1));
}
