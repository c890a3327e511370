use intent_database::clock::epoch_offset_micros;

#[test]
fn epoch_offsets_in_microseconds() {
    assert_eq!(epoch_offset_micros(false, 0, 0), 0);
    assert_eq!(epoch_offset_micros(false, 1_700_000_000, 123_456), 1_700_000_000_123_456);
    assert_eq!(epoch_offset_micros(true, 2, 500_000), -2_500_000);
    assert_eq!(epoch_offset_micros(true, 0, 0), 0);
}

#[test]
fn epoch_offsets_saturate() {
    assert_eq!(epoch_offset_micros(false, u64::MAX, 999_999), i64::MAX);
    assert_eq!(epoch_offset_micros(true, u64::MAX, 999_999), i64::MIN);
    // 9_223_372_036_854 s and 775_807 µs is i64::MAX exactly
    assert_eq!(epoch_offset_micros(false, 9_223_372_036_854, 775_807), i64::MAX);
    assert_eq!(epoch_offset_micros(false, 9_223_372_036_854, 775_808), i64::MAX);
    assert_eq!(epoch_offset_micros(true, 9_223_372_036_854, 775_808), i64::MIN);
    assert_eq!(epoch_offset_micros(true, 9_223_372_036_854, 775_807), -i64::MAX);
}

#[test]
fn clock_reads_after_the_epoch() {
    let c = intent_database::Conversation::new(
        "c".to_string(),
        intent_database::Intent::new("p".to_string()),
        intent_database::Sentiment::Neutral,
    );
    assert!(c.created_at > 1_600_000_000_000_000);
}
