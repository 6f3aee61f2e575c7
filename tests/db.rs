use uptime_forge::{
    base_result, bucket_status, bucket_statuses_at, compute_bucket_statuses, endpoint_buckets,
    endpoint_id_from_name, event_record, BucketStatus, CheckType, Endpoint, Env, ErrorType,
    HttpMethod, TimeRange, UptimeEvent, NUM_BUCKETS,
};

const SECOND: i64 = 1_000_000;
const MINUTE: i64 = 60 * SECOND;
const HOUR: i64 = 60 * MINUTE;

fn now() -> i64 {
    chrono::Utc::now().timestamp_micros()
}

#[test]
fn endpoint_id_from_name_is_deterministic() {
    let id1 = endpoint_id_from_name("my-endpoint");
    let id2 = endpoint_id_from_name("my-endpoint");
    assert_eq!(id1, id2);
}

#[test]
fn endpoint_id_from_name_differs_for_different_names() {
    let id1 = endpoint_id_from_name("endpoint-a");
    let id2 = endpoint_id_from_name("endpoint-b");
    assert_ne!(id1, id2);
}

#[test]
fn endpoint_id_from_name_produces_valid_ulid_format() {
    let id = endpoint_id_from_name("test-endpoint");
    assert_eq!(id.len(), 26);
    assert!(id.chars().all(|c| c.is_ascii_alphanumeric()));
}

#[test]
fn endpoint_id_from_name_handles_special_characters() {
    let id1 = endpoint_id_from_name("endpoint-with-dashes");
    let id2 = endpoint_id_from_name("endpoint_with_underscores");
    let id3 = endpoint_id_from_name("endpoint.with.dots");
    let id4 = endpoint_id_from_name("");
    assert_eq!(id1.len(), 26);
    assert_eq!(id2.len(), 26);
    assert_eq!(id3.len(), 26);
    assert_eq!(id4.len(), 26);
}

#[test]
fn endpoint_id_from_name_is_case_sensitive() {
    let id_lower = endpoint_id_from_name("endpoint");
    let id_upper = endpoint_id_from_name("ENDPOINT");
    assert_ne!(id_lower, id_upper);
}

#[test]
fn endpoint_id_uses_crockford_digits() {
    let id = endpoint_id_from_name("my-endpoint");
    assert_ne!(id, "my-endpoint");
    assert!(id.chars().all(|c| "0123456789ABCDEFGHJKMNPQRSTVWXYZ".contains(c)));
    // 26 digits of five bits carry 130 bits: the leading digit holds the top three.
    assert!("01234567".contains(id.chars().next().unwrap()));
}

#[test]
fn time_range_from_str_parses_valid_values() {
    assert_eq!(TimeRange::from_str("30m"), TimeRange::Minutes30);
    assert_eq!(TimeRange::from_str("1h"), TimeRange::Hour1);
    assert_eq!(TimeRange::from_str("3h"), TimeRange::Hours3);
    assert_eq!(TimeRange::from_str("8h"), TimeRange::Hours8);
    assert_eq!(TimeRange::from_str("24h"), TimeRange::Hours24);
    assert_eq!(TimeRange::from_str("7d"), TimeRange::Days7);
    assert_eq!(TimeRange::from_str("30d"), TimeRange::Days30);
}

#[test]
fn time_range_from_str_defaults_to_hour1() {
    assert_eq!(TimeRange::from_str("invalid"), TimeRange::Hour1);
    assert_eq!(TimeRange::from_str(""), TimeRange::Hour1);
    assert_eq!(TimeRange::from_str("2h"), TimeRange::Hour1);
}

#[test]
fn time_range_as_str_round_trips() {
    for range in TimeRange::all().iter() {
        let s = range.as_str();
        let parsed = TimeRange::from_str(s);
        assert_eq!(*range, parsed, "Round trip failed for {range:?}");
    }
}

#[test]
fn time_range_as_str_returns_expected_values() {
    assert_eq!(TimeRange::Minutes30.as_str(), "30m");
    assert_eq!(TimeRange::Hour1.as_str(), "1h");
    assert_eq!(TimeRange::Hours3.as_str(), "3h");
    assert_eq!(TimeRange::Hours8.as_str(), "8h");
    assert_eq!(TimeRange::Hours24.as_str(), "24h");
    assert_eq!(TimeRange::Days7.as_str(), "7d");
    assert_eq!(TimeRange::Days30.as_str(), "30d");
}

#[test]
fn time_range_label_returns_human_readable() {
    assert_eq!(TimeRange::Minutes30.label(), "30 minutes");
    assert_eq!(TimeRange::Hour1.label(), "1 hour");
    assert_eq!(TimeRange::Hours3.label(), "3 hours");
    assert_eq!(TimeRange::Hours8.label(), "8 hours");
    assert_eq!(TimeRange::Hours24.label(), "24 hours");
    assert_eq!(TimeRange::Days7.label(), "7 days");
    assert_eq!(TimeRange::Days30.label(), "30 days");
}

#[test]
fn time_range_as_duration_returns_correct_values() {
    assert_eq!(TimeRange::Minutes30.as_seconds(), 30 * 60);
    assert_eq!(TimeRange::Hour1.as_seconds(), 3600);
    assert_eq!(TimeRange::Hours3.as_seconds(), 3 * 3600);
    assert_eq!(TimeRange::Hours8.as_seconds(), 8 * 3600);
    assert_eq!(TimeRange::Hours24.as_seconds(), 24 * 3600);
    assert_eq!(TimeRange::Days7.as_seconds(), 7 * 86400);
    assert_eq!(TimeRange::Days30.as_seconds(), 30 * 86400);
}

#[test]
fn time_range_all_returns_all_variants() {
    let all = TimeRange::all();
    assert_eq!(all.len(), 7);
    assert!(all.contains(&TimeRange::Minutes30));
    assert!(all.contains(&TimeRange::Hour1));
    assert!(all.contains(&TimeRange::Hours3));
    assert!(all.contains(&TimeRange::Hours8));
    assert!(all.contains(&TimeRange::Hours24));
    assert!(all.contains(&TimeRange::Days7));
    assert!(all.contains(&TimeRange::Days30));
}

#[test]
fn time_range_default_is_hour1() {
    assert_eq!(TimeRange::default(), TimeRange::Hour1);
}

#[test]
fn bucket_status_css_class_returns_correct_classes() {
    assert_eq!(BucketStatus::Green.css_class(), "bg-green-500");
    assert_eq!(BucketStatus::Yellow.css_class(), "bg-yellow-500");
    assert_eq!(BucketStatus::Red.css_class(), "bg-red-500");
    assert_eq!(BucketStatus::Gray.css_class(), "bg-gray-300");
}

#[test]
fn compute_bucket_statuses_returns_all_gray_for_empty_events() {
    let events: Vec<UptimeEvent> = vec![];
    let buckets = compute_bucket_statuses(&events, TimeRange::Hour1);
    assert_eq!(buckets.len(), NUM_BUCKETS);
    assert!(buckets.iter().all(|b| *b == BucketStatus::Gray));
}

#[test]
fn compute_bucket_statuses_returns_correct_bucket_count() {
    let events: Vec<UptimeEvent> = vec![];
    for range in TimeRange::all().iter() {
        let buckets = compute_bucket_statuses(&events, *range);
        assert_eq!(buckets.len(), NUM_BUCKETS, "Bucket count mismatch for {range:?}");
    }
}

#[test]
fn compute_bucket_statuses_green_for_all_success() {
    let now = now();
    let events = vec![
        UptimeEvent { ts: now - MINUTE, success: true },
        UptimeEvent { ts: now - 2 * MINUTE, success: true },
    ];
    let buckets = compute_bucket_statuses(&events, TimeRange::Hour1);
    assert_eq!(buckets[NUM_BUCKETS - 1], BucketStatus::Green);
}

#[test]
fn compute_bucket_statuses_red_for_all_failures() {
    let now = now();
    let events = vec![
        UptimeEvent { ts: now - MINUTE, success: false },
        UptimeEvent { ts: now - 2 * MINUTE, success: false },
    ];
    let buckets = compute_bucket_statuses(&events, TimeRange::Hour1);
    assert_eq!(buckets[NUM_BUCKETS - 1], BucketStatus::Red);
}

#[test]
fn compute_bucket_statuses_yellow_for_mixed_results() {
    let now = now();
    let events = vec![
        UptimeEvent { ts: now - 10 * SECOND, success: true },
        UptimeEvent { ts: now - 20 * SECOND, success: false },
    ];
    let buckets = compute_bucket_statuses(&events, TimeRange::Hour1);
    assert_eq!(buckets[NUM_BUCKETS - 1], BucketStatus::Yellow);
}

#[test]
fn compute_bucket_statuses_old_events_in_first_bucket() {
    let now = now();
    let events = vec![UptimeEvent { ts: now - 59 * MINUTE, success: true }];
    let buckets = compute_bucket_statuses(&events, TimeRange::Hour1);
    assert_eq!(buckets[0], BucketStatus::Green);
    assert!(buckets[NUM_BUCKETS - 1] == BucketStatus::Gray);
}

#[test]
fn compute_bucket_statuses_events_outside_range_ignored() {
    let now = now();
    let events = vec![UptimeEvent { ts: now - 2 * HOUR, success: true }];
    let buckets = compute_bucket_statuses(&events, TimeRange::Hour1);
    assert!(buckets.iter().all(|b| *b == BucketStatus::Gray));
}

#[test]
fn compute_bucket_statuses_single_event_determines_bucket() {
    let now = now();
    let success_event = vec![UptimeEvent { ts: now - 30 * SECOND, success: true }];
    let buckets = compute_bucket_statuses(&success_event, TimeRange::Hour1);
    assert_eq!(buckets[NUM_BUCKETS - 1], BucketStatus::Green);

    let failure_event = vec![UptimeEvent { ts: now - 30 * SECOND, success: false }];
    let buckets = compute_bucket_statuses(&failure_event, TimeRange::Hour1);
    assert_eq!(buckets[NUM_BUCKETS - 1], BucketStatus::Red);
}

#[test]
fn compute_bucket_statuses_multiple_buckets_with_events() {
    let now = now();
    let events = vec![
        UptimeEvent { ts: now - 30 * SECOND, success: true },
        UptimeEvent { ts: now - 15 * MINUTE, success: false },
        UptimeEvent { ts: now - 28 * MINUTE, success: true },
        UptimeEvent { ts: now - 28 * MINUTE + 10 * SECOND, success: false },
    ];
    let buckets = compute_bucket_statuses(&events, TimeRange::Minutes30);
    assert_eq!(buckets[NUM_BUCKETS - 1], BucketStatus::Green);
    let non_gray_count = buckets.iter().filter(|b| **b != BucketStatus::Gray).count();
    assert!(non_gray_count >= 2);
}

#[test]
fn compute_bucket_statuses_handles_many_events() {
    let now = now();
    let events: Vec<UptimeEvent> = (0..100)
        .map(|i| UptimeEvent { ts: now - i * 36 * SECOND, success: i % 2 == 0 })
        .collect();
    let buckets = compute_bucket_statuses(&events, TimeRange::Hour1);
    assert_eq!(buckets.len(), NUM_BUCKETS);
    let non_gray = buckets.iter().filter(|b| **b != BucketStatus::Gray).count();
    assert!(non_gray > 0);
}

#[test]
fn bucket_histogram_one_hour_single_old_success() {
    let now: i64 = 1_700_000_000 * SECOND;
    let events = vec![UptimeEvent { ts: now - 59 * MINUTE, success: true }];
    let buckets = bucket_statuses_at(&events, TimeRange::Hour1, now);
    assert_eq!(buckets[0], BucketStatus::Green);
    assert!(buckets[1..].iter().all(|b| *b == BucketStatus::Gray));
}

#[test]
fn bucket_windows_are_half_open() {
    let now: i64 = 1_700_000_000 * SECOND;
    // each bucket of a 30-minute range lasts one minute; bucket 0 starts at now - 30 minutes
    let start = now - 30 * MINUTE;
    let events = vec![
        UptimeEvent { ts: start, success: true },
        UptimeEvent { ts: start + MINUTE - 1, success: false },
        UptimeEvent { ts: start + MINUTE, success: false },
        UptimeEvent { ts: now, success: true },
        UptimeEvent { ts: start - 1, success: true },
    ];
    let buckets = bucket_statuses_at(&events, TimeRange::Minutes30, now);
    assert_eq!(buckets[0], BucketStatus::Yellow);
    assert_eq!(buckets[1], BucketStatus::Red);
    assert!(buckets[2..].iter().all(|b| *b == BucketStatus::Gray));
}

#[test]
fn every_range_gives_thirty_buckets_per_endpoint() {
    let now: i64 = 1_700_000_000 * SECOND;
    let history = vec![
        ("a".to_string(), vec![UptimeEvent { ts: now - SECOND, success: true }]),
        ("b".to_string(), Vec::new()),
    ];
    for range in TimeRange::all() {
        let all = endpoint_buckets(&history, range, now);
        assert_eq!(all.len(), 2);
        assert_eq!(all[0].0, "a");
        assert_eq!(all[1].0, "b");
        assert!(all.iter().all(|(_, b)| b.len() == NUM_BUCKETS));
        assert_eq!(all[0].1[NUM_BUCKETS - 1], BucketStatus::Green);
        assert!(all[1].1.iter().all(|b| *b == BucketStatus::Gray));
    }
}

#[test]
fn bucket_classification_by_counts() {
    assert_eq!(bucket_status(0, 0), BucketStatus::Gray);
    assert_eq!(bucket_status(3, 3), BucketStatus::Green);
    assert_eq!(bucket_status(3, 0), BucketStatus::Red);
    assert_eq!(bucket_status(3, 1), BucketStatus::Yellow);
    assert_eq!(bucket_status(1, 1), BucketStatus::Green);
}

#[test]
fn event_record_copies_outcome_columns() {
    let endpoint = Endpoint {
        addr: "https://example.com".to_string(),
        check_type: CheckType::Http,
        description: None,
        group: None,
        tags: vec![],
        interval: 60,
        timeout: 10,
        expected_status: 200,
        skip_tls_verification: false,
        method: HttpMethod::Get,
        headers: Vec::new(),
        body: None,
        retries: 0,
        retry_delay: 5,
        alert_after_failures: 3,
        alert_channels: vec![],
        expected_records: vec![],
    };
    let mut result = base_result("api", &endpoint, &Env::new());
    result.status_code = Some(503);
    result.response_time_ms = Some(u64::MAX);
    result.error = Some("expected status 200, got 503".to_string());
    result.error_type = Some(ErrorType::StatusMismatch);
    let record = event_record(&result);
    assert_eq!(record.endpoint_id, endpoint_id_from_name("api"));
    assert_eq!(record.status_code, Some(503));
    assert!(!record.success);
    assert_eq!(record.latency_ms, Some(i32::MAX));
    assert_eq!(record.error_type, Some("status_mismatch"));
    assert_eq!(record.error_message.as_deref(), Some("expected status 200, got 503"));

    result.response_time_ms = Some(42);
    assert_eq!(event_record(&result).latency_ms, Some(42));
}
