use dentcloud::data::data_query;
use dentcloud::data::render_topics;
use dentcloud::data::Parameters;
use dentcloud::meters::meters_query;
use dentcloud::topics::topics_query;
use dentcloud::Session;

fn pair(k: &str, v: &str) -> (String, String) {
    (k.to_string(), v.to_string())
}

#[test]
fn has_required_keys() {
    let session = Session::new("SECRET-REDACTED".to_string(), "key-1".to_string());
    assert_eq!(session.api_key().as_str(), "SECRET-REDACTED");
    assert_eq!(session.key_id().as_str(), "key-1");
}

#[test]
fn fixed_transport_constants() {
    assert_eq!(dentcloud::BASE_URL, "https://api.dentcloud.io/v1");
    assert_eq!(dentcloud::API_HEADER, "x-api-key");
    assert_eq!(dentcloud::KEY_HEADER, "x-key-id");
    assert_eq!(dentcloud::RATELIMIT_PER_SECOND, 5);
    assert_eq!(dentcloud::RATELIMIT_BURST, 5);
}

#[test]
fn meters_query_is_get_meters() {
    assert_eq!(meters_query(), vec![pair("request", "getMeters")]);
}

#[test]
fn topics_query_is_get_topics() {
    assert_eq!(topics_query(), vec![pair("request", "getTopics")]);
}

#[test]
fn topics_render_round_trip() {
    let topics = vec!["kWHNet".to_string(), "A".to_string()];
    assert_eq!(render_topics(&topics), "[ kWHNet, A ]");
}

#[test]
fn topics_render_edges() {
    assert_eq!(render_topics(&vec!["A".to_string()]), "[ A ]");
    assert_eq!(render_topics(&vec![]), "[  ]");
}

#[test]
fn data_query_full_parameter_list() {
    let params = Parameters {
        year: 2024,
        month: 1,
        day: Some(5),
        hour: Some(23),
        topics: vec!["kWHNet".to_string(), "A".to_string()],
        meter: "P482311252".to_string(),
    };
    assert_eq!(
        data_query(&params),
        vec![
            pair("request", "getData"),
            pair("year", "2024"),
            pair("month", "1"),
            pair("topics", "[ kWHNet, A ]"),
            pair("meter", "P482311252"),
            pair("day", "5"),
            pair("hour", "23"),
        ]
    );
}

#[test]
fn data_query_without_day_and_hour() {
    let params = Parameters {
        year: 2030,
        month: 12,
        day: None,
        hour: None,
        topics: vec!["dPF".to_string()],
        meter: "M".to_string(),
    };
    assert_eq!(
        data_query(&params),
        vec![
            pair("request", "getData"),
            pair("year", "2030"),
            pair("month", "12"),
            pair("topics", "[ dPF ]"),
            pair("meter", "M"),
        ]
    );
}

#[test]
fn rate_limiter_delays_but_never_drops() {
    let per_second = std::num::NonZeroU32::new(dentcloud::RATELIMIT_PER_SECOND).unwrap();
    let burst = std::num::NonZeroU32::new(dentcloud::RATELIMIT_BURST).unwrap();
    let quota = governor::Quota::per_second(per_second).allow_burst(burst);
    let limiter = governor::RateLimiter::direct(quota);

    let start = std::time::Instant::now();
    for call in 0..5 {
        assert!(limiter.check().is_ok(), "call {} should be admitted at once", call);
    }
    // The burst is spent: the sixth call is delayed, never dropped.
    assert!(limiter.check().is_err());
    loop {
        if limiter.check().is_ok() {
            break;
        }
        assert!(
            start.elapsed() < std::time::Duration::from_secs(5),
            "sixth call was never admitted"
        );
    }
    let waited = start.elapsed();
    assert!(waited >= std::time::Duration::from_millis(100));
    assert!(waited < std::time::Duration::from_secs(2));
}
