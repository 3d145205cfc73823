use chrono::Datelike;
use chrono::Timelike;
use dentcloud::data::decode_data;
use dentcloud::data::normalize_topic;
use dentcloud::data::Key;
use dentcloud::meters::decode_meters;
use dentcloud::meters::Meters;
use dentcloud::timestamp::Timestamp;
use dentcloud::topics::decode_topics;
use dentcloud::Error;

fn pair(k: &str, v: &str) -> (String, String) {
    (k.to_string(), v.to_string())
}

#[test]
fn meters_success_body_decodes() {
    let r = decode_meters(r#"{"success":true,"meters":["P1","P2"]}"#);
    assert_eq!(
        r,
        Ok(Meters { success: true, meters: vec!["P1".to_string(), "P2".to_string()] })
    );
}

#[test]
fn meters_error_envelope_becomes_api_error() {
    let r = decode_meters(r#"{"success":false,"error":"bad key"}"#);
    assert_eq!(r, Err(Error::Api("bad key".to_string())));
    assert_eq!(r.unwrap_err().message().as_str(), "bad key");
}

#[test]
fn meters_garbage_body_is_a_parsing_error() {
    let r = decode_meters(r#"{"garbage":1}"#);
    assert!(matches!(r, Err(Error::Serialization(_))));
}

#[test]
fn meters_invalid_json_is_a_parsing_error() {
    let r = decode_meters("{not json");
    assert!(matches!(r, Err(Error::Serialization(_))));
}

#[test]
fn meters_extra_fields_are_ignored() {
    let r = decode_meters(r#"{"success":true,"meters":[],"spare":null}"#);
    assert_eq!(r, Ok(Meters { success: true, meters: vec![] }));
}

#[test]
fn topics_catalog_decodes() {
    let body = r#"{
        "success": true,
        "topics": [
            {"unit": "kWh", "requestKey": "kWHNet", "description": "Net Kilowatt Hours."},
            {"unit": "A", "requestKey": "A", "description": "Current. Amperes."}
        ]
    }"#;
    let r = decode_topics(body).unwrap();
    assert!(r.success);
    assert_eq!(r.topics.len(), 2);
    assert_eq!(r.topics[0].unit, "kWh");
    assert_eq!(r.topics[0].request_key, "kWHNet");
    assert_eq!(r.topics[1].description, "Current. Amperes.");
}

#[test]
fn topics_error_envelope_becomes_api_error() {
    let r = decode_topics(r#"{"success":false,"error":"denied"}"#);
    assert_eq!(r, Err(Error::Api("denied".to_string())));
}

#[test]
fn topics_wrong_item_shape_is_a_parsing_error() {
    let r = decode_topics(r#"{"success":true,"topics":[{"unit":"A"}]}"#);
    assert!(matches!(r, Err(Error::Serialization(_))));
}

#[test]
fn data_end_to_end_routes_and_drops() {
    let body = r#"{
        "headers": ["date", "time", "A/Ch/1", "kWHNet/Elm/2"],
        "topics": [
            {"date": "2024-01-01", "time": "08:00", "A/Ch/1": "3.5", "kWHNet/Elm/2": "not_a_number"}
        ]
    }"#;
    let d = decode_data(body).unwrap();
    assert_eq!(
        d.headers,
        vec![
            Key::AmpChannels("1".to_string()),
            Key::KilowattHoursNetElement("2".to_string()),
        ]
    );
    assert_eq!(d.topics.len(), 1);
    let t = &d.topics[0];
    assert_eq!(t.time, Timestamp { year: 2024, month: 1, day: 1, hour: 8, minute: 0 });
    assert_eq!(t.amps_channels, vec![pair("1", "3.5")]);
    assert_eq!(t.kilowatt_hours_net_elements, vec![]);
    assert_eq!(t.demand_kilowatt_elements, vec![]);
    assert_eq!(t.displacement_power_factor.channels, vec![]);
    assert_eq!(t.displacement_power_factor.elements, vec![]);
}

#[test]
fn data_undecodable_header_is_a_schema_error() {
    let body = r#"{"headers":["date","time","V/Ch/1"],"topics":[]}"#;
    assert!(matches!(decode_data(body), Err(Error::Schema(_))));
}

#[test]
fn data_bad_timestamp_is_a_schema_error() {
    let body = r#"{"headers":[],"topics":[{"date":"2024-02-30","time":"08:00"}]}"#;
    assert!(matches!(decode_data(body), Err(Error::Schema(_))));
}

#[test]
fn data_numeric_field_with_bad_name_is_a_schema_error() {
    let body =
        r#"{"headers":[],"topics":[{"date":"2024-01-01","time":"08:00","V/Ch/1":"1.0"}]}"#;
    assert!(matches!(decode_data(body), Err(Error::Schema(_))));
}

#[test]
fn data_non_string_field_value_is_a_parsing_error() {
    let body = r#"{"headers":[],"topics":[{"date":"2024-01-01","time":"08:00","A/Ch/1":3.5}]}"#;
    assert!(matches!(decode_data(body), Err(Error::Serialization(_))));
}

#[test]
fn data_error_envelope_becomes_api_error() {
    let r = decode_data(r#"{"success":false,"error":"nope"}"#);
    assert_eq!(r, Err(Error::Api("nope".to_string())));
}

#[test]
fn normalizer_parses_stamp_and_routes_fields() {
    let fields = vec![
        pair("A/Ch/1", "3.5"),
        pair("dPF/Elm/2", "0.98"),
        pair("dPF/Ch/2", "0.97"),
        pair("DemandkW/Elm/4", "12"),
        pair("kWHNet/Elm/2", "x"),
    ];
    let t = normalize_topic("2024-01-01", "08:00", &fields).unwrap();
    assert_eq!(t.time, Timestamp { year: 2024, month: 1, day: 1, hour: 8, minute: 0 });
    assert_eq!(t.amps_channels, vec![pair("1", "3.5")]);
    assert_eq!(t.displacement_power_factor.elements, vec![pair("2", "0.98")]);
    assert_eq!(t.displacement_power_factor.channels, vec![pair("2", "0.97")]);
    assert_eq!(t.demand_kilowatt_elements, vec![pair("4", "12")]);
    assert_eq!(t.kilowatt_hours_net_elements, vec![]);
}

#[test]
fn normalizer_stamp_agrees_with_the_date_library() {
    let t = normalize_topic("1999-12-31", "23:59", &vec![]).unwrap();
    let dt =
        chrono::NaiveDateTime::parse_from_str("1999-12-31 23:59", "%Y-%m-%d %H:%M").unwrap();
    assert_eq!(t.time.year, dt.year());
    assert_eq!(t.time.month as u32, dt.month());
    assert_eq!(t.time.day as u32, dt.day());
    assert_eq!(t.time.hour as u32, dt.hour());
    assert_eq!(t.time.minute as u32, dt.minute());
}

#[test]
fn normalizer_last_value_wins_on_duplicate_identifier() {
    let fields = vec![pair("A/Ch/1", "1.0"), pair("A/Ch/1", "2.0")];
    let t = normalize_topic("2024-01-01", "08:00", &fields).unwrap();
    assert_eq!(t.amps_channels, vec![pair("1", "2.0")]);
}

#[test]
fn normalizer_drops_non_numeric_values_before_decoding_names() {
    let fields = vec![pair("V/Ch/1", "offline")];
    let t = normalize_topic("2024-01-01", "08:00", &fields).unwrap();
    assert_eq!(t.amps_channels, vec![]);
    assert_eq!(t.kilowatt_hours_net_elements, vec![]);
}

#[test]
fn normalizer_rejects_numeric_field_with_undecodable_name() {
    let fields = vec![pair("V/Ch/1", "1.0")];
    assert!(matches!(
        normalize_topic("2024-01-01", "08:00", &fields),
        Err(Error::Schema(_))
    ));
}

#[test]
fn normalizer_rejects_bad_timestamp() {
    assert!(matches!(
        normalize_topic("2024-13-01", "08:00", &vec![]),
        Err(Error::Schema(_))
    ));
    assert!(matches!(
        normalize_topic("2024-01-01", "24:00", &vec![]),
        Err(Error::Schema(_))
    ));
}
