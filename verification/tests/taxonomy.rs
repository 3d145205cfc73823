use dentcloud::data::raw_key_to_key;
use dentcloud::data::Key;
use dentcloud::numtext::is_float_literal;

#[test]
fn decodes_amp_channel() {
    let k = raw_key_to_key("A/Ch/1".to_string());
    assert_eq!(k, Some(Key::AmpChannels("1".to_string())));
}

#[test]
fn decodes_kilowatt_hours_net_element() {
    let k = raw_key_to_key("kWHNet/Elm/3".to_string());
    assert_eq!(k, Some(Key::KilowattHoursNetElement("3".to_string())));
}

#[test]
fn decodes_demand_kilowatt_element() {
    let k = raw_key_to_key("DemandkW/Elm/2".to_string());
    assert_eq!(k, Some(Key::DemandKilowattElements("2".to_string())));
}

#[test]
fn decodes_displacement_power_factor_channel() {
    let k = raw_key_to_key("dPF/Ch/7".to_string());
    assert_eq!(k, Some(Key::DisplacementPowerFactorChannel("7".to_string())));
}

#[test]
fn decodes_displacement_power_factor_element() {
    let k = raw_key_to_key("dPF/Elm/12".to_string());
    assert_eq!(k, Some(Key::DisplacementPowerFactorElement("12".to_string())));
}

#[test]
fn preserves_identifier_text() {
    let k = raw_key_to_key("A/Ch/left-main".to_string());
    assert_eq!(k, Some(Key::AmpChannels("left-main".to_string())));
}

#[test]
fn rejects_unlisted_category_pairs() {
    assert_eq!(raw_key_to_key("V/Ch/1".to_string()), None);
    assert_eq!(raw_key_to_key("A/Elm/1".to_string()), None);
    assert_eq!(raw_key_to_key("kWHNet/Ch/1".to_string()), None);
    assert_eq!(raw_key_to_key("DemandkW/Ch/1".to_string()), None);
    assert_eq!(raw_key_to_key("a/ch/1".to_string()), None);
}

#[test]
fn rejects_short_names() {
    assert_eq!(raw_key_to_key("".to_string()), None);
    assert_eq!(raw_key_to_key("A".to_string()), None);
    assert_eq!(raw_key_to_key("A/Ch".to_string()), None);
    assert_eq!(raw_key_to_key("A/Ch/".to_string()), Some(Key::AmpChannels("".to_string())));
}

#[test]
fn extra_segments_keep_third_as_identifier() {
    let k = raw_key_to_key("A/Ch/1/9".to_string());
    assert_eq!(k, Some(Key::AmpChannels("1".to_string())));
}

#[test]
fn float_text_agrees_with_float_parsing() {
    let samples = [
        "3.5", "-0.", ".5", "1e9", "1E-9", "+4", "007", "2.5e+10", "inf", "INFINITY", "nan",
        "NaN", "+inf", "-Infinity", "not_a_number", "", ".", "e5", "1e", "--5", "5.5.5", "0x1A",
        " 3.5", "3.5 ", "1_000", "1.e3", "+.e2", "-", "+", "1e+", "infx",
    ];
    for s in samples {
        assert_eq!(
            is_float_literal(s),
            s.parse::<f32>().is_ok(),
            "disagreement on {:?}",
            s
        );
    }
}
