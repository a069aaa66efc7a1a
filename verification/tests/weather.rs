use weather_report::decode::build_reading;
use weather_report::decode::decode_fields;
use weather_report::decode::RawCurrent;
use weather_report::errors::OperationError;
use weather_report::pipeline::summarize;
use weather_report::report::format_report;
use weather_report::report::ConditionText;
use weather_report::report::WeatherReading;
use weather_report::request::build_url;
use weather_report::temperature::parse_temperature;
use weather_report::temperature::render_temperature;
use weather_report::temperature::Temperature;

fn temp(s: &str) -> Temperature {
    parse_temperature(s).expect("temperature text should parse")
}

fn reading(t: &str, f: &str, condition: &str) -> WeatherReading {
    WeatherReading {
        temperature_celsius: temp(t),
        feels_like_celsius: temp(f),
        condition: ConditionText { text: condition.to_string() },
    }
}

#[test]
fn url_is_template_with_location_verbatim() {
    assert_eq!(
        build_url("YOUR_API_KEY", "London"),
        "http://api.weatherapi.com/v1/current.json?key=YOUR_API_KEY&q=London"
    );
}

#[test]
fn url_keeps_trailing_newline_and_spaces() {
    assert_eq!(
        build_url("k", "New York\n"),
        "http://api.weatherapi.com/v1/current.json?key=k&q=New York\n"
    );
}

#[test]
fn report_without_warning_is_exact() {
    let r = reading("20", "20", "Sunny");
    assert_eq!(
        format_report("London", &r),
        "The current temperature in London is 20\u{b0}C and the weather is sunny."
    );
}

#[test]
fn report_appends_warning_above_threshold() {
    let r = reading("20", "14", "Sunny");
    assert_eq!(
        format_report("London", &r),
        "The current temperature in London is 20\u{b0}C and the weather is sunny. \
         But be warned that it feels more like 14."
    );
}

#[test]
fn warning_boundary_five_degrees_is_inclusive() {
    let r = reading("20", "15", "Sunny");
    let msg = format_report("London", &r);
    assert!(msg.ends_with(" But be warned that it feels more like 15."));
}

#[test]
fn no_warning_just_below_threshold() {
    let r = reading("20", "15.5", "Sunny");
    let msg = format_report("London", &r);
    assert!(msg.ends_with("sunny."));
    assert!(!msg.contains("But be warned"));
}

#[test]
fn warning_uses_absolute_difference() {
    let r = reading("14", "20", "Sunny");
    let msg = format_report("London", &r);
    assert!(msg.ends_with(" But be warned that it feels more like 20."));
}

#[test]
fn condition_is_lowercased_in_primary_sentence() {
    let r = reading("20", "20", "PARTLY CLOUDY");
    let msg = format_report("Oslo", &r);
    assert!(msg.contains("the weather is partly cloudy."));
    assert!(!msg.contains("PARTLY"));
}

#[test]
fn temperatures_render_verbatim() {
    assert_eq!(render_temperature(&temp("20")), "20");
    assert_eq!(render_temperature(&temp("20.5")), "20.5");
    assert_eq!(render_temperature(&temp("-3.25")), "-3.25");
    assert_eq!(render_temperature(&temp("0.05")), "0.05");
    assert_eq!(render_temperature(&temp("7.10")), "7.10");
    assert_eq!(render_temperature(&temp("007")), "007");
    assert_eq!(render_temperature(&temp("-0")), "-0");
    assert_eq!(render_temperature(&temp("20.12345")), "20.12345");
    assert_eq!(render_temperature(&temp("10000000000000000")), "10000000000000000");
}

#[test]
fn malformed_temperature_texts_are_rejected() {
    assert!(parse_temperature("").is_none());
    assert!(parse_temperature("-").is_none());
    assert!(parse_temperature("20.").is_none());
    assert!(parse_temperature(".5").is_none());
    assert!(parse_temperature("1e3").is_none());
    assert!(parse_temperature("12a").is_none());
    assert!(parse_temperature("1 2").is_none());
    assert!(parse_temperature("2-3").is_none());
}

#[test]
fn warning_threshold_is_exact_at_any_precision() {
    let warned = |t: &str, f: &str| -> bool {
        format_report("X", &reading(t, f, "Sunny")).contains("But be warned")
    };
    assert!(warned("20.0001", "15.0001"));
    assert!(!warned("20.0001", "15.0002"));
    assert!(warned("0.0001", "-4.9999"));
    assert!(!warned("0.0001", "-4.9998"));
    assert!(warned("2.5", "-2.5"));
    assert!(!warned("2.5", "-2.4999999999"));
    assert!(warned("10000000000000000", "9999999999999995"));
    assert!(!warned("10000000000000000", "9999999999999996"));
}

#[test]
fn build_reading_reports_first_bad_field() {
    let r = build_reading(None, Some("20".to_string()), Some("Sunny".to_string()));
    match r {
        Err(OperationError::Decode(m)) => {
            assert_eq!(m, "missing or malformed field `current.temp_c`");
        }
        _ => panic!("expected a decode failure"),
    }
    let r = build_reading(Some("20".to_string()), Some("nope".to_string()), None);
    match r {
        Err(OperationError::Decode(m)) => {
            assert_eq!(m, "missing or malformed field `current.feelslike_c`");
        }
        _ => panic!("expected a decode failure"),
    }
    let r = build_reading(Some("20".to_string()), Some("20".to_string()), None);
    match r {
        Err(OperationError::Decode(m)) => {
            assert_eq!(m, "missing or malformed field `current.condition.text`");
        }
        _ => panic!("expected a decode failure"),
    }
}

#[test]
fn pipeline_full_success() {
    let body = "{\"current\":{\"temp_c\":20.0,\"feelslike_c\":14.0,\
                 \"condition\":{\"text\":\"Sunny\"}}}";
    let r = summarize("Paris\n", Ok(body.to_string()));
    assert_eq!(
        r.unwrap(),
        "The current temperature in Paris\n is 20\u{b0}C and the weather is sunny. \
         But be warned that it feels more like 14."
    );
}

#[test]
fn pipeline_accepts_integer_json_numbers() {
    let body = "{\"current\":{\"temp_c\":21,\"feelslike_c\":21,\
                 \"condition\":{\"text\":\"Clear\"}}}";
    let r = summarize("Rome", Ok(body.to_string()));
    assert_eq!(
        r.unwrap(),
        "The current temperature in Rome is 21\u{b0}C and the weather is clear."
    );
}

#[test]
fn precise_and_signed_zero_fields_are_reported_verbatim() {
    let body = "{\"current\":{\"temp_c\":20.12345,\"feelslike_c\":-0.0,\
                 \"condition\":{\"text\":\"Snow\"}}}";
    let r = summarize("Oslo", Ok(body.to_string()));
    assert_eq!(
        r.unwrap(),
        "The current temperature in Oslo is 20.12345\u{b0}C and the weather is snow. \
         But be warned that it feels more like -0."
    );
}

#[test]
fn large_fields_are_reported_verbatim() {
    let body = "{\"current\":{\"temp_c\":1e16,\"feelslike_c\":1e16,\
                 \"condition\":{\"text\":\"Clear\"}}}";
    let r = summarize("Nowhere", Ok(body.to_string()));
    assert_eq!(
        r.unwrap(),
        "The current temperature in Nowhere is 10000000000000000\u{b0}C \
         and the weather is clear."
    );
}

#[test]
fn missing_current_is_a_decode_failure() {
    let body = "{\"location\":{\"name\":\"London\"}}";
    let r = summarize("London", Ok(body.to_string()));
    match r {
        Err(OperationError::Decode(m)) => assert_eq!(m, "missing field `current`"),
        _ => panic!("expected a decode failure"),
    }
}

#[test]
fn decode_fields_reports_absent_current_object() {
    let raw = RawCurrent {
        current_present: false,
        temp_text: None,
        feels_text: None,
        condition_text: None,
    };
    match decode_fields(raw) {
        Err(OperationError::Decode(m)) => assert_eq!(m, "missing field `current`"),
        _ => panic!("expected a decode failure"),
    }
    let raw = RawCurrent {
        current_present: true,
        temp_text: Some("20".to_string()),
        feels_text: Some("18.5".to_string()),
        condition_text: Some("Mist".to_string()),
    };
    let w = decode_fields(raw).expect("fields should decode");
    assert_eq!(format_report("Hull", &w), "The current temperature in Hull is 20\u{b0}C and the weather is mist.");
}

#[test]
fn wrongly_typed_field_is_a_decode_failure() {
    let body = "{\"current\":{\"temp_c\":\"20\",\"feelslike_c\":14.0,\
                 \"condition\":{\"text\":\"Sunny\"}}}";
    let r = summarize("London", Ok(body.to_string()));
    match r {
        Err(OperationError::Decode(m)) => {
            assert_eq!(m, "missing or malformed field `current.temp_c`");
        }
        _ => panic!("expected a decode failure"),
    }
}

#[test]
fn transport_failure_is_passed_through() {
    let r = summarize("London", Err("connection refused".to_string()));
    match r {
        Err(OperationError::Transport(m)) => assert_eq!(m, "connection refused"),
        _ => panic!("expected a transport failure"),
    }
}

#[test]
fn unparseable_body_is_a_transport_failure() {
    let r = summarize("London", Ok("not json at all".to_string()));
    assert!(matches!(r, Err(OperationError::Transport(_))));
}

#[test]
fn error_message_delegates_to_underlying_failure() {
    let e = OperationError::Transport("dns error".to_string());
    assert_eq!(e.message(), "dns error");
    let e = OperationError::Decode("missing field `current`".to_string());
    assert_eq!(e.message(), "missing field `current`");
}
