use telemetry_middleware::errors::MiddlewareError;
use telemetry_middleware::telemetry_store::{TelemetryData, TelemetryStore};
use telemetry_middleware::telemetry_stores::TelemetryStores;
use telemetry_middleware::bool_token::{bool_from_int, parse_bool_token};
use telemetry_middleware::value::TelemetryValue;

fn real_value(v: f64) -> TelemetryValue {
    TelemetryValue::Real(format!("{}", v))
}

#[test]
fn test_dynamic_telemetry() {
    let mut store = TelemetryStore::new();

    let mut data1 = TelemetryData::new();
    data1.set_field("altitude".to_string(), real_value(1000.0));
    data1.set_field("velocity".to_string(), real_value(50.0));

    let mut data2 = TelemetryData::new();
    data2.set_field("altitude".to_string(), real_value(1100.0));
    data2.set_field("velocity".to_string(), real_value(55.0));
    data2.set_field("temperature".to_string(), real_value(25.0));

    assert!(store.set_telemetry("rocket1".to_string(), data1).is_ok());
    assert!(store.set_telemetry("rocket1".to_string(), data2).is_ok());

    let all_data = store.get_telemetry("rocket1", None);
    assert_eq!(all_data.len(), 2);

    let last_one = store.get_telemetry("rocket1", Some(1));
    assert_eq!(last_one.len(), 1);

    let field_keys = store.get_field_keys("rocket1");
    assert!(field_keys.contains(&"altitude".to_string()));
    assert!(field_keys.contains(&"velocity".to_string()));
    assert!(field_keys.contains(&"temperature".to_string()));
}

#[test]
fn test_recording() {
    let mut store = TelemetryStore::new();

    let mut rocket_data = TelemetryData::new();
    rocket_data.set_field("altitude".to_string(), real_value(1000.0));
    rocket_data.set_field("velocity".to_string(), real_value(50.0));

    let mut battery_data = TelemetryData::new();
    battery_data.set_field("voltage".to_string(), real_value(12.6));
    battery_data.set_field("current".to_string(), real_value(5.2));

    store
        .set_telemetry("rocket".to_string(), rocket_data.clone())
        .unwrap();
    store
        .set_telemetry("battery".to_string(), battery_data.clone())
        .unwrap();

    let temp_path = "test_telemetry.csv".to_string();
    assert!(store.start_recording(temp_path.clone()).is_ok());
    assert!(store.is_recording());

    store
        .set_telemetry("rocket".to_string(), rocket_data)
        .unwrap();
    store
        .set_telemetry("battery".to_string(), battery_data)
        .unwrap();

    assert!(store.stop_recording().is_ok());
    assert!(!store.is_recording());
}

#[test]
fn test_multiple_keys() {
    let mut store = TelemetryStore::new();

    let mut data1 = TelemetryData::new();
    data1.set_field("altitude".to_string(), real_value(1000.0));

    let mut data2 = TelemetryData::new();
    data2.set_field("pressure".to_string(), real_value(101.3));

    store.set_telemetry("sensor1".to_string(), data1).unwrap();
    store.set_telemetry("sensor2".to_string(), data2).unwrap();

    let keys = store.get_all_keys();
    assert_eq!(keys.len(), 2);
    assert!(keys.contains(&"sensor1".to_string()));
    assert!(keys.contains(&"sensor2".to_string()));
}

#[test]
fn pushes_come_back_in_order() {
    let mut registry = TelemetryStores::new();
    for i in 0..5i64 {
        let mut d = telemetry_middleware::telemetry_stores::TelemetryData::with_timestamp(i);
        d.with_value(TelemetryValue::Int(i * 10));
        registry.push("stand", "pressure", d).unwrap();
    }
    let all = registry.get_all("stand", "pressure").unwrap();
    assert_eq!(all.len(), 5);
    for (i, d) in all.iter().enumerate() {
        assert_eq!(d.timestamp, i as i64);
        assert!(matches!(d.value, TelemetryValue::Int(v) if v == (i as i64) * 10));
    }
}

#[test]
fn get_last_n_bounds() {
    let mut registry = TelemetryStores::new();
    let d = telemetry_middleware::telemetry_stores::TelemetryData::with_timestamp(7);
    registry.push("s", "f", d).unwrap();

    // n == 0 gives None even when samples exist
    assert!(matches!(registry.get_last_n("s", "f", 0), Ok(None)));
    // asking for more than there is gives everything
    let got = registry.get_last_n("s", "f", 10).unwrap().unwrap();
    assert_eq!(got.len(), 1);
    assert_eq!(got[0].timestamp, 7);
    // an unknown field is refused
    assert!(matches!(
        registry.get_last_n("s", "missing", 1),
        Err(MiddlewareError::NotFound)
    ));
}

#[test]
fn empty_field_get_last_n_is_none() {
    let field = telemetry_middleware::telemetry_stores::TelemetryField::new();
    assert!(field.get_last_n(3).is_none());
    assert!(field.get_last(). is_none());
}

#[test]
fn push_auto_creates_store_and_create_rejects_duplicates() {
    let mut registry = TelemetryStores::new();
    assert!(!registry.has_store("rocket"));

    // pushing to a store that was never created brings it into being
    let d = telemetry_middleware::telemetry_stores::TelemetryData::with_timestamp(1);
    registry.push("rocket", "altitude", d).unwrap();
    assert!(registry.has_store("rocket"));

    // creating over an existing name is refused
    assert!(matches!(
        registry.create_new_store("rocket", "other.csv".to_string()),
        Err(MiddlewareError::AlreadyExists)
    ));

    // a fresh name is accepted once, then refused
    assert!(registry
        .create_new_store("payload", "payload.csv".to_string())
        .is_ok());
    assert!(matches!(
        registry.create_new_store("payload", "payload.csv".to_string()),
        Err(MiddlewareError::AlreadyExists)
    ));
}

#[test]
fn stream_window_evicts_oldest() {
    let mut store = TelemetryStore::with_buffer_size(2);
    for i in 0..3i64 {
        let mut d = TelemetryData::with_timestamp(i);
        d.set_field("x".to_string(), TelemetryValue::Int(i));
        store.set_telemetry("s".to_string(), d).unwrap();
    }
    let all = store.get_telemetry("s", None);
    assert_eq!(all.len(), 2);
    assert_eq!(all[0].timestamp, 1);
    assert_eq!(all[1].timestamp, 2);
}

#[test]
fn unified_recording_state_errors() {
    let mut store = TelemetryStore::new();
    // stopping before anything was started is refused and changes nothing
    assert!(matches!(
        store.stop_recording(),
        Err(MiddlewareError::NotRecording)
    ));
    assert!(store.start_recording("out.csv".to_string()).is_ok());
    // a second start while recording is refused
    assert!(matches!(
        store.start_recording("other.csv".to_string()),
        Err(MiddlewareError::AlreadyRecording)
    ));
    let path = store.stop_recording().unwrap();
    assert_eq!(path, "out.csv");
}

#[test]
fn end_to_end_rocket_altitude() {
    let mut registry = TelemetryStores::new();
    let values = [100.0, 150.0, 200.0];
    for (i, v) in values.iter().enumerate() {
        let mut d =
            telemetry_middleware::telemetry_stores::TelemetryData::with_timestamp(1000 + i as i64);
        d.with_value(TelemetryValue::Real(format!("{}", v)));
        registry.push("rocket", "altitude", d).unwrap();
    }
    let last_two = registry.get_last_n("rocket", "altitude", 2).unwrap().unwrap();
    assert_eq!(last_two.len(), 2);
    assert_eq!(last_two[0].timestamp, 1001);
    assert!(matches!(last_two[0].value, TelemetryValue::Real(ref s) if s == "150"));
    assert_eq!(last_two[1].timestamp, 1002);
    assert!(matches!(last_two[1].value, TelemetryValue::Real(ref s) if s == "200"));
}

#[test]
fn cell_strings_render_naturally() {
    assert_eq!(TelemetryValue::Int(0).cell_string(), "0");
    assert_eq!(TelemetryValue::Int(1234567).cell_string(), "1234567");
    assert_eq!(TelemetryValue::Int(-42).cell_string(), "-42");
    assert_eq!(
        TelemetryValue::Int(i64::MIN).cell_string(),
        "-9223372036854775808"
    );
    assert_eq!(TelemetryValue::Bool(true).cell_string(), "true");
    assert_eq!(TelemetryValue::Bool(false).cell_string(), "false");
    assert_eq!(TelemetryValue::Null.cell_string(), "null");
    assert_eq!(
        TelemetryValue::Text("hello".to_string()).cell_string(),
        "hello"
    );
}

#[test]
fn bool_tokens_parse_flexibly() {
    assert_eq!(parse_bool_token("1"), Some(true));
    assert_eq!(parse_bool_token("true"), Some(true));
    assert_eq!(parse_bool_token("True"), Some(true));
    assert_eq!(parse_bool_token("TRUE"), Some(true));
    assert_eq!(parse_bool_token("0"), Some(false));
    assert_eq!(parse_bool_token("false"), Some(false));
    assert_eq!(parse_bool_token("False"), Some(false));
    assert_eq!(parse_bool_token("FALSE"), Some(false));
    assert_eq!(parse_bool_token("yes"), None);
    assert_eq!(parse_bool_token(""), None);
    assert!(bool_from_int(2));
    assert!(!bool_from_int(0));
}
