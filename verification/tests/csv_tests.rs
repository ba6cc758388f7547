use telemetry_middleware::csv_writer::{CsvCommand, CsvWriterState};
use telemetry_middleware::telemetry_stores::{TelemetryData, TelemetryStores};
use telemetry_middleware::value::TelemetryValue;

fn row(cells: &[(&str, &str)]) -> Vec<(String, String)> {
    cells
        .iter()
        .map(|(k, v)| (k.to_string(), v.to_string()))
        .collect()
}

#[test]
fn rows_buffer_until_first_flush() {
    let mut writer = CsvWriterState::new();
    assert!(writer.apply(CsvCommand::Row(row(&[("a", "1")]))).is_empty());
    assert!(writer.apply(CsvCommand::Row(row(&[("a", "2"), ("b", "9")]))).is_empty());

    let out = writer.apply(CsvCommand::Flush);
    // one header, then every buffered row under it
    assert_eq!(out.len(), 3);
    assert_eq!(out[0], vec!["a".to_string(), "b".to_string()]);
    assert_eq!(out[1], vec!["1".to_string(), "".to_string()]);
    assert_eq!(out[2], vec!["2".to_string(), "9".to_string()]);
}

#[test]
fn header_freezes_after_first_flush() {
    let mut writer = CsvWriterState::new();
    let _ = writer.apply(CsvCommand::Row(row(&[("a", "1")])));
    let _ = writer.apply(CsvCommand::Flush);

    // after the freeze, rows are emitted immediately under the frozen
    // header; a key first seen now is silently omitted
    let out = writer.apply(CsvCommand::Row(row(&[("a", "2"), ("late", "7")])));
    assert_eq!(out, vec![vec!["2".to_string()]]);

    // a second flush emits nothing further
    assert!(writer.apply(CsvCommand::Flush).is_empty());
}

#[test]
fn stop_flushes_buffered_rows() {
    let mut writer = CsvWriterState::new();
    let _ = writer.apply(CsvCommand::Row(row(&[("k", "v")])));
    let out = writer.apply(CsvCommand::Stop);
    assert_eq!(out.len(), 2);
    assert_eq!(out[0], vec!["k".to_string()]);
    assert_eq!(out[1], vec!["v".to_string()]);
    // commands after a stop are ignored
    assert!(writer.apply(CsvCommand::Row(row(&[("k", "w")]))).is_empty());
}

#[test]
fn store_recording_round_trip() {
    let mut registry = TelemetryStores::new();

    // recording a store that does not exist yet is refused
    assert!(registry.start_recording("stand").is_err());
    let mut a1 = TelemetryData::with_timestamp(1);
    a1.with_value(TelemetryValue::Int(1));
    registry.push("stand", "a", a1).unwrap();
    registry.start_recording("stand").unwrap();

    let mut b1 = TelemetryData::with_timestamp(2);
    b1.with_value(TelemetryValue::Int(10));
    registry.push("stand", "b", b1).unwrap();

    let mut a2 = TelemetryData::with_timestamp(3);
    a2.with_value(TelemetryValue::Int(2));
    registry.push("stand", "a", a2).unwrap();

    registry.stop_recording("stand").unwrap();

    let records = registry.drain_writer("stand").unwrap();
    // exactly one header row, with both columns, then one row per push
    assert_eq!(records.len(), 4);
    assert_eq!(records[0], vec!["a".to_string(), "b".to_string()]);
    assert_eq!(records[1], vec!["1".to_string(), "".to_string()]);
    assert_eq!(records[2], vec!["1".to_string(), "10".to_string()]);
    assert_eq!(records[3], vec!["2".to_string(), "10".to_string()]);
}

#[test]
fn csv_bytes_escape_and_terminate() {
    let records = vec![
        vec!["x".to_string(), "y".to_string()],
        vec!["with,comma".to_string(), "plain".to_string()],
    ];
    let bytes = telemetry_middleware::csv_writer::encode_records(&records);
    assert_eq!(bytes, b"x,y\n\"with,comma\",plain\n".to_vec());
}

#[test]
fn unified_recording_writes_header_and_rows() {
    let mut store = telemetry_middleware::telemetry_store::TelemetryStore::new();
    let mut d0 = telemetry_middleware::telemetry_store::TelemetryData::with_timestamp(500);
    d0.set_field("alt".to_string(), TelemetryValue::Int(9));
    store.set_telemetry("rocket".to_string(), d0).unwrap();

    store.start_recording("all.csv".to_string()).unwrap();
    let mut d1 = telemetry_middleware::telemetry_store::TelemetryData::with_timestamp(1000);
    d1.set_field("alt".to_string(), TelemetryValue::Int(10));
    store.set_telemetry("rocket".to_string(), d1).unwrap();

    let records = store.take_pending();
    assert_eq!(records.len(), 2);
    assert_eq!(
        records[0],
        vec![
            "timestamp".to_string(),
            "stream_key".to_string(),
            "alt".to_string()
        ]
    );
    assert_eq!(records[1][0], "1970-01-01T00:00:01+00:00");
    assert_eq!(records[1][1], "rocket");
    assert_eq!(records[1][2], "10");
    // once taken, nothing is pending
    assert!(store.take_pending().is_empty());
}
