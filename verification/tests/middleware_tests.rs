use telemetry_middleware::errors::MiddlewareError;
use telemetry_middleware::middleware::{Middleware, PlaybackState};
use telemetry_middleware::telemetry_store::TelemetryData;
use telemetry_middleware::value::TelemetryValue;
use telemetry_middleware::video_streams::VideoFrame;

#[test]
fn facade_round_trip() {
    let mut mw = Middleware::new();

    let mut d = TelemetryData::with_timestamp(10);
    d.set_field("alt".to_string(), TelemetryValue::Int(3));
    mw.set_telemetry("rocket".to_string(), d).unwrap();

    assert_eq!(mw.get_telemetry_keys(), vec!["rocket".to_string()]);
    let latest = mw.get_latest_telemetry("rocket").unwrap();
    assert_eq!(latest.timestamp, 10);
    assert_eq!(mw.get_field_keys("rocket"), vec!["alt".to_string()]);
    assert_eq!(mw.get_all_field_keys(), vec!["alt".to_string()]);

    let frame = VideoFrame {
        timestamp: 4,
        data: vec![1u8; 12],
        width: 2,
        height: 2,
        format: "raw".to_string(),
    };
    mw.process_video_frame("cam", frame).unwrap();
    assert_eq!(mw.get_video_keys(), vec!["cam".to_string()]);
    let shown = mw.get_latest_video_frame("cam").unwrap();
    assert_eq!(shown.width, 2);

    let status = mw.get_recording_status();
    assert!(!status.telemetry_recording);
    assert_eq!(status.telemetry_keys, vec!["rocket".to_string()]);
    assert_eq!(
        status.telemetry_counts,
        vec![("rocket".to_string(), 1usize)]
    );
    assert_eq!(status.video_keys, vec!["cam".to_string()]);
    assert_eq!(status.video_frame_counts, vec![("cam".to_string(), 1u64)]);
    assert!(status.video_recording_keys.is_empty());
}

#[test]
fn facade_registry_and_cleanup() {
    let mut mw = Middleware::new();
    let mut d = telemetry_middleware::telemetry_stores::TelemetryData::with_timestamp(1);
    d.with_value(TelemetryValue::Int(5));
    mw.push("stand", "thrust", d).unwrap();
    assert_eq!(mw.list_stores(), vec!["stand".to_string()]);

    let all = mw.get_all("stand", "thrust").unwrap();
    assert_eq!(all.len(), 1);
    let last = mw.get_last("stand", "thrust").unwrap().unwrap();
    assert_eq!(last.timestamp, 1);

    mw.start_recording_all();
    mw.stop_recording_all();

    mw.start_telemetry_recording("session.csv".to_string()).unwrap();
    mw.cleanup();
    assert!(!mw.is_telemetry_recording());
}

#[test]
fn facade_clear_operations() {
    let mut mw = Middleware::new();
    let mut d = TelemetryData::with_timestamp(10);
    d.set_field("alt".to_string(), TelemetryValue::Int(3));
    mw.set_telemetry("rocket".to_string(), d).unwrap();

    mw.clear_telemetry_key("rocket");
    assert!(mw.get_telemetry("rocket", None).is_empty());
    // the stream itself survives a per-key clear
    assert_eq!(mw.get_telemetry_keys().len(), 1);

    mw.clear_all_telemetry();
    assert!(mw.get_telemetry_keys().is_empty());
}

#[test]
fn playback_states_are_distinct() {
    let states = [
        PlaybackState::NoData,
        PlaybackState::NotStarted,
        PlaybackState::Running,
        PlaybackState::Paused,
        PlaybackState::Done,
    ];
    for (i, a) in states.iter().enumerate() {
        for (j, b) in states.iter().enumerate() {
            assert_eq!(a == b, i == j);
        }
    }
}

#[test]
fn error_messages_name_the_failure() {
    assert_eq!(MiddlewareError::NotFound.message(), "not found");
    assert_eq!(MiddlewareError::AlreadyExists.message(), "already exists");
    assert_eq!(
        MiddlewareError::AlreadyRecording.message(),
        "already recording"
    );
    assert_eq!(MiddlewareError::NotRecording.message(), "not recording");
    assert_eq!(
        MiddlewareError::GeometryMismatch.message(),
        "geometry mismatch"
    );
    assert_eq!(MiddlewareError::IoFailure.message(), "io failure");
    assert_eq!(MiddlewareError::ChannelClosed.message(), "channel closed");
    assert_eq!(MiddlewareError::NoFrame.message(), "no frame");
}

#[test]
fn cleanup_stops_everything_and_keeps_data() {
    let mut mw = Middleware::new();
    let mut d = TelemetryData::with_timestamp(10);
    d.set_field("alt".to_string(), TelemetryValue::Int(3));
    mw.set_telemetry("rocket".to_string(), d).unwrap();
    mw.start_telemetry_recording("session.csv".to_string()).unwrap();

    let frame = VideoFrame {
        timestamp: 4,
        data: vec![1u8; 12],
        width: 2,
        height: 2,
        format: "raw".to_string(),
    };
    mw.process_video_frame("cam", frame).unwrap();
    mw.start_video_recording("cam", "cam.mjpeg".to_string(), 30)
        .unwrap();

    mw.cleanup();
    assert!(!mw.is_telemetry_recording());
    let status = mw.get_recording_status();
    assert!(status.video_recording_keys.is_empty());
    // the data survives the shutdown
    assert_eq!(mw.get_telemetry("rocket", None).len(), 1);
    assert_eq!(mw.get_video_keys(), vec!["cam".to_string()]);
    // a stream that recorded keeps its path in the snapshot
    assert_eq!(
        status.video_paths,
        vec![("cam".to_string(), "cam.mjpeg".to_string())]
    );
}
