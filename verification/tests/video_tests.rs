use telemetry_middleware::errors::MiddlewareError;
use telemetry_middleware::video_encoder_manager::{
    EncoderAction, EncoderCommand, EncoderManager, EncoderSession,
};
use telemetry_middleware::video_streams::{create_video_frame, VideoFrame, VideoStreams};

fn frame(timestamp: u64, data: Vec<u8>, width: u32, height: u32) -> VideoFrame {
    VideoFrame {
        timestamp,
        data,
        width,
        height,
        format: "jpeg".to_string(),
    }
}

#[test]
fn test_video_stream() {
    let mut streams = VideoStreams::new(EncoderManager::new());

    let f = frame(123456789, vec![0u8; 100], 640, 480);

    assert!(streams.process_frame("camera1", f.clone()).is_ok());
    assert!(streams.get_latest_frame("camera1").is_some());

    let temp_path = "test_video.raw".to_string();
    assert!(streams.start_recording("camera1", temp_path, 30).is_ok());
    assert!(streams.is_recording("camera1"));

    assert!(streams.process_frame("camera1", f).is_ok());
    assert_eq!(streams.get_frame_count("camera1"), 1);

    assert!(streams.stop_recording("camera1").is_ok());
    assert!(!streams.is_recording("camera1"));
}

#[test]
fn test_multiple_streams() {
    let mut streams = VideoStreams::new(EncoderManager::new());

    let frame1 = frame(123456789, vec![1u8; 100], 640, 480);
    let frame2 = frame(123456790, vec![2u8; 100], 1920, 1080);

    streams.process_frame("camera1", frame1).unwrap();
    streams.process_frame("camera2", frame2).unwrap();

    let keys = streams.get_all_keys();
    assert_eq!(keys.len(), 2);
    assert!(keys.contains(&"camera1".to_string()));
    assert!(keys.contains(&"camera2".to_string()));

    let latest1 = streams.get_latest_frame("camera1").unwrap();
    let latest2 = streams.get_latest_frame("camera2").unwrap();
    assert_eq!(latest1.width, 640);
    assert_eq!(latest2.width, 1920);
}

#[test]
fn test_frame_conversion() {
    let f = frame(123456789, vec![1, 2, 3, 4, 5], 100, 100);

    let frontend_frame = f.to_frontend();
    assert!(!frontend_frame.data_base64.is_empty());
    assert_eq!(frontend_frame.width, 100);
    assert_eq!(frontend_frame.height, 100);
}

#[test]
fn frame_base64_is_exact() {
    let f = frame(1, vec![1, 2, 3, 4, 5], 1, 1);
    assert_eq!(f.to_frontend().data_base64, "AQIDBAU=");
    let empty = frame(1, Vec::new(), 0, 0);
    assert_eq!(empty.to_frontend().data_base64, "");
}

#[test]
fn created_frame_keeps_its_data() {
    let f = create_video_frame(vec![7, 8, 9], 1, 1, "raw".to_string());
    assert_eq!(f.data, vec![7, 8, 9]);
    assert_eq!(f.width, 1);
    assert_eq!(f.height, 1);
    assert_eq!(f.format, "raw");
    assert!(f.timestamp > 0);
}

#[test]
fn start_recording_needs_a_frame() {
    let mut streams = VideoStreams::new(EncoderManager::new());
    streams.create_stream("cam");
    assert!(matches!(
        streams.start_recording("cam", "out.mjpeg".to_string(), 30),
        Err(MiddlewareError::NoFrame)
    ));
    // and an unknown stream is a different, explicit error
    assert!(matches!(
        streams.start_recording("ghost", "out.mjpeg".to_string(), 30),
        Err(MiddlewareError::NotFound)
    ));
}

#[test]
fn stop_recording_when_idle_is_refused() {
    let mut streams = VideoStreams::new(EncoderManager::new());
    streams.create_stream("cam");
    let f = frame(5, vec![0u8; 12], 2, 2);
    streams.push_frame("cam", f).unwrap();

    assert!(matches!(
        streams.stop_recording("cam"),
        Err(MiddlewareError::NotRecording)
    ));
    // the refusal left the stream untouched
    assert!(!streams.is_recording("cam"));
    assert_eq!(streams.get_frame_count("cam"), 1);
    assert!(streams.get_latest_frame("cam").is_some());
}

#[test]
fn mismatched_frames_are_counted_not_written() {
    let mut session = EncoderSession::new();
    let spawn = session.apply(EncoderCommand::Start {
        path: "out.mjpeg".to_string(),
        width: 2,
        height: 2,
        fps: 30,
    });
    assert!(matches!(spawn, EncoderAction::Spawn { .. }));

    // 2 x 2 x 3 = 12 bytes expected; 5 bytes is rejected
    let bad = session.apply(EncoderCommand::Frame(frame(1, vec![0u8; 5], 2, 2)));
    assert!(matches!(bad, EncoderAction::Nothing));
    assert_eq!(session.frames_rejected, 1);
    assert_eq!(session.frames_written, 0);

    // a subsequent valid frame is unaffected
    let good = session.apply(EncoderCommand::Frame(frame(2, vec![9u8; 12], 2, 2)));
    match good {
        EncoderAction::WriteFrame(bytes) => assert_eq!(bytes, vec![9u8; 12]),
        _ => panic!("valid frame was not written"),
    }
    assert_eq!(session.frames_written, 1);
    assert_eq!(session.frames_rejected, 1);

    let close = session.apply(EncoderCommand::Stop);
    assert!(matches!(close, EncoderAction::CloseAndWait));
}

#[test]
fn recording_feeds_the_encoder_queue() {
    let mut streams = VideoStreams::new(EncoderManager::new());
    let f = frame(1, vec![0u8; 12], 2, 2);
    streams.process_frame("cam", f.clone()).unwrap();
    streams
        .start_recording("cam", "out.mjpeg".to_string(), 24)
        .unwrap();
    streams.push_frame("cam", f).unwrap();

    let id = streams.encoder_id_of("cam").unwrap();
    let actions = streams.drain_encoder(id).unwrap();
    assert_eq!(actions.len(), 2);
    assert!(matches!(actions[0], EncoderAction::Spawn { width: 2, height: 2, fps: 24, .. }));
    assert!(matches!(actions[1], EncoderAction::WriteFrame(ref b) if b.len() == 12));

    let (path, count) = streams.stop_recording("cam").unwrap();
    assert_eq!(path, "out.mjpeg");
    assert_eq!(count, 1);
}

#[test]
fn frame_count_resets_when_recording_starts() {
    let mut streams = VideoStreams::new(EncoderManager::new());
    let f = frame(1, vec![0u8; 12], 2, 2);
    streams.process_frame("cam", f.clone()).unwrap();
    streams.process_frame("cam", f.clone()).unwrap();
    assert_eq!(streams.get_frame_count("cam"), 2);

    streams
        .start_recording("cam", "out.mjpeg".to_string(), 30)
        .unwrap();
    assert_eq!(streams.get_frame_count("cam"), 0);
    streams.push_frame("cam", f).unwrap();
    assert_eq!(streams.get_frame_count("cam"), 1);
}

#[test]
fn stop_all_recordings_reports_each_session() {
    let mut streams = VideoStreams::new(EncoderManager::new());
    let f = frame(1, vec![0u8; 12], 2, 2);
    streams.process_frame("cam1", f.clone()).unwrap();
    streams.process_frame("cam2", f.clone()).unwrap();
    streams.start_recording("cam1", "a.mjpeg".to_string(), 30).unwrap();
    streams.start_recording("cam2", "b.mjpeg".to_string(), 30).unwrap();
    streams.push_frame("cam1", f).unwrap();

    let mut stopped = streams.stop_all_recordings();
    stopped.sort();
    assert_eq!(
        stopped,
        vec![
            ("cam1".to_string(), "a.mjpeg".to_string(), 1u64),
            ("cam2".to_string(), "b.mjpeg".to_string(), 0u64),
        ]
    );
    assert!(!streams.is_recording("cam1"));
    assert!(!streams.is_recording("cam2"));
}

#[test]
fn totals_and_recording_keys() {
    let mut streams = VideoStreams::new(EncoderManager::new());
    let f = frame(1, vec![0u8; 12], 2, 2);
    streams.process_frame("cam1", f.clone()).unwrap();
    streams.process_frame("cam1", f.clone()).unwrap();
    streams.process_frame("cam2", f.clone()).unwrap();
    assert_eq!(streams.get_total_frame_count(), 3);

    streams.start_recording("cam2", "b.mjpeg".to_string(), 30).unwrap();
    assert_eq!(streams.get_recording_keys(), vec!["cam2".to_string()]);
    assert_eq!(
        streams.get_all_video_paths(),
        vec![("cam2".to_string(), "b.mjpeg".to_string())]
    );
    assert_eq!(streams.get_video_path("cam2").unwrap(), "b.mjpeg");
    assert!(streams.get_video_path("cam1").is_none());

    let shown = streams.get_latest_frame_base64("cam1").unwrap();
    assert_eq!(shown.width, 2);
}

#[test]
fn stopping_preserves_encoder_teardown() {
    let mut streams = VideoStreams::new(EncoderManager::new());
    let f = frame(1, vec![0u8; 12], 2, 2);
    streams.process_frame("cam", f.clone()).unwrap();
    streams
        .start_recording("cam", "out.mjpeg".to_string(), 30)
        .unwrap();
    streams.push_frame("cam", f).unwrap();
    let id = streams.encoder_id_of("cam").unwrap();

    // stop without draining first: the queued work must survive removal
    streams.stop_recording("cam").unwrap();
    let actions = streams.take_encoder_actions();
    assert!(!actions.is_empty());
    assert!(actions.iter().all(|(tag, _)| *tag == id));
    assert!(matches!(actions[0].1, EncoderAction::Spawn { .. }));
    assert!(actions
        .iter()
        .any(|(_, a)| matches!(a, EncoderAction::WriteFrame(b) if b.len() == 12)));
    // the subprocess is closed and reaped exactly once
    assert_eq!(
        actions
            .iter()
            .filter(|(_, a)| matches!(a, EncoderAction::CloseAndWait))
            .count(),
        1
    );
    // taking again yields nothing
    assert!(streams.take_encoder_actions().is_empty());
}
