//! Core middleware for ingesting named telemetry and video streams: bounded
//! in-memory windows for live querying, plus optional persistence of each
//! stream (CSV rows for telemetry, an external MJPEG encoder for video)
//! driven through bounded command queues so producers never block on I/O.

pub mod bool_token;
pub mod csv_writer;
pub mod errors;
pub mod keyed;
pub mod middleware;
pub mod telemetry_store;
pub mod telemetry_stores;
pub mod trusted;
pub mod video_encoder_manager;
pub mod video_streams;
pub mod value;
