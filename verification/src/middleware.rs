//! The middleware facade: the single object the IPC layer talks to.
//!
//! It composes the unified telemetry store, the telemetry store registry and
//! the video stream registry, and owns the path-construction policy for
//! stores created on demand.

use vstd::prelude::*;
use crate::errors::MiddlewareError;
use crate::keyed::{has_key, value_at};
use crate::telemetry_store::{samples_model, data_wf, DataModel, TelemetryData, TelemetryStore};
use crate::telemetry_stores::{registry_data, TelemetryStores};
use crate::trusted::base64_of;
use crate::video_streams::{VideoFrame, VideoFrameForFrontend, VideoStreams};
use crate::video_encoder_manager::EncoderManager;

verus! {

/// Where data playback stands, as the playback adapter reports it.
#[derive(Clone, Copy, Debug, PartialEq, Eq, Structural)]
pub enum PlaybackState {
    /// No data source has been loaded.
    NoData,
    /// A source is loaded but playback has not begun.
    NotStarted,
    /// Playback is running.
    Running,
    /// Playback is paused.
    Paused,
    /// Playback has reached the end of the source.
    Done,
}

/// A read-only aggregate of what is being recorded and how much data each
/// store and stream has accumulated.
#[derive(Debug)]
pub struct RecordingStatus {
    /// Whether the unified telemetry recording is active.
    pub telemetry_recording: bool,
    /// The unified recording's CSV path, if one was ever set.
    pub telemetry_path: Option<String>,
    /// The video streams currently recording.
    pub video_recording_keys: Vec<String>,
    /// The output path of each recording video stream.
    pub video_paths: Vec<(String, String)>,
    /// Every telemetry stream name.
    pub telemetry_keys: Vec<String>,
    /// The sample count of each telemetry stream.
    pub telemetry_counts: Vec<(String, usize)>,
    /// Every video stream name.
    pub video_keys: Vec<String>,
    /// The frame count of each video stream.
    pub video_frame_counts: Vec<(String, u64)>,
}

/// The facade every producer and the presentation layer talk to.
pub struct Middleware {
    /// The unified telemetry store.
    pub telemetry: TelemetryStore,
    /// The per-store telemetry registry with its CSV writer queues.
    pub stores: TelemetryStores,
    /// The video stream registry with its encoder pool.
    pub video: VideoStreams,
}

impl Middleware {
    /// The facade's internal invariant.
    pub open spec fn wf(self) -> bool {
        self.telemetry.wf() && self.stores.wf() && self.video.wf()
    }

    /// A fresh middleware with empty registries.
    pub fn new() -> (r: Self)
        ensures
            r.wf(),
            r.telemetry.streams@.len() == 0,
            r.telemetry.max_buffer_size == 10000,
            !r.telemetry.recording,
            r.stores.stores@.len() == 0,
            r.video.streams@.len() == 0,
    {
        Middleware {
            telemetry: TelemetryStore::new(),
            stores: TelemetryStores::new(),
            video: VideoStreams::new(EncoderManager::new()),
        }
    }

    /// Appends a sample to a telemetry stream, creating it on first use.
    pub fn set_telemetry(&mut self, key: String, data: TelemetryData) -> (r: Result<
        (),
        MiddlewareError,
    >)
        requires
            old(self).wf(),
            data_wf(data),
        ensures
            final(self).wf(),
            r is Ok,
            final(self).stores == old(self).stores,
            final(self).video == old(self).video,
            has_key(final(self).telemetry.streams@, key@),
            ({
                let pre = old(self).telemetry.streams@;
                let post = final(self).telemetry.streams@;
                if has_key(pre, key@) {
                    let i = crate::keyed::key_index(pre, key@);
                    &&& post.len() == pre.len()
                    &&& forall|j: int| 0 <= j < pre.len() && j != i ==> post[j] == pre[j]
                    &&& post[i].0 == pre[i].0
                    &&& samples_model(post[i].1.data@) == ({
                        let appended = samples_model(pre[i].1.data@).push(data@);
                        if appended.len() > old(self).telemetry.max_buffer_size {
                            appended.skip(1)
                        } else {
                            appended
                        }
                    })
                } else {
                    &&& post.len() == pre.len() + 1
                    &&& forall|j: int| 0 <= j < pre.len() ==> post[j] == pre[j]
                    &&& post.last().0@ == key@
                    &&& samples_model(post.last().1.data@) == (if old(
                        self,
                    ).telemetry.max_buffer_size == 0 {
                        Seq::<DataModel>::empty()
                    } else {
                        seq![data@]
                    })
                }
            }),
    {
        self.telemetry.set_telemetry(key, data)
    }

    /// The last `count` samples of a telemetry stream (all when `None`).
    pub fn get_telemetry(&self, key: &str, count: Option<usize>) -> (r: Vec<TelemetryData>)
        requires
            self.wf(),
        ensures
            samples_model(r@) == (if has_key(self.telemetry.streams@, key@) {
                let d = samples_model(value_at(self.telemetry.streams@, key@).data@);
                match count {
                    Some(n) => d.skip(
                        if n < d.len() {
                            d.len() - n
                        } else {
                            0
                        },
                    ),
                    None => d,
                }
            } else {
                Seq::<DataModel>::empty()
            }),
    {
        self.telemetry.get_telemetry(key, count)
    }

    /// Every telemetry stream name.
    pub fn get_telemetry_keys(&self) -> (r: Vec<String>)
        ensures
            r@.len() == self.telemetry.streams@.len(),
            forall|i: int| 0 <= i < r@.len() ==> #[trigger] r@[i]@ == self.telemetry.streams@[i].0@,
    {
        self.telemetry.get_all_keys()
    }

    /// The most recent sample of a telemetry stream.
    pub fn get_latest_telemetry(&self, key: &str) -> (r: Option<TelemetryData>)
        requires
            self.wf(),
        ensures
            r is Some <==> has_key(self.telemetry.streams@, key@) && value_at(
                self.telemetry.streams@,
                key@,
            ).data@.len() > 0,
            r matches Some(d) ==> d@ == samples_model(
                value_at(self.telemetry.streams@, key@).data@,
            ).last(),
    {
        self.telemetry.get_latest(key)
    }

    /// Starts the unified telemetry recording into one CSV file.
    pub fn start_telemetry_recording(&mut self, file_path: String) -> (r: Result<
        (),
        MiddlewareError,
    >)
        requires
            old(self).wf(),
        ensures
            final(self).wf(),
            old(self).telemetry.recording <==> r is Err,
            r matches Err(e) ==> e == MiddlewareError::AlreadyRecording,
            r is Ok ==> final(self).telemetry.recording,
            final(self).stores == old(self).stores,
            final(self).video == old(self).video,
    {
        self.telemetry.start_recording(file_path)
    }

    /// Stops the unified telemetry recording, reporting the CSV path.
    pub fn stop_telemetry_recording(&mut self) -> (r: Result<String, MiddlewareError>)
        requires
            old(self).wf(),
        ensures
            final(self).wf(),
            old(self).telemetry.recording <==> r is Ok,
            r matches Err(e) ==> e == MiddlewareError::NotRecording,
            r is Ok ==> !final(self).telemetry.recording,
            r matches Ok(p) ==> (old(self).telemetry.csv_path matches Some(q) && p@ == q@),
            final(self).stores == old(self).stores,
            final(self).video == old(self).video,
    {
        self.telemetry.stop_recording()
    }

    /// Whether the unified telemetry recording is active.
    pub fn is_telemetry_recording(&self) -> (r: bool)
        ensures
            r == self.telemetry.recording,
    {
        self.telemetry.is_recording()
    }

    /// The unified recording's CSV path, if one was ever set.
    pub fn get_telemetry_csv_path(&self) -> (r: Option<String>)
        ensures
            r is Some <==> self.telemetry.csv_path is Some,
            r matches Some(p) ==> (self.telemetry.csv_path matches Some(q) && p@ == q@),
    {
        self.telemetry.get_csv_path()
    }

    /// Appends a sample to a registry store's field, creating the field and
    /// the store (bound to `<name>.csv`) on first use.
    pub fn push(&mut self, store_name: &str, field: &str, data: crate::telemetry_stores::TelemetryData) -> (r: Result<
        (),
        MiddlewareError,
    >)
        requires
            old(self).wf(),
        ensures
            final(self).wf(),
            r is Ok,
            crate::telemetry_stores::push_registry_effect(
                old(self).stores.stores@,
                final(self).stores.stores@,
                store_name@,
                field@,
                data,
            ),
            registry_data(final(self).stores.stores@, store_name@, field@) == registry_data(
                old(self).stores.stores@,
                store_name@,
                field@,
            ).push(data),
            forall|st: Seq<char>, f: Seq<char>|
                st != store_name@ || f != field@ ==> registry_data(
                    final(self).stores.stores@,
                    st,
                    f,
                ) == registry_data(old(self).stores.stores@, st, f),
            final(self).telemetry == old(self).telemetry,
            final(self).video == old(self).video,
    {
        self.stores.push(store_name, field, data)
    }

    /// Every sample of a registry store's field, in push order.
    pub fn get_all(&self, store_name: &str, field: &str) -> (r: Result<
        Vec<crate::telemetry_stores::TelemetryData>,
        MiddlewareError,
    >)
        requires
            self.wf(),
        ensures
            r is Ok <==> registry_data(self.stores.stores@, store_name@, field@).len() > 0,
            r matches Ok(v) ==> v@ == registry_data(self.stores.stores@, store_name@, field@),
            r matches Err(e) ==> e == MiddlewareError::NotFound,
    {
        self.stores.get_all(store_name, field)
    }

    /// The most recent sample of a registry store's field.
    pub fn get_last(&self, store_name: &str, field: &str) -> (r: Result<
        Option<crate::telemetry_stores::TelemetryData>,
        MiddlewareError,
    >)
        requires
            self.wf(),
        ensures
            r is Ok <==> registry_data(self.stores.stores@, store_name@, field@).len() > 0,
            r matches Ok(d) ==> d == Some(
                registry_data(self.stores.stores@, store_name@, field@).last(),
            ),
            r matches Err(e) ==> e == MiddlewareError::NotFound,
    {
        self.stores.get_last(store_name, field)
    }

    /// The last `min(n, count)` samples of a registry store's field.
    pub fn get_last_n(&self, store_name: &str, field: &str, n: usize) -> (r: Result<
        Option<Vec<crate::telemetry_stores::TelemetryData>>,
        MiddlewareError,
    >)
        requires
            self.wf(),
        ensures
            r is Ok <==> registry_data(self.stores.stores@, store_name@, field@).len() > 0,
            r matches Ok(o) ==> ({
                let d = registry_data(self.stores.stores@, store_name@, field@);
                &&& (n == 0 <==> o is None)
                &&& o matches Some(v) ==> v@ == d.skip(
                    if n < d.len() {
                        d.len() - n
                    } else {
                        0
                    },
                )
            }),
            r matches Err(e) ==> e == MiddlewareError::NotFound,
    {
        self.stores.get_last_n(store_name, field, n)
    }

    /// Every registry store name, in creation order.
    pub fn list_stores(&self) -> (r: Vec<String>)
        ensures
            r@.len() == self.stores.stores@.len(),
            forall|i: int| 0 <= i < r@.len() ==> #[trigger] r@[i]@ == self.stores.stores@[i].0@,
    {
        self.stores.list_stores()
    }

    /// Turns recording on for every registry store.
    pub fn start_recording_all(&mut self)
        requires
            old(self).wf(),
        ensures
            final(self).wf(),
            final(self).stores.stores@.len() == old(self).stores.stores@.len(),
            forall|i: int|
                0 <= i < old(self).stores.stores@.len() ==> (#[trigger] final(self).stores.stores@[i]).0 == old(self).stores.stores@[i].0
                    && final(self).stores.stores@[i].1 == (crate::telemetry_stores::TelemetryStore {
                    recording: true,
                    ..old(self).stores.stores@[i].1
                }),
            final(self).telemetry == old(self).telemetry,
            final(self).video == old(self).video,
    {
        self.stores.start_recording_all()
    }

    /// Turns recording off for every registry store, flushing each writer.
    pub fn stop_recording_all(&mut self)
        requires
            old(self).wf(),
        ensures
            final(self).wf(),
            final(self).stores.stores@.len() == old(self).stores.stores@.len(),
            forall|i: int|
                0 <= i < old(self).stores.stores@.len() ==> (#[trigger] final(self).stores.stores@[i]).0 == old(self).stores.stores@[i].0
                    && crate::telemetry_stores::signal_store_effect(
                    old(self).stores.stores@[i].1,
                    final(self).stores.stores@[i].1,
                    crate::csv_writer::CommandModel::Flush,
                ),
            final(self).telemetry == old(self).telemetry,
            final(self).video == old(self).video,
    {
        self.stores.stop_recording_all()
    }

    /// Starts recording a video stream: geometry is inferred from its
    /// cached latest frame, so a stream that has no frame yet is refused.
    pub fn start_video_recording(&mut self, key: &str, file_path: String, fps: i32) -> (r: Result<
        (),
        MiddlewareError,
    >)
        requires
            old(self).wf(),
        ensures
            final(self).wf(),
            !has_key(old(self).video.streams@, key@) <==> (r matches Err(e) && e
                == MiddlewareError::NotFound),
            has_key(old(self).video.streams@, key@) ==> ({
                let s = value_at(old(self).video.streams@, key@);
                &&& (s.recording <==> r == Err::<(), MiddlewareError>(
                    MiddlewareError::AlreadyRecording,
                ))
                &&& (!s.recording && s.latest_frame is None <==> r == Err::<(), MiddlewareError>(
                    MiddlewareError::NoFrame,
                ))
                &&& (!s.recording && s.latest_frame is Some <==> r is Ok)
            }),
            r is Ok ==> ({
                let i = crate::keyed::key_index(old(self).video.streams@, key@);
                let pre = old(self).video.streams@;
                let post = final(self).video.streams@;
                &&& post.len() == pre.len()
                &&& forall|j: int| 0 <= j < pre.len() && j != i ==> post[j] == pre[j]
                &&& post[i].0 == pre[i].0
                &&& post[i].1.recording
                &&& post[i].1.frame_count == 0
                &&& (post[i].1.video_path matches Some(p) && p == file_path)
                &&& post[i].1.latest_frame == pre[i].1.latest_frame
                &&& (post[i].1.encoder_id matches Some(id) && crate::video_encoder_manager::pool_has(
                    final(self).video.encoder_pool.encoders@,
                    id,
                ) && crate::video_encoder_manager::enc_queue_model(
                    crate::video_encoder_manager::pool_at(
                        final(self).video.encoder_pool.encoders@,
                        id,
                    ).queue@,
                ) == seq![
                    crate::video_encoder_manager::EncoderCommandModel::Start {
                        path: file_path@,
                        width: pre[i].1.latest_frame.unwrap().width,
                        height: pre[i].1.latest_frame.unwrap().height,
                        fps,
                    },
                ])
            }),
            final(self).telemetry == old(self).telemetry,
            final(self).stores == old(self).stores,
    {
        self.video.start_recording(key, file_path, fps)
    }

    /// Stops recording a video stream, reporting the output path and the
    /// frames counted; a stream that is not recording is refused.
    pub fn stop_video_recording(&mut self, key: &str) -> (r: Result<
        (String, u64),
        MiddlewareError,
    >)
        requires
            old(self).wf(),
        ensures
            final(self).wf(),
            !has_key(old(self).video.streams@, key@) <==> (r matches Err(e) && e
                == MiddlewareError::NotFound),
            has_key(old(self).video.streams@, key@) && !value_at(
                old(self).video.streams@,
                key@,
            ).recording ==> r == Err::<(String, u64), MiddlewareError>(
                MiddlewareError::NotRecording,
            ),
            has_key(old(self).video.streams@, key@) ==> (value_at(
                old(self).video.streams@,
                key@,
            ).recording <==> r is Ok),
            r matches Ok(out) ==> ({
                let i = crate::keyed::key_index(old(self).video.streams@, key@);
                let pre = old(self).video.streams@;
                let post = final(self).video.streams@;
                &&& out.1 == pre[i].1.frame_count
                &&& (pre[i].1.video_path matches Some(p) && out.0@ == p@)
                &&& post.len() == pre.len()
                &&& forall|j: int| 0 <= j < pre.len() && j != i ==> post[j] == pre[j]
                &&& post[i].0 == pre[i].0
                &&& !post[i].1.recording
                &&& post[i].1.encoder_id is None
                &&& post[i].1.frame_count == pre[i].1.frame_count
                &&& post[i].1.latest_frame == pre[i].1.latest_frame
                &&& (pre[i].1.encoder_id matches Some(id) && !crate::video_encoder_manager::pool_has(
                    final(self).video.encoder_pool.encoders@,
                    id,
                ))
            }),
            final(self).telemetry == old(self).telemetry,
            final(self).stores == old(self).stores,
    {
        self.video.stop_recording(key)
    }

    /// Stops every recording video stream, reporting each stream's name,
    /// output path and frame count.
    pub fn stop_all_video_recordings(&mut self) -> (r: Vec<(String, String, u64)>)
        requires
            old(self).wf(),
        ensures
            final(self).wf(),
            final(self).video.streams@.len() == old(self).video.streams@.len(),
            forall|i: int|
                0 <= i < final(self).video.streams@.len() ==> !(#[trigger] final(self).video.streams@[i]).1.recording,
            forall|w: int|
                0 <= w < r@.len() ==> has_key(old(self).video.streams@, #[trigger] r@[w].0@)
                    && value_at(old(self).video.streams@, r@[w].0@).recording && (value_at(
                    old(self).video.streams@,
                    r@[w].0@,
                ).video_path matches Some(p) && r@[w].1@ == p@) && r@[w].2 == value_at(
                    old(self).video.streams@,
                    r@[w].0@,
                ).frame_count,
            forall|j: int|
                0 <= j < old(self).video.streams@.len() && (#[trigger] old(self).video.streams@[j]).1.recording
                    ==> exists|w: int| 0 <= w < r@.len() && #[trigger] r@[w].0@ == old(self).video.streams@[j].0@,
            forall|j: int|
                0 <= j < old(self).video.streams@.len() && !(#[trigger] old(self).video.streams@[j]).1.recording
                    ==> final(self).video.streams@[j] == old(self).video.streams@[j],
            forall|j: int|
                0 <= j < old(self).video.streams@.len() && (#[trigger] old(self).video.streams@[j]).1.recording
                    ==> final(self).video.streams@[j].1.encoder_id is None && final(self).video.streams@[j].1.video_path
                    == old(self).video.streams@[j].1.video_path && final(self).video.streams@[j].1.frame_count
                    == old(self).video.streams@[j].1.frame_count,
            final(self).telemetry == old(self).telemetry,
            final(self).stores == old(self).stores,
    {
        self.video.stop_all_recordings()
    }

    /// Caches a video frame and counts it, creating the stream on first
    /// use; while recording, the frame is offered to the stream's encoder.
    pub fn process_video_frame(&mut self, key: &str, frame: VideoFrame) -> (r: Result<
        (),
        MiddlewareError,
    >)
        requires
            old(self).wf(),
            frame.encodable(),
        ensures
            final(self).wf(),
            r is Ok,
            has_key(final(self).video.streams@, key@),
            ({
                let pre = old(self).video.streams@;
                let post = final(self).video.streams@;
                if has_key(pre, key@) {
                    let i = crate::keyed::key_index(pre, key@);
                    &&& post.len() == pre.len()
                    &&& (post[i].1.latest_frame matches Some(f) && f@ == frame@)
                    &&& post[i].1.frame_count == crate::video_streams::bump64(
                        pre[i].1.frame_count,
                    )
                } else {
                    &&& post.len() == pre.len() + 1
                    &&& post.last().0@ == key@
                    &&& (post.last().1.latest_frame matches Some(f) && f@ == frame@)
                    &&& post.last().1.frame_count == 1
                }
            }),
            final(self).telemetry == old(self).telemetry,
            final(self).stores == old(self).stores,
    {
        self.video.process_frame(key, frame)
    }

    /// Every video stream name.
    pub fn get_video_keys(&self) -> (r: Vec<String>)
        ensures
            r@.len() == self.video.streams@.len(),
            forall|i: int| 0 <= i < r@.len() ==> #[trigger] r@[i]@ == self.video.streams@[i].0@,
    {
        self.video.get_all_keys()
    }

    /// The latest frame of a video stream, re-encoded for transport.
    pub fn get_latest_video_frame(&self, key: &str) -> (r: Option<VideoFrameForFrontend>)
        requires
            self.wf(),
        ensures
            r is Some <==> has_key(self.video.streams@, key@) && value_at(
                self.video.streams@,
                key@,
            ).latest_frame is Some,
            r matches Some(ff) ==> (value_at(self.video.streams@, key@).latest_frame matches Some(
                f,
            ) && ff.data_base64@ == base64_of(f.data@) && ff.timestamp == f.timestamp && ff.width
                == f.width && ff.height == f.height),
    {
        self.video.latest_frame(key)
    }

    /// Discards the samples of one telemetry stream.
    pub fn clear_telemetry_key(&mut self, key: &str)
        requires
            old(self).wf(),
        ensures
            final(self).wf(),
            has_key(old(self).telemetry.streams@, key@) ==> value_at(
                final(self).telemetry.streams@,
                key@,
            ).data@.len() == 0,
            ({
                let pre = old(self).telemetry.streams@;
                let post = final(self).telemetry.streams@;
                if has_key(pre, key@) {
                    let i = crate::keyed::key_index(pre, key@);
                    &&& post.len() == pre.len()
                    &&& forall|j: int| 0 <= j < pre.len() && j != i ==> post[j] == pre[j]
                    &&& post[i].0 == pre[i].0
                    &&& post[i].1.field_keys == pre[i].1.field_keys
                } else {
                    post == pre
                }
            }),
            final(self).telemetry.recording == old(self).telemetry.recording,
            final(self).telemetry.csv_path == old(self).telemetry.csv_path,
            final(self).telemetry.pending == old(self).telemetry.pending,
            final(self).stores == old(self).stores,
            final(self).video == old(self).video,
    {
        let ghost pre = self.telemetry.streams@;
        self.telemetry.clear_key(key);
        proof {
            if has_key(pre, key@) {
                let i = crate::keyed::key_index(pre, key@);
                assert(0 <= i < pre.len() && pre[i].0@ == key@);
                assert(forall|j: int|
                    0 <= j < pre.len() ==> (#[trigger] self.telemetry.streams@[j]).0@ == pre[
                    j].0@);
                crate::keyed::lemma_key_index_agrees(self.telemetry.streams@, key@, i);
            }
        }
    }

    /// Discards every telemetry stream.
    pub fn clear_all_telemetry(&mut self)
        requires
            old(self).wf(),
        ensures
            final(self).wf(),
            final(self).telemetry.streams@.len() == 0,
            final(self).stores == old(self).stores,
            final(self).video == old(self).video,
    {
        self.telemetry.clear_all();
    }

    /// The field names one telemetry stream has ever seen.
    pub fn get_field_keys(&self, key: &str) -> (r: Vec<String>)
        requires
            self.wf(),
        ensures
            Seq::new(r@.len(), |i: int| r@[i]@) == (if has_key(self.telemetry.streams@, key@) {
                crate::telemetry_store::stream_keys(value_at(self.telemetry.streams@, key@))
            } else {
                Seq::<Seq<char>>::empty()
            }),
    {
        self.telemetry.get_field_keys(key)
    }

    /// The union of all field names across telemetry streams.
    pub fn get_all_field_keys(&self) -> (r: Vec<String>)
        requires
            self.wf(),
        ensures
            Seq::new(r@.len(), |i: int| r@[i]@) == crate::telemetry_store::all_field_keys_model(
                self.telemetry.streams@,
            ),
    {
        self.telemetry.get_all_field_keys()
    }

    /// A snapshot of what is being recorded and how much data each store
    /// and stream holds.
    pub fn get_recording_status(&self) -> (r: RecordingStatus)
        requires
            self.wf(),
        ensures
            r.telemetry_recording == self.telemetry.recording,
            r.telemetry_path is Some <==> self.telemetry.csv_path is Some,
            r.telemetry_path matches Some(p) ==> (self.telemetry.csv_path matches Some(q) && p@
                == q@),
            r.telemetry_keys@.len() == self.telemetry.streams@.len(),
            forall|i: int|
                0 <= i < r.telemetry_keys@.len() ==> #[trigger] r.telemetry_keys@[i]@
                    == self.telemetry.streams@[i].0@,
            forall|i: int|
                0 <= i < r.telemetry_counts@.len() ==> #[trigger] r.telemetry_counts@[i].0@
                    == self.telemetry.streams@[i].0@ && r.telemetry_counts@[i].1
                    == self.telemetry.streams@[i].1.data@.len(),
            r.telemetry_counts@.len() == self.telemetry.streams@.len(),
            r.video_keys@.len() == self.video.streams@.len(),
            forall|i: int|
                0 <= i < r.video_keys@.len() ==> #[trigger] r.video_keys@[i]@
                    == self.video.streams@[i].0@,
            forall|i: int|
                0 <= i < r.video_frame_counts@.len() ==> #[trigger] r.video_frame_counts@[i].0@
                    == self.video.streams@[i].0@ && r.video_frame_counts@[i].1
                    == self.video.streams@[i].1.frame_count,
            r.video_frame_counts@.len() == self.video.streams@.len(),
            forall|i: int|
                0 <= i < r.video_recording_keys@.len() ==> has_key(
                    self.video.streams@,
                    #[trigger] r.video_recording_keys@[i]@,
                ) && value_at(self.video.streams@, r.video_recording_keys@[i]@).recording,
            forall|j: int|
                0 <= j < self.video.streams@.len() && (#[trigger] self.video.streams@[j]).1.recording
                    ==> exists|w: int|
                    0 <= w < r.video_recording_keys@.len() && #[trigger] r.video_recording_keys@[
                    w]@ == self.video.streams@[j].0@,
            forall|w: int|
                0 <= w < r.video_paths@.len() ==> has_key(
                    self.video.streams@,
                    #[trigger] r.video_paths@[w].0@,
                ) && (value_at(self.video.streams@, r.video_paths@[w].0@).video_path matches Some(
                    p,
                ) && r.video_paths@[w].1@ == p@),
            forall|j: int|
                0 <= j < self.video.streams@.len() && (#[trigger] self.video.streams@[j]).1.video_path
                    is Some ==> exists|w: int|
                    0 <= w < r.video_paths@.len() && #[trigger] r.video_paths@[w].0@
                    == self.video.streams@[j].0@,
    {
        let mut telemetry_counts: Vec<(String, usize)> = Vec::new();
        let mut i: usize = 0;
        while i < self.telemetry.streams.len()
            invariant
                i <= self.telemetry.streams@.len(),
                telemetry_counts@.len() == i,
                forall|j: int|
                    0 <= j < i ==> #[trigger] telemetry_counts@[j].0@
                        == self.telemetry.streams@[j].0@ && telemetry_counts@[j].1
                        == self.telemetry.streams@[j].1.data@.len(),
            decreases self.telemetry.streams@.len() - i,
        {
            telemetry_counts.push(
                (self.telemetry.streams[i].0.clone(), self.telemetry.streams[i].1.data.len()),
            );
            i += 1;
        }
        let mut video_frame_counts: Vec<(String, u64)> = Vec::new();
        let mut j: usize = 0;
        while j < self.video.streams.len()
            invariant
                j <= self.video.streams@.len(),
                video_frame_counts@.len() == j,
                forall|w: int|
                    0 <= w < j ==> #[trigger] video_frame_counts@[w].0@
                        == self.video.streams@[w].0@ && video_frame_counts@[w].1
                        == self.video.streams@[w].1.frame_count,
            decreases self.video.streams@.len() - j,
        {
            video_frame_counts.push(
                (self.video.streams[j].0.clone(), self.video.streams[j].1.frame_count),
            );
            j += 1;
        }
        RecordingStatus {
            telemetry_recording: self.telemetry.is_recording(),
            telemetry_path: self.telemetry.get_csv_path(),
            video_recording_keys: self.video.get_recording_keys(),
            video_paths: self.video.get_all_video_paths(),
            telemetry_keys: self.telemetry.get_all_keys(),
            telemetry_counts,
            video_keys: self.video.get_all_keys(),
            video_frame_counts,
        }
    }

    /// Stops every recording and asks every store's writer task to flush
    /// and close its file; called by the orchestrating layer on shutdown.
    pub fn cleanup(&mut self)
        requires
            old(self).wf(),
        ensures
            final(self).wf(),
            !final(self).telemetry.recording,
            final(self).telemetry.streams == old(self).telemetry.streams,
            final(self).telemetry.csv_path == old(self).telemetry.csv_path,
            final(self).telemetry.pending == old(self).telemetry.pending,
            final(self).telemetry.max_buffer_size == old(self).telemetry.max_buffer_size,
            final(self).stores.stores@.len() == old(self).stores.stores@.len(),
            forall|i: int|
                0 <= i < old(self).stores.stores@.len() ==> (#[trigger] final(self).stores.stores@[i]).0
                    == old(self).stores.stores@[i].0 && crate::telemetry_stores::signal_store_effect(
                    old(self).stores.stores@[i].1,
                    final(self).stores.stores@[i].1,
                    crate::csv_writer::CommandModel::Stop,
                ),
            final(self).video.streams@.len() == old(self).video.streams@.len(),
            forall|i: int|
                0 <= i < final(self).video.streams@.len() ==> (#[trigger] final(self).video.streams@[i]).0
                    == old(self).video.streams@[i].0 && !final(self).video.streams@[i].1.recording,
            forall|j: int|
                0 <= j < old(self).video.streams@.len() && !(#[trigger] old(self).video.streams@[j]).1.recording
                    ==> final(self).video.streams@[j] == old(self).video.streams@[j],
            forall|j: int|
                0 <= j < old(self).video.streams@.len() && (#[trigger] old(self).video.streams@[j]).1.recording
                    ==> final(self).video.streams@[j].1.encoder_id is None && final(self).video.streams@[j].1.video_path
                    == old(self).video.streams@[j].1.video_path && final(self).video.streams@[j].1.frame_count
                    == old(self).video.streams@[j].1.frame_count,
    {
        let _ = self.telemetry.stop_recording();
        let _ = self.video.stop_all_recordings();
        self.stores.shutdown();
    }
}

impl Default for Middleware {
    fn default() -> (r: Self)
        ensures
            r.wf(),
    {
        Self::new()
    }
}

} // verus!
