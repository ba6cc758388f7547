//! Video streams: a cached latest frame and a frame counter per named
//! stream, with optional recording through the encoder pool.
//!
//! `push_frame` always updates the cache and the counter; while recording it
//! also offers the frame to the stream's encoder, best-effort, so a slow
//! subprocess drops frames instead of stalling the producer.

use vstd::prelude::*;
use crate::errors::MiddlewareError;
use crate::keyed::{entry_names, find_entry, has_key, key_index, lemma_key_index_agrees,
    unique_keys, value_at};
use crate::trusted::{base64_encode, base64_of, now_unix_millis};
use crate::video_encoder_manager::{enc_queue_model, enc_try_send_model, pool_at, pool_effect,
    pool_has, run_actions, tag_actions, tagged_actions_model, EncoderCommandModel,
    EncoderManager};

verus! {

/// One raw video frame: 8-bit RGB pixel data, three bytes per pixel.
#[derive(Debug)]
pub struct VideoFrame {
    /// Milliseconds since the Unix epoch.
    pub timestamp: u64,
    /// Pixel bytes, red, green, blue per pixel, row by row.
    pub data: Vec<u8>,
    /// Frame width in pixels.
    pub width: u32,
    /// Frame height in pixels.
    pub height: u32,
    /// A format tag such as `jpeg` or `raw`.
    pub format: String,
}

/// A frame as specifications see it.
#[verifier::ext_equal]
pub ghost struct FrameModel {
    /// Milliseconds since the Unix epoch.
    pub timestamp: u64,
    /// Pixel bytes.
    pub data: Seq<u8>,
    /// Frame width in pixels.
    pub width: u32,
    /// Frame height in pixels.
    pub height: u32,
    /// The format tag.
    pub format: Seq<char>,
}

impl View for VideoFrame {
    type V = FrameModel;

    open spec fn view(&self) -> FrameModel {
        FrameModel {
            timestamp: self.timestamp,
            data: self.data@,
            width: self.width,
            height: self.height,
            format: self.format@,
        }
    }
}

impl VideoFrame {
    /// The frame's pixel data is small enough for transport encoding: the
    /// base64 buffer-size computation must fit a `usize`.
    pub open spec fn encodable(self) -> bool {
        self.data@.len() / 3 * 4 + 4 <= usize::MAX
    }
}

impl Clone for VideoFrame {
    fn clone(&self) -> (r: Self)
        ensures
            r@ == self@,
    {
        let r = VideoFrame {
            timestamp: self.timestamp,
            data: clone_bytes(&self.data),
            width: self.width,
            height: self.height,
            format: self.format.clone(),
        };
        proof {
            assert(r@ =~= self@);
        }
        r
    }
}

/// Copies a byte vector.
fn clone_bytes(v: &Vec<u8>) -> (r: Vec<u8>)
    ensures
        r@ == v@,
{
    let mut r: Vec<u8> = Vec::new();
    let mut i: usize = 0;
    while i < v.len()
        invariant
            i <= v@.len(),
            r@ =~= v@.take(i as int),
        decreases v@.len() - i,
    {
        r.push(v[i]);
        i += 1;
    }
    proof {
        assert(v@.take(v@.len() as int) =~= v@);
    }
    r
}

/// A frame re-encoded for transport to the presentation layer: the pixel
/// data as base64 text.
#[derive(Debug)]
pub struct VideoFrameForFrontend {
    /// Milliseconds since the Unix epoch.
    pub timestamp: u64,
    /// The pixel bytes, base64-encoded.
    pub data_base64: String,
    /// Frame width in pixels.
    pub width: u32,
    /// Frame height in pixels.
    pub height: u32,
    /// The format tag.
    pub format: String,
}

impl VideoFrame {
    /// Re-encodes this frame for transport: same metadata, pixel data as
    /// base64 text.
    pub fn to_frontend(&self) -> (r: VideoFrameForFrontend)
        requires
            self.encodable(),
        ensures
            r.timestamp == self.timestamp,
            r.data_base64@ == base64_of(self.data@),
            r.width == self.width,
            r.height == self.height,
            r.format@ == self.format@,
    {
        VideoFrameForFrontend {
            timestamp: self.timestamp,
            data_base64: base64_encode(&self.data),
            width: self.width,
            height: self.height,
            format: self.format.clone(),
        }
    }
}

/// A frame from raw pixel data, stamped with the current wall-clock time.
pub fn create_video_frame(data: Vec<u8>, width: u32, height: u32, format: String) -> (r:
    VideoFrame)
    ensures
        r.data == data,
        r.width == width,
        r.height == height,
        r.format == format,
{
    let now = now_unix_millis();
    let timestamp: u64 = if now >= 0 {
        now as u64
    } else {
        0
    };
    VideoFrame { timestamp, data, width, height, format }
}

/// One named stream: the cached latest frame, the frame counter, and the
/// recording state.
pub struct VideoStream {
    /// Whether a recording session is active.
    pub recording: bool,
    /// The output path of the current (or last) recording.
    pub video_path: Option<String>,
    /// Frames pushed since the last recording started.
    pub frame_count: u64,
    /// The most recent frame pushed, if any.
    pub latest_frame: Option<VideoFrame>,
    /// The pool identifier of the active recording's encoder.
    pub encoder_id: Option<u128>,
}

/// A counter bumped by one, staying put at its maximum.
pub open spec fn bump64(n: u64) -> u64 {
    if n < u64::MAX {
        (n + 1) as u64
    } else {
        n
    }
}

impl VideoStream {
    /// The stream's internal invariant: a cached frame is transport-
    /// encodable, and an active recording has an encoder and a path.
    pub open spec fn wf(self) -> bool {
        &&& self.latest_frame matches Some(f) ==> f.encodable()
        &&& self.recording ==> self.encoder_id is Some && self.video_path is Some
    }

    /// An idle stream with no cached frame.
    pub fn new() -> (r: Self)
        ensures
            r.wf(),
            !r.recording,
            r.video_path is None,
            r.frame_count == 0,
            r.latest_frame is None,
            r.encoder_id is None,
    {
        VideoStream {
            recording: false,
            video_path: None,
            frame_count: 0,
            latest_frame: None,
            encoder_id: None,
        }
    }

    /// Starts a recording session: geometry is inferred from the cached
    /// latest frame, so a stream that has never seen a frame is refused.
    pub fn start_recording(
        &mut self,
        path: String,
        fps: i32,
        encoder_pool: &mut EncoderManager,
    ) -> (r: Result<(), MiddlewareError>)
        requires
            old(self).wf(),
            old(encoder_pool).wf(),
        ensures
            final(self).wf(),
            final(encoder_pool).wf(),
            old(self).recording ==> (r == Err::<(), MiddlewareError>(
                MiddlewareError::AlreadyRecording,
            ) && *final(self) == *old(self) && *final(encoder_pool) == *old(encoder_pool)),
            !old(self).recording && old(self).latest_frame is None ==> (r == Err::<
                (),
                MiddlewareError,
            >(MiddlewareError::NoFrame) && *final(self) == *old(self) && *final(encoder_pool)
                == *old(encoder_pool)),
            !old(self).recording && old(self).latest_frame is Some ==> (r is Ok && ({
                let f = old(self).latest_frame.unwrap();
                &&& final(self).recording
                &&& final(self).frame_count == 0
                &&& (final(self).video_path matches Some(p) && p == path)
                &&& final(self).latest_frame == old(self).latest_frame
                &&& (final(self).encoder_id matches Some(id) && pool_has(
                    final(encoder_pool).encoders@,
                    id,
                ) && crate::video_encoder_manager::pool_at(final(encoder_pool).encoders@, id).session
                    == crate::video_encoder_manager::initial_session()
                    && crate::video_encoder_manager::enc_queue_model(
                    crate::video_encoder_manager::pool_at(final(encoder_pool).encoders@, id).queue@,
                ) == seq![
                    EncoderCommandModel::Start {
                        path: path@,
                        width: f.width,
                        height: f.height,
                        fps,
                    },
                ])
                &&& final(encoder_pool).pending_actions == old(encoder_pool).pending_actions
            })),
    {
        if self.recording {
            return Err(MiddlewareError::AlreadyRecording);
        }
        let (width, height) = match &self.latest_frame {
            Some(f) => (f.width, f.height),
            None => {
                return Err(MiddlewareError::NoFrame);
            },
        };
        let encoder_id = encoder_pool.create_encoder();
        let ghost mid = encoder_pool.encoders@;
        let _ = encoder_pool.start(encoder_id, path.clone(), width, height, fps);
        proof {
            let i = crate::video_encoder_manager::pool_index(mid, encoder_id);
            assert(0 <= i < mid.len() && mid[i].0 == encoder_id);
            assert(pool_effect(
                mid,
                encoder_pool.encoders@,
                encoder_id,
                EncoderCommandModel::Start { path: path@, width, height, fps },
            ));
            assert(encoder_pool.encoders@[i].0 == encoder_id);
            crate::video_encoder_manager::lemma_pool_index_agrees(
                encoder_pool.encoders@,
                encoder_id,
                i,
            );
            assert(crate::video_encoder_manager::enc_queue_model(mid[i].1.queue@) =~= Seq::<
                EncoderCommandModel,
            >::empty());
            assert(crate::video_encoder_manager::enc_queue_model(
                encoder_pool.encoders@[i].1.queue@,
            ) =~= seq![EncoderCommandModel::Start { path: path@, width, height, fps }]);
        }
        self.recording = true;
        self.video_path = Some(path);
        self.encoder_id = Some(encoder_id);
        self.frame_count = 0;
        Ok(())
    }

    /// Stops the recording session, releasing its encoder; a stream that is
    /// not recording is refused and left unchanged.
    pub fn stop_recording(&mut self, encoder_pool: &mut EncoderManager) -> (r: Result<
        (String, u64),
        MiddlewareError,
    >)
        requires
            old(self).wf(),
            old(encoder_pool).wf(),
        ensures
            final(self).wf(),
            final(encoder_pool).wf(),
            old(self).recording <==> r is Ok,
            r matches Err(e) ==> e == MiddlewareError::NotRecording && *final(self) == *old(self)
                && *final(encoder_pool) == *old(encoder_pool),
            r matches Ok(out) ==> ({
                &&& !final(self).recording
                &&& final(self).encoder_id is None
                &&& final(self).frame_count == old(self).frame_count
                &&& final(self).latest_frame == old(self).latest_frame
                &&& final(self).video_path == old(self).video_path
                &&& (old(self).video_path matches Some(p) && out.0@ == p@)
                &&& out.1 == old(self).frame_count
                &&& (old(self).encoder_id matches Some(id) && !pool_has(
                    final(encoder_pool).encoders@,
                    id,
                ) && (forall|other: u128|
                    other != id ==> #[trigger] pool_has(final(encoder_pool).encoders@, other)
                        == pool_has(old(encoder_pool).encoders@, other) && (pool_has(
                        old(encoder_pool).encoders@,
                        other,
                    ) ==> pool_at(final(encoder_pool).encoders@, other) == pool_at(
                        old(encoder_pool).encoders@,
                        other,
                    ))) && (pool_has(old(encoder_pool).encoders@, id) ==> ({
                    // the encoder's queued work, a close and a wait reach the
                    // background worker through the pool's pending actions
                    let e = pool_at(old(encoder_pool).encoders@, id);
                    let offered = enc_try_send_model(
                        enc_try_send_model(enc_queue_model(e.queue@), EncoderCommandModel::Stop),
                        EncoderCommandModel::Stop,
                    );
                    tagged_actions_model(final(encoder_pool).pending_actions@)
                        == tagged_actions_model(old(encoder_pool).pending_actions@) + tag_actions(
                        id,
                        run_actions(e.session, offered.push(EncoderCommandModel::Stop)),
                    )
                })))
            }),
    {
        if !self.recording {
            return Err(MiddlewareError::NotRecording);
        }
        let id = match self.encoder_id {
            Some(id) => id,
            None => {
                proof {
                    assert(false);
                }
                return Err(MiddlewareError::NotFound);
            },
        };
        let _ = encoder_pool.stop(id);
        let _ = encoder_pool.remove_encoder(id);
        self.encoder_id = None;
        self.recording = false;
        let path = match &self.video_path {
            Some(p) => p.clone(),
            None => {
                proof {
                    assert(false);
                }
                String::new()
            },
        };
        Ok((path, self.frame_count))
    }

    /// Caches the frame and counts it; while recording, also offers it to
    /// the stream's encoder, best-effort.
    pub fn push_frame(&mut self, frame: VideoFrame, encoder_pool: &mut EncoderManager) -> (r:
        Result<(), MiddlewareError>)
        requires
            old(self).wf(),
            old(encoder_pool).wf(),
            frame.encodable(),
        ensures
            final(self).wf(),
            final(encoder_pool).wf(),
            r is Ok,
            (final(self).latest_frame matches Some(f) && f@ == frame@),
            final(self).frame_count == bump64(old(self).frame_count),
            final(self).recording == old(self).recording,
            final(self).video_path == old(self).video_path,
            final(self).encoder_id == old(self).encoder_id,
            !old(self).recording ==> *final(encoder_pool) == *old(encoder_pool),
            old(self).recording && (old(self).encoder_id matches Some(id) && pool_has(
                old(encoder_pool).encoders@,
                id,
            )) ==> pool_effect(
                old(encoder_pool).encoders@,
                final(encoder_pool).encoders@,
                old(self).encoder_id.unwrap(),
                EncoderCommandModel::Frame(frame@),
            ),
    {
        self.latest_frame = Some(frame.clone());
        if self.frame_count < u64::MAX {
            self.frame_count = self.frame_count + 1;
        }
        if self.recording {
            match self.encoder_id {
                Some(id) => {
                    let _ = encoder_pool.send_frame(id, frame);
                },
                None => {
                    proof {
                        assert(false);
                    }
                },
            }
        }
        Ok(())
    }

    /// The cached latest frame, re-encoded for transport.
    pub fn latest_frame_for_frontend(&self) -> (r: Option<VideoFrameForFrontend>)
        requires
            self.wf(),
        ensures
            r is Some <==> self.latest_frame is Some,
            r matches Some(ff) ==> (self.latest_frame matches Some(f) && ff.timestamp
                == f.timestamp && ff.data_base64@ == base64_of(f.data@) && ff.width == f.width
                && ff.height == f.height && ff.format@ == f.format@),
    {
        match &self.latest_frame {
            Some(f) => Some(f.to_frontend()),
            None => None,
        }
    }
}

/// The total frame count across streams.
pub open spec fn total_frames_model(streams: Seq<(String, VideoStream)>) -> int
    decreases streams.len(),
{
    if streams.len() == 0 {
        0
    } else {
        total_frames_model(streams.drop_last()) + streams.last().1.frame_count
    }
}

/// The total frame count is never negative.
proof fn lemma_total_frames_nonneg(streams: Seq<(String, VideoStream)>)
    ensures
        total_frames_model(streams) >= 0,
    decreases streams.len(),
{
    if streams.len() > 0 {
        lemma_total_frames_nonneg(streams.drop_last());
    }
}

/// The registry of video streams, sharing one encoder pool.
pub struct VideoStreams {
    /// The streams, keyed by name, in creation order.
    pub streams: Vec<(String, VideoStream)>,
    /// The encoder pool shared by every stream's recordings.
    pub encoder_pool: EncoderManager,
}

impl VideoStreams {
    /// The registry's internal invariant.
    pub open spec fn wf(self) -> bool {
        &&& unique_keys(self.streams@)
        &&& forall|i: int| 0 <= i < self.streams@.len() ==> (#[trigger] self.streams@[i]).1.wf()
        &&& self.encoder_pool.wf()
    }

    /// An empty registry around the given encoder pool.
    pub fn new(encoder_pool: EncoderManager) -> (r: Self)
        requires
            encoder_pool.wf(),
        ensures
            r.wf(),
            r.streams@.len() == 0,
            r.encoder_pool == encoder_pool,
    {
        VideoStreams { streams: Vec::new(), encoder_pool }
    }

    /// Creates an idle stream under this name; a no-op when it exists.
    pub fn create_stream(&mut self, name: &str)
        requires
            old(self).wf(),
        ensures
            final(self).wf(),
            has_key(final(self).streams@, name@),
            has_key(old(self).streams@, name@) ==> *final(self) == *old(self),
            !has_key(old(self).streams@, name@) ==> ({
                let pre = old(self).streams@;
                let post = final(self).streams@;
                &&& post.len() == pre.len() + 1
                &&& forall|j: int| 0 <= j < pre.len() ==> post[j] == pre[j]
                &&& post.last().0@ == name@
                &&& post.last().1 == VideoStream {
                    recording: false,
                    video_path: None::<String>,
                    frame_count: 0,
                    latest_frame: None::<VideoFrame>,
                    encoder_id: None::<u128>,
                }
                &&& final(self).encoder_pool == old(self).encoder_pool
            }),
    {
        let ghost pre = self.streams@;
        match find_entry(&self.streams, name) {
            Some(i) => {
                proof {
                    lemma_key_index_agrees(pre, name@, i as int);
                }
            },
            None => {
                self.streams.push((name.to_owned(), VideoStream::new()));
                proof {
                    assert(forall|j: int| 0 <= j < pre.len() ==> (#[trigger] pre[j]).0@ != name@);
                    lemma_key_index_agrees(self.streams@, name@, pre.len() as int);
                    assert(self.wf());
                }
            },
        }
    }

    /// Caches a frame on the named stream and counts it, forwarding it to
    /// the stream's encoder while recording; unknown streams are refused.
    pub fn push_frame(&mut self, name: &str, frame: VideoFrame) -> (r: Result<
        (),
        MiddlewareError,
    >)
        requires
            old(self).wf(),
            frame.encodable(),
        ensures
            final(self).wf(),
            has_key(old(self).streams@, name@) <==> r is Ok,
            r matches Err(e) ==> e == MiddlewareError::NotFound && *final(self) == *old(self),
            r is Ok ==> ({
                let i = key_index(old(self).streams@, name@);
                let pre = old(self).streams@;
                let post = final(self).streams@;
                &&& post.len() == pre.len()
                &&& forall|j: int| 0 <= j < pre.len() && j != i ==> post[j] == pre[j]
                &&& post[i].0 == pre[i].0
                &&& (post[i].1.latest_frame matches Some(f) && f@ == frame@)
                &&& post[i].1.frame_count == bump64(pre[i].1.frame_count)
                &&& post[i].1.recording == pre[i].1.recording
                &&& post[i].1.video_path == pre[i].1.video_path
                &&& post[i].1.encoder_id == pre[i].1.encoder_id
                &&& (!pre[i].1.recording ==> final(self).encoder_pool == old(self).encoder_pool)
                &&& (pre[i].1.recording && (pre[i].1.encoder_id matches Some(id) && pool_has(
                    old(self).encoder_pool.encoders@,
                    id,
                )) ==> pool_effect(
                    old(self).encoder_pool.encoders@,
                    final(self).encoder_pool.encoders@,
                    pre[i].1.encoder_id.unwrap(),
                    EncoderCommandModel::Frame(frame@),
                ))
            }),
    {
        let ghost pre = self.streams@;
        match find_entry(&self.streams, name) {
            Some(i) => {
                let mut entry = self.streams.remove(i);
                let r = entry.1.push_frame(frame, &mut self.encoder_pool);
                self.streams.insert(i, entry);
                proof {
                    lemma_key_index_agrees(pre, name@, i as int);
                    assert(forall|j: int|
                        0 <= j < pre.len() && j != i ==> self.streams@[j] == pre[j]);
                    assert(forall|j: int|
                        0 <= j < pre.len() ==> (#[trigger] self.streams@[j]).0@ == pre[j].0@);
                }
                r
            },
            None => Err(MiddlewareError::NotFound),
        }
    }

    /// Caches a frame as `push_frame` does, creating the stream on first
    /// use.
    pub fn process_frame(&mut self, key: &str, frame: VideoFrame) -> (r: Result<
        (),
        MiddlewareError,
    >)
        requires
            old(self).wf(),
            frame.encodable(),
        ensures
            final(self).wf(),
            r is Ok,
            has_key(final(self).streams@, key@),
            ({
                let pre = old(self).streams@;
                let post = final(self).streams@;
                if has_key(pre, key@) {
                    let i = key_index(pre, key@);
                    &&& post.len() == pre.len()
                    &&& forall|j: int| 0 <= j < pre.len() && j != i ==> post[j] == pre[j]
                    &&& post[i].0 == pre[i].0
                    &&& (post[i].1.latest_frame matches Some(f) && f@ == frame@)
                    &&& post[i].1.frame_count == bump64(pre[i].1.frame_count)
                    &&& post[i].1.recording == pre[i].1.recording
                    &&& post[i].1.video_path == pre[i].1.video_path
                } else {
                    &&& post.len() == pre.len() + 1
                    &&& forall|j: int| 0 <= j < pre.len() ==> post[j] == pre[j]
                    &&& post.last().0@ == key@
                    &&& (post.last().1.latest_frame matches Some(f) && f@ == frame@)
                    &&& post.last().1.frame_count == 1
                    &&& !post.last().1.recording
                    &&& final(self).encoder_pool == old(self).encoder_pool
                }
            }),
    {
        let ghost pre = self.streams@;
        self.create_stream(key);
        let ghost mid = self.streams@;
        let r = self.push_frame(key, frame);
        proof {
            if r is Err {
                assert(false);
            }
            if has_key(pre, key@) {
                let i = key_index(pre, key@);
                lemma_key_index_agrees(pre, key@, i);
                assert(mid == pre);
                lemma_key_index_agrees(mid, key@, i);
            } else {
                lemma_key_index_agrees(mid, key@, pre.len() as int);
                assert(mid.last().1.frame_count == 0);
            }
        }
        r
    }

    /// Starts recording the named stream to `path`: the geometry comes from
    /// the stream's cached latest frame, so a stream that has no frame yet
    /// is refused with an explicit error.
    pub fn start_recording(&mut self, name: &str, path: String, fps: i32) -> (r: Result<
        (),
        MiddlewareError,
    >)
        requires
            old(self).wf(),
        ensures
            final(self).wf(),
            !has_key(old(self).streams@, name@) <==> (r matches Err(e) && e
                == MiddlewareError::NotFound),
            r is Err ==> final(self).streams@ == old(self).streams@ && final(self).encoder_pool
                == old(self).encoder_pool,
            has_key(old(self).streams@, name@) ==> ({
                let s = value_at(old(self).streams@, name@);
                &&& (s.recording <==> r == Err::<(), MiddlewareError>(
                    MiddlewareError::AlreadyRecording,
                ))
                &&& (!s.recording && s.latest_frame is None <==> r == Err::<(), MiddlewareError>(
                    MiddlewareError::NoFrame,
                ))
                &&& (!s.recording && s.latest_frame is Some <==> r is Ok)
            }),
            r is Ok ==> ({
                let i = key_index(old(self).streams@, name@);
                let pre = old(self).streams@;
                let post = final(self).streams@;
                &&& post.len() == pre.len()
                &&& forall|j: int| 0 <= j < pre.len() && j != i ==> post[j] == pre[j]
                &&& post[i].0 == pre[i].0
                &&& post[i].1.recording
                &&& post[i].1.frame_count == 0
                &&& (post[i].1.video_path matches Some(p) && p == path)
                &&& post[i].1.latest_frame == pre[i].1.latest_frame
                &&& (post[i].1.encoder_id matches Some(id) && pool_has(
                    final(self).encoder_pool.encoders@,
                    id,
                ) && pool_at(final(self).encoder_pool.encoders@, id).session
                    == crate::video_encoder_manager::initial_session() && enc_queue_model(
                    pool_at(final(self).encoder_pool.encoders@, id).queue@,
                ) == seq![
                    EncoderCommandModel::Start {
                        path: path@,
                        width: pre[i].1.latest_frame.unwrap().width,
                        height: pre[i].1.latest_frame.unwrap().height,
                        fps,
                    },
                ])
                &&& final(self).encoder_pool.pending_actions == old(self).encoder_pool.pending_actions
            }),
    {
        let ghost pre = self.streams@;
        match find_entry(&self.streams, name) {
            Some(i) => {
                let mut entry = self.streams.remove(i);
                let r = entry.1.start_recording(path, fps, &mut self.encoder_pool);
                self.streams.insert(i, entry);
                proof {
                    lemma_key_index_agrees(pre, name@, i as int);
                    assert(forall|j: int|
                        0 <= j < pre.len() && j != i ==> self.streams@[j] == pre[j]);
                    assert(forall|j: int|
                        0 <= j < pre.len() ==> (#[trigger] self.streams@[j]).0@ == pre[j].0@);
                }
                r
            },
            None => Err(MiddlewareError::NotFound),
        }
    }

    /// Stops recording the named stream, reporting the output path and the
    /// frames counted; a stream that is not recording is refused with
    /// `NotRecording` and left unchanged.
    pub fn stop_recording(&mut self, name: &str) -> (r: Result<(String, u64), MiddlewareError>)
        requires
            old(self).wf(),
        ensures
            final(self).wf(),
            !has_key(old(self).streams@, name@) <==> (r matches Err(e) && e
                == MiddlewareError::NotFound),
            r is Err ==> final(self).streams@ == old(self).streams@ && final(self).encoder_pool
                == old(self).encoder_pool,
            has_key(old(self).streams@, name@) ==> (value_at(old(self).streams@, name@).recording
                <==> r is Ok),
            has_key(old(self).streams@, name@) && !value_at(old(self).streams@, name@).recording
                ==> r == Err::<(String, u64), MiddlewareError>(MiddlewareError::NotRecording),
            r matches Ok(out) ==> ({
                let i = key_index(old(self).streams@, name@);
                let pre = old(self).streams@;
                let post = final(self).streams@;
                &&& post.len() == pre.len()
                &&& forall|j: int| 0 <= j < pre.len() && j != i ==> post[j] == pre[j]
                &&& post[i].0 == pre[i].0
                &&& !post[i].1.recording
                &&& post[i].1.encoder_id is None
                &&& post[i].1.frame_count == pre[i].1.frame_count
                &&& post[i].1.latest_frame == pre[i].1.latest_frame
                &&& (pre[i].1.video_path matches Some(p) && out.0@ == p@)
                &&& out.1 == pre[i].1.frame_count
                &&& (pre[i].1.encoder_id matches Some(id) && !pool_has(
                    final(self).encoder_pool.encoders@,
                    id,
                ) && (forall|other: u128|
                    other != id ==> #[trigger] pool_has(final(self).encoder_pool.encoders@, other)
                        == pool_has(old(self).encoder_pool.encoders@, other)) && (pool_has(
                    old(self).encoder_pool.encoders@,
                    id,
                ) ==> ({
                    // the encoder's queued work, a close and a wait reach the
                    // background worker through the pool's pending actions
                    let e = pool_at(old(self).encoder_pool.encoders@, id);
                    let offered = enc_try_send_model(
                        enc_try_send_model(enc_queue_model(e.queue@), EncoderCommandModel::Stop),
                        EncoderCommandModel::Stop,
                    );
                    tagged_actions_model(final(self).encoder_pool.pending_actions@)
                        == tagged_actions_model(old(self).encoder_pool.pending_actions@)
                        + tag_actions(
                        id,
                        run_actions(e.session, offered.push(EncoderCommandModel::Stop)),
                    )
                })))
            }),
    {
        let ghost pre = self.streams@;
        match find_entry(&self.streams, name) {
            Some(i) => {
                let mut entry = self.streams.remove(i);
                let r = entry.1.stop_recording(&mut self.encoder_pool);
                self.streams.insert(i, entry);
                proof {
                    lemma_key_index_agrees(pre, name@, i as int);
                    assert(forall|j: int|
                        0 <= j < pre.len() && j != i ==> self.streams@[j] == pre[j]);
                    assert(forall|j: int|
                        0 <= j < pre.len() ==> (#[trigger] self.streams@[j]).0@ == pre[j].0@);
                }
                r
            },
            None => Err(MiddlewareError::NotFound),
        }
    }

    /// The named stream's cached latest frame, re-encoded for transport.
    pub fn latest_frame(&self, name: &str) -> (r: Option<VideoFrameForFrontend>)
        requires
            self.wf(),
        ensures
            r is Some <==> has_key(self.streams@, name@) && value_at(
                self.streams@,
                name@,
            ).latest_frame is Some,
            r matches Some(ff) ==> (value_at(self.streams@, name@).latest_frame matches Some(f)
                && ff.timestamp == f.timestamp && ff.data_base64@ == base64_of(f.data@)
                && ff.width == f.width && ff.height == f.height && ff.format@ == f.format@),
    {
        match find_entry(&self.streams, name) {
            Some(i) => {
                proof {
                    lemma_key_index_agrees(self.streams@, name@, i as int);
                }
                self.streams[i].1.latest_frame_for_frontend()
            },
            None => None,
        }
    }

    /// The named stream's cached latest frame, as pushed.
    pub fn get_latest_frame(&self, name: &str) -> (r: Option<VideoFrame>)
        requires
            self.wf(),
        ensures
            r is Some <==> has_key(self.streams@, name@) && value_at(
                self.streams@,
                name@,
            ).latest_frame is Some,
            r matches Some(f) ==> (value_at(self.streams@, name@).latest_frame matches Some(g)
                && f@ == g@),
    {
        match find_entry(&self.streams, name) {
            Some(i) => {
                proof {
                    lemma_key_index_agrees(self.streams@, name@, i as int);
                }
                match &self.streams[i].1.latest_frame {
                    Some(f) => Some(f.clone()),
                    None => None,
                }
            },
            None => None,
        }
    }

    /// The stream names, in creation order.
    pub fn list_streams(&self) -> (r: Vec<String>)
        ensures
            r@.len() == self.streams@.len(),
            forall|i: int| 0 <= i < r@.len() ==> #[trigger] r@[i]@ == self.streams@[i].0@,
    {
        entry_names(&self.streams)
    }

    /// The stream names, in creation order.
    pub fn get_all_keys(&self) -> (r: Vec<String>)
        ensures
            r@.len() == self.streams@.len(),
            forall|i: int| 0 <= i < r@.len() ==> #[trigger] r@[i]@ == self.streams@[i].0@,
    {
        self.list_streams()
    }

    /// Whether a stream with this name exists.
    pub fn has_stream(&self, key: &str) -> (r: bool)
        ensures
            r == has_key(self.streams@, key@),
    {
        find_entry(&self.streams, key).is_some()
    }

    /// Whether the named stream is recording.
    pub fn is_recording(&self, key: &str) -> (r: bool)
        requires
            self.wf(),
        ensures
            r == (has_key(self.streams@, key@) && value_at(self.streams@, key@).recording),
    {
        match find_entry(&self.streams, key) {
            Some(i) => {
                proof {
                    lemma_key_index_agrees(self.streams@, key@, i as int);
                }
                self.streams[i].1.recording
            },
            None => false,
        }
    }

    /// The names of every stream that is recording, in creation order.
    pub fn get_recording_keys(&self) -> (r: Vec<String>)
        requires
            self.wf(),
        ensures
            forall|i: int|
                0 <= i < r@.len() ==> has_key(self.streams@, #[trigger] r@[i]@) && value_at(
                    self.streams@,
                    r@[i]@,
                ).recording,
            forall|j: int|
                0 <= j < self.streams@.len() && (#[trigger] self.streams@[j]).1.recording
                    ==> exists|w: int| 0 <= w < r@.len() && #[trigger] r@[w]@ == self.streams@[
                    j].0@,
    {
        let mut out: Vec<String> = Vec::new();
        let mut i: usize = 0;
        while i < self.streams.len()
            invariant
                i <= self.streams@.len(),
                self.wf(),
                forall|w: int|
                    0 <= w < out@.len() ==> has_key(self.streams@, #[trigger] out@[w]@)
                        && value_at(self.streams@, out@[w]@).recording,
                forall|j: int|
                    0 <= j < i && (#[trigger] self.streams@[j]).1.recording ==> exists|w: int|
                        0 <= w < out@.len() && #[trigger] out@[w]@ == self.streams@[j].0@,
            decreases self.streams@.len() - i,
        {
            if self.streams[i].1.recording {
                proof {
                    lemma_key_index_agrees(self.streams@, self.streams@[i as int].0@, i as int);
                }
                let ghost out_pre = out@;
                let ghost pre_len = out@.len();
                out.push(self.streams[i].0.clone());
                proof {
                    assert(out@[pre_len as int]@ == self.streams@[i as int].0@);
                    assert forall|j: int|
                        0 <= j < i + 1 && (#[trigger] self.streams@[j]).1.recording implies exists|
                        w: int,
                    | 0 <= w < out@.len() && #[trigger] out@[w]@ == self.streams@[j].0@ by {
                        if j < i {
                            let w = choose|w: int|
                                0 <= w < out_pre.len() && #[trigger] out_pre[w]@
                                    == self.streams@[j].0@;
                            assert(out@[w]@ == self.streams@[j].0@);
                        } else {
                            assert(out@[pre_len as int]@ == self.streams@[j].0@);
                        }
                    }
                }
            }
            i += 1;
        }
        out
    }

    /// The named stream's frame count, zero when it does not exist.
    pub fn get_frame_count(&self, key: &str) -> (r: u64)
        requires
            self.wf(),
        ensures
            r == (if has_key(self.streams@, key@) {
                value_at(self.streams@, key@).frame_count
            } else {
                0
            }),
    {
        match find_entry(&self.streams, key) {
            Some(i) => {
                proof {
                    lemma_key_index_agrees(self.streams@, key@, i as int);
                }
                self.streams[i].1.frame_count
            },
            None => 0,
        }
    }

    /// The frame counts of every stream summed, saturating at `u64::MAX`.
    pub fn get_total_frame_count(&self) -> (r: u64)
        requires
            self.wf(),
        ensures
            r == (if total_frames_model(self.streams@) <= u64::MAX {
                total_frames_model(self.streams@)
            } else {
                u64::MAX as int
            }),
    {
        let ghost m = self.streams@;
        let mut total: u64 = 0;
        let mut i: usize = 0;
        while i < self.streams.len()
            invariant
                i <= m.len(),
                m == self.streams@,
                total == (if total_frames_model(m.take(i as int)) <= u64::MAX {
                    total_frames_model(m.take(i as int))
                } else {
                    u64::MAX as int
                }),
            decreases m.len() - i,
        {
            proof {
                assert(m.take(i as int + 1).drop_last() =~= m.take(i as int));
                assert(m.take(i as int + 1).last() == m[i as int]);
                lemma_total_frames_nonneg(m.take(i as int));
            }
            let n = self.streams[i].1.frame_count;
            if n <= u64::MAX - total {
                total = total + n;
            } else {
                total = u64::MAX;
            }
            i += 1;
        }
        proof {
            assert(m.take(m.len() as int) =~= m);
        }
        total
    }

    /// The named stream's cached latest frame, re-encoded for transport.
    pub fn get_latest_frame_base64(&self, key: &str) -> (r: Option<VideoFrameForFrontend>)
        requires
            self.wf(),
        ensures
            r is Some <==> has_key(self.streams@, key@) && value_at(
                self.streams@,
                key@,
            ).latest_frame is Some,
            r matches Some(ff) ==> (value_at(self.streams@, key@).latest_frame matches Some(f)
                && ff.timestamp == f.timestamp && ff.data_base64@ == base64_of(f.data@)
                && ff.width == f.width && ff.height == f.height && ff.format@ == f.format@),
    {
        self.latest_frame(key)
    }

    /// The named stream's recording path, if one was ever set.
    pub fn get_video_path(&self, key: &str) -> (r: Option<String>)
        requires
            self.wf(),
        ensures
            r is Some <==> has_key(self.streams@, key@) && value_at(
                self.streams@,
                key@,
            ).video_path is Some,
            r matches Some(p) ==> (value_at(self.streams@, key@).video_path matches Some(q) && p@
                == q@),
    {
        match find_entry(&self.streams, key) {
            Some(i) => {
                proof {
                    lemma_key_index_agrees(self.streams@, key@, i as int);
                }
                match &self.streams[i].1.video_path {
                    Some(p) => Some(p.clone()),
                    None => None,
                }
            },
            None => None,
        }
    }

    /// Every stream that has a recording path, with that path.
    pub fn get_all_video_paths(&self) -> (r: Vec<(String, String)>)
        requires
            self.wf(),
        ensures
            forall|w: int|
                0 <= w < r@.len() ==> has_key(self.streams@, #[trigger] r@[w].0@) && (value_at(
                    self.streams@,
                    r@[w].0@,
                ).video_path matches Some(p) && r@[w].1@ == p@),
            forall|j: int|
                0 <= j < self.streams@.len() && (#[trigger] self.streams@[j]).1.video_path
                    is Some ==> exists|w: int| 0 <= w < r@.len() && #[trigger] r@[w].0@
                    == self.streams@[j].0@,
    {
        let mut out: Vec<(String, String)> = Vec::new();
        let mut i: usize = 0;
        while i < self.streams.len()
            invariant
                i <= self.streams@.len(),
                self.wf(),
                forall|w: int|
                    0 <= w < out@.len() ==> has_key(self.streams@, #[trigger] out@[w].0@) && (
                    value_at(self.streams@, out@[w].0@).video_path matches Some(p) && out@[w].1@
                        == p@),
                forall|j: int|
                    0 <= j < i && (#[trigger] self.streams@[j]).1.video_path is Some ==> exists|
                        w: int,
                    | 0 <= w < out@.len() && #[trigger] out@[w].0@ == self.streams@[j].0@,
            decreases self.streams@.len() - i,
        {
            match &self.streams[i].1.video_path {
                Some(p) => {
                    proof {
                        lemma_key_index_agrees(
                            self.streams@,
                            self.streams@[i as int].0@,
                            i as int,
                        );
                    }
                    let ghost out_pre = out@;
                    let ghost pre_len = out@.len();
                    out.push((self.streams[i].0.clone(), p.clone()));
                    proof {
                        assert(out@[pre_len as int].0@ == self.streams@[i as int].0@);
                        assert forall|j: int|
                            0 <= j < i + 1 && (#[trigger] self.streams@[j]).1.video_path
                                is Some implies exists|w: int|
                            0 <= w < out@.len() && #[trigger] out@[w].0@ == self.streams@[j].0@ by {
                            if j < i {
                                let w = choose|w: int|
                                    0 <= w < out_pre.len() && #[trigger] out_pre[w].0@
                                        == self.streams@[j].0@;
                                assert(out@[w].0@ == self.streams@[j].0@);
                            } else {
                                assert(out@[pre_len as int].0@ == self.streams@[j].0@);
                            }
                        }
                    }
                },
                None => {},
            }
            i += 1;
        }
        out
    }

    /// The pool identifier of the named stream's active recording.
    pub fn encoder_id_of(&self, key: &str) -> (r: Option<u128>)
        requires
            self.wf(),
        ensures
            r == (if has_key(self.streams@, key@) {
                value_at(self.streams@, key@).encoder_id
            } else {
                None::<u128>
            }),
    {
        match find_entry(&self.streams, key) {
            Some(i) => {
                proof {
                    lemma_key_index_agrees(self.streams@, key@, i as int);
                }
                self.streams[i].1.encoder_id
            },
            None => None,
        }
    }

    /// Runs the pending commands of the encoder carrying `id`, returning the
    /// subprocess actions its background task must perform, in order.
    pub fn drain_encoder(&mut self, id: u128) -> (r: Result<
        Vec<crate::video_encoder_manager::EncoderAction>,
        MiddlewareError,
    >)
        requires
            old(self).wf(),
        ensures
            final(self).wf(),
            final(self).streams == old(self).streams,
            pool_has(old(self).encoder_pool.encoders@, id) <==> r is Ok,
            r matches Err(e) ==> e == MiddlewareError::NotFound,
            r matches Ok(out) ==> ({
                let i = crate::video_encoder_manager::pool_index(
                    old(self).encoder_pool.encoders@,
                    id,
                );
                let pre = old(self).encoder_pool.encoders@;
                let post = final(self).encoder_pool.encoders@;
                &&& post.len() == pre.len()
                &&& forall|j: int| 0 <= j < pre.len() && j != i ==> post[j] == pre[j]
                &&& post[i].1.queue@.len() == 0
                &&& post[i].1.session == crate::video_encoder_manager::run_session(
                    pre[i].1.session,
                    enc_queue_model(pre[i].1.queue@),
                )
                &&& crate::video_encoder_manager::actions_model(out@) == run_actions(
                    pre[i].1.session,
                    enc_queue_model(pre[i].1.queue@),
                )
            }),
            final(self).encoder_pool.pending_actions == old(self).encoder_pool.pending_actions,
    {
        self.encoder_pool.drain(id)
    }


    /// Stops every recording stream, reporting for each its name, output
    /// path and frame count.
    pub fn stop_all_recordings(&mut self) -> (r: Vec<(String, String, u64)>)
        requires
            old(self).wf(),
        ensures
            final(self).wf(),
            final(self).streams@.len() == old(self).streams@.len(),
            forall|i: int|
                0 <= i < final(self).streams@.len() ==> (#[trigger] final(self).streams@[i]).0
                    == old(self).streams@[i].0 && !final(self).streams@[i].1.recording,
            forall|w: int|
                0 <= w < r@.len() ==> has_key(old(self).streams@, #[trigger] r@[w].0@)
                    && value_at(old(self).streams@, r@[w].0@).recording && (value_at(
                    old(self).streams@,
                    r@[w].0@,
                ).video_path matches Some(p) && r@[w].1@ == p@) && r@[w].2 == value_at(
                    old(self).streams@,
                    r@[w].0@,
                ).frame_count,
            forall|j: int|
                0 <= j < old(self).streams@.len() && (#[trigger] old(self).streams@[j]).1.recording
                    ==> exists|w: int| 0 <= w < r@.len() && #[trigger] r@[w].0@ == old(self).streams@[j].0@,
            forall|j: int|
                0 <= j < old(self).streams@.len() && !(#[trigger] old(self).streams@[j]).1.recording ==> final(self).streams@[j] == old(self).streams@[j],
            forall|j: int|
                0 <= j < old(self).streams@.len() && (#[trigger] old(self).streams@[j]).1.recording
                    ==> final(self).streams@[j].1.encoder_id is None && final(self).streams@[j].1.video_path == old(self).streams@[j].1.video_path && final(self).streams@[j].1.frame_count == old(self).streams@[j].1.frame_count && final(self).streams@[j].1.latest_frame == old(self).streams@[j].1.latest_frame,
            forall|j: int|
                0 <= j < old(self).streams@.len() && (#[trigger] old(self).streams@[j]).1.recording
                    ==> (old(self).streams@[j].1.encoder_id matches Some(id) ==> !pool_has(
                    final(self).encoder_pool.encoders@,
                    id,
                )),
    {
        let ghost pre = self.streams@;
        let mut out: Vec<(String, String, u64)> = Vec::new();
        let mut i: usize = 0;
        while i < self.streams.len()
            invariant
                i <= pre.len(),
                pre == old(self).streams@,
                self.streams@.len() == pre.len(),
                self.wf(),
                unique_keys(pre),
                forall|j: int|
                    0 <= j < pre.len() ==> (#[trigger] self.streams@[j]).0 == pre[j].0,
                forall|j: int| 0 <= j < i ==> !(#[trigger] self.streams@[j]).1.recording,
                forall|j: int| i <= j < pre.len() ==> #[trigger] self.streams@[j] == pre[j],
                forall|j: int|
                    0 <= j < i && !(#[trigger] pre[j]).1.recording ==> self.streams@[j] == pre[j],
                forall|j: int|
                    0 <= j < i && (#[trigger] pre[j]).1.recording ==> self.streams@[
                    j].1.encoder_id is None && self.streams@[j].1.video_path
                        == pre[j].1.video_path && self.streams@[j].1.frame_count
                        == pre[j].1.frame_count && self.streams@[j].1.latest_frame
                        == pre[j].1.latest_frame,
                forall|j: int|
                    0 <= j < i && (#[trigger] pre[j]).1.recording ==> (pre[j].1.encoder_id
                        matches Some(id) ==> !pool_has(self.encoder_pool.encoders@, id)),
                forall|w: int|
                    0 <= w < out@.len() ==> has_key(pre, #[trigger] out@[w].0@) && value_at(
                        pre,
                        out@[w].0@,
                    ).recording && (value_at(pre, out@[w].0@).video_path matches Some(p)
                        && out@[w].1@ == p@) && out@[w].2 == value_at(pre, out@[w].0@).frame_count,
                forall|j: int|
                    0 <= j < i && (#[trigger] pre[j]).1.recording ==> exists|w: int|
                        0 <= w < out@.len() && #[trigger] out@[w].0@ == pre[j].0@,
            decreases pre.len() - i,
        {
            let ghost loop_pre = self.streams@;
            if self.streams[i].1.recording {
                let name = self.streams[i].0.clone();
                let count = self.streams[i].1.frame_count;
                let mut entry = self.streams.remove(i);
                let stopped = entry.1.stop_recording(&mut self.encoder_pool);
                self.streams.insert(i, entry);
                proof {
                    assert(forall|j: int|
                        0 <= j < pre.len() && j != i ==> self.streams@[j] == loop_pre[j]);
                    assert(forall|j: int|
                        0 <= j < pre.len() ==> (#[trigger] self.streams@[j]).0 == loop_pre[j].0);
                    lemma_key_index_agrees(pre, pre[i as int].0@, i as int);
                }
                match stopped {
                    Ok(path_and_count) => {
                        let ghost out_pre = out@;
                        let ghost pre_len = out@.len();
                        out.push((name, path_and_count.0, path_and_count.1));
                        proof {
                            assert(out@[pre_len as int].0@ == pre[i as int].0@);
                            assert forall|j: int|
                                0 <= j < i + 1 && (#[trigger] pre[j]).1.recording implies exists|
                                w: int,
                            | 0 <= w < out@.len() && #[trigger] out@[w].0@ == pre[j].0@ by {
                                if j < i {
                                    let w = choose|w: int|
                                        0 <= w < out_pre.len() && #[trigger] out_pre[w].0@ == pre[
                                        j].0@;
                                    assert(out@[w].0@ == pre[j].0@);
                                }
                            }
                        }
                    },
                    Err(_) => {
                        proof {
                            assert(false);
                        }
                    },
                }
            }
            i += 1;
        }
        out
    }

    /// Stops every stream that is currently recording: each such stream
    /// ends idle with its encoder removed (its teardown actions waiting for
    /// the background worker), streams that were not recording are left
    /// untouched.
    pub fn shutdown(&mut self)
        requires
            old(self).wf(),
        ensures
            final(self).wf(),
            final(self).streams@.len() == old(self).streams@.len(),
            forall|i: int|
                0 <= i < final(self).streams@.len() ==> (#[trigger] final(self).streams@[i]).0
                    == old(self).streams@[i].0 && !final(self).streams@[i].1.recording,
            forall|j: int|
                0 <= j < old(self).streams@.len() && !(#[trigger] old(self).streams@[j]).1.recording ==> final(self).streams@[j] == old(self).streams@[j],
            forall|j: int|
                0 <= j < old(self).streams@.len() && (#[trigger] old(self).streams@[j]).1.recording
                    ==> final(self).streams@[j].1.encoder_id is None && final(self).streams@[j].1.video_path == old(self).streams@[j].1.video_path && final(self).streams@[j].1.frame_count == old(self).streams@[j].1.frame_count,
            forall|j: int|
                0 <= j < old(self).streams@.len() && (#[trigger] old(self).streams@[j]).1.recording
                    ==> (old(self).streams@[j].1.encoder_id matches Some(id) ==> !pool_has(
                    final(self).encoder_pool.encoders@,
                    id,
                )),
    {
        let _ = self.stop_all_recordings();
    }

    /// Hands the removed encoders' waiting teardown actions to the caller,
    /// oldest first; the background worker performs them.
    pub fn take_encoder_actions(&mut self) -> (out: Vec<(
        u128,
        crate::video_encoder_manager::EncoderAction,
    )>)
        requires
            old(self).wf(),
        ensures
            final(self).wf(),
            out == old(self).encoder_pool.pending_actions,
            final(self).encoder_pool.pending_actions@.len() == 0,
            final(self).encoder_pool.encoders == old(self).encoder_pool.encoders,
            final(self).streams == old(self).streams,
    {
        self.encoder_pool.take_pending_actions()
    }
}

} // verus!
