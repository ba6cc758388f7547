//! The encoder pool: one subprocess-backed MJPEG encoding session per active
//! recording, driven through a bounded command queue.
//!
//! The session's decision logic is here and verified: a `Start` fixes the
//! geometry and asks for a subprocess, a `Frame` is written only when its
//! byte length matches `width * height * 3` (mismatches are counted and
//! dropped, never fatal), and a `Stop` closes the subprocess's input and
//! waits for it.  The background task performing the subprocess I/O obtains
//! its marching orders from `drain`, so its behaviour is verified against
//! the spec-level transition functions.

use vstd::prelude::*;
use crate::errors::MiddlewareError;
use crate::trusted::fresh_encoder_id;
use crate::video_streams::{FrameModel, VideoFrame};

verus! {

/// How many commands an encoder's queue holds before commands are dropped.
pub const ENCODER_QUEUE_CAPACITY: usize = 32;

/// A command for one encoder's background task.
pub enum EncoderCommand {
    /// Spawn the subprocess for this geometry, rate and output path.
    Start { path: String, width: u32, height: u32, fps: i32 },
    /// Feed one frame to the subprocess.
    Frame(VideoFrame),
    /// Close the subprocess's input and wait for it to exit.
    Stop,
}

/// A command as the session model sees it.
pub ghost enum EncoderCommandModel {
    /// Spawn the subprocess for this geometry, rate and output path.
    Start { path: Seq<char>, width: u32, height: u32, fps: i32 },
    /// Feed one frame to the subprocess.
    Frame(FrameModel),
    /// Close the subprocess's input and wait for it to exit.
    Stop,
}

impl View for EncoderCommand {
    type V = EncoderCommandModel;

    open spec fn view(&self) -> EncoderCommandModel {
        match self {
            EncoderCommand::Start { path, width, height, fps } => EncoderCommandModel::Start {
                path: path@,
                width: *width,
                height: *height,
                fps: *fps,
            },
            EncoderCommand::Frame(f) => EncoderCommandModel::Frame(f@),
            EncoderCommand::Stop => EncoderCommandModel::Stop,
        }
    }
}

/// What the background task must do after one command is processed.
pub enum EncoderAction {
    /// Spawn the encoding subprocess.
    Spawn { path: String, width: u32, height: u32, fps: i32 },
    /// Write these raw RGB bytes to the subprocess's input.
    WriteFrame(Vec<u8>),
    /// Close the subprocess's input and wait for it to exit.
    CloseAndWait,
    /// Nothing to do.
    Nothing,
}

/// An action as the session model sees it.
pub ghost enum ActionModel {
    /// Spawn the encoding subprocess.
    Spawn { path: Seq<char>, width: u32, height: u32, fps: i32 },
    /// Write these raw RGB bytes to the subprocess's input.
    WriteFrame(Seq<u8>),
    /// Close the subprocess's input and wait for it to exit.
    CloseAndWait,
    /// Nothing to do.
    Nothing,
}

impl View for EncoderAction {
    type V = ActionModel;

    open spec fn view(&self) -> ActionModel {
        match self {
            EncoderAction::Spawn { path, width, height, fps } => ActionModel::Spawn {
                path: path@,
                width: *width,
                height: *height,
                fps: *fps,
            },
            EncoderAction::WriteFrame(bytes) => ActionModel::WriteFrame(bytes@),
            EncoderAction::CloseAndWait => ActionModel::CloseAndWait,
            EncoderAction::Nothing => ActionModel::Nothing,
        }
    }
}

/// The session state of one encoder task.
#[derive(Clone, Copy, Debug, PartialEq, Eq, Structural)]
pub struct EncoderSession {
    /// Whether a subprocess has been started and not yet stopped.
    pub running: bool,
    /// The frame width fixed at `Start`.
    pub width: u32,
    /// The frame height fixed at `Start`.
    pub height: u32,
    /// The frame rate fixed at `Start`.
    pub fps: i32,
    /// Frames whose bytes were handed to the subprocess.
    pub frames_written: u64,
    /// Frames dropped because their byte length did not match the geometry.
    pub frames_rejected: u64,
}

/// The byte length a frame must have under this geometry: three bytes per
/// pixel, red, green, blue.
pub open spec fn expected_len(width: u32, height: u32) -> int {
    (width as int) * (height as int) * 3
}

/// A counter bumped by one, staying put at its maximum.
pub open spec fn bump(n: u64) -> u64 {
    if n < u64::MAX {
        (n + 1) as u64
    } else {
        n
    }
}

/// The session state after one command.
pub open spec fn session_next(s: EncoderSession, c: EncoderCommandModel) -> EncoderSession {
    match c {
        EncoderCommandModel::Start { path, width, height, fps } => if s.running {
            s
        } else {
            EncoderSession { running: true, width, height, fps, ..s }
        },
        EncoderCommandModel::Frame(f) => if !s.running {
            s
        } else if f.data.len() == expected_len(s.width, s.height) {
            EncoderSession { frames_written: bump(s.frames_written), ..s }
        } else {
            EncoderSession { frames_rejected: bump(s.frames_rejected), ..s }
        },
        EncoderCommandModel::Stop => EncoderSession { running: false, ..s },
    }
}

/// Whether one command makes the task write the frame's bytes: only a frame
/// of exactly the configured `width * height * 3` bytes, only while running.
pub open spec fn session_writes(s: EncoderSession, c: EncoderCommandModel) -> bool {
    c matches EncoderCommandModel::Frame(f) && s.running && f.data.len() == expected_len(
        s.width,
        s.height,
    )
}

/// The action one command makes the background task perform: spawn on the
/// `Start` that begins a session, write exactly the frame's bytes for a
/// well-sized frame while running, close-and-wait on the `Stop` that ends a
/// session, and nothing otherwise.
pub open spec fn action_of(s: EncoderSession, c: EncoderCommandModel) -> ActionModel {
    match c {
        EncoderCommandModel::Start { path, width, height, fps } => if s.running {
            ActionModel::Nothing
        } else {
            ActionModel::Spawn { path, width, height, fps }
        },
        EncoderCommandModel::Frame(f) => if s.running && f.data.len() == expected_len(
            s.width,
            s.height,
        ) {
            ActionModel::WriteFrame(f.data)
        } else {
            ActionModel::Nothing
        },
        EncoderCommandModel::Stop => if s.running {
            ActionModel::CloseAndWait
        } else {
            ActionModel::Nothing
        },
    }
}

/// The actions a run of commands makes the task perform, in order.
pub open spec fn run_actions(s: EncoderSession, cs: Seq<EncoderCommandModel>) -> Seq<ActionModel>
    decreases cs.len(),
{
    if cs.len() == 0 {
        Seq::empty()
    } else {
        run_actions(s, cs.drop_last()).push(action_of(run_session(s, cs.drop_last()), cs.last()))
    }
}

/// The views of a run of actions.
pub open spec fn actions_model(acts: Seq<EncoderAction>) -> Seq<ActionModel> {
    Seq::new(acts.len(), |i: int| acts[i]@)
}

/// A session that has processed nothing.
pub open spec fn initial_session() -> EncoderSession {
    EncoderSession {
        running: false,
        width: 0,
        height: 0,
        fps: 0,
        frames_written: 0,
        frames_rejected: 0,
    }
}

impl EncoderSession {
    /// A session that has processed nothing.
    pub fn new() -> (r: Self)
        ensures
            r == initial_session(),
    {
        EncoderSession {
            running: false,
            width: 0,
            height: 0,
            fps: 0,
            frames_written: 0,
            frames_rejected: 0,
        }
    }

    /// Processes one command, returning what the background task must do.
    /// A frame whose byte length does not match `width * height * 3` is
    /// counted as rejected and never written; it leaves the rest of the
    /// state untouched, so later valid frames are unaffected.
    pub fn apply(&mut self, cmd: EncoderCommand) -> (act: EncoderAction)
        ensures
            *final(self) == session_next(*old(self), cmd@),
            act@ == action_of(*old(self), cmd@),
            session_writes(*old(self), cmd@) <==> act is WriteFrame,
            act matches EncoderAction::WriteFrame(bytes) ==> (cmd@ matches EncoderCommandModel::Frame(f)
                && bytes@ == f.data && bytes@.len() == expected_len(
                old(self).width,
                old(self).height,
            )),
            act is Spawn <==> (cmd@ is Start && !old(self).running),
            act matches EncoderAction::Spawn { path, width, height, fps } ==> cmd@ == (EncoderCommandModel::Start {
                path: path@,
                width,
                height,
                fps,
            }),
            act is CloseAndWait <==> (cmd@ is Stop && old(self).running),
    {
        match cmd {
            EncoderCommand::Start { path, width, height, fps } => {
                if self.running {
                    EncoderAction::Nothing
                } else {
                    self.running = true;
                    self.width = width;
                    self.height = height;
                    self.fps = fps;
                    EncoderAction::Spawn { path, width, height, fps }
                }
            },
            EncoderCommand::Frame(frame) => {
                if !self.running {
                    EncoderAction::Nothing
                } else {
                    proof {
                        let w = self.width as int;
                        let h = self.height as int;
                        assert(w * h * 3 <= 0xffff_ffff * 0xffff_ffff * 3) by (nonlinear_arith)
                            requires
                                0 <= w <= 0xffff_ffff,
                                0 <= h <= 0xffff_ffff,
                        ;
                    }
                    let expected: u128 = (self.width as u128) * (self.height as u128) * 3;
                    if frame.data.len() as u128 == expected {
                        if self.frames_written < u64::MAX {
                            self.frames_written = self.frames_written + 1;
                        }
                        EncoderAction::WriteFrame(frame.data)
                    } else {
                        if self.frames_rejected < u64::MAX {
                            self.frames_rejected = self.frames_rejected + 1;
                        }
                        EncoderAction::Nothing
                    }
                }
            },
            EncoderCommand::Stop => {
                let was_running = self.running;
                self.running = false;
                if was_running {
                    EncoderAction::CloseAndWait
                } else {
                    EncoderAction::Nothing
                }
            },
        }
    }
}

/// The frame bytes a run of actions writes, in order.
pub open spec fn written_bytes(acts: Seq<ActionModel>) -> Seq<Seq<u8>>
    decreases acts.len(),
{
    if acts.len() == 0 {
        Seq::empty()
    } else {
        let rest = written_bytes(acts.drop_last());
        match acts.last() {
            ActionModel::WriteFrame(b) => rest.push(b),
            _ => rest,
        }
    }
}

/// The data of the frames whose byte length matches the geometry, in order.
pub open spec fn kept_frames(frames: Seq<FrameModel>, width: u32, height: u32) -> Seq<Seq<u8>>
    decreases frames.len(),
{
    if frames.len() == 0 {
        Seq::empty()
    } else {
        let rest = kept_frames(frames.drop_last(), width, height);
        if frames.last().data.len() == expected_len(width, height) {
            rest.push(frames.last().data)
        } else {
            rest
        }
    }
}

/// Running a run of commands splits at any point: the session threads
/// through, and the actions concatenate.
proof fn lemma_run_append(s: EncoderSession, a: Seq<EncoderCommandModel>, b: Seq<
    EncoderCommandModel,
>)
    ensures
        run_session(s, a + b) == run_session(run_session(s, a), b),
        run_actions(s, a + b) == run_actions(s, a) + run_actions(run_session(s, a), b),
    decreases b.len(),
{
    if b.len() == 0 {
        assert(a + b =~= a);
        assert(run_actions(s, a) + run_actions(run_session(s, a), b) =~= run_actions(s, a));
    } else {
        lemma_run_append(s, a, b.drop_last());
        assert((a + b).drop_last() =~= a + b.drop_last());
        assert((a + b).last() == b.last());
        assert(run_actions(s, a + b) =~= run_actions(s, a) + run_actions(run_session(s, a), b));
    }
}

/// Feeding only frames to a running session keeps it running with its
/// geometry, and writes exactly the well-sized frames' data, in order.
proof fn lemma_frames_feed(s: EncoderSession, frames: Seq<FrameModel>)
    requires
        s.running,
    ensures
        ({
            let cmds = frames.map_values(|f| EncoderCommandModel::Frame(f));
            let s2 = run_session(s, cmds);
            &&& s2.running
            &&& s2.width == s.width
            &&& s2.height == s.height
            &&& s2.fps == s.fps
            &&& run_actions(s, cmds).len() == frames.len()
            &&& written_bytes(run_actions(s, cmds)) == kept_frames(frames, s.width, s.height)
        }),
    decreases frames.len(),
{
    let cmds = frames.map_values(|f| EncoderCommandModel::Frame(f));
    if frames.len() == 0 {
        assert(written_bytes(run_actions(s, cmds)) =~= kept_frames(frames, s.width, s.height));
    } else {
        lemma_frames_feed(s, frames.drop_last());
        let shorter = frames.drop_last().map_values(|f| EncoderCommandModel::Frame(f));
        assert(cmds.drop_last() =~= shorter);
        assert(cmds.last() == EncoderCommandModel::Frame(frames.last()));
        let s1 = run_session(s, shorter);
        assert(run_actions(s, cmds) == run_actions(s, shorter).push(
            action_of(s1, cmds.last()),
        ));
        assert(written_bytes(run_actions(s, cmds)) =~= kept_frames(
            frames,
            s.width,
            s.height,
        )) by {
            assert(run_actions(s, cmds).drop_last() =~= run_actions(s, shorter));
        }
    }
}

/// Delivery law: for a session fed `Start` with a geometry, then a run of
/// frames, then `Stop`, the task's first action spawns the subprocess, its
/// last closes the subprocess's input and waits for its exit, and the bytes
/// written in between are exactly the data of the frames whose length
/// matches `width * height * 3`, in arrival order — mismatched frames are
/// never written.
pub proof fn lemma_frames_delivered_in_order(
    path: Seq<char>,
    width: u32,
    height: u32,
    fps: i32,
    frames: Seq<FrameModel>,
)
    ensures
        ({
            let cmds = seq![EncoderCommandModel::Start { path, width, height, fps }]
                + frames.map_values(|f| EncoderCommandModel::Frame(f)) + seq![
                EncoderCommandModel::Stop,
            ];
            let acts = run_actions(initial_session(), cmds);
            &&& acts.len() == frames.len() + 2
            &&& acts[0] == (ActionModel::Spawn { path, width, height, fps })
            &&& acts.last() == ActionModel::CloseAndWait
            &&& written_bytes(acts) == kept_frames(frames, width, height)
        }),
{
    let start = seq![EncoderCommandModel::Start { path, width, height, fps }];
    let middle = frames.map_values(|f| EncoderCommandModel::Frame(f));
    let stop = seq![EncoderCommandModel::Stop];
    let cmds = start + middle + stop;

    // the opening Start spawns and leaves a running session
    assert(start.drop_last() =~= Seq::<EncoderCommandModel>::empty());
    assert(start.drop_last() == Seq::<EncoderCommandModel>::empty());
    assert(start.last() == (EncoderCommandModel::Start { path, width, height, fps }));
    assert(run_session(initial_session(), Seq::<EncoderCommandModel>::empty())
        == initial_session());
    assert(run_actions(initial_session(), Seq::<EncoderCommandModel>::empty()) =~= Seq::<
        ActionModel,
    >::empty());
    let s1 = run_session(initial_session(), start);
    assert(action_of(initial_session(), EncoderCommandModel::Start { path, width, height, fps })
        == (ActionModel::Spawn { path, width, height, fps }));
    assert(run_actions(initial_session(), start) =~= seq![
        ActionModel::Spawn { path, width, height, fps },
    ]);
    assert(s1.running && s1.width == width && s1.height == height && s1.fps == fps);

    // the frames in the middle
    lemma_frames_feed(s1, frames);
    let s2 = run_session(s1, middle);
    lemma_run_append(initial_session(), start, middle);

    // the closing Stop
    assert(stop.drop_last() =~= Seq::<EncoderCommandModel>::empty());
    assert(stop.drop_last() == Seq::<EncoderCommandModel>::empty());
    assert(stop.last() == EncoderCommandModel::Stop);
    assert(run_session(s2, Seq::<EncoderCommandModel>::empty()) == s2);
    assert(run_actions(s2, Seq::<EncoderCommandModel>::empty()) =~= Seq::<ActionModel>::empty());
    assert(action_of(s2, EncoderCommandModel::Stop) == ActionModel::CloseAndWait);
    assert(run_actions(s2, stop) =~= seq![ActionModel::CloseAndWait]);
    lemma_run_append(initial_session(), start + middle, stop);
    assert(cmds =~= (start + middle) + stop);

    let acts = run_actions(initial_session(), cmds);
    assert(acts =~= seq![ActionModel::Spawn { path, width, height, fps }] + run_actions(
        s1,
        middle,
    ) + seq![ActionModel::CloseAndWait]);
    lemma_written_bytes_append(
        seq![ActionModel::Spawn { path, width, height, fps }] + run_actions(s1, middle),
        seq![ActionModel::CloseAndWait],
    );
    lemma_written_bytes_append(
        seq![ActionModel::Spawn { path, width, height, fps }],
        run_actions(s1, middle),
    );
    assert(written_bytes(seq![ActionModel::Spawn { path, width, height, fps }]) =~= Seq::<
        Seq<u8>,
    >::empty()) by {
        let one = seq![ActionModel::Spawn { path, width, height, fps }];
        assert(one.drop_last() =~= Seq::<ActionModel>::empty());
        assert(one.drop_last() == Seq::<ActionModel>::empty());
        assert(one.last() == (ActionModel::Spawn { path, width, height, fps }));
        assert(written_bytes(Seq::<ActionModel>::empty()) =~= Seq::<Seq<u8>>::empty());
    }
    assert(written_bytes(seq![ActionModel::CloseAndWait]) =~= Seq::<Seq<u8>>::empty()) by {
        let one = seq![ActionModel::CloseAndWait];
        assert(one.drop_last() =~= Seq::<ActionModel>::empty());
        assert(one.drop_last() == Seq::<ActionModel>::empty());
        assert(one.last() == ActionModel::CloseAndWait);
        assert(written_bytes(Seq::<ActionModel>::empty()) =~= Seq::<Seq<u8>>::empty());
    }
    assert((seq![ActionModel::Spawn { path, width, height, fps }] + run_actions(s1, middle))
        + seq![ActionModel::CloseAndWait] =~= acts);
    assert(written_bytes(acts) =~= kept_frames(frames, width, height));
}

/// Written bytes concatenate over action runs.
proof fn lemma_written_bytes_append(a: Seq<ActionModel>, b: Seq<ActionModel>)
    ensures
        written_bytes(a + b) == written_bytes(a) + written_bytes(b),
    decreases b.len(),
{
    if b.len() == 0 {
        assert(a + b =~= a);
        assert(written_bytes(a) + written_bytes(b) =~= written_bytes(a));
    } else {
        lemma_written_bytes_append(a, b.drop_last());
        assert((a + b).drop_last() =~= a + b.drop_last());
        assert((a + b).last() == b.last());
        match b.last() {
            ActionModel::WriteFrame(bytes) => {
                assert(written_bytes(a + b) =~= written_bytes(a) + written_bytes(b));
            },
            _ => {
                assert(written_bytes(a + b) =~= written_bytes(a) + written_bytes(b));
            },
        }
    }
}

/// The commands an encoder queue holds, oldest first.
pub open spec fn enc_queue_model(q: Seq<EncoderCommand>) -> Seq<EncoderCommandModel> {
    Seq::new(q.len(), |i: int| q[i]@)
}

/// A best-effort enqueue: appended when there is room, dropped when not.
pub open spec fn enc_try_send_model(
    q: Seq<EncoderCommandModel>,
    c: EncoderCommandModel,
) -> Seq<EncoderCommandModel> {
    if q.len() < ENCODER_QUEUE_CAPACITY {
        q.push(c)
    } else {
        q
    }
}

/// The session after a run of commands, applied in order.
pub open spec fn run_session(s: EncoderSession, cs: Seq<EncoderCommandModel>) -> EncoderSession
    decreases cs.len(),
{
    if cs.len() == 0 {
        s
    } else {
        session_next(run_session(s, cs.drop_last()), cs.last())
    }
}

/// One encoder: its pending commands and its task's session state.
pub struct VideoEncoder {
    /// Commands awaiting the background task, oldest first.
    pub queue: Vec<EncoderCommand>,
    /// The background task's session state.
    pub session: EncoderSession,
}

impl VideoEncoder {
    /// The queue is bounded.
    pub open spec fn wf(self) -> bool {
        self.queue@.len() <= ENCODER_QUEUE_CAPACITY
    }

    /// A fresh encoder with an idle task.
    pub fn new() -> (r: Self)
        ensures
            r.wf(),
            r.queue@.len() == 0,
            r.session == initial_session(),
    {
        VideoEncoder { queue: Vec::new(), session: EncoderSession::new() }
    }

    /// Best-effort enqueue: the command is dropped when the queue is full,
    /// so a slow subprocess never stalls the caller.
    fn try_send(&mut self, cmd: EncoderCommand)
        requires
            old(self).wf(),
        ensures
            final(self).wf(),
            enc_queue_model(final(self).queue@) == enc_try_send_model(
                enc_queue_model(old(self).queue@),
                cmd@,
            ),
            final(self).session == old(self).session,
    {
        if self.queue.len() < ENCODER_QUEUE_CAPACITY {
            self.queue.push(cmd);
            proof {
                assert(enc_queue_model(self.queue@) =~= enc_try_send_model(
                    enc_queue_model(old(self).queue@),
                    cmd@,
                ));
            }
        } else {
            proof {
                assert(enc_queue_model(self.queue@) =~= enc_try_send_model(
                    enc_queue_model(old(self).queue@),
                    cmd@,
                ));
            }
        }
    }

    /// Offers a `Start` command for this geometry, rate and output path.
    pub fn start(&mut self, path: String, width: u32, height: u32, fps: i32) -> (r: Result<
        (),
        MiddlewareError,
    >)
        requires
            old(self).wf(),
        ensures
            final(self).wf(),
            r is Ok,
            enc_queue_model(final(self).queue@) == enc_try_send_model(
                enc_queue_model(old(self).queue@),
                EncoderCommandModel::Start { path: path@, width, height, fps },
            ),
            final(self).session == old(self).session,
    {
        self.try_send(EncoderCommand::Start { path, width, height, fps });
        Ok(())
    }

    /// Offers one frame; dropped when the queue is full.
    pub fn send_frame(&mut self, frame: VideoFrame) -> (r: Result<(), MiddlewareError>)
        requires
            old(self).wf(),
        ensures
            final(self).wf(),
            r is Ok,
            enc_queue_model(final(self).queue@) == enc_try_send_model(
                enc_queue_model(old(self).queue@),
                EncoderCommandModel::Frame(frame@),
            ),
            final(self).session == old(self).session,
    {
        self.try_send(EncoderCommand::Frame(frame));
        Ok(())
    }

    /// Offers a `Stop` command.
    pub fn stop(&mut self) -> (r: Result<(), MiddlewareError>)
        requires
            old(self).wf(),
        ensures
            final(self).wf(),
            r is Ok,
            enc_queue_model(final(self).queue@) == enc_try_send_model(
                enc_queue_model(old(self).queue@),
                EncoderCommandModel::Stop,
            ),
            final(self).session == old(self).session,
    {
        self.try_send(EncoderCommand::Stop);
        Ok(())
    }

    /// Runs the task's pending commands, returning the subprocess actions to
    /// perform, in order.
    pub fn drain(&mut self) -> (acts: Vec<EncoderAction>)
        requires
            old(self).wf(),
        ensures
            final(self).wf(),
            final(self).queue@.len() == 0,
            final(self).session == run_session(
                old(self).session,
                enc_queue_model(old(self).queue@),
            ),
            actions_model(acts@) == run_actions(
                old(self).session,
                enc_queue_model(old(self).queue@),
            ),
    {
        let ghost s0 = self.session;
        let ghost q0 = enc_queue_model(self.queue@);
        let mut acts: Vec<EncoderAction> = Vec::new();
        let initial_len: usize = self.queue.len();
        let ghost total = initial_len as nat;
        let mut k: usize = 0;
        proof {
            assert(q0.take(0) =~= Seq::<EncoderCommandModel>::empty());
        }
        while self.queue.len() > 0
            invariant
                k <= total <= usize::MAX,
                self.wf(),
                q0 == enc_queue_model(old(self).queue@),
                q0.len() == total,
                self.queue@.len() == total - k,
                enc_queue_model(self.queue@) =~= q0.skip(k as int),
                self.session == run_session(s0, q0.take(k as int)),
                actions_model(acts@) =~= run_actions(s0, q0.take(k as int)),
            decreases self.queue@.len(),
        {
            let ghost qpre = self.queue@;
            let cmd = self.queue.remove(0);
            proof {
                assert(enc_queue_model(qpre) =~= q0.skip(k as int));
                assert(cmd == qpre[0]);
                assert(enc_queue_model(qpre)[0] == qpre[0]@);
                assert(cmd@ == q0[k as int]);
                assert(self.queue@ == qpre.remove(0));
                assert forall|j: int| 0 <= j < self.queue@.len() implies #[trigger] self.queue@[j]@
                    == q0.skip(k as int + 1)[j] by {
                    assert(self.queue@[j] == qpre[j + 1]);
                    assert(enc_queue_model(qpre)[j + 1] == qpre[j + 1]@);
                }
                assert(enc_queue_model(self.queue@) =~= q0.skip(k as int + 1));
                assert(q0.take(k as int + 1).drop_last() =~= q0.take(k as int));
                assert(q0.take(k as int + 1).last() == q0[k as int]);
                assert(k < total);
            }
            let act = self.session.apply(cmd);
            acts.push(act);
            proof {
                assert(actions_model(acts@) =~= run_actions(s0, q0.take(k as int + 1)));
            }
            k += 1;
        }
        proof {
            assert(q0.take(total as int) =~= q0);
        }
        acts
    }
}

/// The pool: one encoder per active recording, keyed by an opaque random
/// identifier.  Actions of encoders that were removed from the pool wait in
/// `pending_actions` until the background worker performs them, so a removed
/// encoder's teardown (close the subprocess's input, wait for it) survives
/// its removal.
pub struct EncoderManager {
    /// The encoders, keyed by identifier.
    pub encoders: Vec<(u128, VideoEncoder)>,
    /// Actions of removed encoders awaiting the background worker, oldest
    /// first, each tagged with its encoder's identifier.
    pub pending_actions: Vec<(u128, EncoderAction)>,
}

/// The views of a run of tagged actions.
pub open spec fn tagged_actions_model(acts: Seq<(u128, EncoderAction)>) -> Seq<(
    u128,
    ActionModel,
)> {
    Seq::new(acts.len(), |i: int| (acts[i].0, acts[i].1@))
}

/// A run of actions, each tagged with `id`.
pub open spec fn tag_actions(id: u128, acts: Seq<ActionModel>) -> Seq<(u128, ActionModel)> {
    Seq::new(acts.len(), |i: int| (id, acts[i]))
}

/// Whether some pool entry carries this identifier.
pub open spec fn pool_has(s: Seq<(u128, VideoEncoder)>, id: u128) -> bool {
    exists|i: int| 0 <= i < s.len() && (#[trigger] s[i]).0 == id
}

/// The index of the entry carrying `id`.
pub open spec fn pool_index(s: Seq<(u128, VideoEncoder)>, id: u128) -> int {
    choose|i: int| 0 <= i < s.len() && (#[trigger] s[i]).0 == id
}

/// The encoder carrying `id`.
pub open spec fn pool_at(s: Seq<(u128, VideoEncoder)>, id: u128) -> VideoEncoder {
    s[pool_index(s, id)].1
}

/// Identifiers are pairwise distinct and every encoder's queue is bounded.
pub open spec fn pool_wf(s: Seq<(u128, VideoEncoder)>) -> bool {
    &&& forall|i: int, j: int| 0 <= i < j < s.len() ==> (#[trigger] s[i]).0 != (#[trigger] s[j]).0
    &&& forall|i: int| 0 <= i < s.len() ==> (#[trigger] s[i]).1.wf()
}

/// With distinct identifiers, the entry at any index carrying `id` is the
/// entry `pool_index` denotes.
pub proof fn lemma_pool_index_agrees(s: Seq<(u128, VideoEncoder)>, id: u128, i: int)
    requires
        forall|a: int, b: int| 0 <= a < b < s.len() ==> (#[trigger] s[a]).0 != (#[trigger] s[b]).0,
        0 <= i < s.len(),
        s[i].0 == id,
    ensures
        pool_has(s, id),
        pool_index(s, id) == i,
        pool_at(s, id) == s[i].1,
{
    assert(pool_has(s, id));
    let j = pool_index(s, id);
    if i < j {
        assert(s[i].0 != s[j].0);
    } else if j < i {
        assert(s[j].0 != s[i].0);
    }
}

/// Finds the pool entry carrying `id`.
fn find_encoder(encoders: &Vec<(u128, VideoEncoder)>, id: u128) -> (r: Option<usize>)
    ensures
        match r {
            Some(i) => i < encoders@.len() && encoders@[i as int].0 == id,
            None => !pool_has(encoders@, id),
        },
{
    let mut i: usize = 0;
    while i < encoders.len()
        invariant
            i <= encoders@.len(),
            forall|j: int| 0 <= j < i ==> (#[trigger] encoders@[j]).0 != id,
        decreases encoders@.len() - i,
    {
        if encoders[i].0 == id {
            return Some(i);
        }
        i += 1;
    }
    None
}

impl EncoderManager {
    /// The pool's internal invariant.
    pub open spec fn wf(self) -> bool {
        pool_wf(self.encoders@)
    }

    /// An empty pool.
    pub fn new() -> (r: Self)
        ensures
            r.wf(),
            r.encoders@.len() == 0,
            r.pending_actions@.len() == 0,
    {
        EncoderManager { encoders: Vec::new(), pending_actions: Vec::new() }
    }

    /// Allocates a fresh encoder under a newly drawn identifier and returns
    /// the identifier.  Should the random identifier collide with an
    /// existing one, that entry is replaced.
    pub fn create_encoder(&mut self) -> (id: u128)
        requires
            old(self).wf(),
        ensures
            final(self).wf(),
            pool_has(final(self).encoders@, id),
            pool_at(final(self).encoders@, id).queue@.len() == 0,
            pool_at(final(self).encoders@, id).session == initial_session(),
            forall|other: u128|
                other != id && pool_has(old(self).encoders@, other) ==> pool_has(
                    final(self).encoders@,
                    other,
                ) && pool_at(final(self).encoders@, other) == pool_at(old(self).encoders@, other),
            final(self).pending_actions == old(self).pending_actions,
    {
        let ghost pre = self.encoders@;
        let id = fresh_encoder_id();
        let enc = VideoEncoder::new();
        match find_encoder(&self.encoders, id) {
            Some(i) => {
                let mut entry = self.encoders.remove(i);
                entry.1 = enc;
                self.encoders.insert(i, entry);
                proof {
                    lemma_pool_index_agrees(pre, id, i as int);
                    assert(forall|j: int|
                        0 <= j < pre.len() && j != i ==> self.encoders@[j] == pre[j]);
                    assert(forall|j: int|
                        0 <= j < pre.len() ==> (#[trigger] self.encoders@[j]).0 == pre[j].0);
                    lemma_pool_index_agrees(self.encoders@, id, i as int);
                    assert forall|other: u128|
                        other != id && pool_has(pre, other) implies pool_has(
                        self.encoders@,
                        other,
                    ) && pool_at(self.encoders@, other) == pool_at(pre, other) by {
                        let w = pool_index(pre, other);
                        assert(0 <= w < pre.len() && pre[w].0 == other);
                        assert(w != i);
                        lemma_pool_index_agrees(self.encoders@, other, w);
                        lemma_pool_index_agrees(pre, other, w);
                    }
                }
            },
            None => {
                self.encoders.push((id, enc));
                proof {
                    assert(forall|j: int| 0 <= j < pre.len() ==> (#[trigger] pre[j]).0 != id);
                    assert(forall|j: int|
                        0 <= j < pre.len() ==> #[trigger] self.encoders@[j] == pre[j]);
                    lemma_pool_index_agrees(self.encoders@, id, pre.len() as int);
                    assert forall|other: u128|
                        other != id && pool_has(pre, other) implies pool_has(
                        self.encoders@,
                        other,
                    ) && pool_at(self.encoders@, other) == pool_at(pre, other) by {
                        let w = pool_index(pre, other);
                        lemma_pool_index_agrees(self.encoders@, other, w);
                        lemma_pool_index_agrees(pre, other, w);
                    }
                }
            },
        }
        id
    }

    /// Offers a `Start` command to the encoder carrying `id`.
    pub fn start(&mut self, id: u128, path: String, width: u32, height: u32, fps: i32) -> (r:
        Result<(), MiddlewareError>)
        requires
            old(self).wf(),
        ensures
            final(self).wf(),
            pool_has(old(self).encoders@, id) <==> r is Ok,
            r matches Err(e) ==> e == MiddlewareError::NotFound && *final(self) == *old(self),
            r is Ok ==> pool_effect(
                old(self).encoders@,
                final(self).encoders@,
                id,
                EncoderCommandModel::Start { path: path@, width, height, fps },
            ),
            final(self).pending_actions == old(self).pending_actions,
    {
        let ghost pre = self.encoders@;
        match find_encoder(&self.encoders, id) {
            Some(i) => {
                let mut entry = self.encoders.remove(i);
                let _ = entry.1.start(path, width, height, fps);
                self.encoders.insert(i, entry);
                proof {
                    lemma_pool_index_agrees(pre, id, i as int);
                    assert(forall|j: int|
                        0 <= j < pre.len() && j != i ==> self.encoders@[j] == pre[j]);
                    assert(forall|j: int|
                        0 <= j < pre.len() ==> (#[trigger] self.encoders@[j]).0 == pre[j].0);
                }
                Ok(())
            },
            None => Err(MiddlewareError::NotFound),
        }
    }

    /// Offers one frame to the encoder carrying `id`; a full queue drops it.
    pub fn send_frame(&mut self, id: u128, frame: VideoFrame) -> (r: Result<(), MiddlewareError>)
        requires
            old(self).wf(),
        ensures
            final(self).wf(),
            pool_has(old(self).encoders@, id) <==> r is Ok,
            r matches Err(e) ==> e == MiddlewareError::NotFound && *final(self) == *old(self),
            r is Ok ==> pool_effect(
                old(self).encoders@,
                final(self).encoders@,
                id,
                EncoderCommandModel::Frame(frame@),
            ),
            final(self).pending_actions == old(self).pending_actions,
    {
        let ghost pre = self.encoders@;
        match find_encoder(&self.encoders, id) {
            Some(i) => {
                let mut entry = self.encoders.remove(i);
                let _ = entry.1.send_frame(frame);
                self.encoders.insert(i, entry);
                proof {
                    lemma_pool_index_agrees(pre, id, i as int);
                    assert(forall|j: int|
                        0 <= j < pre.len() && j != i ==> self.encoders@[j] == pre[j]);
                    assert(forall|j: int|
                        0 <= j < pre.len() ==> (#[trigger] self.encoders@[j]).0 == pre[j].0);
                }
                Ok(())
            },
            None => Err(MiddlewareError::NotFound),
        }
    }

    /// Offers a `Stop` command to the encoder carrying `id`.
    pub fn stop(&mut self, id: u128) -> (r: Result<(), MiddlewareError>)
        requires
            old(self).wf(),
        ensures
            final(self).wf(),
            pool_has(old(self).encoders@, id) <==> r is Ok,
            r matches Err(e) ==> e == MiddlewareError::NotFound && *final(self) == *old(self),
            r is Ok ==> pool_effect(
                old(self).encoders@,
                final(self).encoders@,
                id,
                EncoderCommandModel::Stop,
            ),
            final(self).pending_actions == old(self).pending_actions,
    {
        let ghost pre = self.encoders@;
        match find_encoder(&self.encoders, id) {
            Some(i) => {
                let mut entry = self.encoders.remove(i);
                let _ = entry.1.stop();
                self.encoders.insert(i, entry);
                proof {
                    lemma_pool_index_agrees(pre, id, i as int);
                    assert(forall|j: int|
                        0 <= j < pre.len() && j != i ==> self.encoders@[j] == pre[j]);
                    assert(forall|j: int|
                        0 <= j < pre.len() ==> (#[trigger] self.encoders@[j]).0 == pre[j].0);
                }
                Ok(())
            },
            None => Err(MiddlewareError::NotFound),
        }
    }

    /// Deletes the entry carrying `id`, first turning its queued commands —
    /// with a final `Stop` — into actions that wait in `pending_actions`, so
    /// the subprocess teardown (close its input, wait for its exit) still
    /// reaches the background worker.  Removing an unknown identifier is a
    /// no-op.
    pub fn remove_encoder(&mut self, id: u128) -> (r: Result<(), MiddlewareError>)
        requires
            old(self).wf(),
        ensures
            final(self).wf(),
            r is Ok,
            !pool_has(final(self).encoders@, id),
            !pool_has(old(self).encoders@, id) ==> *final(self) == *old(self),
            pool_has(old(self).encoders@, id) ==> ({
                let e = pool_at(old(self).encoders@, id);
                &&& final(self).encoders@ == old(self).encoders@.remove(
                    pool_index(old(self).encoders@, id),
                )
                &&& tagged_actions_model(final(self).pending_actions@) == tagged_actions_model(
                    old(self).pending_actions@,
                ) + tag_actions(
                    id,
                    run_actions(
                        e.session,
                        enc_try_send_model(
                            enc_queue_model(e.queue@),
                            EncoderCommandModel::Stop,
                        ).push(EncoderCommandModel::Stop),
                    ),
                )
            }),
            forall|other: u128|
                other != id && pool_has(old(self).encoders@, other) ==> pool_has(
                    final(self).encoders@,
                    other,
                ) && pool_at(final(self).encoders@, other) == pool_at(old(self).encoders@, other),
    {
        let ghost pre = self.encoders@;
        match find_encoder(&self.encoders, id) {
            Some(i) => {
                proof {
                    lemma_pool_index_agrees(pre, id, i as int);
                }
                let mut entry = self.encoders.remove(i);
                let ghost sess0 = entry.1.session;
                let _ = entry.1.stop();
                let ghost cmds = enc_queue_model(entry.1.queue@);
                let mut acts = entry.1.drain();
                let last_act = entry.1.session.apply(EncoderCommand::Stop);
                let ghost all_cmds = cmds.push(EncoderCommandModel::Stop);
                acts.push(last_act);
                proof {
                    assert(all_cmds.drop_last() =~= cmds);
                    assert(all_cmds.last() == EncoderCommandModel::Stop);
                    assert(actions_model(acts@) =~= run_actions(sess0, all_cmds));
                }
                let ghost encs = self.encoders@;
                let ghost full = actions_model(acts@);
                let ghost pend0 = tagged_actions_model(self.pending_actions@);
                let acts_len: usize = acts.len();
                let ghost tot = acts_len as nat;
                let mut k: usize = 0;
                proof {
                    assert(tagged_actions_model(self.pending_actions@) =~= pend0 + tag_actions(
                        id,
                        full,
                    ).take(0));
                }
                while acts.len() > 0
                    invariant
                        k <= tot <= usize::MAX,
                        full.len() == tot,
                        acts@.len() == tot - k,
                        actions_model(acts@) =~= full.skip(k as int),
                        tagged_actions_model(self.pending_actions@) =~= pend0 + tag_actions(
                            id,
                            full,
                        ).take(k as int),
                        self.encoders@ == encs,
                    decreases acts@.len(),
                {
                    let ghost apre = acts@;
                    let a = acts.remove(0);
                    proof {
                        assert(actions_model(apre) =~= full.skip(k as int));
                        assert(a == apre[0]);
                        assert(actions_model(apre)[0] == apre[0]@);
                        assert(a@ == full[k as int]);
                        assert forall|j: int| 0 <= j < acts@.len() implies #[trigger] acts@[j]@
                            == full.skip(k as int + 1)[j] by {
                            assert(acts@[j] == apre[j + 1]);
                            assert(actions_model(apre)[j + 1] == apre[j + 1]@);
                        }
                        assert(actions_model(acts@) =~= full.skip(k as int + 1));
                        assert(k < tot);
                    }
                    let ghost ppre = self.pending_actions@;
                    self.pending_actions.push((id, a));
                    proof {
                        assert(self.pending_actions@ == ppre.push((id, a)));
                        assert(tagged_actions_model(self.pending_actions@) =~= tagged_actions_model(
                            ppre,
                        ).push((id, a@)));
                        assert(tag_actions(id, full).take(k as int + 1) =~= tag_actions(
                            id,
                            full,
                        ).take(k as int).push((id, full[k as int])));
                        assert(tagged_actions_model(self.pending_actions@) =~= pend0
                            + tag_actions(id, full).take(k as int + 1));
                    }
                    k += 1;
                }
                proof {
                    assert(tag_actions(id, full).take(tot as int) =~= tag_actions(id, full));
                    assert(tagged_actions_model(self.pending_actions@) =~= pend0 + tag_actions(
                        id,
                        full,
                    ));
                    assert forall|a: int, b: int|
                        0 <= a < b < self.encoders@.len() implies (#[trigger] self.encoders@[a]).0
                        != (#[trigger] self.encoders@[b]).0 by {
                        if b < i {
                        } else if a < i {
                            assert(self.encoders@[b] == pre[b + 1]);
                        } else {
                            assert(self.encoders@[a] == pre[a + 1]);
                            assert(self.encoders@[b] == pre[b + 1]);
                        }
                    }
                    if pool_has(self.encoders@, id) {
                        let w = pool_index(self.encoders@, id);
                        assert(0 <= w < self.encoders@.len() && self.encoders@[w].0 == id);
                        if w < i {
                            assert(pre[w].0 == id);
                        } else {
                            assert(pre[w + 1].0 == id);
                        }
                        assert(false);
                    }
                    assert forall|other: u128|
                        other != id && pool_has(pre, other) implies pool_has(
                        self.encoders@,
                        other,
                    ) && pool_at(self.encoders@, other) == pool_at(pre, other) by {
                        let w = pool_index(pre, other);
                        assert(0 <= w < pre.len() && pre[w].0 == other);
                        lemma_pool_index_agrees(pre, other, w);
                        if w < i {
                            assert(self.encoders@[w] == pre[w]);
                            lemma_pool_index_agrees(self.encoders@, other, w);
                        } else {
                            assert(w > i);
                            assert(self.encoders@[w - 1] == pre[w]);
                            lemma_pool_index_agrees(self.encoders@, other, w - 1);
                        }
                    }
                }
                Ok(())
            },
            None => Ok(()),
        }
    }

    /// Runs the pending commands of the encoder carrying `id`, returning the
    /// subprocess actions its task must perform, in order.
    pub fn drain(&mut self, id: u128) -> (r: Result<Vec<EncoderAction>, MiddlewareError>)
        requires
            old(self).wf(),
        ensures
            final(self).wf(),
            pool_has(old(self).encoders@, id) <==> r is Ok,
            r matches Err(e) ==> e == MiddlewareError::NotFound && *final(self) == *old(self),
            r matches Ok(out) ==> ({
                let i = pool_index(old(self).encoders@, id);
                let pre = old(self).encoders@;
                let post = final(self).encoders@;
                &&& post.len() == pre.len()
                &&& forall|j: int| 0 <= j < pre.len() && j != i ==> post[j] == pre[j]
                &&& post[i].0 == pre[i].0
                &&& post[i].1.queue@.len() == 0
                &&& post[i].1.session == run_session(
                    pre[i].1.session,
                    enc_queue_model(pre[i].1.queue@),
                )
                &&& actions_model(out@) == run_actions(
                    pre[i].1.session,
                    enc_queue_model(pre[i].1.queue@),
                )
            }),
            final(self).pending_actions == old(self).pending_actions,
    {
        let ghost pre = self.encoders@;
        match find_encoder(&self.encoders, id) {
            Some(i) => {
                let mut entry = self.encoders.remove(i);
                let acts = entry.1.drain();
                self.encoders.insert(i, entry);
                proof {
                    lemma_pool_index_agrees(pre, id, i as int);
                    assert(forall|j: int|
                        0 <= j < pre.len() && j != i ==> self.encoders@[j] == pre[j]);
                    assert(forall|j: int|
                        0 <= j < pre.len() ==> (#[trigger] self.encoders@[j]).0 == pre[j].0);
                }
                Ok(acts)
            },
            None => Err(MiddlewareError::NotFound),
        }
    }
}

impl EncoderManager {
    /// Hands the removed encoders' waiting actions to the caller, oldest
    /// first; the background worker performs them.
    pub fn take_pending_actions(&mut self) -> (out: Vec<(u128, EncoderAction)>)
        requires
            old(self).wf(),
        ensures
            final(self).wf(),
            out == old(self).pending_actions,
            final(self).pending_actions@.len() == 0,
            final(self).encoders == old(self).encoders,
    {
        let mut out: Vec<(u128, EncoderAction)> = Vec::new();
        core::mem::swap(&mut out, &mut self.pending_actions);
        out
    }
}

/// How offering one command to the encoder carrying `id` changes the pool:
/// that encoder's queue receives the command best-effort; every other entry
/// is untouched.
pub open spec fn pool_effect(
    pre: Seq<(u128, VideoEncoder)>,
    post: Seq<(u128, VideoEncoder)>,
    id: u128,
    cmd: EncoderCommandModel,
) -> bool {
    let i = pool_index(pre, id);
    &&& post.len() == pre.len()
    &&& forall|j: int| 0 <= j < pre.len() && j != i ==> post[j] == pre[j]
    &&& post[i].0 == pre[i].0
    &&& enc_queue_model(post[i].1.queue@) == enc_try_send_model(
        enc_queue_model(pre[i].1.queue@),
        cmd,
    )
    &&& post[i].1.session == pre[i].1.session
}

} // verus!
