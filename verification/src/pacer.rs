use vstd::prelude::*;

verus! {

/// Where a video session stands: opened, pulling packets, draining the
/// decoder, drawing a frame, waiting out the frame duration, at the end of
/// the stream, or failed.
#[derive(Clone, Copy, PartialEq, Eq, Structural, Debug)]
pub enum PacerState {
    Opening,
    Streaming,
    Decoding,
    Rendering,
    Waiting,
    Closed,
    Error,
}

/// What the outside world reports back to the pacer.
#[derive(Clone, Copy, PartialEq, Eq, Structural, Debug)]
pub enum PacerEvent {
    /// The best video stream was found, with its index and frame rate as
    /// a fraction.
    StreamFound { stream_index: usize, rate_num: u32, rate_den: u32 },
    /// The container holds no video stream.
    NoStream,
    /// The next packet was read, from the given stream.
    Packet { stream_index: usize },
    /// The packet stream is exhausted.
    EndOfInput,
    /// The decoder yielded a frame.
    FrameReady,
    /// The decoder has no more frames for the current packet.
    NoFrame,
    /// A frame was drawn; this much wall-clock time passed since the
    /// previous render.
    Rendered { elapsed_nanos: u64 },
    /// Converting, rasterizing or writing the frame failed.
    RenderFailed,
    /// The pacing sleep finished.
    Slept,
}

/// What the pacer asks the outside world to do next.
#[derive(Clone, Copy, PartialEq, Eq, Structural, Debug)]
pub enum PacerAction {
    /// Locate the best video stream and its frame rate.
    ProbeStream,
    /// Read the next packet.
    ReadPacket,
    /// Feed the current packet to the decoder.
    SendPacket,
    /// Ask the decoder for the next frame.
    ReceiveFrame,
    /// Convert, rasterize and write the current frame.
    RenderFrame,
    /// Sleep this long before the next frame.
    Sleep { nanos: u64 },
    /// The stream ended: stop cleanly.
    Stop,
    /// The session failed: abort it.
    Fail,
}

/// How long the pacer sleeps after a frame: what is left of the frame
/// duration, and nothing when the frame overran it.
pub open spec fn sleep_nanos_spec(frame_duration: int, elapsed: int) -> int {
    if elapsed < frame_duration {
        frame_duration - elapsed
    } else {
        0
    }
}

/// The nanoseconds one frame lasts at a frame rate given as the fraction
/// `num / den` frames per second.
pub open spec fn frame_duration_nanos_spec(num: int, den: int) -> int {
    den * 1_000_000_000 / num
}

/// A video playback session: its state, the selected stream, and the
/// frame duration its pacing honors.
#[derive(Clone, Copy, PartialEq, Eq, Structural, Debug)]
pub struct VideoSession {
    pub state: PacerState,
    pub stream_index: usize,
    pub frame_duration_nanos: u64,
}

/// The pacer's whole transition table: the next session and the action it
/// asks for, given the current session and an event. Any event that does
/// not belong to the current state fails the session.
pub open spec fn next_step(s: VideoSession, e: PacerEvent) -> (VideoSession, PacerAction) {
    let fail = (VideoSession { state: PacerState::Error, ..s }, PacerAction::Fail);
    match (s.state, e) {
        (PacerState::Opening, PacerEvent::StreamFound { stream_index, rate_num, rate_den }) => if rate_num
            > 0 {
            (
                VideoSession {
                    state: PacerState::Streaming,
                    stream_index,
                    frame_duration_nanos: frame_duration_nanos_spec(
                        rate_num as int,
                        rate_den as int,
                    ) as u64,
                },
                PacerAction::ReadPacket,
            )
        } else {
            fail
        },
        (PacerState::Streaming, PacerEvent::Packet { stream_index }) => if stream_index
            == s.stream_index {
            (VideoSession { state: PacerState::Decoding, ..s }, PacerAction::SendPacket)
        } else {
            (VideoSession { state: PacerState::Streaming, ..s }, PacerAction::ReadPacket)
        },
        (PacerState::Streaming, PacerEvent::EndOfInput) => (
            VideoSession { state: PacerState::Closed, ..s },
            PacerAction::Stop,
        ),
        (PacerState::Decoding, PacerEvent::FrameReady) => (
            VideoSession { state: PacerState::Rendering, ..s },
            PacerAction::RenderFrame,
        ),
        (PacerState::Decoding, PacerEvent::NoFrame) => (
            VideoSession { state: PacerState::Streaming, ..s },
            PacerAction::ReadPacket,
        ),
        (PacerState::Rendering, PacerEvent::Rendered { elapsed_nanos }) => (
            VideoSession { state: PacerState::Waiting, ..s },
            PacerAction::Sleep {
                nanos: sleep_nanos_spec(s.frame_duration_nanos as int, elapsed_nanos as int) as u64,
            },
        ),
        (PacerState::Waiting, PacerEvent::Slept) => (
            VideoSession { state: PacerState::Decoding, ..s },
            PacerAction::ReceiveFrame,
        ),
        _ => fail,
    }
}

impl VideoSession {
    /// A fresh session, about to locate its video stream.
    pub fn new() -> (s: VideoSession)
        ensures
            s.state is Opening,
            s.frame_duration_nanos == 0,
    {
        VideoSession { state: PacerState::Opening, stream_index: 0, frame_duration_nanos: 0 }
    }

    /// Drives the session one step: takes what the outside world reported
    /// and answers with what to do next, exactly as the transition table
    /// says.
    pub fn step(&mut self, event: &PacerEvent) -> (a: PacerAction)
        ensures
            (*final(self), a) == next_step(*old(self), *event),
    {
        match (self.state, *event) {
            (PacerState::Opening, PacerEvent::StreamFound { stream_index, rate_num, rate_den }) => {
                if rate_num > 0 {
                    let d = frame_duration_nanos(rate_num, rate_den);
                    self.state = PacerState::Streaming;
                    self.stream_index = stream_index;
                    self.frame_duration_nanos = d;
                    PacerAction::ReadPacket
                } else {
                    self.state = PacerState::Error;
                    PacerAction::Fail
                }
            },
            (PacerState::Streaming, PacerEvent::Packet { stream_index }) => {
                if stream_index == self.stream_index {
                    self.state = PacerState::Decoding;
                    PacerAction::SendPacket
                } else {
                    self.state = PacerState::Streaming;
                    PacerAction::ReadPacket
                }
            },
            (PacerState::Streaming, PacerEvent::EndOfInput) => {
                self.state = PacerState::Closed;
                PacerAction::Stop
            },
            (PacerState::Decoding, PacerEvent::FrameReady) => {
                self.state = PacerState::Rendering;
                PacerAction::RenderFrame
            },
            (PacerState::Decoding, PacerEvent::NoFrame) => {
                self.state = PacerState::Streaming;
                PacerAction::ReadPacket
            },
            (PacerState::Rendering, PacerEvent::Rendered { elapsed_nanos }) => {
                self.state = PacerState::Waiting;
                PacerAction::Sleep {
                    nanos: sleep_nanos(self.frame_duration_nanos, elapsed_nanos),
                }
            },
            (PacerState::Waiting, PacerEvent::Slept) => {
                self.state = PacerState::Decoding;
                PacerAction::ReceiveFrame
            },
            _ => {
                self.state = PacerState::Error;
                PacerAction::Fail
            },
        }
    }
}

/// Computes the pacing sleep: the rest of the frame duration, or nothing
/// when the frame already took longer.
pub fn sleep_nanos(frame_duration: u64, elapsed: u64) -> (r: u64)
    ensures
        r as int == sleep_nanos_spec(frame_duration as int, elapsed as int),
        elapsed >= frame_duration ==> r == 0,
{
    if elapsed < frame_duration {
        frame_duration - elapsed
    } else {
        0
    }
}

/// Computes one frame's duration in nanoseconds from the stream's frame
/// rate fraction.
pub fn frame_duration_nanos(num: u32, den: u32) -> (r: u64)
    requires
        num > 0,
    ensures
        r as int == frame_duration_nanos_spec(num as int, den as int),
{
    (den as u64) * 1_000_000_000 / (num as u64)
}

/// Pacing is memoryless: after a slow frame, the next frame's wait is
/// computed from that frame's own elapsed time alone — an overrun is
/// never repaid by shortening a later wait. Rendering two frames in a
/// row, each sleep depends only on the fixed frame duration and its own
/// frame's elapsed time.
pub proof fn lemma_pacing_memoryless(s: VideoSession, e1: u64, e2: u64)
    requires
        s.state is Rendering,
    ensures
        ({
            let (s1, a1) = next_step(s, PacerEvent::Rendered { elapsed_nanos: e1 });
            let (s2, _) = next_step(s1, PacerEvent::Slept);
            let (s3, _) = next_step(s2, PacerEvent::FrameReady);
            let (s4, a2) = next_step(s3, PacerEvent::Rendered { elapsed_nanos: e2 });
            &&& a1 == (PacerAction::Sleep {
                nanos: sleep_nanos_spec(s.frame_duration_nanos as int, e1 as int) as u64,
            })
            &&& a2 == (PacerAction::Sleep {
                nanos: sleep_nanos_spec(s.frame_duration_nanos as int, e2 as int) as u64,
            })
            &&& s4.frame_duration_nanos == s.frame_duration_nanos
        }),
{
}

} // verus!
