//! The course of a capture of sound.
//!
//! The sound of the Teams process, that of everything that is played, and that
//! of the microphone are captured in the same steps; they differ in what is
//! asked of the device.

use vstd::prelude::*;

use crate::audio::{
    loopback_packet, marked_silent, microphone_packet, Packet, BUFFER_100NS,
};

verus! {

/// What is captured.
#[derive(Debug, Clone, Copy, PartialEq, Eq, Structural)]
pub enum CaptureKind {
    /// What the process plays, and those that it has started.
    Process(u32),
    /// Everything that is played.
    DefaultDevice,
    Microphone,
}

/// What is played is captured.
pub const STREAM_LOOPBACK: u32 = 0x0002_0000;

/// An event is set when a packet is there.
pub const STREAM_EVENT: u32 = 0x0004_0000;

/// Samples are brought into the format asked for.
pub const STREAM_CONVERT: u32 = 0x8000_0000;

/// They are brought there in the usual quality.
pub const STREAM_QUALITY: u32 = 0x0800_0000;

/// What is asked of the device.
#[derive(Debug, Clone, Copy, PartialEq, Eq, Structural)]
pub struct StreamRequest {
    pub flags: u32,
    pub buffer_100ns: i64,
    /// The agent's own format is asked for, and not that of the device.
    pub own_format: bool,
}

/// What is asked of the device. The process has no format of its own, and the
/// microphone is brought into the same one, so that samples can be added one
/// by one.
pub open spec fn requested(kind: CaptureKind) -> StreamRequest {
    match kind {
        CaptureKind::Process(_) => StreamRequest {
            flags: 0x8806_0000,
            buffer_100ns: BUFFER_100NS,
            own_format: true,
        },
        CaptureKind::DefaultDevice => StreamRequest {
            flags: 0x0006_0000,
            buffer_100ns: BUFFER_100NS,
            own_format: false,
        },
        CaptureKind::Microphone => StreamRequest {
            flags: 0x8804_0000,
            buffer_100ns: BUFFER_100NS,
            own_format: true,
        },
    }
}

/// What is asked of the device.
pub fn stream_request(kind: CaptureKind) -> (r: StreamRequest)
    ensures
        r == requested(kind),
{
    match kind {
        CaptureKind::Process(_) => StreamRequest {
            flags: STREAM_LOOPBACK + STREAM_EVENT + STREAM_CONVERT + STREAM_QUALITY,
            buffer_100ns: BUFFER_100NS,
            own_format: true,
        },
        CaptureKind::DefaultDevice => StreamRequest {
            flags: STREAM_LOOPBACK + STREAM_EVENT,
            buffer_100ns: BUFFER_100NS,
            own_format: false,
        },
        CaptureKind::Microphone => StreamRequest {
            flags: STREAM_EVENT + STREAM_CONVERT + STREAM_QUALITY,
            buffer_100ns: BUFFER_100NS,
            own_format: true,
        },
    }
}

/// What the timeline is told when a capture has ended.
pub open spec fn note_of(kind: CaptureKind) -> Seq<char> {
    match kind {
        CaptureKind::Process(_) => "teams loopback stopped"@,
        CaptureKind::DefaultDevice => "default loopback stopped"@,
        CaptureKind::Microphone => "microphone stopped"@,
    }
}

/// What the timeline is told when a capture has ended.
pub fn end_note(kind: CaptureKind) -> (r: &'static str)
    ensures
        r@ == note_of(kind),
{
    match kind {
        CaptureKind::Process(_) => "teams loopback stopped",
        CaptureKind::DefaultDevice => "default loopback stopped",
        CaptureKind::Microphone => "microphone stopped",
    }
}

// ---------------------------------------------------------------------------
// Steps
// ---------------------------------------------------------------------------

/// A step of a capture. Some can fail.
#[derive(Debug, Clone, Copy, PartialEq, Eq, Structural)]
pub enum CaptureStep {
    /// Get a client of the device.
    Activate,
    /// Ask the device for a stream.
    Initialize,
    /// Get the event that is set for each packet, and the packets.
    Listen,
    Start,
    /// Take packets until the session ends.
    Pump,
    Stop,
    /// Give back the event.
    CloseEvent,
    /// Give back the format of the device.
    FreeFormat,
    /// Tell the timeline.
    Note,
    /// The capture has ended, well or not.
    Done(bool),
    /// The capture could not be started.
    Failed,
}

/// Where a capture stands.
#[derive(Debug, Clone, Copy, PartialEq, Eq, Structural)]
pub struct CaptureRun {
    pub kind: CaptureKind,
    /// The step to be taken.
    pub step: CaptureStep,
    /// Packets were taken without an error.
    pub pumped: bool,
}

/// The capture once its step was taken, which went well or did not.
pub open spec fn moved_on(run: CaptureRun, ok: bool) -> CaptureRun {
    let pumped = if run.step is Pump {
        ok
    } else {
        run.pumped
    };
    let step = match run.step {
        CaptureStep::Activate => if ok {
            CaptureStep::Initialize
        } else {
            CaptureStep::Failed
        },
        CaptureStep::Initialize => if ok {
            CaptureStep::Listen
        } else {
            CaptureStep::Failed
        },
        CaptureStep::Listen => if ok {
            CaptureStep::Start
        } else {
            CaptureStep::Failed
        },
        CaptureStep::Start => if ok {
            CaptureStep::Pump
        } else {
            CaptureStep::Failed
        },
        CaptureStep::Pump => CaptureStep::Stop,
        CaptureStep::Stop => CaptureStep::CloseEvent,
        CaptureStep::CloseEvent => if run.kind is DefaultDevice {
            CaptureStep::FreeFormat
        } else {
            CaptureStep::Note
        },
        CaptureStep::FreeFormat => CaptureStep::Note,
        CaptureStep::Note => CaptureStep::Done(pumped),
        CaptureStep::Done(well) => CaptureStep::Done(well),
        CaptureStep::Failed => CaptureStep::Failed,
    };
    CaptureRun { kind: run.kind, step, pumped }
}

impl CaptureRun {
    /// A capture that is about to start.
    pub fn begin(kind: CaptureKind) -> (r: Self)
        ensures
            r == (CaptureRun { kind, step: CaptureStep::Activate, pumped: false }),
    {
        CaptureRun { kind, step: CaptureStep::Activate, pumped: false }
    }

    /// The step was taken, which went well or did not.
    pub fn advance(&mut self, ok: bool)
        ensures
            *final(self) == moved_on(*old(self), ok),
    {
        match self.step {
            CaptureStep::Activate => {
                self.step = if ok {
                    CaptureStep::Initialize
                } else {
                    CaptureStep::Failed
                };
            },
            CaptureStep::Initialize => {
                self.step = if ok {
                    CaptureStep::Listen
                } else {
                    CaptureStep::Failed
                };
            },
            CaptureStep::Listen => {
                self.step = if ok {
                    CaptureStep::Start
                } else {
                    CaptureStep::Failed
                };
            },
            CaptureStep::Start => {
                self.step = if ok {
                    CaptureStep::Pump
                } else {
                    CaptureStep::Failed
                };
            },
            CaptureStep::Pump => {
                self.pumped = ok;
                self.step = CaptureStep::Stop;
            },
            CaptureStep::Stop => {
                self.step = CaptureStep::CloseEvent;
            },
            CaptureStep::CloseEvent => {
                self.step = match self.kind {
                    CaptureKind::DefaultDevice => CaptureStep::FreeFormat,
                    _ => CaptureStep::Note,
                };
            },
            CaptureStep::FreeFormat => {
                self.step = CaptureStep::Note;
            },
            CaptureStep::Note => {
                self.step = CaptureStep::Done(self.pumped);
            },
            CaptureStep::Done(_) => {},
            CaptureStep::Failed => {},
        }
    }
}

/// A capture after further steps, each of which went well or did not.
pub open spec fn moved_on_by(run: CaptureRun, results: Seq<bool>) -> CaptureRun
    decreases results.len(),
{
    if results.len() == 0 {
        run
    } else {
        moved_on(moved_on_by(run, results.drop_last()), results.last())
    }
}

/// The steps of a capture that has started.
pub open spec fn winding_down(kind: CaptureKind) -> Seq<CaptureStep> {
    if kind is DefaultDevice {
        seq![
            CaptureStep::Pump,
            CaptureStep::Stop,
            CaptureStep::CloseEvent,
            CaptureStep::FreeFormat,
            CaptureStep::Note,
        ]
    } else {
        seq![CaptureStep::Pump, CaptureStep::Stop, CaptureStep::CloseEvent, CaptureStep::Note]
    }
}

/// A capture that has started is always stopped, what it holds is given back
/// and the timeline is told, however the steps go; and it ends as well as the
/// taking of packets did.
pub proof fn law_started_capture_is_wound_down(run: CaptureRun, results: Seq<bool>)
    requires
        run.step is Pump,
    ensures
        results.len() < winding_down(run.kind).len() ==> moved_on_by(run, results).step
            == winding_down(run.kind)[results.len() as int],
        results.len() >= winding_down(run.kind).len() ==> moved_on_by(run, results).step
            == CaptureStep::Done(results[0]),
        moved_on_by(run, results).kind == run.kind,
        results.len() > 0 ==> moved_on_by(run, results).pumped == results[0],
    decreases results.len(),
{
    if results.len() > 0 {
        law_started_capture_is_wound_down(run, results.drop_last());
    }
}

// ---------------------------------------------------------------------------
// Taking packets
// ---------------------------------------------------------------------------

/// What has happened while packets are taken.
#[derive(Debug, Clone, Copy, PartialEq, Eq, Structural)]
pub enum PumpEvent {
    /// It was looked whether the session ends: does it?
    Checked(bool),
    /// It was waited for a packet: is one there?
    Waited(bool),
    /// A packet of so many frames was got.
    Got { frames: u32, flags: u32 },
    /// No packet was got.
    GotNone,
    /// The packet was mixed in.
    Mixed,
    /// The packet was given back, which went well or did not.
    Released(bool),
}

/// What is done next.
#[derive(Debug, Clone, Copy, PartialEq, Eq, Structural)]
pub enum PumpAction {
    /// Look whether the session ends.
    CheckShutdown,
    /// Wait for a packet.
    Wait,
    GetBuffer,
    /// Mix in so many samples of silence.
    MixSilence(u64),
    /// Mix in the samples of the packet, so many.
    MixSamples(u64),
    /// Give the packet back.
    Release,
    /// No more packets are taken; it went well or did not.
    End(bool),
}

/// What is done with a packet of so many frames.
pub open spec fn packet_action(
    kind: CaptureKind,
    frames: u32,
    flags: u32,
    channels: u16,
    has_mixer: bool,
) -> PumpAction {
    let samples = (frames * channels) as u64;
    if frames == 0 {
        PumpAction::CheckShutdown
    } else if !has_mixer {
        PumpAction::Release
    } else if kind is Microphone {
        if marked_silent(flags) {
            PumpAction::Release
        } else {
            PumpAction::MixSamples(samples)
        }
    } else if channels != 2 {
        PumpAction::Release
    } else if marked_silent(flags) {
        PumpAction::MixSilence(samples)
    } else {
        PumpAction::MixSamples(samples)
    }
}

/// What is done next. Packets are taken as long as there are any; then it is
/// looked whether the session ends, and waited.
pub open spec fn pump_step(
    kind: CaptureKind,
    channels: u16,
    has_mixer: bool,
    event: PumpEvent,
) -> PumpAction {
    match event {
        PumpEvent::Checked(ends) => if ends {
            PumpAction::End(true)
        } else {
            PumpAction::Wait
        },
        PumpEvent::Waited(there) => if there {
            PumpAction::GetBuffer
        } else {
            PumpAction::CheckShutdown
        },
        PumpEvent::Got { frames, flags } => packet_action(
            kind,
            frames,
            flags,
            channels,
            has_mixer,
        ),
        PumpEvent::GotNone => PumpAction::CheckShutdown,
        PumpEvent::Mixed => PumpAction::Release,
        PumpEvent::Released(ok) => if ok {
            PumpAction::GetBuffer
        } else {
            PumpAction::End(false)
        },
    }
}

/// What is done next while packets are taken.
pub fn pump_next(kind: CaptureKind, channels: u16, has_mixer: bool, event: PumpEvent) -> (r:
    PumpAction)
    ensures
        r == pump_step(kind, channels, has_mixer, event),
{
    match event {
        PumpEvent::Checked(ends) => if ends {
            PumpAction::End(true)
        } else {
            PumpAction::Wait
        },
        PumpEvent::Waited(there) => if there {
            PumpAction::GetBuffer
        } else {
            PumpAction::CheckShutdown
        },
        PumpEvent::Got { frames, flags } => {
            let packet = match kind {
                CaptureKind::Microphone => microphone_packet(frames, flags, channels, has_mixer),
                _ => loopback_packet(frames, flags, channels, has_mixer),
            };
            match packet {
                Packet::NoMore => PumpAction::CheckShutdown,
                Packet::Skip => PumpAction::Release,
                Packet::Silence(n) => PumpAction::MixSilence(n),
                Packet::Samples(n) => PumpAction::MixSamples(n),
            }
        },
        PumpEvent::GotNone => PumpAction::CheckShutdown,
        PumpEvent::Mixed => PumpAction::Release,
        PumpEvent::Released(ok) => if ok {
            PumpAction::GetBuffer
        } else {
            PumpAction::End(false)
        },
    }
}

/// Every packet is given back: one that was got is given back at once or after
/// it was mixed in, whatever it holds.
pub proof fn law_packets_are_given_back(
    kind: CaptureKind,
    channels: u16,
    has_mixer: bool,
    frames: u32,
    flags: u32,
)
    requires
        frames > 0,
    ensures
        ({
            let next = pump_step(kind, channels, has_mixer, PumpEvent::Got { frames, flags });
            ||| next == PumpAction::Release
            ||| (next is MixSilence || next is MixSamples) && pump_step(
                kind,
                channels,
                has_mixer,
                PumpEvent::Mixed,
            ) == PumpAction::Release
        }),
{
}

/// A piece of silence.
pub fn silence(count: usize) -> (r: Vec<i16>)
    ensures
        r@ == Seq::new(count as nat, |i: int| 0i16),
{
    let mut out: Vec<i16> = Vec::new();
    let mut i: usize = 0;
    while i < count
        invariant
            i <= count,
            out@ == Seq::new(i as nat, |k: int| 0i16),
        decreases count - i,
    {
        out.push(0);
        i += 1;
        assert(out@ =~= Seq::new(i as nat, |k: int| 0i16));
    }
    out
}

/// A capture starts step by step, and a step that fails before packets are taken
/// ends it.
pub proof fn law_capture_starts_step_by_step(kind: CaptureKind, pumped: bool)
    ensures
        ({
            let at = |step: CaptureStep| CaptureRun { kind, step, pumped };
            &&& moved_on(at(CaptureStep::Activate), true) == at(CaptureStep::Initialize)
            &&& moved_on(at(CaptureStep::Initialize), true) == at(CaptureStep::Listen)
            &&& moved_on(at(CaptureStep::Listen), true) == at(CaptureStep::Start)
            &&& moved_on(at(CaptureStep::Start), true) == at(CaptureStep::Pump)
            &&& moved_on(at(CaptureStep::Activate), false) == at(CaptureStep::Failed)
            &&& moved_on(at(CaptureStep::Initialize), false) == at(CaptureStep::Failed)
            &&& moved_on(at(CaptureStep::Listen), false) == at(CaptureStep::Failed)
            &&& moved_on(at(CaptureStep::Start), false) == at(CaptureStep::Failed)
        }),
{
}

/// What becomes of a packet. Without a mixer it is given back. A silent one of the
/// microphone is given back, and a silent one of Teams is mixed in as silence, so
/// that time goes on; else its samples are mixed in, all of them. What is played is
/// mixed only in two channels. An empty packet means that none is there.
pub proof fn law_what_becomes_of_a_packet(
    kind: CaptureKind,
    frames: u32,
    flags: u32,
    channels: u16,
    has_mixer: bool,
)
    ensures
        ({
            let next = pump_step(kind, channels, has_mixer, PumpEvent::Got { frames, flags });
            let silent = (flags / 2) % 2 == 1;
            let samples = frames * channels;
            &&& frames == 0 ==> next == PumpAction::CheckShutdown
            &&& frames > 0 && !has_mixer ==> next == PumpAction::Release
            &&& frames > 0 && has_mixer && kind is Microphone ==> if silent {
                next == PumpAction::Release
            } else {
                next is MixSamples && next->MixSamples_0 == samples
            }
            &&& frames > 0 && has_mixer && !(kind is Microphone) && channels != 2 ==> next
                == PumpAction::Release
            &&& frames > 0 && has_mixer && !(kind is Microphone) && channels == 2 ==> if silent {
                next is MixSilence && next->MixSilence_0 == samples
            } else {
                next is MixSamples && next->MixSamples_0 == samples
            }
        }),
{
    assert(0 <= frames * channels <= 0xffff_ffff * 0xffff) by (nonlinear_arith)
        requires
            0 <= frames <= 0xffff_ffff,
            0 <= channels <= 0xffff,
    ;
}

/// Packets are taken until the session ends or one cannot be given back: it is
/// looked whether the session ends before each wait, and packets are taken as long
/// as there are any.
pub proof fn law_packets_are_taken_until_the_end(kind: CaptureKind, channels: u16, has_mixer: bool)
    ensures
        pump_step(kind, channels, has_mixer, PumpEvent::Checked(true)) == PumpAction::End(true),
        pump_step(kind, channels, has_mixer, PumpEvent::Checked(false)) == PumpAction::Wait,
        pump_step(kind, channels, has_mixer, PumpEvent::Waited(true)) == PumpAction::GetBuffer,
        pump_step(kind, channels, has_mixer, PumpEvent::Waited(false)) == PumpAction::CheckShutdown,
        pump_step(kind, channels, has_mixer, PumpEvent::GotNone) == PumpAction::CheckShutdown,
        pump_step(kind, channels, has_mixer, PumpEvent::Mixed) == PumpAction::Release,
        pump_step(kind, channels, has_mixer, PumpEvent::Released(true)) == PumpAction::GetBuffer,
        pump_step(kind, channels, has_mixer, PumpEvent::Released(false)) == PumpAction::End(false),
{
}

/// What is asked of the device: a fifth of a second, an event for each packet, what
/// is played where that is captured, and the agent's own format except from
/// everything that is played.
pub proof fn law_what_is_asked_of_the_device(kind: CaptureKind)
    ensures
        requested(kind).buffer_100ns == 2_000_000,
        requested(kind).own_format == !(kind is DefaultDevice),
        requested(kind).flags == 0x4_0000 + (if kind is Microphone {
            0int
        } else {
            0x2_0000
        }) + (if kind is DefaultDevice {
            0int
        } else {
            0x8800_0000
        }),
{
}

} // verus!
