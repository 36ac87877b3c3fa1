//! The sound of a meeting: that of Teams, and that of the microphone.
//!
//! Both are captured on their own and made into one by the mixer, whose sound
//! goes into the recording.

use vstd::prelude::*;

use crate::config::Config;

pub mod capture;
pub mod mixer;

verus! {

// ---------------------------------------------------------------------------
// What is captured
// ---------------------------------------------------------------------------

/// What the audio worker sets to work.
#[derive(Debug, Clone, Copy, PartialEq, Eq, Structural)]
pub struct AudioPlan {
    pub loopback: bool,
    pub microphone: bool,
    /// There is a recording to mix for.
    pub mixer: bool,
}

/// What the audio worker sets to work.
pub fn plan_audio(cfg: &Config, has_recorder: bool) -> (r: AudioPlan)
    ensures
        r == (AudioPlan {
            loopback: cfg.audio.capture_teams_loopback,
            microphone: cfg.audio.capture_microphone,
            mixer: has_recorder,
        }),
{
    AudioPlan {
        loopback: cfg.audio.capture_teams_loopback,
        microphone: cfg.audio.capture_microphone,
        mixer: has_recorder,
    }
}

/// Where the sound of Teams is taken from.
#[derive(Debug, Clone, Copy, PartialEq, Eq, Structural)]
pub enum LoopbackSource {
    /// The process and those that it has started.
    Process(u32),
    /// Everything that is played.
    DefaultDevice,
}

/// Where the sound is taken from at first: from the process if it is known.
pub fn first_source(teams_pid: u32) -> (r: LoopbackSource)
    ensures
        r == if teams_pid != 0 {
            LoopbackSource::Process(teams_pid)
        } else {
            LoopbackSource::DefaultDevice
        },
{
    if teams_pid != 0 {
        LoopbackSource::Process(teams_pid)
    } else {
        LoopbackSource::DefaultDevice
    }
}

/// Where the sound is taken from once a source has failed: from everything that
/// is played, if the process has failed and the settings allow it.
pub fn next_source(failed: LoopbackSource, fallback_allowed: bool) -> (r: Option<LoopbackSource>)
    ensures
        r == if failed is Process && fallback_allowed {
            Some(LoopbackSource::DefaultDevice)
        } else {
            None
        },
{
    match failed {
        LoopbackSource::Process(_) => if fallback_allowed {
            Some(LoopbackSource::DefaultDevice)
        } else {
            None
        },
        LoopbackSource::DefaultDevice => None,
    }
}

/// The milliseconds that a source has to be activated.
pub const ACTIVATION_MS: u32 = 5000;

/// The length of the capture buffer, in units of a hundred nanoseconds.
pub const BUFFER_100NS: i64 = 200_0000;

/// The milliseconds after which it is looked whether the capture is to end.
pub const WAIT_MS: u32 = 200;

/// Why a source could not be activated.
#[derive(Debug, Clone, Copy, PartialEq, Eq, Structural)]
pub enum ActivationError {
    TimedOut,
    Refused(i32),
    NoClient,
}

/// What came of activating a source: whether it was answered in time, with
/// which code, and whether a client came with it.
pub fn activation_outcome(answered: bool, hr: i32, has_client: bool) -> (r: Result<
    (),
    ActivationError,
>)
    ensures
        match r {
            Ok(_) => answered && hr == 0 && has_client,
            Err(ActivationError::TimedOut) => !answered,
            Err(ActivationError::Refused(code)) => answered && hr != 0 && code == hr,
            Err(ActivationError::NoClient) => answered && hr == 0 && !has_client,
        },
{
    if !answered {
        return Err(ActivationError::TimedOut);
    }
    if hr != 0 {
        return Err(ActivationError::Refused(hr));
    }
    if !has_client {
        return Err(ActivationError::NoClient);
    }
    Ok(())
}

// ---------------------------------------------------------------------------
// Packets
// ---------------------------------------------------------------------------

/// The flag of a packet that is silent, whatever it holds.
pub const SILENT: u32 = 2;

/// A packet is marked as silent.
pub open spec fn marked_silent(flags: u32) -> bool {
    flags / SILENT % 2 == 1
}

/// What is done with a packet.
#[derive(Debug, Clone, Copy, PartialEq, Eq, Structural)]
pub enum Packet {
    /// There is none: wait for the next.
    NoMore,
    /// Give it back without using it.
    Skip,
    /// So many samples of silence are mixed in.
    Silence(u64),
    /// The samples of it, so many, are mixed in.
    Samples(u64),
}

/// What is done with a packet of the sound of Teams. A silent one counts, so
/// that time goes on; one that is not stereo cannot be mixed.
pub fn loopback_packet(frames: u32, flags: u32, channels: u16, has_mixer: bool) -> (r: Packet)
    ensures
        r == if frames == 0 {
            Packet::NoMore
        } else if !has_mixer || channels != 2 {
            Packet::Skip
        } else if marked_silent(flags) {
            Packet::Silence((frames * channels) as u64)
        } else {
            Packet::Samples((frames * channels) as u64)
        },
{
    if frames == 0 {
        return Packet::NoMore;
    }
    if !has_mixer || channels != 2 {
        return Packet::Skip;
    }
    let total: u64 = (frames as u64) * 2;
    if flags / SILENT % 2 == 1 {
        Packet::Silence(total)
    } else {
        Packet::Samples(total)
    }
}

/// What is done with a packet of the microphone. A silent one is skipped: the
/// sound of Teams sets the pace.
pub fn microphone_packet(frames: u32, flags: u32, channels: u16, has_mixer: bool) -> (r: Packet)
    ensures
        r == if frames == 0 {
            Packet::NoMore
        } else if marked_silent(flags) || !has_mixer {
            Packet::Skip
        } else {
            Packet::Samples((frames * channels) as u64)
        },
{
    if frames == 0 {
        return Packet::NoMore;
    }
    if flags / SILENT % 2 == 1 || !has_mixer {
        return Packet::Skip;
    }
    assert(0 <= frames * channels <= 0xffff_ffff * 0xffff) by (nonlinear_arith)
        requires
            0 <= frames <= 0xffff_ffff,
            0 <= channels <= 0xffff,
    ;
    Packet::Samples((frames as u64) * (channels as u64))
}

// ---------------------------------------------------------------------------
// Formats
// ---------------------------------------------------------------------------

/// A format of sound that is described at length.
pub const FORMAT_EXTENSIBLE: u16 = 0xFFFE;

/// A format of sound in floating point.
pub const FORMAT_FLOAT: u16 = 3;

/// The rate at which the microphone and Teams are captured.
pub const CAPTURE_RATE: u32 = 48_000;

/// The channels in which the microphone and Teams are captured.
pub const CAPTURE_CHANNELS: u16 = 2;

/// A format of sound in floating point.
#[derive(Debug, Clone, Copy, PartialEq, Eq, Structural)]
pub struct WaveFormat {
    pub tag: u16,
    pub channels: u16,
    pub samples_per_sec: u32,
    pub avg_bytes_per_sec: u32,
    pub block_align: u16,
    pub bits_per_sample: u16,
    /// The bytes that the long description has more than the short one.
    pub extra_size: u16,
    pub valid_bits: u16,
    /// The speakers that the channels are for.
    pub channel_mask: u32,
}

/// The format of so many channels at this rate, four bytes for a sample.
pub open spec fn float_format(sample_rate: u32, channels: u16) -> WaveFormat {
    WaveFormat {
        tag: FORMAT_EXTENSIBLE,
        channels,
        samples_per_sec: sample_rate,
        avg_bytes_per_sec: (sample_rate * channels * 4) as u32,
        block_align: (channels * 4) as u16,
        bits_per_sample: 32,
        extra_size: 22,
        valid_bits: 32,
        channel_mask: 3,
    }
}

/// The format in which the sound of Teams is asked for.
pub fn build_loopback_format(sample_rate: u32, channels: u16) -> (r: WaveFormat)
    requires
        channels * 4 <= u16::MAX,
        sample_rate * channels * 4 <= u32::MAX,
    ensures
        r == float_format(sample_rate, channels),
{
    let block_align: u16 = channels * 4;
    assert(sample_rate * block_align == sample_rate * channels * 4) by (nonlinear_arith)
        requires
            block_align == channels * 4,
    ;
    assert(0 <= sample_rate * block_align) by (nonlinear_arith)
        requires
            0 <= sample_rate,
            0 <= block_align,
    ;
    WaveFormat {
        tag: FORMAT_EXTENSIBLE,
        channels,
        samples_per_sec: sample_rate,
        avg_bytes_per_sec: sample_rate * (block_align as u32),
        block_align,
        bits_per_sample: 32,
        extra_size: 22,
        valid_bits: 32,
        channel_mask: 3,
    }
}

/// The format in which the microphone is asked for.
pub fn build_mic_format(sample_rate: u32, channels: u16) -> (r: WaveFormat)
    requires
        channels * 4 <= u16::MAX,
        sample_rate * channels * 4 <= u32::MAX,
    ensures
        r == float_format(sample_rate, channels),
{
    build_loopback_format(sample_rate, channels)
}

/// A format as a device tells it.
#[derive(Debug, Clone, Copy, PartialEq, Eq, Structural)]
pub struct DeviceFormat {
    pub tag: u16,
    pub samples_per_sec: u32,
    pub channels: u16,
    /// A description at length says that samples are in floating point.
    pub subformat_is_float: bool,
}

/// The rate and the channels of a format, and whether it is in floating point.
pub fn read_format(f: &DeviceFormat) -> (r: (u32, u16, bool))
    ensures
        r.0 == f.samples_per_sec,
        r.1 == f.channels,
        r.2 == if f.tag == 0xFFFE {
            f.subformat_is_float
        } else {
            f.tag == 3
        },
{
    let is_float = if f.tag == FORMAT_EXTENSIBLE {
        f.subformat_is_float
    } else {
        f.tag == FORMAT_FLOAT
    };
    (f.samples_per_sec, f.channels, is_float)
}

/// A packet is silent exactly where the second of its flags is set.
pub proof fn law_second_flag_means_silence(flags: u32)
    ensures
        marked_silent(flags) <==> (flags / 2) % 2 == 1,
{
}

/// A format is told at length, in floating point: four bytes for a sample of each
/// channel, at this rate, for the two speakers at the front.
pub proof fn law_format_is_told_at_length(sample_rate: u32, channels: u16)
    requires
        channels * 4 <= u16::MAX,
        0 <= sample_rate * channels * 4 <= u32::MAX,
    ensures
        ({
            let f = float_format(sample_rate, channels);
            &&& f.tag == 0xFFFE
            &&& f.channels == channels
            &&& f.samples_per_sec == sample_rate
            &&& f.block_align == 4 * channels
            &&& f.avg_bytes_per_sec == sample_rate * channels * 4
            &&& f.bits_per_sample == 32
            &&& f.valid_bits == 32
            &&& f.extra_size == 22
            &&& f.channel_mask == 3
        }),
{
}

} // verus!
