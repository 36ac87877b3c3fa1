//! The recording of a meeting: one video file with picture and sound.
//!
//! The encoder lies outside; here it is decided what is handed to it and with
//! which time.

use vstd::prelude::*;

verus! {

/// Frames of the video in a second.
pub const VIDEO_FPS: u32 = 10;

pub const VIDEO_BITRATE_BPS: u32 = 6_000_000;

/// Samples of the sound in a second, of each channel.
pub const AUDIO_SAMPLE_RATE: u32 = 48_000;

pub const AUDIO_CHANNELS: u16 = 2;

pub const AUDIO_BITRATE_BPS: u32 = 128_000;

/// Units of the encoder's time in a second.
pub const TICKS_PER_SECOND: i64 = 10_000_000;

/// Milliseconds between two lines in the log about what was handed over.
pub const LOG_EVERY_MS: u64 = 5_000;

// ---------------------------------------------------------------------------
// The recorder
// ---------------------------------------------------------------------------

/// A recording.
#[derive(Debug)]
pub struct Recorder {
    /// The file can still be written to.
    pub open: bool,
    pub path: String,
    pub video_width: u32,
    pub video_height: u32,
    /// The monotonic time at which the recording began, in microseconds.
    pub start_us: u64,
    /// Frames handed over.
    pub video_frames: u64,
    /// Samples handed over, of all channels.
    pub audio_samples: u64,
    pub last_video_log_ms: u64,
    pub last_audio_log_ms: u64,
}

/// A frame of another size than the video.
#[derive(Debug, Clone, Copy, PartialEq, Eq, Structural)]
pub struct SizeMismatch {
    pub got: usize,
    pub expected: usize,
}

/// What becomes of something that is to be written.
#[derive(Debug, Clone, Copy, PartialEq, Eq, Structural)]
pub enum Submission {
    /// The recording is closed: it is dropped.
    Drop,
    /// It is handed to the encoder with this length of time.
    Submit { duration_100ns: i64 },
}

/// How long a number of samples of sound lasts, in units of the encoder's
/// time. A sample that lacks its other channel does not count.
pub open spec fn sound_length(samples: int) -> int {
    samples / 2 * 10_000_000 / 48_000
}

/// The number of whole milliseconds of a time that is not negative, and zero of
/// one that is.
pub open spec fn whole_ms(ts_100ns: i64) -> int {
    if ts_100ns < 0 {
        0
    } else {
        ts_100ns as int / 10_000
    }
}

fn ms_of(ts_100ns: i64) -> (r: u64)
    ensures
        r == whole_ms(ts_100ns),
{
    if ts_100ns < 0 {
        0
    } else {
        (ts_100ns as u64) / 10_000
    }
}

impl Recorder {
    /// A recording that begins now.
    pub fn create(path: String, video_width: u32, video_height: u32, now_us: u64) -> (r: Self)
        ensures
            r == (Recorder {
                open: true,
                path,
                video_width,
                video_height,
                start_us: now_us,
                video_frames: 0,
                audio_samples: 0,
                last_video_log_ms: 0,
                last_audio_log_ms: 0,
            }),
    {
        Recorder {
            open: true,
            path,
            video_width,
            video_height,
            start_us: now_us,
            video_frames: 0,
            audio_samples: 0,
            last_video_log_ms: 0,
            last_audio_log_ms: 0,
        }
    }

    /// The file of the recording.
    pub fn path(&self) -> (r: &str)
        ensures
            r@ == self.path@,
    {
        self.path.as_str()
    }

    /// The width and the height of the video.
    pub fn video_size(&self) -> (r: (u32, u32))
        ensures
            r == (self.video_width, self.video_height),
    {
        (self.video_width, self.video_height)
    }

    /// The time since the recording began, in units of the encoder's time.
    /// Picture and sound are both stamped with it.
    pub fn now_100ns(&self, now_us: u64) -> (r: i64)
        requires
            (now_us - self.start_us) * 10 <= i64::MAX,
        ensures
            r == if now_us < self.start_us {
                0
            } else {
                (now_us - self.start_us) * 10
            },
    {
        if now_us < self.start_us {
            return 0;
        }
        ((now_us - self.start_us) as i64) * 10
    }

    /// What becomes of a frame of `size` bytes. Once the recording is closed it
    /// is dropped; before that its size must be that of the video.
    pub fn write_video_bgra(&self, size: usize) -> (r: Result<Submission, SizeMismatch>)
        requires
            self.video_width * self.video_height * 4 <= usize::MAX,
        ensures
            r == frame_submission(*self, size),
    {
        if !self.open {
            return Ok(Submission::Drop);
        }
        assert(0 <= self.video_width * self.video_height) by (nonlinear_arith)
            requires
                0 <= self.video_width,
                0 <= self.video_height,
        ;
        let expected: usize = (self.video_width as usize) * (self.video_height as usize) * 4;
        if size != expected {
            return Err(SizeMismatch { got: size, expected });
        }
        Ok(Submission::Submit { duration_100ns: frame_duration_100ns() })
    }

    /// What becomes of a number of samples of sound. Once the recording is
    /// closed they are dropped.
    pub fn write_audio_pcm_i16(&self, samples: usize) -> (r: Submission)
        requires
            samples / 2 * 10_000_000 <= i64::MAX,
        ensures
            r == sound_submission(*self, samples),
    {
        if !self.open {
            return Submission::Drop;
        }
        let frames: i64 = (samples / 2) as i64;
        Submission::Submit { duration_100ns: frames * TICKS_PER_SECOND / 48_000 }
    }

    /// A frame was handed over. Is it time for a line in the log, and with which
    /// time?
    pub fn on_video_written(&mut self, ts_100ns: i64) -> (r: Option<u64>)
        requires
            old(self).video_frames < u64::MAX,
        ensures
            final(self).video_frames == old(self).video_frames + 1,
            r == log_due(old(self).last_video_log_ms, ts_100ns),
            final(self).last_video_log_ms == match r {
                Some(now) => now,
                None => old(self).last_video_log_ms,
            },
            *final(self) == (Recorder {
                video_frames: final(self).video_frames,
                last_video_log_ms: final(self).last_video_log_ms,
                ..*old(self)
            }),
    {
        self.video_frames = self.video_frames + 1;
        let now: u64 = ms_of(ts_100ns);
        if now >= self.last_video_log_ms && now - self.last_video_log_ms >= LOG_EVERY_MS {
            self.last_video_log_ms = now;
            return Some(now);
        }
        None
    }

    /// Samples of sound were handed over. Is it time for a line in the log, and
    /// with which time?
    pub fn on_audio_written(&mut self, samples: usize, ts_100ns: i64) -> (r: Option<u64>)
        requires
            old(self).audio_samples + samples <= u64::MAX,
        ensures
            final(self).audio_samples == old(self).audio_samples + samples,
            r == log_due(old(self).last_audio_log_ms, ts_100ns),
            final(self).last_audio_log_ms == match r {
                Some(now) => now,
                None => old(self).last_audio_log_ms,
            },
            *final(self) == (Recorder {
                audio_samples: final(self).audio_samples,
                last_audio_log_ms: final(self).last_audio_log_ms,
                ..*old(self)
            }),
    {
        self.audio_samples = self.audio_samples + samples as u64;
        let now: u64 = ms_of(ts_100ns);
        if now >= self.last_audio_log_ms && now - self.last_audio_log_ms >= LOG_EVERY_MS {
            self.last_audio_log_ms = now;
            return Some(now);
        }
        None
    }

    /// The milliseconds of sound that were handed over.
    pub fn audio_ms(&self) -> (r: u64)
        requires
            self.audio_samples / 2 * 1000 <= u64::MAX,
        ensures
            r == self.audio_samples / 2 * 1000 / 48_000,
    {
        self.audio_samples / 2 * 1000 / 48_000
    }

    /// Closes the recording. Is the file to be finished? Not if it was before.
    pub fn finalize(&mut self) -> (r: bool)
        ensures
            r == old(self).open,
            *final(self) == closed(*old(self)),
    {
        let was_open = self.open;
        self.open = false;
        was_open
    }
}

/// What becomes of a frame of `size` bytes.
pub open spec fn frame_submission(rec: Recorder, size: usize) -> Result<Submission, SizeMismatch> {
    let expected = rec.video_width * rec.video_height * 4;
    if !rec.open {
        Ok(Submission::Drop)
    } else if size == expected {
        Ok(Submission::Submit { duration_100ns: 1_000_000 })
    } else {
        Err(SizeMismatch { got: size, expected: expected as usize })
    }
}

/// What becomes of a number of samples of sound.
pub open spec fn sound_submission(rec: Recorder, samples: usize) -> Submission {
    if rec.open {
        Submission::Submit { duration_100ns: sound_length(samples as int) as i64 }
    } else {
        Submission::Drop
    }
}

/// A recording once it is closed.
pub open spec fn closed(rec: Recorder) -> Recorder {
    Recorder { open: false, ..rec }
}

/// A closed recording takes nothing any more: whatever comes is dropped, and
/// nothing of it is an error. Closing it again changes nothing.
pub proof fn law_closed_recording_takes_nothing(rec: Recorder, size: usize, samples: usize)
    ensures
        frame_submission(closed(rec), size) == Ok::<Submission, SizeMismatch>(Submission::Drop),
        sound_submission(closed(rec), samples) == Submission::Drop,
        closed(closed(rec)) == closed(rec),
{
}

/// When a line is written into the log: not sooner than a while after the last
/// one.
pub open spec fn log_due(last_ms: u64, ts_100ns: i64) -> Option<u64> {
    if whole_ms(ts_100ns) - last_ms >= LOG_EVERY_MS {
        Some(whole_ms(ts_100ns) as u64)
    } else {
        None
    }
}

/// How long a frame lasts, in units of the encoder's time.
pub fn frame_duration_100ns() -> (r: i64)
    ensures
        r == 1_000_000,
        r * VIDEO_FPS == TICKS_PER_SECOND,
{
    TICKS_PER_SECOND / (VIDEO_FPS as i64)
}

// ---------------------------------------------------------------------------
// Samples as bytes
// ---------------------------------------------------------------------------

/// The two bytes of a sample as one number.
pub open spec fn unsigned(s: i16) -> int {
    if s < 0 {
        s + 0x1_0000
    } else {
        s as int
    }
}

/// Samples as bytes: the low byte of each sample first.
pub open spec fn pcm(s: Seq<i16>) -> Seq<u8> {
    Seq::new(
        2 * s.len(),
        |i: int|
            if i % 2 == 0 {
                (unsigned(s[i / 2]) % 256) as u8
            } else {
                (unsigned(s[i / 2]) / 256) as u8
            },
    )
}

/// The sample that two bytes stand for.
pub open spec fn sample_of(low: u8, high: u8) -> int {
    let v = low + 256 * high;
    if v >= 0x8000 {
        v - 0x1_0000
    } else {
        v
    }
}

/// The bytes that are handed over stand for the samples.
pub proof fn law_pcm_keeps_samples(s: Seq<i16>, i: int)
    requires
        0 <= i < s.len(),
    ensures
        pcm(s).len() == 2 * s.len(),
        sample_of(pcm(s)[2 * i], pcm(s)[2 * i + 1]) == s[i],
{
    let v = unsigned(s[i]);
    assert(pcm(s)[2 * i] == (v % 256) as u8);
    assert((2 * i + 1) / 2 == i);
    assert(pcm(s)[2 * i + 1] == (v / 256) as u8);
}

/// Samples as bytes.
pub fn pcm_bytes(samples: &[i16]) -> (r: Vec<u8>)
    requires
        2 * samples@.len() <= usize::MAX,
    ensures
        r@ == pcm(samples@),
{
    let mut out: Vec<u8> = Vec::new();
    let mut i: usize = 0;
    while i < samples.len()
        invariant
            i <= samples@.len(),
            out@.len() == 2 * i,
            forall|j: int| 0 <= j < 2 * i ==> #[trigger] out@[j] == pcm(samples@)[j],
        decreases samples@.len() - i,
    {
        let s: i32 = samples[i] as i32;
        let v: u32 = if s < 0 { (s + 0x1_0000) as u32 } else { s as u32 };
        out.push((v % 256) as u8);
        out.push((v / 256) as u8);
        i += 1;
    }
    assert(out@ =~= pcm(samples@));
    out
}

// ---------------------------------------------------------------------------
// What the encoder is told
// ---------------------------------------------------------------------------

/// Two numbers in one, the first in the upper half.
pub fn pack_u32_pair(a: u32, b: u32) -> (r: u64)
    ensures
        r == a * 0x1_0000_0000 + b,
{
    (a as u64) * 0x1_0000_0000 + (b as u64)
}

/// Both numbers of a pair can be had back.
pub proof fn law_pair_keeps_both(a: u32, b: u32)
    ensures
        (a * 0x1_0000_0000 + b) / 0x1_0000_0000 == a,
        (a * 0x1_0000_0000 + b) % 0x1_0000_0000 == b,
{
}

/// What a stream holds.
#[derive(Debug, Clone, Copy, PartialEq, Eq, Structural)]
pub enum Encoding {
    H264,
    Rgb32,
    Aac,
    Pcm,
}

/// A property of a stream.
#[derive(Debug, Clone, Copy, PartialEq, Eq, Structural)]
pub enum Property {
    AvgBitrate,
    InterlaceMode,
    DefaultStride,
    FrameSize,
    FrameRate,
    PixelAspectRatio,
    AudioBitsPerSample,
    AudioSamplesPerSecond,
    AudioNumChannels,
    AudioAvgBytesPerSecond,
    AudioBlockAlignment,
    AacProfileLevel,
    AacPayloadType,
}

/// The value of a property.
#[derive(Debug, Clone, Copy, PartialEq, Eq, Structural)]
pub enum Setting {
    Small(Property, u32),
    Large(Property, u64),
}

/// The description of a stream.
#[derive(Debug)]
pub struct StreamType {
    pub encoding: Encoding,
    pub settings: Vec<Setting>,
}

/// Each row after the other, none left out.
pub const PROGRESSIVE: u32 = 2;

/// The profile of the encoded sound.
pub const AAC_LC: u32 = 0x29;

/// Two numbers in one, the first in the upper half.
pub open spec fn pair(a: u32, b: u32) -> u64 {
    (a * 0x1_0000_0000 + b) as u64
}

/// The description of the video in the file.
pub open spec fn video_output(w: u32, h: u32) -> Seq<Setting> {
    seq![
        Setting::Small(Property::AvgBitrate, VIDEO_BITRATE_BPS),
        Setting::Small(Property::InterlaceMode, PROGRESSIVE),
        Setting::Large(Property::FrameSize, pair(w, h)),
        Setting::Large(Property::FrameRate, pair(VIDEO_FPS, 1)),
        Setting::Large(Property::PixelAspectRatio, pair(1, 1)),
    ]
}

/// The description of the frames that are handed over. Rows come from the top.
pub open spec fn video_input(w: u32, h: u32) -> Seq<Setting> {
    seq![
        Setting::Small(Property::InterlaceMode, PROGRESSIVE),
        Setting::Small(Property::DefaultStride, (w * 4) as u32),
        Setting::Large(Property::FrameSize, pair(w, h)),
        Setting::Large(Property::FrameRate, pair(VIDEO_FPS, 1)),
        Setting::Large(Property::PixelAspectRatio, pair(1, 1)),
    ]
}

/// The description of the sound in the file.
pub open spec fn audio_output() -> Seq<Setting> {
    seq![
        Setting::Small(Property::AudioBitsPerSample, 16),
        Setting::Small(Property::AudioSamplesPerSecond, AUDIO_SAMPLE_RATE),
        Setting::Small(Property::AudioNumChannels, 2),
        Setting::Small(Property::AudioAvgBytesPerSecond, 16_000),
        Setting::Small(Property::AacProfileLevel, AAC_LC),
        Setting::Small(Property::AacPayloadType, 0),
    ]
}

/// The description of the samples that are handed over.
pub open spec fn audio_input() -> Seq<Setting> {
    seq![
        Setting::Small(Property::AudioBitsPerSample, 16),
        Setting::Small(Property::AudioSamplesPerSecond, AUDIO_SAMPLE_RATE),
        Setting::Small(Property::AudioNumChannels, 2),
        Setting::Small(Property::AudioBlockAlignment, 4),
        Setting::Small(Property::AudioAvgBytesPerSecond, 192_000),
    ]
}

fn push_shape(settings: &mut Vec<Setting>, w: u32, h: u32)
    ensures
        final(settings)@ == old(settings)@ + seq![
            Setting::Large(Property::FrameSize, pair(w, h)),
            Setting::Large(Property::FrameRate, pair(VIDEO_FPS, 1)),
            Setting::Large(Property::PixelAspectRatio, pair(1, 1)),
        ],
{
    let ghost before = settings@;
    settings.push(Setting::Large(Property::FrameSize, pack_u32_pair(w, h)));
    settings.push(Setting::Large(Property::FrameRate, pack_u32_pair(VIDEO_FPS, 1)));
    settings.push(Setting::Large(Property::PixelAspectRatio, pack_u32_pair(1, 1)));
    assert(settings@ =~= before + seq![
        Setting::Large(Property::FrameSize, pair(w, h)),
        Setting::Large(Property::FrameRate, pair(VIDEO_FPS, 1)),
        Setting::Large(Property::PixelAspectRatio, pair(1, 1)),
    ]);
}

/// The description of the video in the file.
pub fn build_video_output_type(w: u32, h: u32) -> (r: StreamType)
    ensures
        r.encoding == Encoding::H264,
        r.settings@ == video_output(w, h),
{
    let mut settings: Vec<Setting> = Vec::new();
    settings.push(Setting::Small(Property::AvgBitrate, VIDEO_BITRATE_BPS));
    settings.push(Setting::Small(Property::InterlaceMode, PROGRESSIVE));
    push_shape(&mut settings, w, h);
    assert(settings@ =~= video_output(w, h));
    StreamType { encoding: Encoding::H264, settings }
}

/// The description of the frames that are handed over.
pub fn build_video_input_type(w: u32, h: u32) -> (r: StreamType)
    requires
        w * 4 <= u32::MAX,
    ensures
        r.encoding == Encoding::Rgb32,
        r.settings@ == video_input(w, h),
{
    let mut settings: Vec<Setting> = Vec::new();
    settings.push(Setting::Small(Property::InterlaceMode, PROGRESSIVE));
    settings.push(Setting::Small(Property::DefaultStride, w * 4));
    push_shape(&mut settings, w, h);
    assert(settings@ =~= video_input(w, h));
    StreamType { encoding: Encoding::Rgb32, settings }
}

/// The description of the sound in the file.
pub fn build_audio_output_type() -> (r: StreamType)
    ensures
        r.encoding == Encoding::Aac,
        r.settings@ == audio_output(),
{
    let mut settings: Vec<Setting> = Vec::new();
    settings.push(Setting::Small(Property::AudioBitsPerSample, 16));
    settings.push(Setting::Small(Property::AudioSamplesPerSecond, AUDIO_SAMPLE_RATE));
    settings.push(Setting::Small(Property::AudioNumChannels, AUDIO_CHANNELS as u32));
    settings.push(Setting::Small(Property::AudioAvgBytesPerSecond, AUDIO_BITRATE_BPS / 8));
    settings.push(Setting::Small(Property::AacProfileLevel, AAC_LC));
    settings.push(Setting::Small(Property::AacPayloadType, 0));
    assert(settings@ =~= audio_output());
    StreamType { encoding: Encoding::Aac, settings }
}

/// The description of the samples that are handed over.
pub fn build_audio_input_type() -> (r: StreamType)
    ensures
        r.encoding == Encoding::Pcm,
        r.settings@ == audio_input(),
{
    let block: u32 = (AUDIO_CHANNELS as u32) * 2;
    let mut settings: Vec<Setting> = Vec::new();
    settings.push(Setting::Small(Property::AudioBitsPerSample, 16));
    settings.push(Setting::Small(Property::AudioSamplesPerSecond, AUDIO_SAMPLE_RATE));
    settings.push(Setting::Small(Property::AudioNumChannels, AUDIO_CHANNELS as u32));
    settings.push(Setting::Small(Property::AudioBlockAlignment, block));
    settings.push(Setting::Small(Property::AudioAvgBytesPerSecond, AUDIO_SAMPLE_RATE * block));
    assert(settings@ =~= audio_input());
    StreamType { encoding: Encoding::Pcm, settings }
}

// ---------------------------------------------------------------------------
// What holds of every recording
// ---------------------------------------------------------------------------

/// An open recording takes every frame that has four bytes for each pixel of the
/// video, as a tenth of a second, and refuses all others; and it takes all sound,
/// for as many units of time as its pairs of samples last at 48000 pairs in a
/// second, rounded down.
pub proof fn law_open_recording_takes_what_fits(rec: Recorder, size: usize, samples: usize)
    requires
        rec.open,
        rec.video_width * rec.video_height * 4 <= usize::MAX,
        samples / 2 * 10_000_000 <= i64::MAX,
    ensures
        size == rec.video_width * rec.video_height * 4 ==> frame_submission(rec, size) == Ok::<
            Submission,
            SizeMismatch,
        >(Submission::Submit { duration_100ns: 1_000_000 }),
        size != rec.video_width * rec.video_height * 4 ==> frame_submission(rec, size) is Err
            && frame_submission(rec, size)->Err_0.got == size && frame_submission(
            rec,
            size,
        )->Err_0.expected == rec.video_width * rec.video_height * 4,
        sound_submission(rec, samples) is Submit,
        ({
            let d = sound_submission(rec, samples)->duration_100ns;
            d * 48_000 <= samples / 2 * 10_000_000 < (d + 1) * 48_000
        }),
{
    assert(0 <= rec.video_width * rec.video_height) by (nonlinear_arith)
        requires
            0 <= rec.video_width,
            0 <= rec.video_height,
    ;
}

/// A line is written into the log exactly where at least five seconds have passed
/// since the last one, and then with the time in whole milliseconds.
pub proof fn law_log_is_written_every_five_seconds(last_ms: u64, ts_100ns: i64)
    ensures
        log_due(last_ms, ts_100ns) is Some <==> ts_100ns >= 0 && ts_100ns / 10_000 >= last_ms
            + 5_000,
        log_due(last_ms, ts_100ns) is Some ==> log_due(last_ms, ts_100ns)->0 == ts_100ns / 10_000,
{
}

/// What the encoder is told: ten frames in a second, six million bits in a second
/// of video, and two channels of sound at 48000 samples in a second, with sixteen
/// thousand bytes in a second once encoded.
pub proof fn law_encoder_is_told(w: u32, h: u32)
    requires
        w * 4 <= u32::MAX,
    ensures
        video_output(w, h) == seq![
            Setting::Small(Property::AvgBitrate, 6_000_000),
            Setting::Small(Property::InterlaceMode, 2),
            Setting::Large(Property::FrameSize, (w * 0x1_0000_0000 + h) as u64),
            Setting::Large(Property::FrameRate, 0xA_0000_0001),
            Setting::Large(Property::PixelAspectRatio, 0x1_0000_0001),
        ],
        video_input(w, h) == seq![
            Setting::Small(Property::InterlaceMode, 2),
            Setting::Small(Property::DefaultStride, (w * 4) as u32),
            Setting::Large(Property::FrameSize, (w * 0x1_0000_0000 + h) as u64),
            Setting::Large(Property::FrameRate, 0xA_0000_0001),
            Setting::Large(Property::PixelAspectRatio, 0x1_0000_0001),
        ],
        audio_output() == seq![
            Setting::Small(Property::AudioBitsPerSample, 16),
            Setting::Small(Property::AudioSamplesPerSecond, 48_000),
            Setting::Small(Property::AudioNumChannels, 2),
            Setting::Small(Property::AudioAvgBytesPerSecond, 16_000),
            Setting::Small(Property::AacProfileLevel, 0x29),
            Setting::Small(Property::AacPayloadType, 0),
        ],
        audio_input() == seq![
            Setting::Small(Property::AudioBitsPerSample, 16),
            Setting::Small(Property::AudioSamplesPerSecond, 48_000),
            Setting::Small(Property::AudioNumChannels, 2),
            Setting::Small(Property::AudioBlockAlignment, 4),
            Setting::Small(Property::AudioAvgBytesPerSecond, 192_000),
        ],
{
    assert(pair(10, 1) == 0xA_0000_0001);
    assert(pair(1, 1) == 0x1_0000_0001);
}

} // verus!
