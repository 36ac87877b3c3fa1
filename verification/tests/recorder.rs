use meeting_agent::recorder::{
    build_audio_input_type, build_audio_output_type, build_video_input_type,
    build_video_output_type, frame_duration_100ns, pack_u32_pair, pcm_bytes, Encoding, Property,
    Recorder, Setting, SizeMismatch, Submission,
};

fn recorder() -> Recorder {
    Recorder::create("D:/meeting.mp4".to_string(), 4, 2, 1_000)
}

#[test]
fn a_recording_knows_its_file_and_size() {
    let r = recorder();
    assert_eq!(r.path(), "D:/meeting.mp4");
    assert_eq!(r.video_size(), (4, 2));
}

#[test]
fn time_is_counted_from_the_start_of_the_recording() {
    let r = recorder();
    assert_eq!(r.now_100ns(1_000), 0);
    assert_eq!(r.now_100ns(1_234), 2_340);
    assert_eq!(r.now_100ns(10), 0);
}

#[test]
fn a_frame_must_have_the_size_of_the_video() {
    let r = recorder();
    assert_eq!(r.write_video_bgra(32), Ok(Submission::Submit { duration_100ns: 1_000_000 }));
    assert_eq!(r.write_video_bgra(31), Err(SizeMismatch { got: 31, expected: 32 }));
    assert_eq!(frame_duration_100ns(), 1_000_000);
}

#[test]
fn sound_lasts_as_long_as_its_samples() {
    let r = recorder();
    assert_eq!(r.write_audio_pcm_i16(960), Submission::Submit { duration_100ns: 100_000 });
    assert_eq!(r.write_audio_pcm_i16(3), Submission::Submit { duration_100ns: 208 });
    assert_eq!(r.write_audio_pcm_i16(0), Submission::Submit { duration_100ns: 0 });
}

#[test]
fn a_closed_recording_takes_nothing() {
    let mut r = recorder();
    assert!(r.finalize());
    assert_eq!(r.write_video_bgra(32), Ok(Submission::Drop));
    assert_eq!(r.write_video_bgra(31), Ok(Submission::Drop));
    assert_eq!(r.write_audio_pcm_i16(960), Submission::Drop);
    assert!(!r.finalize());
}

#[test]
fn what_was_handed_over_is_counted_and_logged_now_and_then() {
    let mut r = recorder();
    assert_eq!(r.on_video_written(0), None);
    assert_eq!(r.on_video_written(49_999_999), None);
    assert_eq!(r.on_video_written(50_000_000), Some(5_000));
    assert_eq!(r.on_video_written(60_000_000), None);
    assert_eq!(r.video_frames, 4);
    assert_eq!(r.on_audio_written(96_000, -1), None);
    assert_eq!(r.on_audio_written(96_000, 70_000_000), Some(7_000));
    assert_eq!(r.audio_samples, 192_000);
    assert_eq!(r.audio_ms(), 2_000);
}

#[test]
fn samples_are_written_low_byte_first() {
    assert_eq!(pcm_bytes(&[1, -1, 256, i16::MIN]), vec![1, 0, 255, 255, 0, 1, 0, 128]);
}

#[test]
fn the_bytes_keep_the_samples() {
    let samples: Vec<i16> = (-32768i32..=32767).step_by(331).map(|v| v as i16).collect();
    let back: Vec<i16> = pcm_bytes(&samples)
        .chunks(2)
        .map(|b| i16::from_le_bytes([b[0], b[1]]))
        .collect();
    assert_eq!(back, samples);
}

#[test]
fn a_pair_keeps_both_numbers() {
    assert_eq!(pack_u32_pair(1920, 1080), 0x0000_0780_0000_0438);
    let p = pack_u32_pair(u32::MAX, 7);
    assert_eq!((p >> 32, p & 0xffff_ffff), (u32::MAX as u64, 7));
}

#[test]
fn the_streams_are_described() {
    let video = build_video_output_type(1920, 1080);
    assert_eq!(video.encoding, Encoding::H264);
    assert_eq!(
        video.settings,
        vec![
            Setting::Small(Property::AvgBitrate, 6_000_000),
            Setting::Small(Property::InterlaceMode, 2),
            Setting::Large(Property::FrameSize, 0x0000_0780_0000_0438),
            Setting::Large(Property::FrameRate, 0x0000_000a_0000_0001),
            Setting::Large(Property::PixelAspectRatio, 0x0000_0001_0000_0001),
        ]
    );
    let frames = build_video_input_type(1920, 1080);
    assert_eq!(frames.encoding, Encoding::Rgb32);
    assert_eq!(frames.settings[1], Setting::Small(Property::DefaultStride, 7680));
    let sound = build_audio_output_type();
    assert_eq!(sound.encoding, Encoding::Aac);
    assert_eq!(sound.settings[3], Setting::Small(Property::AudioAvgBytesPerSecond, 16_000));
    assert_eq!(sound.settings[4], Setting::Small(Property::AacProfileLevel, 0x29));
    let samples = build_audio_input_type();
    assert_eq!(samples.encoding, Encoding::Pcm);
    assert_eq!(samples.settings[3], Setting::Small(Property::AudioBlockAlignment, 4));
    assert_eq!(samples.settings[4], Setting::Small(Property::AudioAvgBytesPerSecond, 192_000));
}
