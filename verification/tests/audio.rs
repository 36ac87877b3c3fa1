use meeting_agent::audio::capture::{
    end_note, pump_next, silence, stream_request, CaptureKind, CaptureRun, CaptureStep, PumpAction,
    PumpEvent,
};
use meeting_agent::audio::mixer::{AudioMixer, MIC_BUFFER_CAP_SAMPLES};
use meeting_agent::audio::{
    activation_outcome, build_loopback_format, build_mic_format, first_source, loopback_packet,
    microphone_packet, next_source, plan_audio, read_format, ActivationError, AudioPlan,
    DeviceFormat, LoopbackSource, Packet, FORMAT_EXTENSIBLE, FORMAT_FLOAT,
};
use meeting_agent::config::Config;

#[test]
fn the_microphone_is_added_to_teams() {
    let mut m = AudioMixer::new();
    m.push_mic(&[1, 2, 3]);
    assert_eq!(m.push_loopback(&[10, 20]), vec![11, 22]);
    assert_eq!(m.push_loopback(&[30, 40]), vec![33, 40]);
    assert_eq!(m.push_loopback(&[5]), vec![5]);
}

#[test]
fn a_sum_stays_in_range() {
    let mut m = AudioMixer::new();
    m.push_mic(&[i16::MAX, i16::MIN, -1]);
    assert_eq!(m.push_loopback(&[1, -1, 1]), vec![i16::MAX, i16::MIN, 0]);
}

#[test]
fn old_samples_of_the_microphone_are_dropped() {
    let mut m = AudioMixer::new();
    m.push_mic(&vec![7; MIC_BUFFER_CAP_SAMPLES]);
    m.push_mic(&[1, 2]);
    assert_eq!(m.mic_queue.len(), MIC_BUFFER_CAP_SAMPLES);
    assert_eq!(m.mic_queue.back(), Some(&2));
    assert_eq!(m.mic_queue.front(), Some(&7));
    let long: Vec<i16> = (0..200_000).map(|i| (i % 100) as i16).collect();
    m.push_mic(&long);
    assert_eq!(m.mic_queue.len(), MIC_BUFFER_CAP_SAMPLES);
    assert_eq!(m.mic_queue.front(), Some(&0));
}

#[test]
fn pieces_of_sound_do_not_matter() {
    let mic: Vec<i16> = (0..7).collect();
    let sound: Vec<i16> = (100..110).collect();
    let mut whole = AudioMixer::new();
    whole.push_mic(&mic);
    let at_once = whole.push_loopback(&sound);
    for cut in 0..=sound.len() {
        let mut parts = AudioMixer::new();
        parts.push_mic(&mic);
        let mut mixed = parts.push_loopback(&sound[..cut]);
        mixed.extend(parts.push_loopback(&sound[cut..]));
        assert_eq!(mixed, at_once);
        assert_eq!(parts.mic_queue, whole.mic_queue);
    }
}

#[test]
fn silence_changes_nothing() {
    let mut m = AudioMixer::new();
    assert_eq!(m.push_loopback(&[4, -4]), vec![4, -4]);
    m.push_mic(&[8, 9]);
    assert_eq!(m.push_loopback(&silence(3)), vec![8, 9, 0]);
}

#[test]
fn settings_decide_what_is_captured() {
    let mut cfg = Config::default_under("D:/".to_string());
    assert_eq!(
        plan_audio(&cfg, true),
        AudioPlan { loopback: true, microphone: true, mixer: true }
    );
    cfg.audio.capture_microphone = false;
    assert_eq!(
        plan_audio(&cfg, false),
        AudioPlan { loopback: true, microphone: false, mixer: false }
    );
}

#[test]
fn the_whole_system_stands_in_for_teams() {
    assert_eq!(first_source(9), LoopbackSource::Process(9));
    assert_eq!(first_source(0), LoopbackSource::DefaultDevice);
    let process = LoopbackSource::Process(9);
    assert_eq!(next_source(process, true), Some(LoopbackSource::DefaultDevice));
    assert_eq!(next_source(process, false), None);
    assert_eq!(next_source(LoopbackSource::DefaultDevice, true), None);
}

#[test]
fn an_activation_can_fail_in_three_ways() {
    assert_eq!(activation_outcome(true, 0, true), Ok(()));
    assert_eq!(activation_outcome(false, 0, true), Err(ActivationError::TimedOut));
    assert_eq!(activation_outcome(true, -5, true), Err(ActivationError::Refused(-5)));
    assert_eq!(activation_outcome(true, 0, false), Err(ActivationError::NoClient));
}

#[test]
fn silent_packets_count_for_teams_only() {
    assert_eq!(loopback_packet(480, 0, 2, true), Packet::Samples(960));
    assert_eq!(loopback_packet(480, 2, 2, true), Packet::Silence(960));
    assert_eq!(loopback_packet(480, 5, 2, true), Packet::Samples(960));
    assert_eq!(loopback_packet(480, 7, 2, true), Packet::Silence(960));
    assert_eq!(loopback_packet(480, 0, 6, true), Packet::Skip);
    assert_eq!(loopback_packet(480, 0, 2, false), Packet::Skip);
    assert_eq!(loopback_packet(0, 0, 2, true), Packet::NoMore);
    assert_eq!(microphone_packet(480, 0, 2, true), Packet::Samples(960));
    assert_eq!(microphone_packet(480, 2, 2, true), Packet::Skip);
    assert_eq!(microphone_packet(480, 0, 2, false), Packet::Skip);
    assert_eq!(microphone_packet(0, 2, 2, true), Packet::NoMore);
}

#[test]
fn formats_are_in_floating_point() {
    let f = build_loopback_format(48_000, 2);
    assert_eq!((f.block_align, f.avg_bytes_per_sec), (8, 384_000));
    assert_eq!((f.tag, f.bits_per_sample, f.extra_size), (0xFFFE, 32, 22));
    assert_eq!((f.valid_bits, f.channel_mask), (32, 3));
    assert_eq!(build_mic_format(48_000, 2), f);
    let device = |tag, float| DeviceFormat {
        tag,
        samples_per_sec: 44_100,
        channels: 6,
        subformat_is_float: float,
    };
    assert_eq!(read_format(&device(FORMAT_EXTENSIBLE, true)), (44_100, 6, true));
    assert_eq!(read_format(&device(FORMAT_EXTENSIBLE, false)), (44_100, 6, false));
    assert_eq!(read_format(&device(FORMAT_FLOAT, false)), (44_100, 6, true));
    assert_eq!(read_format(&device(1, true)), (44_100, 6, false));
}

#[test]
fn streams_are_asked_for_by_flags() {
    assert_eq!(stream_request(CaptureKind::Process(1)).flags, 0x8806_0000);
    assert_eq!(stream_request(CaptureKind::DefaultDevice).flags, 0x0006_0000);
    assert!(!stream_request(CaptureKind::DefaultDevice).own_format);
    assert_eq!(stream_request(CaptureKind::Microphone).flags, 0x8804_0000);
    assert_eq!(stream_request(CaptureKind::Microphone).buffer_100ns, 2_000_000);
    assert_eq!(end_note(CaptureKind::Process(1)), "teams loopback stopped");
    assert_eq!(end_note(CaptureKind::DefaultDevice), "default loopback stopped");
    assert_eq!(end_note(CaptureKind::Microphone), "microphone stopped");
}

#[test]
fn a_capture_that_cannot_start_fails() {
    for fails_at in 0..4 {
        let mut run = CaptureRun::begin(CaptureKind::Microphone);
        for i in 0..=fails_at {
            run.advance(i < fails_at);
        }
        assert_eq!(run.step, CaptureStep::Failed);
        run.advance(true);
        assert_eq!(run.step, CaptureStep::Failed);
    }
}

#[test]
fn a_started_capture_is_wound_down() {
    for kind in [CaptureKind::Process(3), CaptureKind::DefaultDevice, CaptureKind::Microphone] {
        for pumped in [true, false] {
            let mut run = CaptureRun::begin(kind);
            let mut steps = Vec::new();
            while !matches!(run.step, CaptureStep::Done(_)) {
                steps.push(run.step);
                run.advance(run.step != CaptureStep::Pump || pumped);
            }
            assert_eq!(run.step, CaptureStep::Done(pumped));
            assert!(steps.contains(&CaptureStep::Stop));
            assert!(steps.contains(&CaptureStep::CloseEvent));
            assert_eq!(steps.last(), Some(&CaptureStep::Note));
            assert_eq!(
                steps.contains(&CaptureStep::FreeFormat),
                kind == CaptureKind::DefaultDevice
            );
        }
    }
}

#[test]
fn packets_are_taken_until_the_session_ends() {
    let next = |event| pump_next(CaptureKind::Process(1), 2, true, event);
    assert_eq!(next(PumpEvent::Checked(true)), PumpAction::End(true));
    assert_eq!(next(PumpEvent::Checked(false)), PumpAction::Wait);
    assert_eq!(next(PumpEvent::Waited(false)), PumpAction::CheckShutdown);
    assert_eq!(next(PumpEvent::Waited(true)), PumpAction::GetBuffer);
    assert_eq!(next(PumpEvent::GotNone), PumpAction::CheckShutdown);
    assert_eq!(next(PumpEvent::Got { frames: 0, flags: 0 }), PumpAction::CheckShutdown);
    assert_eq!(next(PumpEvent::Got { frames: 3, flags: 2 }), PumpAction::MixSilence(6));
    assert_eq!(next(PumpEvent::Released(false)), PumpAction::End(false));
    assert_eq!(next(PumpEvent::Released(true)), PumpAction::GetBuffer);
}

#[test]
fn every_packet_is_given_back() {
    for kind in [CaptureKind::Process(1), CaptureKind::DefaultDevice, CaptureKind::Microphone] {
        for channels in [1u16, 2, 6] {
            for mixer in [true, false] {
                for flags in 0..4 {
                    let got = PumpEvent::Got { frames: 10, flags };
                    let action = pump_next(kind, channels, mixer, got);
                    let last = match action {
                        PumpAction::MixSilence(_) | PumpAction::MixSamples(_) => {
                            pump_next(kind, channels, mixer, PumpEvent::Mixed)
                        }
                        other => other,
                    };
                    assert_eq!(last, PumpAction::Release);
                }
            }
        }
    }
}
