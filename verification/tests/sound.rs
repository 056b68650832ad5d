use herdr::sound::synth::{
    edge_envelope, morse_fits, ms_samples, notification_fits, render_morse_wav,
    render_notification_wav, EnvelopeStep, SidebarPosition, Sound, Voices, BASE_TO_MORSE_GAP_MS,
    DAH_MS, DING_MS, DIT_MS, ELEMENT_GAP_MS, GROUP_GAP_MS, SAMPLE_RATE, SIREN_SWEEPS,
    SIREN_SWEEP_MS, STANDALONE_MORSE_LEAD_IN_MS, TONE_EDGE_MS,
};

fn envelope(i: usize, total: usize, edge: usize) -> f32 {
    match edge_envelope(i, total, edge) {
        EnvelopeStep::Full => 1.0,
        EnvelopeStep::Ramp { step } => {
            0.5 - 0.5 * (std::f32::consts::PI * step as f32 / edge as f32).cos()
        }
    }
}

fn quantized(sample: f32) -> i16 {
    (sample.clamp(-1.0, 1.0) * f32::from(i16::MAX)) as i16
}

fn ding() -> Vec<i16> {
    let total = ms_samples(DING_MS);
    let edge = ms_samples(TONE_EDGE_MS);
    (0..total)
        .map(|i| {
            let t = i as f32 / SAMPLE_RATE as f32;
            let fundamental =
                0.32 * (-t / 0.110).exp() * (std::f32::consts::TAU * 1318.51 * t).sin();
            let partial = 0.10 * (-t / 0.055).exp() * (std::f32::consts::TAU * 2637.02 * t).sin();
            quantized(envelope(i, total, edge) * (fundamental + partial))
        })
        .collect()
}

fn siren() -> Vec<i16> {
    let total = ms_samples(SIREN_SWEEP_MS * SIREN_SWEEPS);
    let sweep_len = ms_samples(SIREN_SWEEP_MS);
    let edge = ms_samples(2 * TONE_EDGE_MS);
    let mut phase = 0.0f32;
    (0..total)
        .map(|i| {
            let sweep_pos = (i % sweep_len) as f32 / sweep_len as f32;
            let rise_fall = 1.0 - (2.0 * sweep_pos - 1.0).abs();
            let freq = 650.0 + 300.0 * rise_fall;
            phase += std::f32::consts::TAU * freq / SAMPLE_RATE as f32;
            quantized(0.5 * envelope(i, total, edge) * phase.sin())
        })
        .collect()
}

fn beep(ms: u32) -> Vec<i16> {
    let total = ms_samples(ms);
    let edge = ms_samples(TONE_EDGE_MS).min(total / 2);
    (0..total)
        .map(|i| {
            let t = i as f32 / SAMPLE_RATE as f32;
            let tone = (std::f32::consts::TAU * 700.0 * t).sin();
            quantized(0.38 * envelope(i, total, edge) * tone)
        })
        .collect()
}

fn voices() -> Voices {
    Voices::new(ding(), siren(), beep(DAH_MS), beep(DIT_MS)).expect("wave forms of full length")
}

fn wav_sample_count(wav: &[u8]) -> usize {
    let data_len = u32::from_le_bytes(wav[40..44].try_into().unwrap()) as usize;
    assert_eq!(wav.len(), 44 + data_len);
    data_len / 2
}

fn sample_at(wav: &[u8], i: usize) -> i16 {
    i16::from_le_bytes(wav[44 + 2 * i..46 + 2 * i].try_into().unwrap())
}

#[test]
fn wav_header_is_valid_pcm16_mono() {
    let wav = render_notification_wav(&voices(), Sound::Done, None);
    assert_eq!(&wav[0..4], b"RIFF");
    assert_eq!(&wav[8..16], b"WAVEfmt ");
    assert_eq!(u16::from_le_bytes(wav[20..22].try_into().unwrap()), 1);
    assert_eq!(u16::from_le_bytes(wav[22..24].try_into().unwrap()), 1);
    assert_eq!(
        u32::from_le_bytes(wav[24..28].try_into().unwrap()),
        SAMPLE_RATE
    );
    assert_eq!(u16::from_le_bytes(wav[34..36].try_into().unwrap()), 16);
    assert_eq!(&wav[36..40], b"data");
}

#[test]
fn done_wav_lasts_the_ding_duration() {
    let wav = render_notification_wav(&voices(), Sound::Done, None);
    assert_eq!(wav_sample_count(&wav), ms_samples(DING_MS));
}

#[test]
fn request_wav_lasts_the_siren_duration() {
    let wav = render_notification_wav(&voices(), Sound::Request, None);
    assert_eq!(
        wav_sample_count(&wav),
        ms_samples(SIREN_SWEEP_MS * SIREN_SWEEPS)
    );
}

#[test]
fn morse_suffix_counts_spaces_as_dahs_and_tabs_as_dits() {
    let position = SidebarPosition { space: 3, tab: 2 };
    let wav = render_notification_wav(&voices(), Sound::Done, Some(position));
    let expected = ms_samples(DING_MS)
        + ms_samples(BASE_TO_MORSE_GAP_MS)
        + 3 * ms_samples(DAH_MS) // three dahs for the third space down
        + 2 * ms_samples(ELEMENT_GAP_MS)
        + ms_samples(GROUP_GAP_MS)
        + 2 * ms_samples(DIT_MS) // two dits for the second tab
        + ms_samples(ELEMENT_GAP_MS);
    assert_eq!(wav_sample_count(&wav), expected);
}

#[test]
fn standalone_morse_wav_covers_position_one_one() {
    let wav = render_morse_wav(&voices(), SidebarPosition { space: 1, tab: 1 });
    let expected = ms_samples(STANDALONE_MORSE_LEAD_IN_MS)
        + ms_samples(DAH_MS)
        + ms_samples(GROUP_GAP_MS)
        + ms_samples(DIT_MS);
    assert_eq!(wav_sample_count(&wav), expected);
}

#[test]
fn samples_stay_inside_pcm_range() {
    let voices = voices();
    for wav in [
        render_notification_wav(
            &voices,
            Sound::Done,
            Some(SidebarPosition { space: 5, tab: 4 }),
        ),
        render_notification_wav(
            &voices,
            Sound::Request,
            Some(SidebarPosition { space: 1, tab: 8 }),
        ),
    ] {
        for chunk in wav[44..].chunks_exact(2) {
            let sample = i16::from_le_bytes(chunk.try_into().unwrap());
            assert!(sample > i16::MIN, "sample clipped past full scale");
        }
    }
}

#[test]
fn durations_are_counted_in_samples() {
    assert_eq!(ms_samples(1000), 44_100);
    assert_eq!(ms_samples(DIT_MS), 2_425);
    assert_eq!(ms_samples(DAH_MS), 7_276);
    assert_eq!(ms_samples(0), 0);
}

#[test]
fn wave_forms_of_another_length_or_range_are_refused() {
    let short = ding()[1..].to_vec();
    assert!(Voices::new(short, siren(), beep(DAH_MS), beep(DIT_MS)).is_none());
    assert!(Voices::new(ding(), siren(), beep(DIT_MS), beep(DIT_MS)).is_none());
    let mut clipped = beep(DIT_MS);
    clipped[7] = i16::MIN;
    assert!(Voices::new(ding(), siren(), beep(DAH_MS), clipped).is_none());
}

#[test]
fn samples_read_back_as_written() {
    let (ding, dah) = (ding(), beep(DAH_MS));
    let position = SidebarPosition { space: 1, tab: 0 };
    let wav = render_notification_wav(&voices(), Sound::Done, Some(position));
    for i in [0, 1, 500, ding.len() - 1] {
        assert_eq!(sample_at(&wav, i), ding[i]);
    }
    // silence follows, then the dah of the first space
    let gap = ms_samples(BASE_TO_MORSE_GAP_MS);
    assert_eq!(sample_at(&wav, ding.len()), 0);
    assert_eq!(sample_at(&wav, ding.len() + gap - 1), 0);
    for i in [100, 1_000, dah.len() - 100] {
        assert_eq!(sample_at(&wav, ding.len() + gap + i), dah[i]);
    }
    let size = u32::from_le_bytes(wav[4..8].try_into().unwrap());
    assert_eq!(size as usize, wav.len() - 8);
}

#[test]
fn the_alarm_is_not_the_ding() {
    let siren = siren();
    let wav = render_notification_wav(&voices(), Sound::Request, None);
    for i in [900, 5_000, 12_345] {
        assert_eq!(sample_at(&wav, i), siren[i]);
    }
}

#[test]
fn a_position_of_nothing_is_a_gap_alone() {
    let wav = render_morse_wav(&voices(), SidebarPosition { space: 0, tab: 0 });
    assert_eq!(
        wav_sample_count(&wav),
        ms_samples(STANDALONE_MORSE_LEAD_IN_MS) + ms_samples(GROUP_GAP_MS)
    );
    assert!(wav[44..].iter().all(|byte| *byte == 0));
}

#[test]
fn tones_fade_in_and_out_alike() {
    assert_eq!(edge_envelope(0, 10, 3), EnvelopeStep::Ramp { step: 0 });
    assert_eq!(edge_envelope(2, 10, 3), EnvelopeStep::Ramp { step: 2 });
    assert_eq!(edge_envelope(3, 10, 3), EnvelopeStep::Full);
    assert_eq!(edge_envelope(6, 10, 3), EnvelopeStep::Full);
    assert_eq!(edge_envelope(7, 10, 3), EnvelopeStep::Ramp { step: 2 });
    assert_eq!(edge_envelope(9, 10, 3), EnvelopeStep::Ramp { step: 0 });
    assert_eq!(edge_envelope(4, 10, 0), EnvelopeStep::Full);
    for i in 0..10 {
        assert_eq!(edge_envelope(i, 10, 3), edge_envelope(9 - i, 10, 3));
    }
}

#[test]
fn endless_positions_fit_no_file() {
    let position = SidebarPosition { space: 5, tab: 4 };
    assert!(notification_fits(Sound::Done, None));
    assert!(notification_fits(Sound::Request, Some(position)));
    assert!(morse_fits(position));
    let endless = SidebarPosition { space: usize::MAX, tab: 1 };
    assert!(!notification_fits(Sound::Done, Some(endless)));
    assert!(!morse_fits(endless));
}

#[test]
fn a_notification_ends_with_its_place() {
    let position = SidebarPosition { space: 2, tab: 3 };
    let voices = voices();
    let plain = render_notification_wav(&voices, Sound::Request, None);
    let place = render_morse_wav(&voices, position);
    let mut expected = plain[44..].to_vec();
    expected.resize(expected.len() + 2 * ms_samples(BASE_TO_MORSE_GAP_MS), 0);
    expected.extend_from_slice(&place[44 + 2 * ms_samples(STANDALONE_MORSE_LEAD_IN_MS)..]);
    let both = render_notification_wav(&voices, Sound::Request, Some(position));
    assert_eq!(both[44..], expected[..]);
}
