//! Notification audio as 16-bit mono WAV bytes: a short siren for requests, a
//! soft ding for completions, and an optional morse-style position suffix (long
//! beeps count the sidebar space top-down, short beeps count the tab inside
//! that space).
//!
//! The wave forms themselves come as [`Voices`]; what is put together here is
//! their order, the silences between them, and the file.

use vstd::prelude::*;

use crate::geometry;

verus! {

/// What a notification tells.
#[derive(Clone, Copy, Debug, PartialEq, Eq, Structural)]
pub enum Sound {
    /// An agent is done.
    Done,
    /// An agent asks for something.
    Request,
}

/// A tab by its place in the sidebar, counted from one.
#[derive(Clone, Copy, Debug, PartialEq, Eq, Structural)]
pub struct SidebarPosition {
    pub space: usize,
    pub tab: usize,
}

pub const SAMPLE_RATE: u32 = 44_100;

// Fluent-operator morse pacing (~22 WPM): a dit is 55 ms, a dah three dits,
// one dit of silence between beeps, three dits between the space group and
// the tab group.
pub const DIT_MS: u32 = 55;

pub const DAH_MS: u32 = 165;

pub const ELEMENT_GAP_MS: u32 = 55;

pub const GROUP_GAP_MS: u32 = 165;

pub const BASE_TO_MORSE_GAP_MS: u32 = 250;

pub const STANDALONE_MORSE_LEAD_IN_MS: u32 = 150;

pub const TONE_EDGE_MS: u32 = 4;

pub const DING_MS: u32 = 380;

pub const SIREN_SWEEP_MS: u32 = 220;

pub const SIREN_SWEEPS: u32 = 2;

/// The number of samples in `ms` milliseconds.
pub open spec fn samples_in(ms: int) -> int {
    SAMPLE_RATE * ms / 1000
}

/// The number of samples in `ms` milliseconds.
pub fn ms_samples(ms: u32) -> (count: usize)
    requires
        samples_in(ms as int) <= usize::MAX,
    ensures
        count == samples_in(ms as int),
{
    (SAMPLE_RATE as u64 * ms as u64 / 1000) as usize
}

/// No sample is as low as the lowest number, which has no counterpart above.
pub open spec fn stays_in_range(samples: Seq<i16>) -> bool {
    forall|i: int| 0 <= i < samples.len() ==> #[trigger] samples[i] > i16::MIN
}

fn in_range(samples: &Vec<i16>) -> (out: bool)
    ensures
        out == stays_in_range(samples@),
{
    let mut i: usize = 0;
    while i < samples.len()
        invariant
            i <= samples@.len(),
            forall|j: int| 0 <= j < i ==> #[trigger] samples@[j] > i16::MIN,
        decreases samples@.len() - i,
    {
        if samples[i] == i16::MIN {
            return false;
        }
        i = i + 1;
    }
    true
}

/// The wave forms that the sounds are made of.
#[derive(Debug)]
pub struct Voices {
    ding: Vec<i16>,
    siren: Vec<i16>,
    dah: Vec<i16>,
    dit: Vec<i16>,
}

impl Voices {
    /// Each wave form lasts as long as its sound and stays inside the range.
    #[verifier::type_invariant]
    spec fn is_sound(self) -> bool {
        &&& self.ding@.len() == samples_in(DING_MS as int)
        &&& self.siren@.len() == samples_in(SIREN_SWEEP_MS * SIREN_SWEEPS)
        &&& self.dah@.len() == samples_in(DAH_MS as int)
        &&& self.dit@.len() == samples_in(DIT_MS as int)
        &&& stays_in_range(self.ding@)
        &&& stays_in_range(self.siren@)
        &&& stays_in_range(self.dah@)
        &&& stays_in_range(self.dit@)
    }

    /// The ding of a completion.
    pub closed spec fn ding(self) -> Seq<i16> {
        self.ding@
    }

    /// The siren of a request.
    pub closed spec fn siren(self) -> Seq<i16> {
        self.siren@
    }

    /// The beep that counts a space.
    pub closed spec fn dah(self) -> Seq<i16> {
        self.dah@
    }

    /// The beep that counts a tab.
    pub closed spec fn dit(self) -> Seq<i16> {
        self.dit@
    }

    /// The wave forms, if each lasts as long as its sound and stays inside the
    /// range.
    pub fn new(ding: Vec<i16>, siren: Vec<i16>, dah: Vec<i16>, dit: Vec<i16>) -> (out: Option<
        Voices,
    >)
        ensures
            out is Some <==> {
                &&& ding@.len() == samples_in(DING_MS as int)
                &&& siren@.len() == samples_in(SIREN_SWEEP_MS * SIREN_SWEEPS)
                &&& dah@.len() == samples_in(DAH_MS as int)
                &&& dit@.len() == samples_in(DIT_MS as int)
                &&& stays_in_range(ding@)
                &&& stays_in_range(siren@)
                &&& stays_in_range(dah@)
                &&& stays_in_range(dit@)
            },
            out matches Some(voices) ==> voices.ding() == ding@ && voices.siren() == siren@
                && voices.dah() == dah@ && voices.dit() == dit@,
    {
        if ding.len() == ms_samples(DING_MS) && siren.len() == ms_samples(
            SIREN_SWEEP_MS * SIREN_SWEEPS,
        ) && dah.len() == ms_samples(DAH_MS) && dit.len() == ms_samples(DIT_MS) && in_range(&ding)
            && in_range(&siren) && in_range(&dah) && in_range(&dit) {
            Some(Voices { ding, siren, dah, dit })
        } else {
            None
        }
    }
}

/// `ms` milliseconds of silence.
pub open spec fn silence(ms: int) -> Seq<i16> {
    Seq::new(samples_in(ms) as nat, |i: int| 0i16)
}

/// `count` beeps with the gap between elements between them.
pub open spec fn beeps(beep: Seq<i16>, count: nat) -> Seq<i16>
    decreases count,
{
    if count == 0 {
        Seq::empty()
    } else if count == 1 {
        beep
    } else {
        beeps(beep, (count - 1) as nat) + silence(ELEMENT_GAP_MS as int) + beep
    }
}

/// The place of a tab: a dah for each space down to its own, then a dit for
/// each tab up to itself.
pub open spec fn morse(voices: Voices, position: SidebarPosition) -> Seq<i16> {
    beeps(voices.dah(), position.space as nat) + silence(GROUP_GAP_MS as int) + beeps(
        voices.dit(),
        position.tab as nat,
    )
}

/// The sound of a notification, with the place of the tab behind it if it is known.
pub open spec fn notification(
    voices: Voices,
    sound: Sound,
    position: Option<SidebarPosition>,
) -> Seq<i16> {
    let base = match sound {
        Sound::Done => voices.ding(),
        Sound::Request => voices.siren(),
    };
    match position {
        Some(position) => base + silence(BASE_TO_MORSE_GAP_MS as int) + morse(voices, position),
        None => base,
    }
}

/// The place of a tab alone, after a moment of silence.
pub open spec fn standalone_morse(voices: Voices, position: SidebarPosition) -> Seq<i16> {
    silence(STANDALONE_MORSE_LEAD_IN_MS as int) + morse(voices, position)
}

/// The number of samples of `count` beeps of `beep` samples each.
pub open spec fn beeps_len(beep: int, count: int) -> int {
    count * beep + geometry::less(count, 1) * samples_in(ELEMENT_GAP_MS as int)
}

/// The number of samples that tell the place of a tab.
pub open spec fn morse_len(position: SidebarPosition) -> int {
    beeps_len(samples_in(DAH_MS as int), position.space as int) + samples_in(GROUP_GAP_MS as int)
        + beeps_len(samples_in(DIT_MS as int), position.tab as int)
}

/// The number of samples of a notification.
pub open spec fn notification_len(sound: Sound, position: Option<SidebarPosition>) -> int {
    let base = match sound {
        Sound::Done => samples_in(DING_MS as int),
        Sound::Request => samples_in(SIREN_SWEEP_MS * SIREN_SWEEPS),
    };
    match position {
        Some(position) => base + samples_in(BASE_TO_MORSE_GAP_MS as int) + morse_len(position),
        None => base,
    }
}

/// The size field of `count` samples, which wraps at 32 bits.
pub open spec fn data_size(count: int) -> int {
    (2 * count) % 0x1_0000_0000
}

/// A file of `count` samples fits in memory, and its size fields do not overflow.
pub open spec fn wav_fits(count: int) -> bool {
    44 + 2 * count <= usize::MAX && 36 + data_size(count) <= u32::MAX
}

/// `n` in two bytes, the low one first.
pub open spec fn le16(n: int) -> Seq<u8> {
    seq![(n % 256) as u8, (n / 256 % 256) as u8]
}

/// `n` in four bytes, the low one first.
pub open spec fn le32(n: int) -> Seq<u8> {
    seq![
        (n % 256) as u8,
        (n / 256 % 256) as u8,
        (n / 65536 % 256) as u8,
        (n / 16777216 % 256) as u8,
    ]
}

/// The bytes of the samples, each in two bytes of two's complement.
pub open spec fn pcm(samples: Seq<i16>) -> Seq<u8>
    decreases samples.len(),
{
    if samples.len() == 0 {
        Seq::empty()
    } else {
        pcm(samples.drop_last()) + le16(samples.last() as int)
    }
}

/// The header of a file with `count` samples: 16-bit PCM, one channel.
pub open spec fn wav_header(count: int) -> Seq<u8> {
    seq![0x52u8, 0x49, 0x46, 0x46] + le32(36 + data_size(count)) + seq![
        0x57u8,
        0x41,
        0x56,
        0x45,
        0x66,
        0x6d,
        0x74,
        0x20,
    ] + le32(16) + le16(1) + le16(1) + le32(SAMPLE_RATE as int) + le32(2 * SAMPLE_RATE) + le16(2)
        + le16(16) + seq![0x64u8, 0x61, 0x74, 0x61] + le32(data_size(count))
}

/// The file that holds `samples`.
pub open spec fn wav(samples: Seq<i16>) -> Seq<u8> {
    wav_header(samples.len() as int) + pcm(samples)
}

fn push_silence(samples: &mut Vec<i16>, ms: u32)
    requires
        samples_in(ms as int) <= usize::MAX,
    ensures
        final(samples)@ == old(samples)@ + silence(ms as int),
{
    let count: usize = ms_samples(ms);
    let mut i: usize = 0;
    assert(samples@ =~= old(samples)@ + silence(ms as int).take(0));
    while i < count
        invariant
            i <= count,
            count == samples_in(ms as int),
            samples@ == old(samples)@ + silence(ms as int).take(i as int),
        decreases count - i,
    {
        samples.push(0);
        i = i + 1;
        assert(samples@ =~= old(samples)@ + silence(ms as int).take(i as int));
    }
    assert(silence(ms as int).take(count as int) =~= silence(ms as int));
}

fn push_voice(samples: &mut Vec<i16>, voice: &Vec<i16>)
    ensures
        final(samples)@ == old(samples)@ + voice@,
{
    let mut i: usize = 0;
    assert(samples@ =~= old(samples)@ + voice@.take(0));
    while i < voice.len()
        invariant
            i <= voice@.len(),
            samples@ == old(samples)@ + voice@.take(i as int),
        decreases voice@.len() - i,
    {
        samples.push(voice[i]);
        i = i + 1;
        assert(samples@ =~= old(samples)@ + voice@.take(i as int));
    }
    assert(voice@.take(i as int) =~= voice@);
}

fn push_beeps(samples: &mut Vec<i16>, voice: &Vec<i16>, count: usize)
    ensures
        final(samples)@ == old(samples)@ + beeps(voice@, count as nat),
{
    let mut i: usize = 0;
    assert(samples@ =~= old(samples)@ + beeps(voice@, 0));
    while i < count
        invariant
            i <= count,
            samples@ == old(samples)@ + beeps(voice@, i as nat),
        decreases count - i,
    {
        if i > 0 {
            push_silence(samples, ELEMENT_GAP_MS);
        }
        push_voice(samples, voice);
        i = i + 1;
        assert(samples@ =~= old(samples)@ + beeps(voice@, i as nat));
    }
}

fn push_morse(samples: &mut Vec<i16>, voices: &Voices, position: SidebarPosition)
    ensures
        final(samples)@ == old(samples)@ + morse(*voices, position),
{
    push_beeps(samples, &voices.dah, position.space);
    push_silence(samples, GROUP_GAP_MS);
    push_beeps(samples, &voices.dit, position.tab);
    assert(samples@ =~= old(samples)@ + morse(*voices, position));
}

fn push_le16(out: &mut Vec<u8>, n: u16)
    ensures
        final(out)@ == old(out)@ + le16(n as int),
{
    out.push((n % 256) as u8);
    out.push((n / 256) as u8);
    assert(out@ =~= old(out)@ + le16(n as int));
}

fn push_le32(out: &mut Vec<u8>, n: u32)
    ensures
        final(out)@ == old(out)@ + le32(n as int),
{
    out.push((n % 256) as u8);
    out.push((n / 256 % 256) as u8);
    out.push((n / 65536 % 256) as u8);
    out.push((n / 16777216) as u8);
    assert(out@ =~= old(out)@ + le32(n as int));
}

fn push_sample(out: &mut Vec<u8>, sample: i16)
    ensures
        final(out)@ == old(out)@ + le16(sample as int),
{
    let n: i32 = if sample < 0 {
        sample as i32 + 65536
    } else {
        sample as i32
    };
    push_le16(out, n as u16);
    assert(le16(n as int) =~= le16(sample as int));
}

fn wav_from_samples(samples: &Vec<i16>) -> (out: Vec<u8>)
    requires
        wav_fits(samples@.len() as int),
    ensures
        out@ == wav(samples@),
{
    let data_len: u32 = (2 * samples.len() as u64 % 0x1_0000_0000) as u32;
    let mut out: Vec<u8> = Vec::with_capacity(44 + 2 * samples.len());
    out.push(0x52);
    out.push(0x49);
    out.push(0x46);
    out.push(0x46);
    push_le32(&mut out, 36 + data_len);
    out.push(0x57);
    out.push(0x41);
    out.push(0x56);
    out.push(0x45);
    out.push(0x66);
    out.push(0x6d);
    out.push(0x74);
    out.push(0x20);
    push_le32(&mut out, 16);
    push_le16(&mut out, 1);
    push_le16(&mut out, 1);
    push_le32(&mut out, SAMPLE_RATE);
    push_le32(&mut out, SAMPLE_RATE * 2);
    push_le16(&mut out, 2);
    push_le16(&mut out, 16);
    out.push(0x64);
    out.push(0x61);
    out.push(0x74);
    out.push(0x61);
    push_le32(&mut out, data_len);
    let ghost header = wav_header(samples@.len() as int);
    assert(out@ =~= header);
    let mut i: usize = 0;
    assert(out@ =~= header + pcm(samples@.take(0)));
    while i < samples.len()
        invariant
            i <= samples@.len(),
            out@ == header + pcm(samples@.take(i as int)),
        decreases samples@.len() - i,
    {
        push_sample(&mut out, samples[i]);
        proof {
            let now = samples@.take(i + 1);
            assert(now.drop_last() =~= samples@.take(i as int));
            assert(out@ =~= header + pcm(now));
        }
        i = i + 1;
    }
    assert(samples@.take(i as int) =~= samples@);
    out
}

fn beeps_samples(beep_ms: u32, count: usize) -> (out: u128)
    requires
        beep_ms <= 1000,
    ensures
        out == beeps_len(samples_in(beep_ms as int), count as int),
        out <= 0x1_0000_0000_0000_0000_0000_0000,
{
    let beep: u128 = ms_samples(beep_ms) as u128;
    let gap: u128 = ms_samples(ELEMENT_GAP_MS) as u128;
    let gaps: u128 = count.saturating_sub(1) as u128;
    let beeps: u128 = count as u128;
    assert(beeps * beep <= 0x1_0000_0000_0000_0000 * 0x1_0000) by (nonlinear_arith)
        requires
            beeps <= 0x1_0000_0000_0000_0000,
            beep <= 0x1_0000,
    ;
    assert(gaps * gap <= 0x1_0000_0000_0000_0000 * 0x1_0000) by (nonlinear_arith)
        requires
            gaps <= 0x1_0000_0000_0000_0000,
            gap <= 0x1_0000,
    ;
    beeps * beep + gaps * gap
}

fn morse_samples(position: SidebarPosition) -> (out: u128)
    ensures
        out == morse_len(position),
        out <= 0x4_0000_0000_0000_0000_0000_0000,
{
    beeps_samples(DAH_MS, position.space) + ms_samples(GROUP_GAP_MS) as u128 + beeps_samples(
        DIT_MS,
        position.tab,
    )
}

fn samples_fit(count: u128) -> (out: bool)
    requires
        count <= 0x8_0000_0000_0000_0000_0000_0000,
    ensures
        out == wav_fits(count as int),
{
    44 + 2 * count <= usize::MAX as u128 && 36 + 2 * count % 0x1_0000_0000 <= u32::MAX as u128
}

/// Whether a file can hold the notification.
pub fn notification_fits(sound: Sound, position: Option<SidebarPosition>) -> (out: bool)
    ensures
        out == wav_fits(notification_len(sound, position)),
{
    let base: u128 = match sound {
        Sound::Done => ms_samples(DING_MS) as u128,
        Sound::Request => ms_samples(SIREN_SWEEP_MS * SIREN_SWEEPS) as u128,
    };
    match position {
        Some(position) => {
            let gap: u128 = ms_samples(BASE_TO_MORSE_GAP_MS) as u128;
            samples_fit(base + gap + morse_samples(position))
        },
        None => samples_fit(base),
    }
}

/// Whether a file can hold the place of a tab alone.
pub fn morse_fits(position: SidebarPosition) -> (out: bool)
    ensures
        out == wav_fits(samples_in(STANDALONE_MORSE_LEAD_IN_MS as int) + morse_len(position)),
{
    let lead_in: u128 = ms_samples(STANDALONE_MORSE_LEAD_IN_MS) as u128;
    samples_fit(lead_in + morse_samples(position))
}

/// The built-in notification sound, with the morse position suffix when the
/// triggering pane's sidebar location is known.
pub fn render_notification_wav(
    voices: &Voices,
    sound: Sound,
    position: Option<SidebarPosition>,
) -> (out: Vec<u8>)
    requires
        wav_fits(notification_len(sound, position)),
    ensures
        out@ == wav(notification(*voices, sound, position)),
        notification(*voices, sound, position).len() == notification_len(sound, position),
        stays_in_range(notification(*voices, sound, position)),
{
    proof {
        use_type_invariant(voices);
        lemma_notification_len(*voices, sound, position);
        lemma_morse_in_range(*voices, position);
    }
    let mut samples: Vec<i16> = Vec::new();
    match sound {
        Sound::Done => push_voice(&mut samples, &voices.ding),
        Sound::Request => push_voice(&mut samples, &voices.siren),
    }
    if let Some(position) = position {
        push_silence(&mut samples, BASE_TO_MORSE_GAP_MS);
        push_morse(&mut samples, voices, position);
    }
    assert(samples@ =~= notification(*voices, sound, position));
    wav_from_samples(&samples)
}

/// The morse position suffix alone, played after a user-configured sound file
/// that the audio player renders separately.
pub fn render_morse_wav(voices: &Voices, position: SidebarPosition) -> (out: Vec<u8>)
    requires
        wav_fits(samples_in(STANDALONE_MORSE_LEAD_IN_MS as int) + morse_len(position)),
    ensures
        out@ == wav(standalone_morse(*voices, position)),
        standalone_morse(*voices, position).len() == samples_in(STANDALONE_MORSE_LEAD_IN_MS as int)
            + morse_len(position),
        stays_in_range(standalone_morse(*voices, position)),
{
    proof {
        use_type_invariant(voices);
        lemma_morse_len(*voices, position);
        lemma_morse_in_range(*voices, Some(position));
    }
    let mut samples: Vec<i16> = Vec::new();
    push_silence(&mut samples, STANDALONE_MORSE_LEAD_IN_MS);
    push_morse(&mut samples, voices, position);
    assert(samples@ =~= standalone_morse(*voices, position));
    wav_from_samples(&samples)
}

/// Some beeps last as long as the beeps and the gaps between them.
pub proof fn law_beeps_last_with_their_gaps(beep: Seq<i16>, count: nat)
    ensures
        beeps(beep, count).len() == beeps_len(beep.len() as int, count as int),
    decreases count,
{
    let n = beep.len() as int;
    let gap = samples_in(ELEMENT_GAP_MS as int);
    assert(0 * n == 0 && 1 * n == n && 0 * gap == 0);
    if count > 1 {
        law_beeps_last_with_their_gaps(beep, (count - 1) as nat);
        assert(count * n == (count - 1) * n + n) by (nonlinear_arith);
        assert((count - 1) * gap == (count - 2) * gap + gap) by (nonlinear_arith);
    }
}

proof fn lemma_beeps_in_range(beep: Seq<i16>, count: nat)
    requires
        stays_in_range(beep),
    ensures
        stays_in_range(beeps(beep, count)),
    decreases count,
{
    if count > 1 {
        lemma_beeps_in_range(beep, (count - 1) as nat);
    }
}

proof fn lemma_morse_in_range(voices: Voices, position: Option<SidebarPosition>)
    requires
        voices.is_sound(),
    ensures
        position matches Some(position) ==> stays_in_range(morse(voices, position)),
{
    if let Some(position) = position {
        lemma_beeps_in_range(voices.dah(), position.space as nat);
        lemma_beeps_in_range(voices.dit(), position.tab as nat);
    }
}

proof fn lemma_morse_len(voices: Voices, position: SidebarPosition)
    requires
        voices.is_sound(),
    ensures
        morse(voices, position).len() == morse_len(position),
{
    law_beeps_last_with_their_gaps(voices.dah(), position.space as nat);
    law_beeps_last_with_their_gaps(voices.dit(), position.tab as nat);
}

proof fn lemma_notification_len(voices: Voices, sound: Sound, position: Option<SidebarPosition>)
    requires
        voices.is_sound(),
    ensures
        notification(voices, sound, position).len() == notification_len(sound, position),
{
    if let Some(position) = position {
        lemma_morse_len(voices, position);
    }
}

/// Where a sample stands in a tone that fades in and out.
#[derive(Clone, Copy, Debug, PartialEq, Eq, Structural)]
pub enum EnvelopeStep {
    /// At full strength.
    Full,
    /// `step` samples away from silence.
    Ramp { step: usize },
}

/// Where sample `i` of `total` stands in a tone that fades over `edge` samples
/// at its two ends.
pub open spec fn envelope(i: int, total: int, edge: int) -> EnvelopeStep {
    if i < edge {
        EnvelopeStep::Ramp { step: i as usize }
    } else if edge > 0 && i >= total - edge {
        EnvelopeStep::Ramp { step: geometry::less(total - 1, i) as usize }
    } else {
        EnvelopeStep::Full
    }
}

/// Where sample `i` of `total` stands in a tone that fades over `edge` samples
/// at its two ends.
pub fn edge_envelope(i: usize, total: usize, edge: usize) -> (out: EnvelopeStep)
    ensures
        out == envelope(i as int, total as int, edge as int),
{
    if edge == 0 {
        return EnvelopeStep::Full;
    }
    if i < edge {
        EnvelopeStep::Ramp { step: i }
    } else if i >= total.saturating_sub(edge) {
        EnvelopeStep::Ramp { step: total.saturating_sub(1).saturating_sub(i) }
    } else {
        EnvelopeStep::Full
    }
}

/// A tone whose edges do not overlap fades out as it faded in.
pub proof fn law_tones_fade_out_as_they_fade_in(i: int, total: int, edge: int)
    requires
        0 <= i < total <= usize::MAX,
        0 <= edge,
        2 * edge <= total,
    ensures
        envelope(i, total, edge) == envelope(total - 1 - i, total, edge),
{
}

proof fn lemma_pcm_len(samples: Seq<i16>)
    ensures
        pcm(samples).len() == 2 * samples.len(),
    decreases samples.len(),
{
    if samples.len() > 0 {
        lemma_pcm_len(samples.drop_last());
    }
}

proof fn lemma_pcm_at(samples: Seq<i16>, i: int)
    requires
        0 <= i < samples.len(),
    ensures
        pcm(samples).subrange(2 * i, 2 * i + 2) == le16(samples[i] as int),
    decreases samples.len(),
{
    let rest = samples.drop_last();
    lemma_pcm_len(samples);
    lemma_pcm_len(rest);
    if i == samples.len() - 1 {
        assert(pcm(samples).subrange(2 * i, 2 * i + 2) =~= le16(samples[i] as int));
    } else {
        lemma_pcm_at(rest, i);
        assert(pcm(samples).subrange(2 * i, 2 * i + 2) =~= pcm(rest).subrange(2 * i, 2 * i + 2));
    }
}

/// The number that two bytes stand for, the low one first, in two's complement.
pub open spec fn from_le16(bytes: Seq<u8>) -> int {
    let n = bytes[0] + 256 * bytes[1];
    if n >= 0x8000 {
        n - 0x1_0000
    } else {
        n
    }
}

/// The number that four bytes stand for, the low one first.
pub open spec fn from_le32(bytes: Seq<u8>) -> int {
    bytes[0] + 256 * bytes[1] + 65536 * bytes[2] + 16777216 * bytes[3]
}

/// A file is its header and two bytes a sample, its two size fields say so, and
/// reading a sample back gives what was written.
#[verifier::spinoff_prover]
pub proof fn law_wav_reads_back(samples: Seq<i16>, i: int)
    requires
        wav_fits(samples.len() as int),
    ensures
        wav(samples).len() == 44 + 2 * samples.len(),
        from_le32(wav(samples).subrange(40, 44)) == data_size(samples.len() as int),
        from_le32(wav(samples).subrange(4, 8)) == 36 + data_size(samples.len() as int),
        0 <= i < samples.len() ==> from_le16(wav(samples).subrange(44 + 2 * i, 46 + 2 * i))
            == samples[i],
{
    let count = samples.len() as int;
    lemma_pcm_len(samples);
    let file = wav(samples);
    assert(file.subrange(40, 44) =~= le32(data_size(count)));
    assert(file.subrange(4, 8) =~= le32(36 + data_size(count)));
    lemma_le32(data_size(count));
    lemma_le32(36 + data_size(count));
    if 0 <= i < samples.len() {
        lemma_pcm_at(samples, i);
        assert(file.subrange(44 + 2 * i, 46 + 2 * i) =~= pcm(samples).subrange(2 * i, 2 * i + 2));
    }
}

proof fn lemma_le32(n: int)
    requires
        0 <= n <= u32::MAX,
    ensures
        from_le32(le32(n)) == n,
{
    let a = n / 256;
    let b = n / 65536;
    let c = n / 16777216;
    assert(b == a / 256);
    assert(c == b / 256);
}

/// A notification with a place is the same notification without one, a moment of
/// silence, and what tells the place alone behind its lead-in.
pub proof fn law_a_notification_ends_with_its_place(
    voices: Voices,
    sound: Sound,
    position: SidebarPosition,
)
    ensures
        notification(voices, sound, Some(position)) == notification(voices, sound, None) + silence(
            BASE_TO_MORSE_GAP_MS as int,
        ) + standalone_morse(voices, position).skip(
            samples_in(STANDALONE_MORSE_LEAD_IN_MS as int),
        ),
{
    assert(standalone_morse(voices, position).skip(samples_in(STANDALONE_MORSE_LEAD_IN_MS as int))
        =~= morse(voices, position));
}

/// Where the beep number `k` of a run starts, counted from zero: behind `k` beeps
/// of `beep` samples and as many gaps.
pub open spec fn beep_start(beep: int, k: int) -> int {
    k * (beep + samples_in(ELEMENT_GAP_MS as int))
}

proof fn lemma_beep_start(beep: int, k: int)
    requires
        0 <= beep,
        0 <= k,
    ensures
        beep_start(beep, 0) == 0,
        beep_start(beep, k) >= 0,
        beep_start(beep, k + 1) == beep_start(beep, k) + beep + samples_in(ELEMENT_GAP_MS as int),
        k > 0 ==> beeps_len(beep, k) == beep_start(beep, k - 1) + beep,
{
    let gap = samples_in(ELEMENT_GAP_MS as int);
    let step = beep + gap;
    assert(0 * step == 0 && k * step >= 0 && (k + 1) * step == k * step + step) by (nonlinear_arith)
        requires
            step >= 0,
            k >= 0,
    ;
    if k > 0 {
        assert(k * beep + (k - 1) * gap == (k - 1) * (beep + gap) + beep) by (nonlinear_arith);
    }
}

/// In a run of beeps each is heard alone: number `k` starts behind `k` beeps and
/// `k` gaps, sounds in full, and a gap of silence follows it before the next.
pub proof fn law_beeps_are_heard_one_by_one(beep: Seq<i16>, count: nat, k: int)
    requires
        0 <= k < count,
    ensures
        ({
            let run = beeps(beep, count);
            let start = beep_start(beep.len() as int, k);
            let end = start + beep.len();
            let next = beep_start(beep.len() as int, k + 1);
            &&& 0 <= start && end <= run.len()
            &&& run.subrange(start, end) == beep
            &&& next - end == samples_in(ELEMENT_GAP_MS as int)
            &&& k < count - 1 ==> next <= run.len() && forall|i: int|
                end <= i < next ==> #[trigger] run[i] == 0
            &&& k == count - 1 ==> end == run.len()
        }),
    decreases count,
{
    let n = beep.len() as int;
    let run = beeps(beep, count);
    law_beeps_last_with_their_gaps(beep, count);
    lemma_beep_start(n, k);
    lemma_beep_start(n, count as int);
    if count > 1 {
        let before = beeps(beep, (count - 1) as nat);
        law_beeps_last_with_their_gaps(beep, (count - 1) as nat);
        lemma_beep_start(n, count - 1);
        lemma_beep_start(n, count - 2);
        if k < count - 1 {
            law_beeps_are_heard_one_by_one(beep, (count - 1) as nat, k);
            let start = beep_start(n, k);
            assert(run.subrange(start, start + n) =~= before.subrange(start, start + n));
            let next = beep_start(n, k + 1);
            if k < count - 2 {
                assert forall|i: int| start + n <= i < next implies #[trigger] run[i] == 0 by {
                    assert(run[i] == before[i]);
                }
            }
        } else {
            assert(run.subrange(beep_start(n, k), beep_start(n, k) + n) =~= beep);
        }
    } else {
        assert(run.subrange(0, n) =~= beep);
    }
}

/// A tab's place is told by one long beep for each space, a group gap of
/// silence, and one short beep for each tab; nothing else is in it.
pub proof fn law_a_place_is_counted_in_long_and_short_beeps(
    voices: Voices,
    position: SidebarPosition,
    k: int,
)
    ensures
        ({
            let all = morse(voices, position);
            let (dah, dit) = (voices.dah(), voices.dit());
            let spaces = beeps_len(dah.len() as int, position.space as int);
            let tabs = spaces + samples_in(GROUP_GAP_MS as int);
            &&& all.len() == tabs + beeps_len(dit.len() as int, position.tab as int)
            &&& 0 <= k < position.space ==> {
                let start = beep_start(dah.len() as int, k);
                0 <= start && start + dah.len() <= spaces && all.subrange(start, start + dah.len())
                    == dah
            }
            &&& 0 <= spaces && forall|i: int| spaces <= i < tabs ==> #[trigger] all[i] == 0
            &&& 0 <= k < position.tab ==> {
                let start = tabs + beep_start(dit.len() as int, k);
                tabs <= start && start + dit.len() <= all.len() && all.subrange(
                    start,
                    start + dit.len(),
                ) == dit
            }
        }),
{
    let all = morse(voices, position);
    let (dah, dit) = (voices.dah(), voices.dit());
    let spaces = beeps(dah, position.space as nat);
    let tabs = beeps(dit, position.tab as nat);
    law_beeps_last_with_their_gaps(dah, position.space as nat);
    law_beeps_last_with_their_gaps(dit, position.tab as nat);
    let from = spaces.len() + samples_in(GROUP_GAP_MS as int);
    if 0 <= k < position.space {
        law_beeps_are_heard_one_by_one(dah, position.space as nat, k);
        let start = beep_start(dah.len() as int, k);
        assert(all.subrange(start, start + dah.len()) =~= spaces.subrange(
            start,
            start + dah.len(),
        ));
    }
    if 0 <= k < position.tab {
        law_beeps_are_heard_one_by_one(dit, position.tab as nat, k);
        let start = beep_start(dit.len() as int, k);
        assert(all.subrange(from + start, from + start + dit.len()) =~= tabs.subrange(
            start,
            start + dit.len(),
        ));
    }
}

/// A completion sounds the ding and a request the siren, first and in full; a
/// place, where it is known, follows behind 250 ms of silence, and nothing else.
pub proof fn law_a_notification_sounds_then_tells_the_place(
    voices: Voices,
    sound: Sound,
    position: Option<SidebarPosition>,
)
    ensures
        ({
            let all = notification(voices, sound, position);
            let base = if sound is Done {
                voices.ding()
            } else {
                voices.siren()
            };
            let from = base.len() + samples_in(250);
            &&& base.len() <= all.len() && all.take(base.len() as int) == base
            &&& position is None ==> all == base
            &&& position matches Some(position) ==> {
                &&& from <= all.len()
                &&& forall|i: int| base.len() <= i < from ==> #[trigger] all[i] == 0
                &&& all.skip(from) == morse(voices, position)
            }
        }),
{
    let all = notification(voices, sound, position);
    let base = if sound is Done {
        voices.ding()
    } else {
        voices.siren()
    };
    assert(all.take(base.len() as int) =~= base);
    if let Some(position) = position {
        assert(all.skip(base.len() + samples_in(250)) =~= morse(voices, position));
    }
}

/// A place alone is told behind 150 ms of silence.
pub proof fn law_a_place_alone_follows_a_moment_of_silence(
    voices: Voices,
    position: SidebarPosition,
)
    ensures
        ({
            let all = standalone_morse(voices, position);
            &&& samples_in(150) <= all.len()
            &&& forall|i: int| 0 <= i < samples_in(150) ==> #[trigger] all[i] == 0
            &&& all.skip(samples_in(150)) == morse(voices, position)
        }),
{
    assert(standalone_morse(voices, position).skip(samples_in(150)) =~= morse(voices, position));
}

/// The pace of the beeps: a dit lasts 55 ms and a dah three dits, one dit of
/// silence stands between beeps and three between spaces and tabs.
pub proof fn law_beeps_keep_the_pace(ms: int)
    requires
        0 <= ms,
    ensures
        DIT_MS == 55,
        DAH_MS == 3 * DIT_MS,
        ELEMENT_GAP_MS == DIT_MS,
        GROUP_GAP_MS == 3 * DIT_MS,
        DING_MS == 380,
        SIREN_SWEEP_MS * SIREN_SWEEPS == 440,
        TONE_EDGE_MS == 4,
        samples_in(1000 * ms) == 44_100 * ms,
        samples_in(ms) <= samples_in(ms + 1) <= samples_in(ms) + 45,
{
}

/// A file says of itself that it is 16-bit PCM of one channel at 44,100 samples
/// a second: two bytes a sample, 88,200 bytes a second.
#[verifier::spinoff_prover]
pub proof fn law_a_file_says_what_it_holds(samples: Seq<i16>)
    ensures
        ({
            let file = wav(samples);
            &&& file.len() >= 44
            &&& file.subrange(0, 4) == seq![0x52u8, 0x49, 0x46, 0x46]
            &&& file.subrange(8, 16) == seq![0x57u8, 0x41, 0x56, 0x45, 0x66, 0x6d, 0x74, 0x20]
            &&& from_le32(file.subrange(16, 20)) == 16
            &&& from_le16(file.subrange(20, 22)) == 1
            &&& from_le16(file.subrange(22, 24)) == 1
            &&& from_le32(file.subrange(24, 28)) == 44_100
            &&& from_le32(file.subrange(28, 32)) == 88_200
            &&& from_le16(file.subrange(32, 34)) == 2
            &&& from_le16(file.subrange(34, 36)) == 16
            &&& file.subrange(36, 40) == seq![0x64u8, 0x61, 0x74, 0x61]
        }),
{
    let file = wav(samples);
    let header = wav_header(samples.len() as int);
    assert(header.len() == 44);
    assert(file.subrange(0, 4) =~= seq![0x52u8, 0x49, 0x46, 0x46]);
    assert(file.subrange(8, 16) =~= seq![0x57u8, 0x41, 0x56, 0x45, 0x66, 0x6d, 0x74, 0x20]);
    assert(file.subrange(16, 20) =~= le32(16));
    assert(file.subrange(20, 22) =~= le16(1));
    assert(file.subrange(22, 24) =~= le16(1));
    assert(file.subrange(24, 28) =~= le32(44_100));
    assert(file.subrange(28, 32) =~= le32(88_200));
    assert(file.subrange(32, 34) =~= le16(2));
    assert(file.subrange(34, 36) =~= le16(16));
    assert(file.subrange(36, 40) =~= seq![0x64u8, 0x61, 0x74, 0x61]);
    lemma_le32(16);
    lemma_le32(44_100);
    lemma_le32(88_200);
}

/// A tone fades in over its first `edge` samples, one step a sample, fades out
/// over its last ones, and is at full strength between them.
pub proof fn law_tones_fade_at_their_ends_only(i: int, total: int, edge: int)
    requires
        0 <= i < total <= usize::MAX,
        0 <= edge,
        2 * edge <= total,
    ensures
        i < edge ==> envelope(i, total, edge) == (EnvelopeStep::Ramp { step: i as usize }),
        total - 1 - i < edge ==> envelope(i, total, edge) == (EnvelopeStep::Ramp {
            step: (total - 1 - i) as usize,
        }),
        edge <= i < total - edge ==> envelope(i, total, edge) is Full,
{
}

} // verus!
