use vstd::prelude::*;
use crate::sequence::{SfxFrame, YmChannel, YmFrame};

verus! {

/// A register write: register number and value.
pub type RegisterWrite = (u8, u8);

/// The mixer after a channel enable: bits of the mixer disable, so enabling
/// clears `bit` and disabling sets it; an unset enable leaves it alone.
pub open spec fn mixer_with(m: u8, bit: u8, enable: Option<bool>) -> u8 {
    match enable {
        Some(true) => m & !bit,
        Some(false) => m | bit,
        None => m,
    }
}

/// The writes of a tone to a low/high register pair, when the tone is set.
pub open spec fn tone_writes(tone: Option<u16>, low: u8) -> Seq<RegisterWrite> {
    match tone {
        Some(t) => seq![(low, (t & 0xFF) as u8), ((low + 1) as u8, ((t >> 8u16) & 0x0F) as u8)],
        None => Seq::empty(),
    }
}

/// The write of a masked value to a register, when the value is set.
pub open spec fn masked_write(value: Option<u8>, reg: u8, mask: u8) -> Seq<RegisterWrite> {
    match value {
        Some(v) => seq![(reg, v & mask)],
        None => Seq::empty(),
    }
}

/// The mixer after the six channel enables of a frame.
pub open spec fn ym_frame_mixer(f: YmFrame, m: u8) -> u8 {
    mixer_with(
        mixer_with(
            mixer_with(
                mixer_with(
                    mixer_with(mixer_with(m, 0x01, f.tone_enable_a), 0x02, f.tone_enable_b),
                    0x04,
                    f.tone_enable_c,
                ),
                0x08,
                f.noise_enable_a,
            ),
            0x10,
            f.noise_enable_b,
        ),
        0x20,
        f.noise_enable_c,
    )
}

/// The writes that put a frame on the chip, in order: the set tones, noise
/// period and volumes, the mixer, the envelope period when set, and the
/// envelope shape when set and different from the chip's current shape (a
/// write to R13 restarts the envelope).
pub open spec fn ym_frame_writes(f: YmFrame, mixer: u8, current_shape: u8) -> Seq<RegisterWrite> {
    tone_writes(f.tone_a, 0) + tone_writes(f.tone_b, 2) + tone_writes(f.tone_c, 4) + masked_write(
        f.noise_period,
        6,
        0x1F,
    ) + masked_write(f.volume_a, 8, 0x1F) + masked_write(f.volume_b, 9, 0x1F) + masked_write(
        f.volume_c,
        10,
        0x1F,
    ) + seq![(7u8, ym_frame_mixer(f, mixer))] + match f.envelope_period {
        Some(p) => seq![(11u8, (p & 0xFF) as u8), (12u8, ((p >> 8u16) & 0xFF) as u8)],
        None => Seq::empty(),
    } + match f.envelope_shape {
        Some(s) => if current_shape != s & 0x0F {
            seq![(13u8, s & 0x0F)]
        } else {
            Seq::empty()
        },
        None => Seq::empty(),
    }
}

/// The registers of a channel: tone low byte, volume, tone and noise mixer bits.
pub open spec fn channel_registers(c: YmChannel) -> (u8, u8, u8, u8) {
    match c {
        YmChannel::A => (0, 8, 0x01, 0x08),
        YmChannel::B => (2, 9, 0x02, 0x10),
        YmChannel::C => (4, 10, 0x04, 0x20),
    }
}

/// The mixer after a sound effect frame on a channel.
pub open spec fn sfx_frame_mixer(f: SfxFrame, m: u8, c: YmChannel) -> u8 {
    mixer_with(mixer_with(m, channel_registers(c).2, f.tone_enable), channel_registers(c).3, f.noise_enable)
}

/// The writes that put a sound effect frame on a channel, in order: the tone,
/// noise period and volume when set, then the mixer.
pub open spec fn sfx_frame_writes(f: SfxFrame, mixer: u8, c: YmChannel) -> Seq<RegisterWrite> {
    tone_writes(f.tone, channel_registers(c).0) + masked_write(f.noise, 6, 0x1F) + masked_write(
        f.volume,
        channel_registers(c).1,
        0x1F,
    ) + seq![(7u8, sfx_frame_mixer(f, mixer, c))]
}

fn update_mixer(m: &mut u8, bit: u8, enable: Option<bool>)
    ensures
        *final(m) == mixer_with(*old(m), bit, enable),
{
    if let Some(en) = enable {
        if en {
            *m = *m & !bit;
        } else {
            *m = *m | bit;
        }
    }
}

fn push_tone(out: &mut Vec<RegisterWrite>, tone: Option<u16>, low: u8)
    requires
        low < 255,
    ensures
        final(out)@ == old(out)@ + tone_writes(tone, low),
{
    if let Some(t) = tone {
        out.push((low, (t & 0xFF) as u8));
        out.push((low + 1, ((t >> 8u16) & 0x0F) as u8));
    }
    assert(final(out)@ =~= old(out)@ + tone_writes(tone, low));
}

fn push_masked(out: &mut Vec<RegisterWrite>, value: Option<u8>, reg: u8, mask: u8)
    ensures
        final(out)@ == old(out)@ + masked_write(value, reg, mask),
{
    if let Some(v) = value {
        out.push((reg, v & mask));
    }
    assert(final(out)@ =~= old(out)@ + masked_write(value, reg, mask));
}

impl YmFrame {
    /// The register writes that apply this frame to a chip whose envelope shape
    /// register holds `current_shape` (see [`ym_frame_writes`]); updates the
    /// tracked mixer value.
    pub fn chip_writes(&self, mixer: &mut u8, current_shape: u8) -> (r: Vec<RegisterWrite>)
        ensures
            *final(mixer) == ym_frame_mixer(*self, *old(mixer)),
            r@ == ym_frame_writes(*self, *old(mixer), current_shape),
    {
        let mut out: Vec<RegisterWrite> = Vec::new();
        push_tone(&mut out, self.tone_a, 0);
        push_tone(&mut out, self.tone_b, 2);
        push_tone(&mut out, self.tone_c, 4);
        push_masked(&mut out, self.noise_period, 6, 0x1F);
        push_masked(&mut out, self.volume_a, 8, 0x1F);
        push_masked(&mut out, self.volume_b, 9, 0x1F);
        push_masked(&mut out, self.volume_c, 10, 0x1F);
        update_mixer(mixer, 0x01, self.tone_enable_a);
        update_mixer(mixer, 0x02, self.tone_enable_b);
        update_mixer(mixer, 0x04, self.tone_enable_c);
        update_mixer(mixer, 0x08, self.noise_enable_a);
        update_mixer(mixer, 0x10, self.noise_enable_b);
        update_mixer(mixer, 0x20, self.noise_enable_c);
        out.push((7, *mixer));
        if let Some(period) = self.envelope_period {
            out.push((11, (period & 0xFF) as u8));
            out.push((12, ((period >> 8u16) & 0xFF) as u8));
        }
        if let Some(shape) = self.envelope_shape {
            if current_shape != (shape & 0x0F) {
                out.push((13, shape & 0x0F));
            }
        }
        assert(out@ =~= ym_frame_writes(*self, *old(mixer), current_shape));
        out
    }
}

impl SfxFrame {
    /// The register writes that apply this frame to one channel of a chip (see
    /// [`sfx_frame_writes`]); updates the tracked mixer value.
    pub fn chip_writes(&self, mixer: &mut u8, channel: YmChannel) -> (r: Vec<RegisterWrite>)
        ensures
            *final(mixer) == sfx_frame_mixer(*self, *old(mixer), channel),
            r@ == sfx_frame_writes(*self, *old(mixer), channel),
    {
        let (tone_reg_low, vol_reg, tone_bit, noise_bit): (u8, u8, u8, u8) = match channel {
            YmChannel::A => (0, 8, 0x01, 0x08),
            YmChannel::B => (2, 9, 0x02, 0x10),
            YmChannel::C => (4, 10, 0x04, 0x20),
        };
        let mut out: Vec<RegisterWrite> = Vec::new();
        push_tone(&mut out, self.tone, tone_reg_low);
        push_masked(&mut out, self.noise, 6, 0x1F);
        push_masked(&mut out, self.volume, vol_reg, 0x1F);
        update_mixer(mixer, tone_bit, self.tone_enable);
        update_mixer(mixer, noise_bit, self.noise_enable);
        out.push((7, *mixer));
        assert(out@ =~= sfx_frame_writes(*self, *old(mixer), channel));
        out
    }
}

/// Bit `bit` of the mixer after an enable: clear when enabled, set when
/// disabled, as in `m` when unset.
pub open spec fn enable_bit(m: u8, bit: u8, enable: Option<bool>) -> u8 {
    match enable {
        Some(true) => 0,
        Some(false) => bit,
        None => m & bit,
    }
}

proof fn lemma_clear_bit(m: u8, bit: u8, q: u8)
    by (bit_vector)
    ensures
        (m & !bit) & bit == 0,
        q & bit == 0 ==> (m & !bit) & q == m & q,
        (m | bit) & bit == bit,
        q & bit == 0 ==> (m | bit) & q == m & q,
{
}

/// One enable moves only its own bit of the mixer, among the six channel
/// bits and the two top bits.
proof fn lemma_mixer_with_bits(m: u8, bit: u8, e: Option<bool>)
    ensures
        mixer_with(m, bit, e) & bit == enable_bit(m, bit, e),
        0x01u8 & bit == 0 ==> mixer_with(m, bit, e) & 0x01u8 == m & 0x01u8,
        0x02u8 & bit == 0 ==> mixer_with(m, bit, e) & 0x02u8 == m & 0x02u8,
        0x04u8 & bit == 0 ==> mixer_with(m, bit, e) & 0x04u8 == m & 0x04u8,
        0x08u8 & bit == 0 ==> mixer_with(m, bit, e) & 0x08u8 == m & 0x08u8,
        0x10u8 & bit == 0 ==> mixer_with(m, bit, e) & 0x10u8 == m & 0x10u8,
        0x20u8 & bit == 0 ==> mixer_with(m, bit, e) & 0x20u8 == m & 0x20u8,
        0xC0u8 & bit == 0 ==> mixer_with(m, bit, e) & 0xC0u8 == m & 0xC0u8,
{
    lemma_clear_bit(m, bit, 0x01);
    lemma_clear_bit(m, bit, 0x02);
    lemma_clear_bit(m, bit, 0x04);
    lemma_clear_bit(m, bit, 0x08);
    lemma_clear_bit(m, bit, 0x10);
    lemma_clear_bit(m, bit, 0x20);
    lemma_clear_bit(m, bit, 0xC0);
    lemma_clear_bit(m, bit, bit);
}

/// The mixer that a frame writes (and leaves for the next frame) has the
/// tone bits 0-2 of channels A-C and the noise bits 3-5 of channels A-C each
/// clear when the frame enables that tone or noise, set when it disables it,
/// and as before when it leaves it unset; bits 6-7 are as before.
pub proof fn law_frame_mixer_bits(f: YmFrame, m: u8)
    ensures
        ym_frame_mixer(f, m) & 0x01 == enable_bit(m, 0x01, f.tone_enable_a),
        ym_frame_mixer(f, m) & 0x02 == enable_bit(m, 0x02, f.tone_enable_b),
        ym_frame_mixer(f, m) & 0x04 == enable_bit(m, 0x04, f.tone_enable_c),
        ym_frame_mixer(f, m) & 0x08 == enable_bit(m, 0x08, f.noise_enable_a),
        ym_frame_mixer(f, m) & 0x10 == enable_bit(m, 0x10, f.noise_enable_b),
        ym_frame_mixer(f, m) & 0x20 == enable_bit(m, 0x20, f.noise_enable_c),
        ym_frame_mixer(f, m) & 0xC0 == m & 0xC0,
{
    assert(0x01u8 & 0x02u8 == 0 && 0x01u8 & 0x04u8 == 0 && 0x01u8 & 0x08u8 == 0 && 0x01u8 & 0x10u8
        == 0 && 0x01u8 & 0x20u8 == 0 && 0x02u8 & 0x01u8 == 0 && 0x02u8 & 0x04u8 == 0 && 0x02u8
        & 0x08u8 == 0 && 0x02u8 & 0x10u8 == 0 && 0x02u8 & 0x20u8 == 0 && 0x04u8 & 0x01u8 == 0
        && 0x04u8 & 0x02u8 == 0 && 0x04u8 & 0x08u8 == 0 && 0x04u8 & 0x10u8 == 0 && 0x04u8
        & 0x20u8 == 0 && 0x08u8 & 0x01u8 == 0 && 0x08u8 & 0x02u8 == 0 && 0x08u8 & 0x04u8 == 0
        && 0x08u8 & 0x10u8 == 0 && 0x08u8 & 0x20u8 == 0 && 0x10u8 & 0x01u8 == 0 && 0x10u8
        & 0x02u8 == 0 && 0x10u8 & 0x04u8 == 0 && 0x10u8 & 0x08u8 == 0 && 0x10u8 & 0x20u8 == 0
        && 0x20u8 & 0x01u8 == 0 && 0x20u8 & 0x02u8 == 0 && 0x20u8 & 0x04u8 == 0 && 0x20u8
        & 0x08u8 == 0 && 0x20u8 & 0x10u8 == 0 && 0xC0u8 & 0x01u8 == 0 && 0xC0u8 & 0x02u8 == 0
        && 0xC0u8 & 0x04u8 == 0 && 0xC0u8 & 0x08u8 == 0 && 0xC0u8 & 0x10u8 == 0 && 0xC0u8
        & 0x20u8 == 0) by (bit_vector);
    let m1 = mixer_with(m, 0x01, f.tone_enable_a);
    let m2 = mixer_with(m1, 0x02, f.tone_enable_b);
    let m3 = mixer_with(m2, 0x04, f.tone_enable_c);
    let m4 = mixer_with(m3, 0x08, f.noise_enable_a);
    let m5 = mixer_with(m4, 0x10, f.noise_enable_b);
    lemma_mixer_with_bits(m, 0x01, f.tone_enable_a);
    lemma_mixer_with_bits(m1, 0x02, f.tone_enable_b);
    lemma_mixer_with_bits(m2, 0x04, f.tone_enable_c);
    lemma_mixer_with_bits(m3, 0x08, f.noise_enable_a);
    lemma_mixer_with_bits(m4, 0x10, f.noise_enable_b);
    lemma_mixer_with_bits(m5, 0x20, f.noise_enable_c);
}

/// The mixer that a sound effect frame writes on channel A, B or C has the
/// channel's tone bit (bit 0, 1 or 2) and noise bit (bit 3, 4 or 5) clear when
/// the frame enables that tone or noise, set when it disables it, and as
/// before when unset; every other bit of the mixer is as before.
pub proof fn law_sfx_frame_mixer_bits(f: SfxFrame, m: u8, c: YmChannel)
    ensures
        ({
            let (tb, nb) = match c {
                YmChannel::A => (0x01u8, 0x08u8),
                YmChannel::B => (0x02u8, 0x10u8),
                YmChannel::C => (0x04u8, 0x20u8),
            };
            let r = sfx_frame_mixer(f, m, c);
            &&& r & tb == enable_bit(m, tb, f.tone_enable)
            &&& r & nb == enable_bit(m, nb, f.noise_enable)
            &&& r & !(tb | nb) == m & !(tb | nb)
        }),
{
    let (tb, nb) = match c {
        YmChannel::A => (0x01u8, 0x08u8),
        YmChannel::B => (0x02u8, 0x10u8),
        YmChannel::C => (0x04u8, 0x20u8),
    };
    assert(channel_registers(c).2 == tb && channel_registers(c).3 == nb);
    let q = !(tb | nb);
    assert(tb & nb == 0 && nb & tb == 0 && q & tb == 0 && q & nb == 0) by (bit_vector)
        requires
            (tb == 0x01u8 && nb == 0x08u8) || (tb == 0x02u8 && nb == 0x10u8) || (tb == 0x04u8 && nb
                == 0x20u8),
            q == !(tb | nb),
    ;
    let m1 = mixer_with(m, tb, f.tone_enable);
    lemma_clear_bit(m, tb, tb);
    lemma_clear_bit(m, tb, nb);
    lemma_clear_bit(m, tb, q);
    lemma_clear_bit(m1, nb, nb);
    lemma_clear_bit(m1, nb, tb);
    lemma_clear_bit(m1, nb, q);
}

/// Where playback stands: the frame being played, the samples already played
/// of it, and whether a sequence without loop has run out.
#[derive(Debug, Clone, Copy, PartialEq, Eq, Structural)]
pub struct PlaybackCursor {
    pub frame_idx: usize,
    pub sample_in_frame: usize,
    pub finished: bool,
}

/// One output sample later: after `samples_per_frame` samples playback moves to
/// the next frame, which must then be applied; past the last frame it goes
/// back to the loop frame, or finishes when there is none.
pub open spec fn cursor_step(
    c: PlaybackCursor,
    samples_per_frame: nat,
    total_frames: nat,
    loop_start: Option<usize>,
) -> (PlaybackCursor, Option<usize>) {
    let s = c.sample_in_frame + 1;
    if s < samples_per_frame {
        (PlaybackCursor { frame_idx: c.frame_idx, sample_in_frame: s as usize, finished: c.finished }, None)
    } else {
        let f = c.frame_idx + 1;
        if f >= total_frames {
            match loop_start {
                Some(l) => (PlaybackCursor { frame_idx: l, sample_in_frame: 0, finished: c.finished }, Some(l)),
                None => (PlaybackCursor { frame_idx: f as usize, sample_in_frame: 0, finished: true }, None),
            }
        } else {
            (PlaybackCursor { frame_idx: f as usize, sample_in_frame: 0, finished: c.finished }, Some(f as usize))
        }
    }
}

impl PlaybackCursor {
    /// The start of playback: first frame, no sample played.
    pub fn new() -> (r: Self)
        ensures
            r == (PlaybackCursor { frame_idx: 0, sample_in_frame: 0, finished: false }),
    {
        PlaybackCursor { frame_idx: 0, sample_in_frame: 0, finished: false }
    }

    /// Counts one output sample (see [`cursor_step`]); gives the index of the
    /// frame to apply to the chip when playback moves to another frame.
    pub fn advance(&mut self, samples_per_frame: usize, total_frames: usize, loop_start: Option<usize>) -> (r: Option<usize>)
        requires
            old(self).sample_in_frame < usize::MAX,
            old(self).frame_idx < usize::MAX,
            loop_start matches Some(l) ==> l < total_frames,
        ensures
            (*final(self), r) == cursor_step(*old(self), samples_per_frame as nat, total_frames as nat, loop_start),
            r matches Some(i) ==> i < total_frames,
    {
        self.sample_in_frame = self.sample_in_frame + 1;
        if self.sample_in_frame < samples_per_frame {
            return None;
        }
        self.sample_in_frame = 0;
        self.frame_idx = self.frame_idx + 1;
        if self.frame_idx >= total_frames {
            match loop_start {
                Some(l) => {
                    self.frame_idx = l;
                    Some(l)
                },
                None => {
                    self.finished = true;
                    None
                },
            }
        } else {
            Some(self.frame_idx)
        }
    }
}

/// Playback of a looping sequence never finishes and never leaves the
/// sequence: from a frame within it, each sample keeps it within it and
/// unfinished.
pub proof fn law_looping_playback_continues(
    c: PlaybackCursor,
    samples_per_frame: nat,
    total_frames: nat,
    l: usize,
)
    requires
        c.frame_idx < total_frames,
        !c.finished,
        l < total_frames,
    ensures
        cursor_step(c, samples_per_frame, total_frames, Some(l)).0.frame_idx < total_frames,
        !cursor_step(c, samples_per_frame, total_frames, Some(l)).0.finished,
{
}

/// Playback without a loop applies each frame in turn, once: the frame it
/// moves to is the one after the current frame.
pub proof fn law_playback_advances_in_order(
    c: PlaybackCursor,
    samples_per_frame: nat,
    total_frames: nat,
)
    requires
        c.frame_idx < usize::MAX,
    ensures
        cursor_step(c, samples_per_frame, total_frames, None).1 matches Some(i) ==> i == c.frame_idx
            + 1,
        cursor_step(c, samples_per_frame, total_frames, None).0.frame_idx >= c.frame_idx,
{
}

/// Playback over `k` output samples: the cursor after them, and the frames
/// that are applied to the chip on the way, in order.
pub open spec fn cursor_run(
    c: PlaybackCursor,
    samples_per_frame: nat,
    total_frames: nat,
    loop_start: Option<usize>,
    k: nat,
) -> (PlaybackCursor, Seq<usize>)
    decreases k,
{
    if k == 0 {
        (c, Seq::empty())
    } else {
        let step = cursor_step(c, samples_per_frame, total_frames, loop_start);
        let rest = cursor_run(step.0, samples_per_frame, total_frames, loop_start, (k - 1) as nat);
        (
            rest.0,
            match step.1 {
                Some(i) => seq![i] + rest.1,
                None => rest.1,
            },
        )
    }
}

/// The cursor at the start of frame `f`, before any of its samples.
pub open spec fn frame_start(f: nat, finished: bool) -> PlaybackCursor {
    PlaybackCursor { frame_idx: f as usize, sample_in_frame: 0, finished }
}

/// The frames `from`, `from + 1`, ... up to but not including `to`.
pub open spec fn frame_range(from: nat, to: nat) -> Seq<usize> {
    Seq::new((to - from) as nat, |i: int| (from + i) as usize)
}

proof fn lemma_run_split(
    c: PlaybackCursor,
    spf: nat,
    n: nat,
    lp: Option<usize>,
    k1: nat,
    k2: nat,
)
    ensures
        cursor_run(c, spf, n, lp, k1 + k2) == ({
            let a = cursor_run(c, spf, n, lp, k1);
            let b = cursor_run(a.0, spf, n, lp, k2);
            (b.0, a.1 + b.1)
        }),
    decreases k1,
{
    if k1 == 0 {
        assert(Seq::<usize>::empty() + cursor_run(c, spf, n, lp, k2).1 =~= cursor_run(
            c,
            spf,
            n,
            lp,
            k2,
        ).1);
    } else {
        let step = cursor_step(c, spf, n, lp);
        lemma_run_split(step.0, spf, n, lp, (k1 - 1) as nat, k2);
        assert((k1 + k2 - 1) as nat == ((k1 - 1) as nat + k2) as nat);
        let a1 = cursor_run(step.0, spf, n, lp, (k1 - 1) as nat);
        let b = cursor_run(a1.0, spf, n, lp, k2);
        match step.1 {
            Some(i) => {
                assert(seq![i] + (a1.1 + b.1) =~= (seq![i] + a1.1) + b.1);
            },
            None => {},
        }
    }
}

/// Within a frame: `j` samples after its start, nothing is applied.
proof fn lemma_run_within_frame(f: nat, fin: bool, spf: nat, n: nat, lp: Option<usize>, j: nat)
    requires
        f <= usize::MAX,
        spf <= usize::MAX,
        j < spf,
    ensures
        cursor_run(frame_start(f, fin), spf, n, lp, j) == (
            PlaybackCursor { frame_idx: f as usize, sample_in_frame: j as usize, finished: fin },
            Seq::<usize>::empty(),
        ),
    decreases j,
{
    if j > 0 {
        lemma_run_within_frame(f, fin, spf, n, lp, (j - 1) as nat);
        lemma_run_split(frame_start(f, fin), spf, n, lp, (j - 1) as nat, 1);
        let mid = PlaybackCursor { frame_idx: f as usize, sample_in_frame: (j - 1) as usize, finished: fin };
        let next = PlaybackCursor { frame_idx: f as usize, sample_in_frame: j as usize, finished: fin };
        assert(cursor_step(mid, spf, n, lp) == (next, None::<usize>));
        assert(cursor_run(next, spf, n, lp, 0) == (next, Seq::<usize>::empty()));
        assert(cursor_run(mid, spf, n, lp, 1) == (
            PlaybackCursor { frame_idx: f as usize, sample_in_frame: j as usize, finished: fin },
            Seq::<usize>::empty(),
        ));
        assert(Seq::<usize>::empty() + Seq::<usize>::empty() =~= Seq::<usize>::empty());
    }
}

/// A whole frame: `samples_per_frame` samples after its start, playback stands
/// where [`cursor_step`] takes it at the frame's end.
proof fn lemma_run_frame(f: nat, fin: bool, spf: nat, n: nat, lp: Option<usize>)
    requires
        f <= usize::MAX,
        1 <= spf <= usize::MAX,
    ensures
        cursor_run(frame_start(f, fin), spf, n, lp, spf) == ({
            let last = PlaybackCursor {
                frame_idx: f as usize,
                sample_in_frame: (spf - 1) as usize,
                finished: fin,
            };
            let step = cursor_step(last, spf, n, lp);
            (
                step.0,
                match step.1 {
                    Some(i) => seq![i],
                    None => Seq::<usize>::empty(),
                },
            )
        }),
{
    lemma_run_within_frame(f, fin, spf, n, lp, (spf - 1) as nat);
    lemma_run_split(frame_start(f, fin), spf, n, lp, (spf - 1) as nat, 1);
    let last = PlaybackCursor { frame_idx: f as usize, sample_in_frame: (spf - 1) as usize, finished: fin };
    let step = cursor_step(last, spf, n, lp);
    assert(cursor_run(step.0, spf, n, lp, 0) == (step.0, Seq::<usize>::empty()));
    match step.1 {
        Some(i) => {
            assert(Seq::<usize>::empty() + (seq![i] + Seq::<usize>::empty()) =~= seq![i]);
        },
        None => {
            assert(Seq::<usize>::empty() + Seq::<usize>::empty() =~= Seq::<usize>::empty());
        },
    }
}

/// Playback plays the frames of a sequence in order, each for
/// `samples_per_frame` samples: `m` frames after the start of frame `f`, it
/// stands at the start of frame `f + m` and has applied frames `f + 1` to
/// `f + m`, one after the other, for as long as the sequence lasts.
pub proof fn law_playback_plays_frames_in_order(
    f: nat,
    samples_per_frame: nat,
    total_frames: nat,
    loop_start: Option<usize>,
    m: nat,
)
    requires
        1 <= samples_per_frame <= usize::MAX,
        f + m < total_frames <= usize::MAX,
    ensures
        cursor_run(
            frame_start(f, false),
            samples_per_frame,
            total_frames,
            loop_start,
            m * samples_per_frame,
        ) == (frame_start(f + m, false), frame_range(f + 1, f + m + 1)),
    decreases m,
{
    let spf = samples_per_frame;
    if m == 0 {
        assert(0 * spf == 0) by (nonlinear_arith);
        assert(frame_range(f + 1, f + 1) =~= Seq::<usize>::empty());
    } else {
        let m1 = (m - 1) as nat;
        law_playback_plays_frames_in_order(f, spf, total_frames, loop_start, m1);
        assert(m * spf == m1 * spf + spf) by (nonlinear_arith)
            requires
                m1 == m - 1,
        ;
        lemma_run_split(frame_start(f, false), spf, total_frames, loop_start, m1 * spf, spf);
        lemma_run_frame(f + m1, false, spf, total_frames, loop_start);
        assert(frame_range(f + 1, f + m1 + 1) + seq![(f + m) as usize] =~= frame_range(
            f + 1,
            f + m + 1,
        ));
    }
}

/// At the end of the sequence, after the last frame's samples: a looping
/// sequence has applied its loop frame and stands at its start, ready to play
/// on from there; one without loop has finished, with nothing more applied.
pub proof fn law_playback_end_of_sequence(
    f: nat,
    samples_per_frame: nat,
    total_frames: nat,
    loop_start: Option<usize>,
)
    requires
        1 <= samples_per_frame <= usize::MAX,
        f < total_frames <= usize::MAX,
        loop_start matches Some(l) ==> l < total_frames,
    ensures
        cursor_run(
            frame_start(f, false),
            samples_per_frame,
            total_frames,
            loop_start,
            ((total_frames - f) as nat) * samples_per_frame,
        ) == match loop_start {
            Some(l) => (frame_start(l as nat, false), frame_range(f + 1, total_frames).push(l)),
            None => (frame_start(total_frames, true), frame_range(f + 1, total_frames)),
        },
{
    let spf = samples_per_frame;
    let n = total_frames;
    let m = (n - 1 - f) as nat;
    law_playback_plays_frames_in_order(f, spf, n, loop_start, m);
    assert(((n - f) as nat) * spf == m * spf + spf) by (nonlinear_arith)
        requires
            m == n - 1 - f,
    ;
    lemma_run_split(frame_start(f, false), spf, n, loop_start, m * spf, spf);
    lemma_run_frame(f + m, false, spf, n, loop_start);
    match loop_start {
        Some(l) => {
            assert(frame_range(f + 1, f + m + 1) + seq![l] =~= frame_range(f + 1, n).push(l));
        },
        None => {
            assert(frame_range(f + 1, f + m + 1) + Seq::<usize>::empty() =~= frame_range(f + 1, n));
        },
    }
}

/// Once playback has finished it stays finished, whatever number of samples
/// follow.
pub proof fn law_finished_playback_stays_finished(
    c: PlaybackCursor,
    samples_per_frame: nat,
    total_frames: nat,
    loop_start: Option<usize>,
    k: nat,
)
    requires
        c.finished,
    ensures
        cursor_run(c, samples_per_frame, total_frames, loop_start, k).0.finished,
    decreases k,
{
    if k > 0 {
        let step = cursor_step(c, samples_per_frame, total_frames, loop_start);
        law_finished_playback_stays_finished(
            step.0,
            samples_per_frame,
            total_frames,
            loop_start,
            (k - 1) as nat,
        );
    }
}

} // verus!
