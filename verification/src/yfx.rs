use vstd::prelude::*;
use crate::error::YmError;
use crate::sequence::{decoded_effect, SfxFrame, SfxSequence};

verus! {

/// The state of a sound effect channel: each frame overrides what it sets.
pub struct SfxState {
    pub tone: u16,
    pub volume: u8,
    pub tone_enable: bool,
    pub noise_enable: bool,
    pub noise: u8,
}

/// The channel before the first frame: silent, tone on, noise off.
pub open spec fn initial_sfx_state() -> SfxState {
    SfxState { tone: 0, volume: 0, tone_enable: true, noise_enable: false, noise: 0 }
}

pub open spec fn apply_sfx_frame(st: SfxState, f: SfxFrame) -> SfxState {
    SfxState {
        tone: f.tone.unwrap_or(st.tone),
        volume: f.volume.unwrap_or(st.volume),
        tone_enable: f.tone_enable.unwrap_or(st.tone_enable),
        noise_enable: f.noise_enable.unwrap_or(st.noise_enable),
        noise: f.noise.unwrap_or(st.noise),
    }
}

/// The state of the channel after the frames `fs`.
pub open spec fn sfx_state_after(fs: Seq<SfxFrame>) -> SfxState
    decreases fs.len(),
{
    if fs.len() == 0 {
        initial_sfx_state()
    } else {
        apply_sfx_frame(sfx_state_after(fs.drop_last()), fs.last())
    }
}

/// The YFX control byte: bit 0 tone on, bit 1 noise on, bits 3-7 the noise period.
pub open spec fn sfx_control(st: SfxState) -> u8 {
    ((if st.tone_enable { 1u8 } else { 0u8 }) + (if st.noise_enable { 2u8 } else { 0u8 }) + (
    st.noise & 0x1Fu8) * 8) as u8
}

/// A 5-byte YFX record: tone low byte, tone high nibble, volume nibble,
/// control byte and duration (one frame when unset).
pub open spec fn sfx_record(st: SfxState, duration: Option<u8>) -> Seq<u8> {
    seq![
        (st.tone & 0xFF) as u8,
        ((st.tone >> 8u16) & 0x0F) as u8,
        st.volume & 0x0Fu8,
        sfx_control(st),
        duration.unwrap_or(1),
    ]
}

/// The YFX encoding of a sound effect: one record per frame, each holding the
/// channel state after that frame.
pub open spec fn sfx_bytes(fs: Seq<SfxFrame>) -> Seq<u8>
    decreases fs.len(),
{
    if fs.len() == 0 {
        Seq::empty()
    } else {
        sfx_bytes(fs.drop_last()) + sfx_record(sfx_state_after(fs), fs.last().duration)
    }
}

/// The frame that YFX record `i` describes.
pub open spec fn yfx_frame(b: Seq<u8>, i: int) -> SfxFrame {
    let c = b[5 * i + 3];
    SfxFrame {
        tone_enable: Some(c & 0x01u8 != 0),
        noise_enable: Some(c & 0x02u8 != 0),
        tone: Some((b[5 * i] as u16) | ((b[5 * i + 1] as u16) << 8u16)),
        noise: Some((c >> 3u8) & 0x1Fu8),
        volume: Some(b[5 * i + 2]),
        duration: Some(b[5 * i + 4]),
    }
}

/// The frames of a YFX payload.
pub open spec fn yfx_frames(b: Seq<u8>) -> Seq<SfxFrame> {
    Seq::new(b.len() / 5, |i: int| yfx_frame(b, i))
}

impl SfxSequence {
    /// Decodes a YFX payload of 5-byte records (see [`yfx_frames`]).
    pub fn from_yfx(name: &str, bytes: &[u8]) -> (r: Result<Self, YmError>)
        ensures
            bytes@.len() % 5 != 0 ==> r == Err::<Self, YmError>(YmError::YfxSize),
            bytes@.len() % 5 == 0 ==> (r matches Ok(s) && s@ == decoded_effect(
                name@,
                yfx_frames(bytes@),
            )),
    {
        let len = bytes.len();
        if len % 5 != 0 {
            return Err(YmError::YfxSize);
        }
        let mut frames: Vec<SfxFrame> = Vec::new();
        let mut pp: usize = 0;
        while pp < len
            invariant
                len == bytes@.len(),
                len % 5 == 0,
                pp % 5 == 0,
                pp <= len,
                frames@.len() == pp / 5,
                forall|i: int| 0 <= i < frames@.len() ==> frames@[i] == yfx_frame(bytes@, i),
            decreases len - pp,
        {
            let tone_low = bytes[pp];
            let tone_high = bytes[pp + 1];
            let volume = bytes[pp + 2];
            let control = bytes[pp + 3];
            let duration = bytes[pp + 4];
            let frame = SfxFrame {
                tone_enable: Some(control & 0x01u8 != 0),
                noise_enable: Some(control & 0x02u8 != 0),
                tone: Some((tone_low as u16) | ((tone_high as u16) << 8u16)),
                noise: Some((control >> 3u8) & 0x1Fu8),
                volume: Some(volume),
                duration: Some(duration),
            };
            assert(5 * (pp / 5) == pp);
            assert(frame == yfx_frame(bytes@, (pp / 5) as int));
            frames.push(frame);
            pp = pp + 5;
        }
        assert(frames@ =~= yfx_frames(bytes@));
        Ok(SfxSequence::decoded(String::from_str(name), frames))
    }
}

} // verus!
