use vstd::prelude::*;
use crate::timing::{SystemHz, TimingConfig};

verus! {

/// High-level frame representation for YM-2149 sound sequence authoring.
#[derive(Debug, Clone, Copy, PartialEq, Eq, Structural)]
pub struct YmFrame {
    pub tone_a: Option<u16>,
    pub tone_b: Option<u16>,
    pub tone_c: Option<u16>,
    pub noise_period: Option<u8>,
    pub volume_a: Option<u8>,
    pub volume_b: Option<u8>,
    pub volume_c: Option<u8>,
    pub tone_enable_a: Option<bool>,
    pub tone_enable_b: Option<bool>,
    pub tone_enable_c: Option<bool>,
    pub noise_enable_a: Option<bool>,
    pub noise_enable_b: Option<bool>,
    pub noise_enable_c: Option<bool>,
    pub envelope_period: Option<u16>,
    pub envelope_shape: Option<u8>,
    pub duration: Option<u8>,
}

/// The frame in which no register is set.
pub open spec fn empty_ym_frame() -> YmFrame {
    YmFrame {
        tone_a: None,
        tone_b: None,
        tone_c: None,
        noise_period: None,
        volume_a: None,
        volume_b: None,
        volume_c: None,
        tone_enable_a: None,
        tone_enable_b: None,
        tone_enable_c: None,
        noise_enable_a: None,
        noise_enable_b: None,
        noise_enable_c: None,
        envelope_period: None,
        envelope_shape: None,
        duration: None,
    }
}

impl Default for YmFrame {
    fn default() -> (r: Self)
        ensures
            r == empty_ym_frame(),
    {
        YmFrame {
            tone_a: None,
            tone_b: None,
            tone_c: None,
            noise_period: None,
            volume_a: None,
            volume_b: None,
            volume_c: None,
            tone_enable_a: None,
            tone_enable_b: None,
            tone_enable_c: None,
            noise_enable_a: None,
            noise_enable_b: None,
            noise_enable_c: None,
            envelope_period: None,
            envelope_shape: None,
            duration: None,
        }
    }
}

/// A YM-2149 song: named, timed frames with an optional loop point.
#[derive(Debug, Clone, PartialEq, Eq)]
pub struct YmSequence {
    pub name: String,
    pub timing: TimingConfig,
    pub priority: u8,
    pub loop_start: Option<usize>,
    pub frames: Vec<YmFrame>,
}

/// The mathematical content of a [`YmSequence`].
pub struct YmSequenceView {
    pub name: Seq<char>,
    pub timing: TimingConfig,
    pub priority: u8,
    pub loop_start: Option<usize>,
    pub frames: Seq<YmFrame>,
}

impl View for YmSequence {
    type V = YmSequenceView;

    open spec fn view(&self) -> YmSequenceView {
        YmSequenceView {
            name: self.name@,
            timing: self.timing,
            priority: self.priority,
            loop_start: self.loop_start,
            frames: self.frames@,
        }
    }
}

impl YmSequence {
    /// An empty sequence at the standard 2 MHz clock.
    pub fn new(name: &str, hz: SystemHz) -> (r: Self)
        ensures
            r@ == (YmSequenceView {
                name: name@,
                timing: TimingConfig { master_clock_hz: 2_000_000, frame_rate: hz },
                priority: 0,
                loop_start: None,
                frames: Seq::empty(),
            }),
    {
        YmSequence {
            name: String::from_str(name),
            timing: TimingConfig { master_clock_hz: 2_000_000, frame_rate: hz },
            priority: 0,
            loop_start: None,
            frames: Vec::new(),
        }
    }
}

/// Sound channel selector for routing dynamic SFX.
#[derive(Debug, Clone, Copy, PartialEq, Eq, Structural)]
pub enum YmChannel {
    A,
    B,
    C,
}

/// Single-channel sound effect frame.
#[derive(Debug, Clone, Copy, PartialEq, Eq, Structural)]
pub struct SfxFrame {
    pub tone_enable: Option<bool>,
    pub noise_enable: Option<bool>,
    pub tone: Option<u16>,
    pub noise: Option<u8>,
    pub volume: Option<u8>,
    pub duration: Option<u8>,
}

/// The sound effect frame in which nothing is set.
pub open spec fn empty_sfx_frame() -> SfxFrame {
    SfxFrame {
        tone_enable: None,
        noise_enable: None,
        tone: None,
        noise: None,
        volume: None,
        duration: None,
    }
}

impl Default for SfxFrame {
    fn default() -> (r: Self)
        ensures
            r == empty_sfx_frame(),
    {
        SfxFrame {
            tone_enable: None,
            noise_enable: None,
            tone: None,
            noise: None,
            volume: None,
            duration: None,
        }
    }
}

/// A channel-agnostic sound effect: named, timed frames.
#[derive(Debug, Clone, PartialEq, Eq)]
pub struct SfxSequence {
    pub name: String,
    pub source_clock: u32,
    pub source_hz: u32,
    pub priority: u8,
    pub preferred_channels: Option<Vec<YmChannel>>,
    pub loop_start: Option<usize>,
    pub frames: Vec<SfxFrame>,
}

/// The mathematical content of an [`SfxSequence`].
pub struct SfxSequenceView {
    pub name: Seq<char>,
    pub source_clock: u32,
    pub source_hz: u32,
    pub priority: u8,
    pub preferred_channels: Option<Seq<YmChannel>>,
    pub loop_start: Option<usize>,
    pub frames: Seq<SfxFrame>,
}

impl View for SfxSequence {
    type V = SfxSequenceView;

    open spec fn view(&self) -> SfxSequenceView {
        SfxSequenceView {
            name: self.name@,
            source_clock: self.source_clock,
            source_hz: self.source_hz,
            priority: self.priority,
            preferred_channels: match self.preferred_channels {
                Some(c) => Some(c@),
                None => None,
            },
            loop_start: self.loop_start,
            frames: self.frames@,
        }
    }
}

/// What every effect decoder produces: a 2 MHz, 50 Hz effect of
/// priority 1 with no channel preference and no loop.
pub open spec fn decoded_effect(name: Seq<char>, frames: Seq<SfxFrame>) -> SfxSequenceView {
    SfxSequenceView {
        name,
        source_clock: 2_000_000,
        source_hz: 50,
        priority: 1,
        preferred_channels: None,
        loop_start: None,
        frames,
    }
}

impl SfxSequence {
    pub(crate) fn decoded(name: String, frames: Vec<SfxFrame>) -> (r: Self)
        ensures
            r@ == decoded_effect(name@, frames@),
    {
        SfxSequence {
            name,
            source_clock: 2_000_000,
            source_hz: 50,
            priority: 1,
            preferred_channels: None,
            loop_start: None,
            frames,
        }
    }
}

} // verus!
