use vstd::prelude::*;

verus! {

/// Supported playback refresh rates for YM-2149 sound sequences.
#[derive(Debug, Clone, Copy, PartialEq, Eq, Structural)]
pub enum SystemHz {
    Hz50,
    Hz60,
    Custom(u32),
}

impl SystemHz {
    /// The refresh rate in frames per second.
    pub open spec fn hz(self) -> u32 {
        match self {
            SystemHz::Hz50 => 50,
            SystemHz::Hz60 => 60,
            SystemHz::Custom(hz) => hz,
        }
    }

    pub fn hz_value(&self) -> (r: u32)
        ensures
            r == self.hz(),
    {
        match self {
            SystemHz::Hz50 => 50,
            SystemHz::Hz60 => 60,
            SystemHz::Custom(hz) => *hz,
        }
    }
}

impl Default for SystemHz {
    fn default() -> (r: Self)
        ensures
            r == SystemHz::Hz50,
    {
        SystemHz::Hz50
    }
}

/// Timing configuration for YM-2149 sound generation and playback.
#[derive(Debug, Clone, Copy, PartialEq, Eq, Structural)]
pub struct TimingConfig {
    pub master_clock_hz: u32,
    pub frame_rate: SystemHz,
}

impl Default for TimingConfig {
    /// The standard 2.0 MHz YM-2149 clock at 50 Hz.
    fn default() -> (r: Self)
        ensures
            r == (TimingConfig { master_clock_hz: 2_000_000, frame_rate: SystemHz::Hz50 }),
    {
        TimingConfig { master_clock_hz: 2_000_000, frame_rate: SystemHz::Hz50 }
    }
}

} // verus!
