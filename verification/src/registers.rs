use vstd::prelude::*;

verus! {

/// The 14 programmable registers of the YM-2149 sound generator.
#[derive(Debug, Clone, Copy, PartialEq, Eq, Structural)]
pub struct YmRegisters {
    pub fine_tone_a: u8,
    pub coarse_tone_a: u8,
    pub fine_tone_b: u8,
    pub coarse_tone_b: u8,
    pub fine_tone_c: u8,
    pub coarse_tone_c: u8,
    pub noise_period: u8,
    pub mixer_control: u8,
    pub volume_a: u8,
    pub volume_b: u8,
    pub volume_c: u8,
    pub env_period_fine: u8,
    pub env_period_coarse: u8,
    pub env_shape_cycle: u8,
}

/// Every register at zero.
pub open spec fn cleared_registers() -> YmRegisters {
    YmRegisters {
        fine_tone_a: 0,
        coarse_tone_a: 0,
        fine_tone_b: 0,
        coarse_tone_b: 0,
        fine_tone_c: 0,
        coarse_tone_c: 0,
        noise_period: 0,
        mixer_control: 0,
        volume_a: 0,
        volume_b: 0,
        volume_c: 0,
        env_period_fine: 0,
        env_period_coarse: 0,
        env_shape_cycle: 0,
    }
}

impl YmRegisters {
    pub fn new() -> (r: Self)
        ensures
            r == cleared_registers(),
    {
        YmRegisters::default()
    }
}

impl Default for YmRegisters {
    fn default() -> (r: Self)
        ensures
            r == cleared_registers(),
    {
        YmRegisters {
            fine_tone_a: 0,
            coarse_tone_a: 0,
            fine_tone_b: 0,
            coarse_tone_b: 0,
            fine_tone_c: 0,
            coarse_tone_c: 0,
            noise_period: 0,
            mixer_control: 0,
            volume_a: 0,
            volume_b: 0,
            volume_c: 0,
            env_period_fine: 0,
            env_period_coarse: 0,
            env_shape_cycle: 0,
        }
    }
}

} // verus!
