//! Compilation and decoding of YM-2149 sound effect and song register streams.
pub mod ayfx;
pub mod chip;
pub mod csv;
pub mod delta;
pub mod error;
pub mod registers;
pub mod render;
pub mod roundtrip;
pub mod sequence;
pub mod text;
pub mod timing;
pub mod yfx;
pub mod ym;
pub mod ysg;

pub use delta::DeltaCompiler;
pub use registers::YmRegisters;
pub use sequence::{SfxFrame, SfxSequence, YmChannel, YmFrame, YmSequence};
pub use timing::{SystemHz, TimingConfig};
