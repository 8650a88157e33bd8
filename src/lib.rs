//! Waveform acquisition for a SCPI-controlled digital oscilloscope: the
//! legality rules of the acquisition state, the block-format decoder, the
//! chunk plan for long records and the bookkeeping of captured samples.

pub mod ascii;
pub mod trigger;
pub mod waveform;
pub mod block;
pub mod series;
pub mod chunks;
