//! Panel controller protocol: byte-level command framing, big-endian field
//! codecs, the waveform LUT model, and the IT8915 command layer.

pub mod it8915;
pub mod scsi;
pub mod serde;
pub mod waveform;
