//! Mirrors a desktop screen region to an e-ink panel driven by an IT8915
//! USB controller: converts captured BGRA frames to the panel's mono or
//! 16-level encoding, diffs row-by-row against what is already loaded,
//! uploads only the changed strip, and schedules partial and full refreshes.

pub mod control;
pub mod driver;
pub mod error;
pub mod image;
pub mod imgproc;
pub mod run_mode;
pub mod source;
