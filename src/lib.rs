//! Decoder for e-ink waveform tables: the file header, the checksummed block index that
//! locates each (mode, temperature range) block, and the run-length encoding that expands a
//! block into phase matrices. Also the plain-value parts of the reMarkable 2 framebuffer and
//! panel temperature sensor interfaces.

pub mod byte_reader;
pub mod checksum;
pub mod fb;
pub mod fb_sys;
pub mod phase;
pub mod temperature;
pub mod waveform;
