//! The wire protocol of Moondrop's DSP USB-C cables: frames, bands, command sequences, the choice
//! of the cable, and the rules by which it is read and written.
//!
//! The library does no I/O. A platform implements `transport::Transport`, hands an open device to
//! `transport::Cable`, and calls `hid` or `dsp`. Finding and opening the device is done by
//! `discovery` and `opening`, which say what to try and are told what came of it. `wire` states,
//! byte by byte, what each operation sends and how each reply reads.

pub mod band;
pub mod bytes;
pub mod discovery;
pub mod dsp;
pub mod frame;
pub mod hid;
pub mod ledger;
pub mod opening;
pub mod profile;
pub mod sequence;
pub mod text;
pub mod transport;
pub mod wire;
