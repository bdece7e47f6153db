//! Host-side harness for the Aegis FPGA: the JTAG test access port that stands
//! in for silicon, the remote_bitbang byte protocol that drives it, and the
//! test bench rules of the fabric simulator.

pub mod bits;
pub mod jtag;
pub mod number;
pub mod outcome;
pub mod pins;
pub mod rbb;
pub mod scan;
pub mod session;
pub mod states;
pub mod stimulus;
pub mod waveform;
pub mod wire;
