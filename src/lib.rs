//! A discrete-time simulator of half-duplex transceivers sharing a broadcast medium.
//!
//! The modem is a byte-level state machine driven by ticks, the ether resolves
//! which of the transmitting modems is heard in a tick, and the network
//! simulator drives a set of ethers under one tick barrier.

pub mod dynamics;
pub mod ether;
pub mod modem;
pub mod names;
pub mod network;

pub use ether::EtherSimulator;
pub use modem::{AntennaState, WirelessModemFake};
pub use network::NetworkSimulator;
