//! A Zigbee CO2 sensor: the decisions its firmware takes, with proofs.
//!
//! Everything here is a function of plain values. What talks to the UART, the
//! LED, the flash chip or the Zigbee stack hands values in and carries out
//! what comes back.
pub mod flash;
pub mod led;
pub mod logger;
pub mod monitor;
pub mod record;
pub mod restart;
pub mod ring;
pub mod s8;
pub mod session;
pub mod version;
pub mod zigbee;
