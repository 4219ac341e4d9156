//! A verified simulation of a rotor cipher machine: plugboard, rotors with
//! ripple-carry stepping, and a reflector.
//!
//! Design decisions:
//! - A machine has exactly three rotor slots; rotors are listed rightmost
//!   first.
//! - Stepping is simple propagation: the rightmost rotor turns on every key
//!   press, and a rotor turns when its right neighbour turns and lands on one
//!   of its notch positions. The double-step anomaly is not modelled.
//! - When enciphering text, characters other than letters are copied
//!   unchanged and do not turn the rotors.
//! - Configuration is checked in a fixed order and fails on the first fault.

pub mod error;
pub mod letter;
pub mod catalog;
pub mod plugboard;
pub mod rotor;
pub mod machine;
pub mod config;
pub mod text;

pub use catalog::{ReflectorId, RotorId};
pub use error::EnigmaError;
pub use letter::Letter;
pub use machine::{EnigmaMachine, MachineState, Message};
pub use plugboard::Plugboard;
pub use rotor::Rotor;
pub use text::EncipherArgs;
