//! Capability descriptors for a fixed catalog of quantum processors.
//!
//! Gate times and noise contributions are carried as the bit patterns of
//! IEEE-754 double-precision numbers (`f64::to_bits`), so that every value
//! is stored and copied exactly.
pub mod connectivity;
pub mod devices;
pub mod error;
pub mod gate_times;
pub mod generic;
pub mod noise;

pub use devices::{AWSDevice, IonQAria1Device, IonQHarmonyDevice, OQCLucyDevice, UNIT_TIME};
pub use error::DeviceError;
pub use generic::GenericDevice;
pub use noise::DecoherenceRates;
