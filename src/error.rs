//! Errors reported by the device descriptors.
use vstd::prelude::*;

verus! {

/// What went wrong in a capability update or a reduction.
#[derive(Debug, Clone, Copy, PartialEq, Eq, Structural)]
pub enum DeviceError {
    /// A qubit index is not below the device's qubit count.
    QubitOutOfRange { qubit: usize, number_qubits: usize },
    /// The two qubits are not coupled in the device's connectivity graph.
    EdgeNotConnected { control: usize, target: usize },
    /// The generic snapshot refused a copied entry; holds the first refusal.
    ConversionFailure { qubit: usize, number_qubits: usize },
}

} // verus!
