use braket_devices::connectivity::all_to_all_edges;
use braket_devices::{
    AWSDevice, DecoherenceRates, DeviceError, GenericDevice, IonQAria1Device, IonQHarmonyDevice,
    OQCLucyDevice, UNIT_TIME,
};

fn t(x: f64) -> u64 {
    x.to_bits()
}

fn all_devices() -> Vec<AWSDevice> {
    vec![
        AWSDevice::from(IonQAria1Device::new()),
        AWSDevice::from(IonQHarmonyDevice::new()),
        AWSDevice::from(OQCLucyDevice::new()),
    ]
}

fn ionq_devices() -> Vec<AWSDevice> {
    vec![AWSDevice::from(IonQAria1Device::new()), AWSDevice::from(IonQHarmonyDevice::new())]
}

fn matrix(rates: &DecoherenceRates) -> [[f64; 3]; 3] {
    let mut m = [[0.0; 3]; 3];
    for d in &rates.damping {
        m[0][0] += f64::from_bits(*d);
    }
    for d in &rates.dephasing {
        m[2][2] += f64::from_bits(*d);
    }
    m
}

fn is_edge(edges: &[(usize, usize)], a: usize, b: usize) -> bool {
    edges.iter().any(|&(x, y)| (x, y) == (a, b) || (x, y) == (b, a))
}

#[test]
fn test_unit_time_is_one() {
    assert_eq!(f64::from_bits(UNIT_TIME), 1.0);
}

#[test]
fn test_default() {
    let a = IonQAria1Device::default();
    let b = IonQAria1Device::new();
    assert_eq!(a.single_qubit_gate_time("GPi", 3), b.single_qubit_gate_time("GPi", 3));
    let h = IonQHarmonyDevice::default();
    assert_eq!(h.number_qubits(), 11);
    let l = OQCLucyDevice::default();
    assert_eq!(l.number_qubits(), 8);
}

#[test]
fn test_device_name() {
    let names = [
        "arn:aws:braket:us-east-1::device/qpu/ionq/Aria-1",
        "arn:aws:braket:us-east-1::device/qpu/ionq/Harmony",
        "arn:aws:braket:eu-west-2::device/qpu/oqc/Lucy",
    ];
    for (device, name) in all_devices().into_iter().zip(names) {
        assert_eq!(device.name(), name);
    }
}

#[test]
fn test_device_region() {
    let regions = ["us-east-1", "us-east-1", "eu-west-2"];
    for (device, region) in all_devices().into_iter().zip(regions) {
        assert_eq!(device.region(), region);
    }
    assert_eq!(IonQHarmonyDevice::new().region(), "us-east-1");
    assert_eq!(IonQHarmonyDevice::new().name(), "arn:aws:braket:us-east-1::device/qpu/ionq/Harmony");
}

#[test]
fn test_single_qubit_gate_time_ionq() {
    for device in ionq_devices() {
        assert_eq!(device.single_qubit_gate_time("RotateZ", 0), Some(t(1.0)));
        assert_eq!(device.single_qubit_gate_time("GPi", 0), Some(t(1.0)));
        assert_eq!(device.single_qubit_gate_time("GPi2", 0), Some(t(1.0)));
    }
}

#[test]
fn test_single_qubit_gate_time_oqc() {
    let device = AWSDevice::from(OQCLucyDevice::new());
    assert_eq!(device.single_qubit_gate_time("RotateZ", 0), Some(t(1.0)));
    assert_eq!(device.single_qubit_gate_time("SqrtPauliX", 0), Some(t(1.0)));
    assert_eq!(device.single_qubit_gate_time("PauliX", 0), Some(t(1.0)));
}

#[test]
fn test_fresh_single_qubit_times_everywhere() {
    for device in all_devices() {
        for gate in device.single_qubit_gate_names() {
            for q in 0..device.number_qubits() {
                assert_eq!(device.single_qubit_gate_time(&gate, q), Some(t(1.0)));
            }
            assert_eq!(device.single_qubit_gate_time(&gate, device.number_qubits()), None);
        }
        assert_eq!(device.single_qubit_gate_time("PauliZ", 0), None);
    }
}

#[test]
fn test_fresh_two_qubit_times_both_directions() {
    for device in all_devices() {
        let edges = device.two_qubit_edges();
        for gate in device.two_qubit_gate_names() {
            for &(a, b) in &edges {
                assert_eq!(device.two_qubit_gate_time(&gate, a, b), Some(t(1.0)));
                assert_eq!(device.two_qubit_gate_time(&gate, b, a), Some(t(1.0)));
            }
        }
    }
}

#[test]
fn test_set_single_qubit_gate_time_ionq() {
    for mut device in ionq_devices() {
        for gate in ["RotateZ", "GPi", "GPi2"] {
            assert!(device.set_single_qubit_gate_time(gate, 0, t(0.5)).is_ok());
            assert_eq!(device.single_qubit_gate_time(gate, 0).unwrap(), t(0.5));
            assert!(device.set_single_qubit_gate_time(gate, 0, t(0.2)).is_ok());
            assert_eq!(device.single_qubit_gate_time(gate, 0).unwrap(), t(0.2));
        }
        assert!(device.set_single_qubit_gate_time("PauliZ", 34, t(0.0)).is_err());
    }
}

#[test]
fn test_set_single_qubit_gate_time_oqc() {
    let mut device = AWSDevice::from(OQCLucyDevice::new());
    for gate in ["RotateZ", "SqrtPauliX", "PauliX"] {
        assert!(device.set_single_qubit_gate_time(gate, 0, t(0.5)).is_ok());
        assert_eq!(device.single_qubit_gate_time(gate, 0).unwrap(), t(0.5));
        assert!(device.set_single_qubit_gate_time(gate, 0, t(0.2)).is_ok());
        assert_eq!(device.single_qubit_gate_time(gate, 0).unwrap(), t(0.2));
    }
    assert!(device.set_single_qubit_gate_time("PauliZ", 34, t(0.0)).is_err());
}

#[test]
fn test_set_single_qubit_gate_time_out_of_range() {
    let mut device = IonQHarmonyDevice::new();
    assert_eq!(
        device.set_single_qubit_gate_time("RotateZ", 11, t(0.3)),
        Err(DeviceError::QubitOutOfRange { qubit: 11, number_qubits: 11 })
    );
    assert!(device.set_single_qubit_gate_time("RotateZ", 10, t(0.3)).is_ok());
    assert_eq!(device.single_qubit_gate_time("RotateZ", 10), Some(t(0.3)));
}

#[test]
fn test_set_undeclared_gate_is_stored() {
    let mut device = AWSDevice::from(IonQHarmonyDevice::new());
    assert!(device.set_single_qubit_gate_time("PauliZ", 2, t(0.7)).is_ok());
    assert_eq!(device.single_qubit_gate_time("PauliZ", 2), Some(t(0.7)));
    assert_eq!(device.single_qubit_gate_time("PauliZ", 3), None);
}

#[test]
fn test_single_qubit_gate_names_ionq() {
    for device in ionq_devices() {
        assert_eq!(
            device.single_qubit_gate_names(),
            vec!["RotateZ".to_string(), "GPi".to_string(), "GPi2".to_string(),]
        );
    }
}

#[test]
fn test_single_qubit_gate_names_oqc() {
    let device = AWSDevice::from(OQCLucyDevice::new());
    assert_eq!(
        device.single_qubit_gate_names(),
        vec!["RotateZ".to_string(), "SqrtPauliX".to_string(), "PauliX".to_string(),]
    );
}

#[test]
fn test_two_qubit_gate_time_ionq() {
    for device in ionq_devices() {
        assert_eq!(device.two_qubit_gate_time("MolmerSorensenXX", 0, 1), Some(t(1.0)));
    }
}

#[test]
fn test_two_qubit_gate_time_oqc() {
    let device = AWSDevice::from(OQCLucyDevice::new());
    assert_eq!(device.two_qubit_gate_time("MolmerSorensenXX", 0, 1), None);
}

#[test]
fn test_set_two_qubit_gate_time_ionq() {
    for mut device in ionq_devices() {
        assert!(device.set_two_qubit_gate_time("MolmerSorensenXX", 0, 1, t(0.5)).is_ok());
        assert_eq!(device.two_qubit_gate_time("MolmerSorensenXX", 0, 1).unwrap(), t(0.5));
        assert!(device.set_two_qubit_gate_time("MolmerSorensenXX", 0, 1, t(0.2)).is_ok());
        assert_eq!(device.two_qubit_gate_time("MolmerSorensenXX", 0, 1).unwrap(), t(0.2));
        assert!(device.set_two_qubit_gate_time("MolmerSorensenXX", 0, 30, t(0.3)).is_err());
        assert!(device.set_two_qubit_gate_time("MolmerSorensenXX", 30, 3, t(0.4)).is_err());
    }
}

#[test]
fn test_set_two_qubit_gate_time_oqc() {
    let mut device = AWSDevice::from(OQCLucyDevice::new());
    assert!(device.set_two_qubit_gate_time("MolmerSorensenXX", 0, 30, t(0.3)).is_err());
    assert!(device.set_two_qubit_gate_time("MolmerSorensenXX", 30, 3, t(0.4)).is_err());
}

#[test]
fn test_set_two_qubit_gate_time_errors() {
    let mut device = AWSDevice::from(OQCLucyDevice::new());
    assert_eq!(
        device.set_two_qubit_gate_time("CNOT", 0, 30, t(0.3)),
        Err(DeviceError::QubitOutOfRange { qubit: 30, number_qubits: 8 })
    );
    assert_eq!(
        device.set_two_qubit_gate_time("CNOT", 30, 3, t(0.3)),
        Err(DeviceError::QubitOutOfRange { qubit: 30, number_qubits: 8 })
    );
    assert_eq!(
        device.set_two_qubit_gate_time("CNOT", 0, 4, t(0.8)),
        Err(DeviceError::EdgeNotConnected { control: 0, target: 4 })
    );
    assert_eq!(device.two_qubit_gate_time("CNOT", 0, 4), None);
    assert!(device.set_two_qubit_gate_time("CNOT", 7, 0, t(0.8)).is_ok());
    assert_eq!(device.two_qubit_gate_time("CNOT", 7, 0), Some(t(0.8)));
    assert_eq!(device.two_qubit_gate_time("CNOT", 0, 7), None);
}

#[test]
fn test_two_qubit_time_is_directional() {
    let mut device = IonQHarmonyDevice::new();
    assert!(device.set_two_qubit_gate_time("MolmerSorensenXX", 2, 5, t(0.25)).is_ok());
    assert_eq!(device.two_qubit_gate_time("MolmerSorensenXX", 2, 5), Some(t(0.25)));
    assert_eq!(device.two_qubit_gate_time("MolmerSorensenXX", 5, 2), Some(t(1.0)));
    assert_eq!(device.two_qubit_gate_time("MolmerSorensenXX", 3, 3), None);
    assert_eq!(
        device.set_two_qubit_gate_time("MolmerSorensenXX", 3, 3, t(0.1)),
        Err(DeviceError::EdgeNotConnected { control: 3, target: 3 })
    );
}

#[test]
fn test_two_qubit_gate_names_ionq() {
    for device in ionq_devices() {
        assert_eq!(device.two_qubit_gate_names(), vec!["MolmerSorensenXX".to_string()]);
    }
}

#[test]
fn test_two_qubit_gate_names_oqc() {
    let device = AWSDevice::from(OQCLucyDevice::new());
    assert_eq!(device.two_qubit_gate_names(), Vec::<String>::new());
}

#[test]
fn test_three_qubit_gate_time() {
    for device in all_devices() {
        assert_eq!(device.three_qubit_gate_time("ControlledControlledPauliZ", 0, 1, 2), None);
    }
    assert_eq!(IonQHarmonyDevice::new().three_qubit_gate_time("Toffoli", 0, 1, 2), None);
}

#[test]
fn test_multi_qubit_gate_time() {
    for device in all_devices() {
        assert_eq!(device.multi_qubit_gate_time("MultiQubitZZ", &[0, 1, 2]), None);
        assert_eq!(device.multi_qubit_gate_time("MultiQubitMS", &[]), None);
    }
}

#[test]
fn test_multi_qubit_gate_names() {
    for device in all_devices() {
        assert!(device.multi_qubit_gate_names().is_empty());
    }
}

#[test]
fn test_qubit_decoherence_rates() {
    for device in all_devices() {
        assert!(device.qubit_decoherence_rates(0).is_none());
    }
}

#[test]
fn test_number_qubits() {
    let counts = [25, 11, 8];
    for (device, n) in all_devices().into_iter().zip(counts) {
        assert_eq!(device.number_qubits(), n);
    }
}

#[test]
fn test_add_damping() {
    for mut device in all_devices() {
        device.add_damping(0, t(0.5)).unwrap();
        let rates = device.qubit_decoherence_rates(0).unwrap();
        assert_eq!(matrix(&rates), [[0.5, 0.0, 0.0], [0.0, 0.0, 0.0], [0.0, 0.0, 0.0]]);
        assert!(device.add_damping(200, t(0.2)).is_err());
    }
}

#[test]
fn test_add_dephasing() {
    for mut device in all_devices() {
        device.add_dephasing(0, t(0.5)).unwrap();
        let rates = device.qubit_decoherence_rates(0).unwrap();
        assert_eq!(matrix(&rates), [[0.0, 0.0, 0.0], [0.0, 0.0, 0.0], [0.0, 0.0, 0.5]]);
        assert!(device.add_dephasing(200, t(0.2)).is_err());
    }
}

#[test]
fn test_damping_then_dephasing() {
    for mut device in all_devices() {
        device.add_damping(1, t(0.5)).unwrap();
        device.add_dephasing(1, t(0.2)).unwrap();
        let rates = device.qubit_decoherence_rates(1).unwrap();
        assert_eq!(rates.damping, vec![t(0.5)]);
        assert_eq!(rates.dephasing, vec![t(0.2)]);
        assert_eq!(matrix(&rates), [[0.5, 0.0, 0.0], [0.0, 0.0, 0.0], [0.0, 0.0, 0.2]]);
        assert!(device.qubit_decoherence_rates(0).is_none());
    }
}

#[test]
fn test_noise_accumulates() {
    let mut device = OQCLucyDevice::new();
    device.add_damping(7, t(0.25)).unwrap();
    device.add_damping(7, t(0.5)).unwrap();
    let rates = device.qubit_decoherence_rates(7).unwrap();
    assert_eq!(matrix(&rates)[0][0], 0.75);
    assert_eq!(
        device.add_dephasing(8, t(0.1)),
        Err(DeviceError::QubitOutOfRange { qubit: 8, number_qubits: 8 })
    );
}

#[test]
fn test_longest_chain() {
    for device in all_devices() {
        let chains = device.longest_chains();
        assert!(!chains.is_empty());
        let edges = device.two_qubit_edges();
        for chain in &chains {
            assert_eq!(chain.len(), device.number_qubits());
            for w in chain.windows(2) {
                assert!(is_edge(&edges, w[0], w[1]));
            }
        }
    }
}

#[test]
fn test_longest_closed_chain() {
    for device in all_devices() {
        let edges = device.two_qubit_edges();
        let chains = device.longest_closed_chains();
        assert!(!chains.is_empty());
        for chain in &chains {
            for w in chain.windows(2) {
                assert!(is_edge(&edges, w[0], w[1]));
            }
            assert!(is_edge(&edges, chain[chain.len() - 1], chain[0]));
        }
    }
}

#[test]
fn test_edges() {
    for device in ionq_devices() {
        assert!(!device.two_qubit_edges().is_empty());
    }
    assert_eq!(AWSDevice::from(IonQHarmonyDevice::new()).two_qubit_edges().len(), 55);
    assert_eq!(AWSDevice::from(IonQAria1Device::new()).two_qubit_edges().len(), 300);
    assert_eq!(
        OQCLucyDevice::new().two_qubit_edges(),
        vec![(0, 1), (1, 2), (2, 3), (3, 4), (4, 5), (5, 6), (6, 7), (7, 0)]
    );
}

#[test]
fn test_all_to_all_edges_order() {
    assert_eq!(all_to_all_edges(4), vec![(0, 1), (0, 2), (0, 3), (1, 2), (1, 3), (2, 3)]);
    assert!(all_to_all_edges(1).is_empty());
    assert!(all_to_all_edges(0).is_empty());
}

fn check_reduction(device: &AWSDevice, generic: &GenericDevice) {
    assert_eq!(device.number_qubits(), generic.number_qubits());
    let mut a = device.single_qubit_gate_names();
    a.sort();
    let mut b = generic.single_qubit_gate_names();
    b.sort();
    assert_eq!(a, b);
    for i in 0..device.number_qubits() {
        for gate in device.single_qubit_gate_names() {
            assert_eq!(
                device.single_qubit_gate_time(&gate, i),
                generic.single_qubit_gate_time(&gate, i)
            );
        }
        let x = device.qubit_decoherence_rates(i).map(|r| (r.damping, r.dephasing));
        let y = generic.qubit_decoherence_rates(i).map(|r| (r.damping, r.dephasing));
        assert_eq!(x, y);
    }
    let mut a = device.two_qubit_gate_names();
    a.sort();
    let mut b = generic.two_qubit_gate_names();
    b.sort();
    assert_eq!(a, b);
    for gate in device.two_qubit_gate_names() {
        for i in 0..device.number_qubits() {
            for j in 0..device.number_qubits() {
                assert_eq!(
                    device.two_qubit_gate_time(&gate, i, j),
                    generic.two_qubit_gate_time(&gate, i, j)
                );
            }
        }
    }
    assert_eq!(device.multi_qubit_gate_names(), generic.multi_qubit_gate_names());
    assert_eq!(device.two_qubit_edges(), generic.two_qubit_edges());
}

#[test]
fn test_to_generic_device() {
    for device in ionq_devices() {
        let created_generic = device.to_generic_device().unwrap();
        check_reduction(&device, &created_generic);
    }
}

#[test]
fn test_reduction_after_updates() {
    for mut device in all_devices() {
        device.set_single_qubit_gate_time("RotateZ", 3, t(0.125)).unwrap();
        device.set_single_qubit_gate_time("PauliZ", 3, t(0.5)).unwrap();
        device.add_damping(2, t(0.5)).unwrap();
        device.add_dephasing(2, t(0.2)).unwrap();
        device.add_dephasing(5, t(0.3)).unwrap();
        let _ = device.set_two_qubit_gate_time("MolmerSorensenXX", 1, 2, t(0.75));
        let generic = device.to_generic_device().unwrap();
        check_reduction(&device, &generic);
        assert_eq!(generic.single_qubit_gate_time("RotateZ", 3), Some(t(0.125)));
        assert_eq!(generic.single_qubit_gate_time("PauliZ", 3), None);
        assert_eq!(generic.qubit_decoherence_rates(2).unwrap().dephasing, vec![t(0.2)]);
    }
}

#[test]
fn test_generic_device_checks_range_only() {
    let mut generic = GenericDevice::new(3, vec!["RotateX".to_string()], vec![], vec![(0, 1)]);
    assert!(generic.set_two_qubit_gate_time("CNOT", 0, 2, t(1.5)).is_ok());
    assert_eq!(generic.two_qubit_gate_time("CNOT", 0, 2), Some(t(1.5)));
    assert_eq!(
        generic.set_single_qubit_gate_time("RotateX", 3, t(1.0)),
        Err(DeviceError::QubitOutOfRange { qubit: 3, number_qubits: 3 })
    );
    let rates = DecoherenceRates { damping: vec![t(0.1)], dephasing: vec![] };
    assert!(generic.set_qubit_decoherence_rates(2, rates).is_ok());
    assert_eq!(generic.qubit_decoherence_rates(2).unwrap().damping, vec![t(0.1)]);
    assert!(generic
        .set_qubit_decoherence_rates(3, DecoherenceRates { damping: vec![], dephasing: vec![] })
        .is_err());
}
