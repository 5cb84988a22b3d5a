use qubit_sim::entropy::EntropySource;
use qubit_sim::error::QuantumError;
use qubit_sim::fixed::{mul_fixed, rescale_wide, SCALE};
use qubit_sim::matrix::GateMatrix;
use qubit_sim::qbit::{is_power_of_two, Qubit};

/// The fixed-point number nearest to `x`.
fn fixed(x: f64) -> i64 {
    (x * SCALE as f64).round() as i64
}

fn matrix(rows: Vec<Vec<f64>>) -> GateMatrix {
    GateMatrix::from_rows(rows.iter().map(|row| row.iter().map(|x| fixed(*x)).collect()).collect())
        .unwrap()
}

#[test]
fn qbit_test_qubit2() {
    let q = Qubit::new(2);
    println!("{:?}", q);
    assert_eq!(*q.state(), vec![fixed(1.0), fixed(0.0)]);
}

#[test]
fn qbit_test_new_qubit4() {
    let q = Qubit::new(4);
    assert_eq!(*q.state(), vec![fixed(1.0), fixed(0.0), fixed(0.0), fixed(0.0)]);
}

#[test]
fn qbit_test_measure2() {
    let q = Qubit::new(2);
    let m = q.measure(&mut EntropySource::from_seed(2));
    assert!(m == 0 || m == 1);
}

#[test]
fn qbit_test_probability2() {
    let q = Qubit::from_amplitudes(vec![fixed(0.6), fixed(0.8)]).unwrap();
    let prob = q.probability();
    assert_eq!(prob, fixed(0.36));
}

#[test]
fn qbit_test_apply_matrix2() {
    let mut q = Qubit::new(2);
    let matrix = matrix(vec![vec![0.0, 1.0], vec![1.0, 0.0]]);
    q.apply_matrix(&matrix).unwrap();
    assert_eq!(*q.state(), vec![fixed(0.0), fixed(1.0)]);
}

#[test]
fn qbit_test_apply_matrix4() {
    let mut q = Qubit::new(4);
    let matrix = matrix(vec![
        vec![1.0, 0.0, 0.0, 0.0],
        vec![0.0, 1.0, 0.0, 0.0],
        vec![0.0, 0.0, 1.0, 0.0],
        vec![0.0, 0.0, 0.0, 1.0],
    ]);
    q.apply_matrix(&matrix).unwrap();
    assert_eq!(*q.state(), vec![fixed(1.0), fixed(0.0), fixed(0.0), fixed(0.0)]);
}

#[test]
fn test_split() {
    let q = Qubit::new(4);
    let (q0, q1) = q.split();
    assert_eq!(*q0.state(), vec![fixed(1.0), fixed(0.0)]);
    assert_eq!(*q1.state(), vec![fixed(0.0), fixed(0.0)]);
}

#[test]
fn probability_is_square_of_first_amplitude_only() {
    let q = Qubit::from_amplitudes(vec![fixed(0.6), fixed(0.8)]).unwrap();
    assert_eq!(q.probability(), 3_600_000_000_000);
    assert!(q.probability() != SCALE);
    let q = Qubit::from_amplitudes(vec![fixed(-0.5), fixed(0.5), fixed(0.5), fixed(0.5)])
        .unwrap();
    assert_eq!(q.probability(), fixed(0.25));
    assert_eq!(Qubit::new(8).probability(), SCALE);
    assert_eq!(Qubit::from_amplitudes(vec![0, SCALE]).unwrap().probability(), 0);
}

#[test]
fn products_round_to_nearest_away_from_zero() {
    assert_eq!(mul_fixed(fixed(0.5), fixed(0.5)), fixed(0.25));
    assert_eq!(mul_fixed(SCALE, -SCALE), -SCALE);
    // 1e-13 * 0.5 lies halfway between two grid points.
    assert_eq!(mul_fixed(1, fixed(0.5)), 1);
    assert_eq!(mul_fixed(-1, fixed(0.5)), -1);
    assert_eq!(mul_fixed(1, fixed(0.5) - 1), 0);
    assert_eq!(mul_fixed(-1, fixed(0.5) - 1), 0);
    assert_eq!(mul_fixed(3, fixed(0.5)), 2);
    assert_eq!(rescale_wide(0), 0);
    assert_eq!(rescale_wide(4_999_999_999_999), 0);
    assert_eq!(rescale_wide(5_000_000_000_000), 1);
    assert_eq!(rescale_wide(-5_000_000_000_000), -1);
    assert_eq!(rescale_wide(-4_999_999_999_999), 0);
    assert_eq!(rescale_wide(25_000_000_000_000), 3);
    assert_eq!(rescale_wide((SCALE as i128) * (SCALE as i128)), SCALE as i128);
}

#[test]
fn tensor_product_of_ground_states_is_ground_state() {
    let joint = Qubit::new(2).tensor_product(&Qubit::new(2));
    assert_eq!(*joint.state(), vec![fixed(1.0), fixed(0.0), fixed(0.0), fixed(0.0)]);
}

#[test]
fn tensor_product_places_products_by_index() {
    let a = Qubit::from_amplitudes(vec![fixed(0.6), fixed(0.8)]).unwrap();
    let b = Qubit::from_amplitudes(vec![fixed(0.5), fixed(-0.25), fixed(0.1), fixed(1.0)])
        .unwrap();
    let joint = a.tensor_product(&b);
    assert_eq!(joint.dim(), 8);
    assert_eq!(
        *joint.state(),
        vec![
            fixed(0.3),
            fixed(-0.15),
            fixed(0.06),
            fixed(0.6),
            fixed(0.4),
            fixed(-0.2),
            fixed(0.08),
            fixed(0.8),
        ]
    );
    for i in 0..2 {
        for j in 0..4 {
            assert_eq!(joint.state()[i * 4 + j], mul_fixed(a.state()[i], b.state()[j]));
        }
    }
    // The parts are left as they were.
    assert_eq!(*a.state(), vec![fixed(0.6), fixed(0.8)]);
}

#[test]
fn split_parts_amplitudes_into_halves() {
    let q = Qubit::from_amplitudes(vec![1, 2, 3, 4, 5, 6, 7, 8]).unwrap();
    let (low, high) = q.split();
    assert_eq!(*low.state(), vec![1, 2, 3, 4]);
    assert_eq!(*high.state(), vec![5, 6, 7, 8]);
    let (low, high) = Qubit::from_amplitudes(vec![-3, 9]).unwrap().split();
    assert_eq!(*low.state(), vec![-3]);
    assert_eq!(*high.state(), vec![9]);
}

#[test]
fn split_of_tensor_gives_multiples_of_second_register() {
    // Two ground states do not come back: the second half is empty of
    // amplitude.
    let (low, high) = Qubit::new(2).tensor_product(&Qubit::new(2)).split();
    assert_eq!(*low.state(), vec![SCALE, 0]);
    assert_eq!(*high.state(), vec![0, 0]);

    // They come back when the four products are the four amplitudes.
    let a = Qubit::from_amplitudes(vec![SCALE, SCALE]).unwrap();
    let b = Qubit::from_amplitudes(vec![SCALE, SCALE]).unwrap();
    let (low, high) = a.tensor_product(&b).split();
    assert_eq!(low.state(), a.state());
    assert_eq!(high.state(), b.state());

    let a = Qubit::from_amplitudes(vec![fixed(0.5), SCALE]).unwrap();
    let b = Qubit::from_amplitudes(vec![SCALE, fixed(0.25)]).unwrap();
    let (low, high) = a.tensor_product(&b).split();
    assert_eq!(*low.state(), vec![fixed(0.5), fixed(0.125)]);
    assert_eq!(*high.state(), vec![SCALE, fixed(0.25)]);
}

#[test]
fn halves_of_joint_register_are_multiples_of_second_part() {
    let a = Qubit::from_amplitudes(vec![fixed(0.6), fixed(-0.8)]).unwrap();
    let b = Qubit::from_amplitudes(vec![fixed(0.5), fixed(0.1), fixed(-0.3), SCALE]).unwrap();
    let (low, high) = a.tensor_product(&b).split();
    assert_eq!(*low.state(), vec![fixed(0.3), fixed(0.06), fixed(-0.18), fixed(0.6)]);
    assert_eq!(*high.state(), vec![fixed(-0.4), fixed(-0.08), fixed(0.24), fixed(-0.8)]);
}

#[test]
fn apply_matrix_multiplies_row_vector_by_matrix() {
    let mut q = Qubit::from_amplitudes(vec![fixed(0.5), fixed(-0.25)]).unwrap();
    let m = matrix(vec![vec![0.5, 1.0], vec![0.2, -0.4]]);
    q.apply_matrix(&m).unwrap();
    // [0.5*0.5 + (-0.25)*0.2, 0.5*1.0 + (-0.25)*(-0.4)]
    assert_eq!(*q.state(), vec![fixed(0.2), fixed(0.6)]);
}

#[test]
fn apply_matrix_rounds_each_sum_once() {
    let mut q = Qubit::from_amplitudes(vec![1, 1]).unwrap();
    // Each product is a quarter of a grid unit: alone it would round to 0,
    // the two together reach half a unit and round to 1.
    let m = GateMatrix::from_rows(vec![vec![fixed(0.25), 0], vec![fixed(0.25), 0]]).unwrap();
    q.apply_matrix(&m).unwrap();
    assert_eq!(*q.state(), vec![1, 0]);
}

#[test]
fn apply_matrix_refuses_other_dimension() {
    let mut q = Qubit::new(2);
    let m = matrix(vec![
        vec![1.0, 0.0, 0.0, 0.0],
        vec![0.0, 1.0, 0.0, 0.0],
        vec![0.0, 0.0, 1.0, 0.0],
        vec![0.0, 0.0, 0.0, 1.0],
    ]);
    assert_eq!(q.apply_matrix(&m), Err(QuantumError::DimensionMismatch));
    assert_eq!(*q.state(), vec![SCALE, 0]);
}

#[test]
fn apply_matrix_refuses_amplitude_beyond_one() {
    let mut q = Qubit::from_amplitudes(vec![SCALE, SCALE]).unwrap();
    let m = matrix(vec![vec![1.0, 0.0], vec![1.0, 0.0]]);
    assert_eq!(q.apply_matrix(&m), Err(QuantumError::InvalidProbability));
    assert_eq!(*q.state(), vec![SCALE, SCALE]);

    // The largest amplitude that is still accepted.
    let mut q = Qubit::from_amplitudes(vec![fixed(0.5), fixed(0.5)]).unwrap();
    assert_eq!(q.apply_matrix(&m), Ok(()));
    assert_eq!(*q.state(), vec![SCALE, 0]);
}

#[test]
fn from_amplitudes_checks_length_and_range() {
    assert_eq!(Qubit::from_amplitudes(vec![]).err(), Some(QuantumError::DimensionMismatch));
    assert_eq!(
        Qubit::from_amplitudes(vec![0, 0, SCALE]).err(),
        Some(QuantumError::DimensionMismatch)
    );
    assert_eq!(
        Qubit::from_amplitudes(vec![0, SCALE + 1]).err(),
        Some(QuantumError::InvalidProbability)
    );
    assert_eq!(
        Qubit::from_amplitudes(vec![-SCALE - 1, 0]).err(),
        Some(QuantumError::InvalidProbability)
    );
    // The length is looked at first.
    assert_eq!(
        Qubit::from_amplitudes(vec![SCALE + 1, 0, 0]).err(),
        Some(QuantumError::DimensionMismatch)
    );
    let q = Qubit::from_amplitudes(vec![-SCALE, SCALE, 0, 5]).unwrap();
    assert_eq!(*q.state(), vec![-SCALE, SCALE, 0, 5]);
    assert_eq!(q.dim(), 4);
    assert_eq!(Qubit::from_amplitudes(vec![7]).unwrap().dim(), 1);
}

#[test]
fn from_rows_checks_shape_and_range() {
    assert_eq!(
        GateMatrix::from_rows(vec![vec![0, 0], vec![0]]).err(),
        Some(QuantumError::DimensionMismatch)
    );
    assert_eq!(
        GateMatrix::from_rows(vec![vec![0, 0, 0], vec![0, 0, 0]]).err(),
        Some(QuantumError::DimensionMismatch)
    );
    assert_eq!(
        GateMatrix::from_rows(vec![vec![0, SCALE + 1], vec![0, 0]]).err(),
        Some(QuantumError::InvalidProbability)
    );
    assert_eq!(
        GateMatrix::from_rows(vec![vec![0, SCALE + 1], vec![0]]).err(),
        Some(QuantumError::DimensionMismatch)
    );
    let m = GateMatrix::from_rows(vec![vec![1, 2, 3], vec![4, 5, 6], vec![7, 8, -SCALE]]).unwrap();
    assert_eq!(m.dim(), 3);
    assert_eq!(m.entry(0, 2), 3);
    assert_eq!(m.entry(1, 0), 4);
    assert_eq!(m.entry(2, 2), -SCALE);
    let copy = m.clone();
    assert_eq!(copy.dim(), 3);
    assert_eq!(copy.entry(2, 1), 8);
    assert_eq!(GateMatrix::from_rows(vec![]).unwrap().dim(), 0);
}

#[test]
fn power_of_two_is_recognised() {
    for n in [1usize, 2, 4, 8, 1024, 1 << 40] {
        assert!(is_power_of_two(n));
    }
    for n in [0usize, 3, 5, 6, 7, 12, 1023, (1 << 40) + 2] {
        assert!(!is_power_of_two(n));
    }
}

#[test]
fn clone_keeps_amplitudes_apart() {
    let mut q = Qubit::from_amplitudes(vec![fixed(0.6), fixed(0.8)]).unwrap();
    let copy = q.clone();
    q.apply_matrix(&matrix(vec![vec![0.0, 1.0], vec![1.0, 0.0]])).unwrap();
    assert_eq!(*q.state(), vec![fixed(0.8), fixed(0.6)]);
    assert_eq!(*copy.state(), vec![fixed(0.6), fixed(0.8)]);
}
