use qubit_sim::entropy::EntropySource;
use qubit_sim::fixed::SCALE;
use qubit_sim::gates::{Logic11, Logic22};
use qubit_sim::qbit::Qubit;
use rand::rngs::StdRng;
use rand::SeedableRng;

/// The fixed-point number nearest to `x`.
fn fixed(x: f64) -> i64 {
    (x * SCALE as f64).round() as i64
}

#[test]
fn procqbit_test_qubit2() {
    let q1 = Qubit::new(2);
    println!("{:?}", q1);
    assert_eq!(*q1.state(), vec![fixed(1.0), fixed(0.0)]);
}

#[test]
fn procqbit_test_new_qubit4() {
    let q = Qubit::new(4);
    assert_eq!(*q.state(), vec![fixed(1.0), fixed(0.0), fixed(0.0), fixed(0.0)]);
}

#[test]
fn procqbit_test_measure2() {
    let q = Qubit::new(2);
    let m = q.measure(&mut EntropySource::from_seed(1));
    assert!(m == 0 || m == 1);
}

#[test]
fn test_measure4() {
    let q = Qubit::new(4);
    let m = q.measure(&mut EntropySource::from_seed(4));
    assert!(m == 0 || m == 1);
}

#[test]
fn procqbit_test_probability2() {
    let q = Qubit::from_amplitudes(vec![fixed(0.6), fixed(0.8)]).unwrap();
    let prob = q.probability();
    assert_eq!(prob, fixed(0.36));
}

#[test]
fn test_probability4() {
    let q = Qubit::from_amplitudes(vec![fixed(0.6), fixed(0.8), fixed(0.2), fixed(0.4)])
        .unwrap();
    let prob = q.probability();
    assert_eq!(prob, fixed(0.36));
}

#[test]
fn procqbit_test_apply_matrix2() {
    let mut q = Qubit::new(2);
    let matrix = qubit_sim::matrix::GateMatrix::from_rows(vec![
        vec![fixed(0.0), fixed(1.0)],
        vec![fixed(1.0), fixed(0.0)],
    ])
    .unwrap();
    q.apply_matrix(&matrix).unwrap();
    assert_eq!(*q.state(), vec![fixed(0.0), fixed(1.0)]);
}

#[test]
fn procqbit_test_apply_matrix4() {
    let mut q = Qubit::new(4);
    let matrix = qubit_sim::matrix::GateMatrix::from_rows(vec![
        vec![fixed(1.0), fixed(0.0), fixed(0.0), fixed(0.0)],
        vec![fixed(0.0), fixed(1.0), fixed(0.0), fixed(0.0)],
        vec![fixed(0.0), fixed(0.0), fixed(1.0), fixed(0.0)],
        vec![fixed(0.0), fixed(0.0), fixed(0.0), fixed(1.0)],
    ])
    .unwrap();
    q.apply_matrix(&matrix).unwrap();
    assert_eq!(*q.state(), vec![fixed(1.0), fixed(0.0), fixed(0.0), fixed(0.0)]);
}

#[test]
fn measure_with_compares_sample_to_probability() {
    let q = Qubit::from_amplitudes(vec![fixed(0.6), fixed(0.8)]).unwrap();
    assert_eq!(q.measure_with(0), 0);
    assert_eq!(q.measure_with(fixed(0.36) - 1), 0);
    assert_eq!(q.measure_with(fixed(0.36)), 1);
    assert_eq!(q.measure_with(SCALE - 1), 1);
    // Nothing collapses.
    assert_eq!(*q.state(), vec![fixed(0.6), fixed(0.8)]);
}

#[test]
fn draws_lie_in_unit_interval() {
    let mut source = EntropySource::from_seed(11);
    let mut low = false;
    let mut high = false;
    for _ in 0..1000 {
        let r = source.draw();
        assert!(0 <= r && r < SCALE);
        low = low || r < SCALE / 2;
        high = high || r >= SCALE / 2;
    }
    assert!(low && high);
}

#[test]
fn certain_states_measure_the_same_with_any_sample() {
    let zero = Qubit::new(2);
    let one = Qubit::from_amplitudes(vec![0, SCALE]).unwrap();
    let mut source = EntropySource::from_seed(5);
    for _ in 0..1000 {
        assert_eq!(zero.measure(&mut source), 0);
        assert_eq!(one.measure(&mut source), 1);
    }
}

#[test]
fn same_seed_gives_same_samples() {
    let mut first = EntropySource::from_seed(42);
    let mut second = EntropySource::from_seed(42);
    let mut other = EntropySource::from_seed(43);
    let mut differs = false;
    for _ in 0..100 {
        let r = first.draw();
        assert_eq!(r, second.draw());
        differs = differs || r != other.draw();
    }
    assert!(differs);
}

#[test]
fn source_from_generator_draws_from_it() {
    let mut given = EntropySource::from_generator(StdRng::seed_from_u64(9));
    let mut seeded = EntropySource::from_seed(9);
    for _ in 0..100 {
        assert_eq!(given.draw(), seeded.draw());
    }
}

#[test]
fn measured_frequency_matches_probability() {
    let trials = 10_000;
    for (state, p) in [
        (vec![fixed(0.6), fixed(0.8)], 0.36),
        (vec![fixed(0.8), fixed(0.6)], 0.64),
        (vec![fixed(0.5), fixed(0.5)], 0.25),
        (vec![SCALE, 0], 1.0),
        (vec![0, SCALE], 0.0),
    ] {
        let q = Qubit::from_amplitudes(state).unwrap();
        assert_eq!(q.probability(), fixed(p));
        let mut source = EntropySource::from_seed(2024);
        let mut zeros = 0;
        for _ in 0..trials {
            if q.measure(&mut source) == 0 {
                zeros += 1;
            }
        }
        let frequency = zeros as f64 / trials as f64;
        assert!((frequency - p).abs() < 0.03, "frequency {} for probability {}", frequency, p);
    }
}

#[test]
fn hadamard_then_cnot_then_measure() {
    let mut q1 = Qubit::new(2);
    let mut q2 = Qubit::new(2);
    Logic11::hadamard(&mut q1).unwrap();
    Logic22::cnot(&mut q1, &mut q2).unwrap();
    // The halves of the joint state [h, 0, 0, h]: the parts are no longer
    // states of their own.
    let h = qubit_sim::fixed::FRAC_1_SQRT_2;
    assert_eq!(*q1.state(), vec![h, 0]);
    assert_eq!(*q2.state(), vec![0, h]);
    assert_eq!(q1.probability(), fixed(0.5) - 1);
    assert_eq!(q2.probability(), 0);

    let mut source = EntropySource::from_seed(7);
    let mut zeros = 0;
    let trials = 10_000;
    for _ in 0..trials {
        let m1 = q1.measure(&mut source);
        let m2 = q2.measure(&mut source);
        assert_eq!(m2, 1);
        if m1 == 0 {
            zeros += 1;
        }
    }
    let frequency = zeros as f64 / trials as f64;
    assert!((frequency - 0.5).abs() < 0.03);
}
