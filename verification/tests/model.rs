use block_model::inference::model::{
    check_table, check_values, feature_count, is_probability, pick_output, probability_slot,
    segment, takes_features, Calibration, OutputInfo, OutputKind, OutputType, Segment,
    ShapeError, Slot, TableError,
};
use block_model::numbers::{is_positive, order_key};

fn key(x: f64) -> i64 {
    order_key(x.to_bits()).unwrap()
}

fn table(x: &[f64], y: &[f64]) -> Calibration<f64> {
    Calibration {
        method: "isotonic_clip".into(),
        x: x.to_vec(),
        y: y.to_vec(),
        raw_min: x[0],
        raw_max: x[x.len() - 1],
        n: x.len(),
    }
}

fn calib() -> Calibration<f64> {
    table(&[0.2, 0.5, 0.8], &[0.1, 0.5, 0.9])
}

fn isotonic_clip(raw: f64, c: &Calibration<f64>) -> f64 {
    let keys: Vec<Option<i64>> = c.x.iter().map(|x| order_key(x.to_bits())).collect();
    assert_eq!(check_table(&keys, c.y.len()), Ok(()));
    match segment(key(raw), &c.x.iter().map(|x| key(*x)).collect()) {
        Segment::At(i) => c.y[i],
        Segment::Between(lo, hi) => {
            c.y[lo] + (c.y[hi] - c.y[lo]) * (raw - c.x[lo]) / (c.x[hi] - c.x[lo])
        }
    }
}

#[test]
fn interpolation_in_between() {
    let c = calib();
    assert!((isotonic_clip(0.35, &c) - 0.3).abs() < 1e-12);
    assert!((isotonic_clip(0.65, &c) - 0.7).abs() < 1e-12);
}

#[test]
fn clamps_out_of_range() {
    let c = calib();
    assert_eq!(isotonic_clip(0.0, &c), 0.1);
    assert_eq!(isotonic_clip(0.1, &c), 0.1);
    assert_eq!(isotonic_clip(0.9, &c), 0.9);
    assert_eq!(isotonic_clip(1.0, &c), 0.9);
}

#[test]
fn exact_thresholds() {
    let c = calib();
    assert_eq!(isotonic_clip(0.2, &c), 0.1);
    assert_eq!(isotonic_clip(0.5, &c), 0.5);
    assert_eq!(isotonic_clip(0.8, &c), 0.9);
}

#[test]
fn single_point_calibration_is_constant() {
    let mut c = table(&[0.48], &[0.581]);
    c.n = 31;
    assert_eq!(isotonic_clip(0.0, &c), 0.581);
    assert_eq!(isotonic_clip(0.48, &c), 0.581);
    assert_eq!(isotonic_clip(1.0, &c), 0.581);
}

#[test]
fn duplicate_thresholds_are_allowed() {
    let c = table(&[0.3, 0.5, 0.5, 0.7], &[0.2, 0.4, 0.4, 0.6]);
    assert!((isotonic_clip(0.5, &c) - 0.4).abs() < 1e-12);
    assert!((isotonic_clip(0.4, &c) - 0.3).abs() < 1e-12);
}

#[test]
fn segments_are_found() {
    let x = vec![10, 20, 20, 30, 40];
    assert_eq!(segment(5, &x), Segment::At(0));
    assert_eq!(segment(10, &x), Segment::At(0));
    assert_eq!(segment(15, &x), Segment::Between(0, 1));
    assert_eq!(segment(20, &x), Segment::Between(2, 3));
    assert_eq!(segment(39, &x), Segment::Between(3, 4));
    assert_eq!(segment(40, &x), Segment::At(4));
    assert_eq!(segment(41, &x), Segment::At(4));
    assert_eq!(segment(-5, &vec![7]), Segment::At(0));
}

#[test]
fn tables_are_checked() {
    let k = |v: &[i64]| v.iter().map(|x| Some(*x)).collect::<Vec<_>>();
    assert_eq!(check_table(&k(&[]), 0), Err(TableError::Sizes));
    assert_eq!(check_table(&k(&[1, 2]), 3), Err(TableError::Sizes));
    assert_eq!(check_table(&k(&[1, 3, 2]), 3), Err(TableError::Order));
    assert_eq!(check_table(&vec![Some(1), None], 2), Err(TableError::Order));
    assert_eq!(check_table(&vec![None], 1), Ok(()));
    assert_eq!(check_table(&k(&[1, 1, 2]), 3), Ok(()));
}

#[test]
fn keys_order_as_numbers_do() {
    let list = [
        f64::NEG_INFINITY,
        -1e300,
        -1.0,
        -1e-300,
        0.0,
        1e-300,
        0.5,
        1.0,
        1.5,
        1e300,
        f64::INFINITY,
    ];
    for w in list.windows(2) {
        assert!(key(w[0]) < key(w[1]), "{w:?}");
    }
    assert_eq!(key(-0.0), key(0.0));
    assert_eq!(order_key(f64::NAN.to_bits()), None);
    assert_eq!(order_key((-f64::NAN).to_bits()), None);
}

#[test]
fn probabilities_lie_between_zero_and_one() {
    for p in [0.0f64, -0.0, 0.3, 1.0] {
        assert!(is_probability(p.to_bits()), "{p}");
    }
    for p in [-1e-300, 1.0000000000000002, f64::NAN, f64::INFINITY, -1.0] {
        assert!(!is_probability(p.to_bits()), "{p}");
    }
}

fn output(name: &str, ty: OutputType) -> OutputInfo {
    OutputInfo { name: name.to_string(), ty }
}

#[test]
fn output_is_picked_by_type() {
    let label = output("label", OutputType::Other);
    let zip = output("probabilities", OutputType::SequenceOfMaps);
    assert_eq!(
        pick_output(&vec![label, zip]),
        Some(("probabilities".to_string(), OutputKind::ZipMap))
    );
    let two = output("output", OutputType::FloatTensor { last: Some(2) });
    assert_eq!(pick_output(&vec![two]), Some(("output".to_string(), OutputKind::Tensor2)));
    let one = output("logits", OutputType::FloatTensor { last: Some(1) });
    assert_eq!(pick_output(&vec![one]), Some(("logits".to_string(), OutputKind::Tensor1)));
    assert_eq!(pick_output(&vec![]), None);
    let other = output("prob", OutputType::FloatTensor { last: Some(3) });
    let scalar = output("prob", OutputType::FloatTensor { last: None });
    assert_eq!(pick_output(&vec![other, scalar]), None);
}

#[test]
fn name_breaks_the_tie() {
    let a = output("hidden", OutputType::FloatTensor { last: Some(1) });
    let b = output("my_PROBS", OutputType::FloatTensor { last: Some(2) });
    let c = output("prob", OutputType::SequenceOfMaps);
    assert_eq!(pick_output(&vec![a, b, c]), Some(("my_PROBS".to_string(), OutputKind::Tensor2)));
}

#[test]
fn slots_of_the_probability() {
    assert_eq!(probability_slot(OutputKind::ZipMap, 1), Ok(Slot::Key(1)));
    assert_eq!(probability_slot(OutputKind::Tensor2, 2), Ok(Slot::Index(1)));
    assert_eq!(probability_slot(OutputKind::Tensor1, 1), Ok(Slot::Index(0)));
    assert_eq!(probability_slot(OutputKind::ZipMap, 2), Err(1));
    assert_eq!(probability_slot(OutputKind::Tensor2, 1), Err(2));
    assert_eq!(probability_slot(OutputKind::Tensor1, 0), Err(1));
}

#[test]
fn zipmap_model_kind_is_detected() {
    let outputs = vec![
        OutputInfo { name: "label".into(), ty: OutputType::Other },
        OutputInfo { name: "probabilities".into(), ty: OutputType::SequenceOfMaps },
    ];
    let (name, kind) = pick_output(&outputs).unwrap();
    assert_eq!(kind, OutputKind::ZipMap);
    assert_eq!(name, "probabilities");
}

#[test]
fn positive_numbers() {
    for x in [f64::MIN_POSITIVE, 5e-324, 1.0, f64::MAX] {
        assert!(is_positive(x.to_bits()), "{x}");
    }
    for x in [0.0, -0.0, -1.0, f64::INFINITY, f64::NEG_INFINITY, f64::NAN, -f64::NAN] {
        assert!(!is_positive(x.to_bits()), "{x}");
    }
}

#[test]
fn tables_hold_probabilities() {
    let bits = |y: &[f64]| y.iter().map(|v| v.to_bits()).collect::<Vec<u64>>();
    assert_eq!(check_values(&bits(&[0.0, 0.5, 1.0])), Ok(()));
    assert_eq!(check_values(&vec![]), Ok(()));
    assert_eq!(check_values(&bits(&[0.1, 1.5, -1.0])), Err(1));
    assert_eq!(check_values(&bits(&[f64::NAN])), Err(0));
    assert_eq!(check_values(&bits(&[0.2, -0.1])), Err(1));
}

#[test]
fn features_are_the_second_dimension() {
    assert_eq!(feature_count(&vec![-1, 33]), Ok(33));
    assert_eq!(feature_count(&vec![1, 0, 7]), Ok(0));
    assert_eq!(feature_count(&vec![33]), Err(ShapeError::NoFeatures));
    assert_eq!(feature_count(&vec![]), Err(ShapeError::NoFeatures));
    assert_eq!(feature_count(&vec![1, -1]), Err(ShapeError::NotALength));
    assert!(takes_features(33, 33));
    assert!(!takes_features(32, 33));
}
