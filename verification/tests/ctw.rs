use pt_core::ctw::{
    default_alphabet_size, default_context_depth, validate_shape, CtwError, CtwNode, CtwTree,
    DiscretizationMode, KtEstimator,
};

fn approx_eq(a: f64, b: f64, tol: f64) -> bool {
    (a - b).abs() < tol
}

fn ratio(r: (u128, u128)) -> f64 {
    r.0 as f64 / r.1 as f64
}

#[test]
fn test_config_validation() {
    assert!(validate_shape(default_context_depth(), default_alphabet_size()).is_ok());
    // invalid depth
    assert!(validate_shape(0, default_alphabet_size()).is_err());
    // invalid alphabet
    assert!(validate_shape(default_context_depth(), 1).is_err());
}

#[test]
fn shape_limits_are_depth_twelve_and_alphabet_two_to_four() {
    assert!(validate_shape(12, 4).is_ok());
    assert!(matches!(validate_shape(13, 2), Err(CtwError::InvalidContextDepth(13))));
    assert!(matches!(validate_shape(4, 5), Err(CtwError::InvalidAlphabetSize(5))));
    assert!(matches!(validate_shape(0, 9), Err(CtwError::InvalidContextDepth(0))));
}

#[test]
fn test_kt_estimator() {
    let mut kt = KtEstimator::new(2);

    // Initial prediction with Jeffreys prior: 0.5 / 1.0 = 0.5
    assert!(approx_eq(ratio(kt.predict(0)), 0.5, 1e-10));
    assert!(approx_eq(ratio(kt.predict(1)), 0.5, 1e-10));

    // After seeing symbol 0: (1 + 0.5) / (1 + 1.0) = 0.75 for 0, 0.25 for 1
    kt.update(0);
    assert!(approx_eq(ratio(kt.predict(0)), 0.75, 1e-10));
    assert!(approx_eq(ratio(kt.predict(1)), 0.25, 1e-10));

    // After seeing symbol 0 again: (2 + 0.5) / (2 + 1.0) = 0.833... for 0
    kt.update(0);
    assert!(approx_eq(ratio(kt.predict(0)), 2.5 / 3.0, 1e-10));
}

#[test]
fn kt_ratios_are_exact_and_ignore_foreign_symbols() {
    let mut kt = KtEstimator::new(3);
    kt.update(2);
    kt.update(7); // outside the alphabet: ignored
    assert_eq!(kt.predict(2), (3, 5));
    assert_eq!(kt.predict(0), (1, 5));
    assert_eq!(kt.predict(9), (1, 5));
}

#[test]
fn test_ctw_reset() {
    let mut ctw = CtwTree::new(4, 2);

    ctw.observe(0);
    ctw.observe(1);
    assert_eq!(ctw.step_count(), 2);

    ctw.reset();
    assert_eq!(ctw.step_count(), 0);
    assert!(ctw.current_context().is_empty());
}

#[test]
fn context_window_keeps_the_last_depth_symbols() {
    let mut ctw = CtwTree::new(3, 2);
    for s in [0usize, 1, 1, 0, 0] {
        ctw.observe(s);
    }
    assert_eq!(ctw.current_context(), vec![1, 0, 0]);
    assert_eq!(ctw.context_path(), vec![0, 0, 1]);
}

#[test]
fn root_counts_equal_marginal_counts() {
    let mut ctw = CtwTree::new(2, 3);
    for s in [0usize, 2, 2, 1, 2] {
        ctw.observe(s);
    }
    // marginal: 0 -> 1, 1 -> 1, 2 -> 3, total 5, k = 3
    assert_eq!(ctw.baseline_ratio(2), (7, 13));
    assert_eq!(ctw.root().kt().predict(2), (7, 13));
    assert_eq!(ctw.root().kt().predict(0), (3, 13));
}

#[test]
fn context_tree_counts_along_the_path() {
    let mut ctw = CtwTree::new(2, 2);
    ctw.observe(1); // context empty
    ctw.observe(0); // context [1]
    // the context "1" has seen one 0
    let child = ctw.root().child(1).unwrap();
    assert_eq!(child.kt().predict(0), (3, 4));
    assert!(ctw.root().child(0).is_none());
}

#[test]
fn node_children_are_created_once() {
    let mut node = CtwNode::new(2);
    assert!(node.child(1).is_none());
    node.get_or_create_child(1, 2);
    assert!(node.child(1).is_some());
    assert!(node.child(0).is_none());
}

#[test]
fn test_symbol_labels() {
    let binary = DiscretizationMode::Binary;
    assert_eq!(binary.symbol_label(0), "idle");
    assert_eq!(binary.symbol_label(1), "busy");

    let ternary = DiscretizationMode::Ternary;
    assert_eq!(ternary.symbol_label(0), "low");
    assert_eq!(ternary.symbol_label(1), "medium");
    assert_eq!(ternary.symbol_label(2), "high");
}

#[test]
fn discretization_modes_have_one_threshold_less_than_symbols() {
    for m in [
        DiscretizationMode::Binary,
        DiscretizationMode::Ternary,
        DiscretizationMode::Quaternary,
    ] {
        assert_eq!(m.threshold_count() + 1, m.alphabet_size());
    }
    assert_eq!(DiscretizationMode::Quaternary.symbol_label(3), "heavy");
}

#[test]
fn foreign_symbols_count_as_steps_but_not_as_symbols() {
    // depth 0: the context window never holds a symbol
    let mut ctw = CtwTree::new(0, 2);
    ctw.observe(5);
    ctw.observe(5);
    ctw.observe(1);
    assert_eq!(ctw.step_count(), 3);
    // marginal: 0 -> 0, 1 -> 1; total 3, k = 2
    assert_eq!(ctw.baseline_ratio(1), (3, 8));
    assert_eq!(ctw.root().kt().predict(1), (3, 4));

    let mut deep = CtwTree::new(2, 2);
    deep.observe(9);
    assert_eq!(deep.current_context(), vec![9]);
    assert_eq!(deep.step_count(), 1);
}

#[test]
fn kt_predictions_sum_to_one() {
    let mut kt = KtEstimator::new(3);
    for s in [0usize, 2, 2, 1, 2, 2] {
        kt.update(s);
    }
    let (n0, d) = kt.predict(0);
    let (n1, d1) = kt.predict(1);
    let (n2, d2) = kt.predict(2);
    assert_eq!(d, d1);
    assert_eq!(d, d2);
    assert_eq!(n0 + n1 + n2, d);
}

#[test]
fn deeper_contexts_count_no_more_than_their_parents() {
    let mut ctw = CtwTree::new(3, 2);
    for s in [0usize, 1, 1, 0, 1, 1, 1, 0, 0, 1] {
        ctw.observe(s);
    }
    let root = ctw.root();
    for a in 0..2usize {
        if let Some(child) = root.child(a) {
            for sym in 0..2usize {
                // numerators are 2 * count + 1
                assert!(child.kt().predict(sym).0 <= root.kt().predict(sym).0);
            }
            for b in 0..2usize {
                if let Some(grand) = child.child(b) {
                    for sym in 0..2usize {
                        assert!(grand.kt().predict(sym).0 <= child.kt().predict(sym).0);
                    }
                }
            }
        }
    }
}
