use em_engine::matching::{binomial, binomial_checked, section_weights, LNetworkTopology};

#[test]
fn binomial_coefficient_known_values() {
    assert_eq!(binomial(4, 0), 1);
    assert_eq!(binomial(4, 1), 4);
    assert_eq!(binomial(4, 2), 6);
    assert_eq!(binomial(4, 3), 4);
    assert_eq!(binomial(4, 4), 1);
}

#[test]
fn binomial_beyond_row_is_zero() {
    assert_eq!(binomial(4, 5), 0);
    assert_eq!(binomial(0, 1), 0);
    assert_eq!(binomial(3, usize::MAX), 0);
}

#[test]
fn binomial_empty_row() {
    assert_eq!(binomial(0, 0), 1);
}

#[test]
fn binomial_single_section_weight_is_one_half() {
    // One section: C(1, 0) / 2^1 = 1/2, the geometric mean of source and load.
    assert_eq!(binomial(1, 0), 1);
    let weight = binomial(1, 0) as f64 / 2.0_f64.powi(1);
    assert_eq!(weight, 0.5);
    let z0: f64 = 50.0;
    let r_load: f64 = 100.0;
    let section = z0 * (weight * (r_load / z0).ln()).exp();
    assert!((section - (z0 * r_load).sqrt()).abs() < 1e-9);
}

#[test]
fn binomial_is_symmetric() {
    assert_eq!(binomial(10, 3), 120);
    assert_eq!(binomial(10, 7), 120);
    for n in 0..20usize {
        for k in 0..=n {
            assert_eq!(binomial(n, k), binomial(n, n - k));
        }
    }
}

#[test]
fn binomial_follows_pascal_rule() {
    for n in 1..25usize {
        for k in 1..=n {
            assert_eq!(binomial(n, k), binomial(n - 1, k - 1) + binomial(n - 1, k));
        }
    }
}

#[test]
fn binomial_multiplicative_step() {
    for n in 0..25usize {
        for k in 0..n {
            assert_eq!(binomial(n, k) * (n - k), binomial(n, k + 1) * (k + 1));
        }
    }
}

#[test]
fn binomial_row_sums_to_power_of_two() {
    for n in 0..20usize {
        let mut sum: usize = 0;
        for k in 0..=n {
            sum += binomial(n, k);
        }
        assert_eq!(sum, 1usize << n);
    }
}

#[test]
fn binomial_section_weights_fall_short_by_one() {
    // The n sections carry C(n, 0) .. C(n, n - 1); the load junction the last 1.
    for n in 0..20usize {
        let mut sum: usize = 0;
        for k in 0..n {
            sum += binomial(n, k);
        }
        assert_eq!(sum + 1, 1usize << n);
    }
}

#[test]
fn binomial_larger_values() {
    assert_eq!(binomial(20, 10), 184_756);
    assert_eq!(binomial(30, 15), 155_117_520);
    assert_eq!(binomial(52, 5), 2_598_960);
}

#[test]
fn binomial_checked_agrees_with_binomial() {
    for n in 0..30usize {
        for k in 0..=(n + 2) {
            assert_eq!(binomial_checked(n, k), Some(binomial(n, k)));
        }
    }
    assert_eq!(binomial_checked(4, 2), Some(6));
}

#[test]
fn binomial_checked_reports_overflow() {
    // The second product, MAX * (MAX - 1), does not fit.
    assert_eq!(binomial_checked(usize::MAX, 2), None);
    assert_eq!(binomial_checked(usize::MAX, usize::MAX - 2), None);
    // One factor only: MAX * 1 fits.
    assert_eq!(binomial_checked(usize::MAX, 1), Some(usize::MAX));
    assert_eq!(binomial_checked(usize::MAX, 0), Some(1));
    assert_eq!(binomial_checked(usize::MAX, usize::MAX), Some(1));
}

#[test]
fn binomial_checked_at_the_edge_of_the_word() {
    if usize::BITS == 64 {
        // C(62, 31) * 31 is the last central product below 2^64.
        assert_eq!(binomial_checked(62, 31), Some(465_428_353_255_261_088));
        assert_eq!(binomial_checked(64, 32), None);
    }
}

#[test]
fn l_network_topologies_are_distinct() {
    assert_ne!(LNetworkTopology::SeriesShunt, LNetworkTopology::ShuntSeries);
    let t = LNetworkTopology::ShuntSeries;
    let copy = t;
    assert_eq!(t, copy);
}

#[test]
fn section_weights_are_the_row_without_its_last_entry() {
    assert_eq!(section_weights(0), Some(vec![]));
    assert_eq!(section_weights(1), Some(vec![1]));
    assert_eq!(section_weights(2), Some(vec![1, 2]));
    assert_eq!(section_weights(3), Some(vec![1, 3, 3]));
    assert_eq!(section_weights(4), Some(vec![1, 4, 6, 4]));
}

#[test]
fn section_weights_match_binomial() {
    for n in 0..30usize {
        let weights = section_weights(n).unwrap();
        assert_eq!(weights.len(), n);
        for (k, w) in weights.iter().enumerate() {
            assert_eq!(*w, binomial(n, k));
        }
    }
}

#[test]
fn section_weights_fit_exactly_when_the_middle_one_does() {
    for n in 1..80usize {
        assert_eq!(section_weights(n).is_some(), binomial_checked(n, n / 2).is_some());
    }
    assert_eq!(section_weights(usize::MAX), None);
}

#[test]
fn two_section_transformer_from_weights() {
    // 50 ohm to 200 ohm in two sections: steps of (R_L / Z0)^(1/4) and (R_L / Z0)^(2/4).
    let z0: f64 = 50.0;
    let r_load: f64 = 200.0;
    let weights = section_weights(2).unwrap();
    let mut z = z0;
    let mut sections = Vec::new();
    for w in weights {
        z *= (w as f64 / 4.0 * (r_load / z0).ln()).exp();
        sections.push(z);
    }
    assert!((sections[0] - 50.0 * 4.0_f64.powf(0.25)).abs() < 1e-9);
    assert!((sections[1] - 50.0 * 4.0_f64.powf(0.75)).abs() < 1e-9);
    // The junction to the load carries the last weight, C(2, 2) = 1.
    let at_load = sections[1] * (binomial(2, 2) as f64 / 4.0 * (r_load / z0).ln()).exp();
    assert!((at_load - r_load).abs() < 1e-9);
}

#[test]
fn binomial_closed_form_with_factorials() {
    let mut factorial = vec![1u64];
    for n in 1..=15u64 {
        let last = factorial[(n - 1) as usize];
        factorial.push(last * n);
    }
    for n in 0..=15usize {
        for k in 0..=n {
            assert_eq!(binomial(n, k) as u64 * factorial[k] * factorial[n - k], factorial[n]);
        }
    }
}
