use pickles::capacity::{capacity, other_rows, DOMAIN_LOG2, DOMAIN_ROWS};

/// Domains of applications whose gates share a row by two, with some rows taken.
fn domain_log2(taken: usize) -> impl Fn(usize) -> u32 {
    move |gates| {
        let rows = taken + gates.div_ceil(2);
        rows.next_power_of_two().trailing_zeros()
    }
}

#[test]
fn bisection_finds_the_last_gate_that_fits() {
    for taken in [0usize, 1, 700, 40_000] {
        let full = 2 * (DOMAIN_ROWS - taken);
        let d = domain_log2(taken);
        match capacity(&d) {
            Some(found) => {
                assert_eq!(found, full);
                assert_eq!(d(found), DOMAIN_LOG2);
                assert!(d(found + 1) > DOMAIN_LOG2);
            }
            // with no row taken, two gates for each row still fit
            None => assert_eq!(taken, 0),
        }
    }
    assert_eq!(capacity(&|_: usize| 20), None);
}

#[test]
fn a_boundary_below_the_top_is_always_found() {
    for boundary in [0usize, 1, 2, 65535, 65536, 100_000, 2 * DOMAIN_ROWS - 1] {
        let d = |gates: usize| if gates <= boundary { DOMAIN_LOG2 } else { DOMAIN_LOG2 + 1 };
        assert_eq!(capacity(&d), Some(boundary));
    }
    // smaller domains before it do not mislead the bisection
    let d = |gates: usize| match gates {
        0..=10 => 5,
        11..=70_000 => DOMAIN_LOG2,
        _ => DOMAIN_LOG2 + 3,
    };
    assert_eq!(capacity(&d), Some(70_000));
    // the step domain itself is never chosen
    let d = |gates: usize| if gates <= 9 { DOMAIN_LOG2 - 1 } else { DOMAIN_LOG2 + 1 };
    assert_eq!(capacity(&d), None);
}

#[test]
fn other_rows_are_rounded_up() {
    assert_eq!(other_rows(2 * DOMAIN_ROWS), 0);
    assert_eq!(other_rows(2 * DOMAIN_ROWS - 1), 1);
    assert_eq!(other_rows(2 * DOMAIN_ROWS - 2), 1);
    assert_eq!(other_rows(0), DOMAIN_ROWS);
}
