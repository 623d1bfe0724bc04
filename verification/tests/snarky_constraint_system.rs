use pickles::field::{from_u64, Fp};
use pickles::gates::{gate_type_of_u32, GateType};
use pickles::snarky_constraint_system::{
    ec_add_complete, endoscale_round, endoscale_scalar_round, lincom, LinComCvar,
};

fn var(i: usize) -> LinComCvar<Fp> {
    LinComCvar(None, vec![(from_u64(1), i)])
}

fn vars(n: usize) -> Vec<LinComCvar<Fp>> {
    (0..n).map(var).collect()
}

fn index(v: &LinComCvar<Fp>) -> usize {
    v.1[0].1
}

#[test]
fn linear_combinations_pair_coefficients_with_indices() {
    let f = |n: u64| from_u64::<Fp>(n);
    let l = lincom(Some(f(9)), &vec![f(2), f(3)], &vec![40, 41]);
    assert_eq!(l.to_constant_and_terms(), (Some(f(9)), vec![(f(2), 40), (f(3), 41)]));
    assert_eq!(lincom::<Fp>(None, &vec![], &vec![]).to_constant_and_terms(), (None, vec![]));
}

#[test]
fn additions_take_their_variables_in_order() {
    let a = ec_add_complete(vars(11));
    let got = [
        &a.p1.0, &a.p1.1, &a.p2.0, &a.p2.1, &a.p3.0, &a.p3.1, &a.inf, &a.same_x, &a.slope, &a.inf_z,
        &a.x21_inv,
    ];
    for (i, v) in got.iter().enumerate() {
        assert_eq!(index(v), i);
    }
}

#[test]
fn rounds_take_their_variables_in_order() {
    let r = endoscale_round(vars(16));
    let got = [
        &r.xt, &r.yt, &r.xp, &r.yp, &r.n_acc, &r.xr, &r.yr, &r.s1, &r.s3, &r.b1, &r.b2, &r.b3, &r.b4,
        &r.inv,
    ];
    for (i, v) in got.iter().enumerate() {
        assert_eq!(index(v), i);
    }
    let s = endoscale_scalar_round(vars(14));
    assert_eq!((index(&s.n0), index(&s.n8), index(&s.b8), index(&s.x7)), (0, 1, 5, 13));
}

#[test]
fn gate_numbers_follow_the_declaration() {
    assert_eq!(gate_type_of_u32(0), GateType::Zero);
    assert_eq!(gate_type_of_u32(3), GateType::CompleteAdd);
    assert_eq!(gate_type_of_u32(13), GateType::Rot64);
}
