use prepona::misc::inf::Infinity;

#[test]
fn simple_test() {
    let pos_inf = Infinity::PosInfinity;
    let neg_inf = Infinity::NegInfinity;
    assert!(pos_inf.gt_value(&0));
    assert!(neg_inf.lt_value(&0));
    assert!(neg_inf.lt_inf(&pos_inf));
    assert!(pos_inf.gt_inf(&neg_inf));
    assert!(matches!(pos_inf.add_value(1), Infinity::PosInfinity));
    assert!(matches!(pos_inf.mul(-10), Infinity::NegInfinity));
    assert!(matches!(neg_inf.mul(-10), Infinity::PosInfinity));
    assert!(matches!(pos_inf.div(10), Infinity::PosInfinity));
    assert!(matches!(pos_inf.div(-10), Infinity::NegInfinity));
}

#[test]
fn infinity_comparisons_and_sums() {
    let pos_inf = Infinity::PosInfinity;
    let neg_inf = Infinity::NegInfinity;
    assert!(!pos_inf.eq_inf(&neg_inf));
    assert!(!pos_inf.eq_value(&7));
    assert!(!pos_inf.le_value(&-3));
    assert!(neg_inf.le_inf(&pos_inf));
    assert!(!neg_inf.ge_value(&1));
    assert!(pos_inf.ge_inf(&neg_inf));
    assert!(matches!(neg_inf.add_inf(neg_inf), Infinity::NegInfinity));
    assert!(matches!(pos_inf.sub_inf(neg_inf), Infinity::PosInfinity));
    assert!(matches!(neg_inf.sub_inf(pos_inf), Infinity::NegInfinity));
    assert!(matches!(neg_inf.sub_value(5), Infinity::NegInfinity));
}

#[test]
fn infinity_negation_is_an_involution() {
    for x in [Infinity::PosInfinity, Infinity::NegInfinity] {
        let back = x.neg().neg();
        assert_eq!(matches!(back, Infinity::PosInfinity), matches!(x, Infinity::PosInfinity));
        assert_ne!(matches!(x.neg(), Infinity::PosInfinity), matches!(x, Infinity::PosInfinity));
    }
}
