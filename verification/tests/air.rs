use machine_chips::air::{AirStatement, Expr, RowFilter};
use machine_chips::field::BABY_BEAR_P;
use machine_chips::record::CoreShape;

fn b(e: Expr) -> Box<Expr> {
    Box::new(e)
}

#[test]
fn expressions_evaluate_in_the_baby_bear_field() {
    let local = vec![5u32, BABY_BEAR_P - 1, 3];
    let next = vec![7u32, 0, 0];
    assert_eq!(Expr::Local(0).evaluate(&local, &next), 5);
    assert_eq!(Expr::Next(0).evaluate(&local, &next), 7);
    // (p - 1) + 5 wraps to 4.
    assert_eq!(Expr::Add(b(Expr::Local(1)), b(Expr::Local(0))).evaluate(&local, &next), 4);
    // 3 - 5 is p - 2.
    assert_eq!(Expr::Sub(b(Expr::Local(2)), b(Expr::Local(0))).evaluate(&local, &next), BABY_BEAR_P - 2);
    // (p - 1) * (p - 1) is 1.
    assert_eq!(Expr::Mul(b(Expr::Local(1)), b(Expr::Local(1))).evaluate(&local, &next), 1);
    assert_eq!(Expr::Constant(BABY_BEAR_P + 9).evaluate(&local, &next), 9);
    // A cell outside the field is taken modulo the prime.
    let wide = vec![BABY_BEAR_P + 3];
    assert_eq!(Expr::Local(0).evaluate(&wide, &wide), 3);
}

#[test]
fn assertions_follow_their_row_filters() {
    let local = vec![2u32, 2, 3];
    let next = vec![3u32, 0, 0];
    let eq = |filter| AirStatement::AssertEq { filter, lhs: Expr::Local(0), rhs: Expr::Local(2) };
    assert!(!eq(RowFilter::EveryRow).holds(&local, &next, false, false));
    assert!(eq(RowFilter::FirstRow).holds(&local, &next, false, true));
    assert!(!eq(RowFilter::FirstRow).holds(&local, &next, true, true));
    assert!(eq(RowFilter::Transition).holds(&local, &next, true, false));
    assert!(eq(RowFilter::When(Expr::Constant(0))).holds(&local, &next, true, true));
    assert!(!eq(RowFilter::When(Expr::Local(1))).holds(&local, &next, true, true));
    let zero = AirStatement::AssertZero { filter: RowFilter::EveryRow, expr: Expr::Constant(BABY_BEAR_P) };
    assert!(zero.holds(&local, &next, false, false));
    let boolean = |v: u32| AirStatement::AssertBool { filter: RowFilter::EveryRow, expr: Expr::Constant(v) };
    assert!(boolean(0).holds(&local, &next, false, false));
    assert!(boolean(1).holds(&local, &next, false, false));
    assert!(!boolean(2).holds(&local, &next, false, false));
}

#[test]
fn shape_includes_exactly_the_listed_chips() {
    let shape = CoreShape { inner: vec![("Cpu".to_string(), 20), ("Uint256".to_string(), 4)] };
    assert!(shape.included(&"Uint256".to_string()));
    assert!(shape.included(&"Cpu".to_string()));
    assert!(!shape.included(&"Uint25".to_string()));
    assert!(!CoreShape { inner: vec![] }.included(&"Cpu".to_string()));
}
