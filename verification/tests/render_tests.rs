use arith::parser::Term;
use arith::parser::Term::{False, If, IsZero, Pred, Succ, True, Zero};

fn succ(t: Term) -> Term {
    Succ(Box::new(t))
}

fn pred(t: Term) -> Term {
    Pred(Box::new(t))
}

#[test]
fn render_leaves_test() {
    assert_eq!(True.to_string(), "true");
    assert_eq!(False.to_string(), "false");
    assert_eq!(Zero.to_string(), "0");
}

#[test]
fn render_numerals_test() {
    assert_eq!(succ(Zero).to_string(), "1");
    let mut t = Zero;
    for _ in 0..10 {
        t = succ(t);
    }
    assert_eq!(t.to_string(), "10");
    for _ in 0..1225 {
        t = succ(t);
    }
    assert_eq!(t.to_string(), "1235");
}

#[test]
fn render_counts_pred_below_succ_test() {
    assert_eq!(succ(pred(succ(Zero))).to_string(), "1");
    assert_eq!(succ(pred(Zero)).to_string(), "0");
    assert_eq!(succ(succ(pred(succ(succ(Zero))))).to_string(), "3");
    assert_eq!(succ(pred(pred(Zero))).to_string(), "-1");
    assert_eq!(succ(pred(pred(pred(succ(pred(pred(pred(pred(pred(pred(pred(pred(pred(Zero)))))))))))))).to_string(), "-10");
}

#[test]
fn render_succ_of_other_term_test() {
    assert_eq!(succ(True).to_string(), "(succ true)");
    assert_eq!(succ(succ(succ(False))).to_string(), "(succ false)");
    assert_eq!(succ(pred(IsZero(Box::new(Zero)))).to_string(), "(succ is_zero 0)");
    assert_eq!(
        succ(If(Box::new(True), Box::new(Zero), Box::new(succ(Zero)))).to_string(),
        "(succ if true then 0 else 1)"
    );
}

#[test]
fn render_operators_test() {
    assert_eq!(pred(Zero).to_string(), "pred 0");
    assert_eq!(pred(succ(succ(Zero))).to_string(), "pred 2");
    assert_eq!(IsZero(Box::new(True)).to_string(), "is_zero true");
    assert_eq!(
        If(Box::new(IsZero(Box::new(Zero))), Box::new(pred(Zero)), Box::new(succ(True))).to_string(),
        "if is_zero 0 then pred 0 else (succ true)"
    );
}
