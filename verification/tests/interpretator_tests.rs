use arith::interpretator::{eval, eval1, is_numeric_val, run, run_chars, run_tokens, EvalError};
use arith::lexer::{chars_of, Token};
use arith::parser::Term;

#[test]
fn interpret_is_zero_test() {
    assert_eq!(run("is_zero zero").unwrap(), "true");
    assert_eq!(run("is_zero succ zero").unwrap(), "false");
    assert_eq!(run("is_zero true").unwrap(), "is_zero true");
}

#[test]
fn interpret_numbers_test() {
    assert_eq!(run("zero").unwrap(), "0");
    assert_eq!(run("succ zero").unwrap(), "1");
    assert_eq!(run("succ pred succ zero").unwrap(), "1");
    assert_eq!(run("succ zero pred succ zero").unwrap(), "1\n0");
}

#[test]
fn zero_is_numeric_val_test() {
    assert!(is_numeric_val(&Term::Zero));
}

#[test]
fn succ_num_is_numeric_val_test() {
    assert!(is_numeric_val(&Term::Succ(Box::new(Term::Zero))));
}

#[test]
fn non_num_is_numeric_val_test() {
    assert!(!is_numeric_val(&Term::True));
    assert!(!is_numeric_val(&Term::False));
}

#[test]
fn eval_numeric_value_test() {
    assert_eq!(
        eval(
            Term::If(
                Box::new(Term::False),
                Box::new(Term::Zero),
                Box::new(Term::Pred(Box::new(Term::Succ(Box::new(Term::Zero)))))
            )
        ),
        Term::Zero
    );
}

#[test]
fn eval_if_zero_value_test() {
    assert_eq!(
        eval(
            Term::If(
                Box::new(Term::IsZero(
                    Box::new(Term::Pred(Box::new(Term::Succ(Box::new(Term::Zero)))))
                )),
                Box::new(Term::Zero),
                Box::new(Term::Succ(Box::new(Term::Zero)))
            )
        ),
        Term::Zero
    );
}

#[test]
fn eval_is_zero_if_test() {
    assert_eq!(
        eval(
            Term::IsZero(
                Box::new(Term::If(
                    Box::new(Term::IsZero(
                        Box::new(Term::Pred(Box::new(Term::Succ(Box::new(Term::Zero)))))
                    )),
                    Box::new(Term::Zero),
                    Box::new(Term::Succ(Box::new(Term::Zero)))
                ))
            )
        ),
        Term::True
    );
}

#[test]
fn if_true_eval1_test() {
    assert_eq!(
        eval1(
            Term::If(
                Box::new(Term::True),
                Box::new(Term::Zero),
                Box::new(Term::Succ(Box::new(Term::Zero)))
            )
        ).ok().unwrap(),
        Term::Zero
    );
}

#[test]
fn if_false_eval1_test() {
    let one = Term::Succ(Box::new(Term::Zero));
    assert_eq!(
        eval1(
            Term::If(Box::new(Term::False), Box::new(Term::Zero), Box::new(one.clone()))
        ).ok().unwrap(),
        one
    );
}

#[test]
fn if_complex_eval1_test() {
    let one = Term::Succ(Box::new(Term::Zero));
    let inner_if = Term::If(Box::new(Term::True), Box::new(Term::False), Box::new(Term::True));
    assert_eq!(
        eval1(
            Term::If(Box::new(inner_if), Box::new(Term::Zero), Box::new(one.clone()))
        ).ok().unwrap(),
        Term::If(Box::new(Term::False), Box::new(Term::Zero), Box::new(one))
    );
}

#[test]
fn succ_eval1_test() {
    let one = Term::Succ(Box::new(Term::Zero));
    let two = Term::Succ(Box::new(one.clone()));
    let three = Term::Succ(Box::new(two));
    let four = Term::Succ(Box::new(three));
    let five = Term::Succ(Box::new(four));

    assert_eq!(
        eval1(five).err().unwrap(),
        EvalError{ message: "No rule applies for Zero".to_string() }
    );
}

#[test]
fn pred_zero_eval1_test() {
    assert_eq!(
        eval1(Term::Pred(Box::new(Term::Zero))).ok().unwrap(),
        Term::Zero
    );
}

#[test]
fn pred_succ_eval1_test() {
    assert_eq!(
        eval1(Term::Pred(Box::new(Term::Succ(Box::new(Term::Zero))))).ok().unwrap(),
        Term::Zero
    );
}

#[test]
fn pred_eval1_test() {
    assert_eq!(
        eval1(
            Term::Pred(
                Box::new(Term::If(
                    Box::new(Term::True),
                    Box::new(Term::Succ(Box::new(Term::Zero))),
                    Box::new(Term::False)
                ))
            )
        ).ok().unwrap(),
        Term::Pred(Box::new(Term::Succ(Box::new(Term::Zero))))
    );
}

#[test]
fn is_zero_zero_eval1_test() {
    assert_eq!(
        eval1(Term::IsZero(Box::new(Term::Zero))).ok().unwrap(),
        Term::True
    );
}

#[test]
fn is_zero_succ_eval1_test() {
    assert_eq!(
        eval1(Term::IsZero(Box::new(Term::Succ(Box::new(Term::Zero))))).ok().unwrap(),
        Term::False
    );
}

#[test]
fn is_zero_eval1_test() {
    assert_eq!(
        eval1(Term::IsZero(Box::new(Term::Pred(Box::new(Term::Zero))))).ok().unwrap(),
        Term::IsZero(Box::new(Term::Zero))
    );
}

fn numeral(n: usize) -> Term {
    let mut t = Term::Zero;
    for _ in 0..n {
        t = Term::Succ(Box::new(t));
    }
    t
}

#[test]
fn leaves_are_stuck_test() {
    assert_eq!(eval1(Term::True).err().unwrap().message, "No rule applies for True");
    assert_eq!(eval1(Term::False).err().unwrap().message, "No rule applies for False");
    assert_eq!(eval1(Term::Zero).err().unwrap().message, "No rule applies for Zero");
}

#[test]
fn stuck_message_names_the_leaf_test() {
    let t = Term::IsZero(Box::new(Term::Succ(Box::new(Term::True))));
    assert_eq!(eval1(t).err().unwrap().message, "No rule applies for True");
    let t = Term::If(Box::new(Term::Pred(Box::new(Term::False))), Box::new(Term::Zero), Box::new(Term::Zero));
    assert_eq!(eval1(t).err().unwrap().message, "No rule applies for False");
}

#[test]
fn pred_of_larger_numeral_eval1_test() {
    assert_eq!(eval1(Term::Pred(Box::new(numeral(3)))).ok().unwrap(), numeral(2));
}

#[test]
fn pred_of_succ_of_non_numeral_eval1_test() {
    let inner = Term::Succ(Box::new(Term::Pred(Box::new(Term::Zero))));
    assert_eq!(
        eval1(Term::Pred(Box::new(inner))).ok().unwrap(),
        Term::Pred(Box::new(Term::Succ(Box::new(Term::Zero))))
    );
    let inner = Term::Succ(Box::new(Term::IsZero(Box::new(Term::Zero))));
    assert_eq!(
        eval1(Term::IsZero(Box::new(inner))).ok().unwrap(),
        Term::IsZero(Box::new(Term::Succ(Box::new(Term::True))))
    );
}

#[test]
fn eval_is_idempotent_test() {
    let samples = vec![
        Term::IsZero(Box::new(Term::True)),
        Term::Pred(Box::new(Term::Succ(Box::new(Term::Pred(Box::new(Term::Zero)))))),
        Term::If(Box::new(Term::Zero), Box::new(Term::True), Box::new(Term::False)),
        Term::Succ(Box::new(Term::If(Box::new(Term::True), Box::new(Term::False), Box::new(Term::Zero)))),
        numeral(4),
    ];
    for t in samples {
        let once = eval(t);
        assert_eq!(eval(once.clone()), once);
    }
}

#[test]
fn eval_keeps_stuck_terms_test() {
    let t = Term::IsZero(Box::new(Term::True));
    assert_eq!(eval(t.clone()), t);
    let t = Term::If(Box::new(Term::Zero), Box::new(Term::True), Box::new(Term::False));
    assert_eq!(eval(t.clone()), t);
    assert_eq!(eval(numeral(6)), numeral(6));
}

#[test]
fn numerals_round_trip_test() {
    let mut source = String::from("zero");
    for n in 0..40 {
        assert_eq!(run(&source).unwrap(), n.to_string());
        source = format!("succ {}", source);
    }
}

#[test]
fn run_empty_test() {
    assert_eq!(run("").unwrap(), "");
    assert_eq!(run("   \n").unwrap(), "");
}

#[test]
fn run_conditionals_test() {
    assert_eq!(run("if true then zero else succ zero").unwrap(), "0");
    assert_eq!(run("if is_zero pred zero then succ succ zero else zero").unwrap(), "2");
    assert_eq!(run("if zero then true else false").unwrap(), "if 0 then true else false");
    assert_eq!(run("true false\nzero").unwrap(), "true\nfalse\n0");
}

#[test]
fn run_failures_test() {
    assert_eq!(run("succ 1").err().unwrap(), "Invalid character : 1");
    assert_eq!(run("succ one").err().unwrap(), "Invalid keyword : one");
    assert_eq!(run("is_zero").err().unwrap(), "Invalid program!");
    assert_eq!(run("if true then zero").err().unwrap(), "Invalid If statement. Missing 'else' clause.");
    assert_eq!(run("if true zero").err().unwrap(), "Invalid If statement. Missing 'then' clause.");
    assert_eq!(run("zero else").err().unwrap(), "Unknown token : Else");
}

#[test]
fn run_tokens_test() {
    let tokens = vec![Token::Succ, Token::Zero, Token::IsZero, Token::False];
    assert_eq!(run_tokens(&tokens).unwrap(), "1\nis_zero false");
    assert_eq!(run_tokens(&vec![Token::Then]).err().unwrap(), "Unknown token : Then");
}

#[test]
fn run_chars_test() {
    let chars = chars_of("pred|zero");
    let mut blank = vec![false; chars.len()];
    blank[4] = true;
    assert_eq!(run_chars(&chars, &blank).unwrap(), "0");
    let unmarked = vec![false; chars.len()];
    assert_eq!(run_chars(&chars, &unmarked).err().unwrap(), "Invalid character : |");
}
