//! The evaluator: one-step reduction, and reduction to normal form.

use vstd::prelude::*;
use vstd::string::*;
use crate::lexer::{chars_of, lex, mark_whitespace, scan, whitespace_marks, Token};
use crate::parser::{parse, program, width, Term};
use crate::render::render;

verus! {

/// The signal that no reduction rule applies to a term.
#[derive(Debug, PartialEq)]
pub struct EvalError {
    pub message: String,
}

/// Whether `t` is a numeral: `Zero` under any number of `Succ`.
pub open spec fn is_numeric(t: Term) -> bool
    decreases t,
{
    match t {
        Term::Zero => true,
        Term::Succ(a) => is_numeric(*a),
        _ => false,
    }
}

/// One step of reduction, or the message of the leaf at which no rule applies.
///
/// A conditional on a boolean literal becomes the branch chosen; any other
/// conditional steps in its condition. `Succ` always steps in its operand.
/// `Pred` of `Zero` is `Zero`, `Pred` of the successor of a numeral is that
/// numeral, any other `Pred` steps in its operand. `IsZero` of `Zero` is
/// `True`, of the successor of a numeral `False`, any other `IsZero` steps in
/// its operand. The three leaves do not step.
pub open spec fn step(t: Term) -> Result<Term, Seq<char>>
    decreases t,
{
    match t {
        Term::If(c, a, b) => match *c {
            Term::True => Ok(*a),
            Term::False => Ok(*b),
            _ => match step(*c) {
                Ok(c1) => Ok(Term::If(Box::new(c1), a, b)),
                Err(e) => Err(e),
            },
        },
        Term::Succ(a) => match step(*a) {
            Ok(a1) => Ok(Term::Succ(Box::new(a1))),
            Err(e) => Err(e),
        },
        Term::Pred(a) => if *a == Term::Zero {
            Ok(Term::Zero)
        } else if is_numeric(*a) {
            Ok(*a->Succ_0)
        } else {
            match step(*a) {
                Ok(a1) => Ok(Term::Pred(Box::new(a1))),
                Err(e) => Err(e),
            }
        },
        Term::IsZero(a) => if *a == Term::Zero {
            Ok(Term::True)
        } else if is_numeric(*a) {
            Ok(Term::False)
        } else {
            match step(*a) {
                Ok(a1) => Ok(Term::IsZero(Box::new(a1))),
                Err(e) => Err(e),
            }
        },
        Term::True => Err("No rule applies for True"@),
        Term::False => Err("No rule applies for False"@),
        Term::Zero => Err("No rule applies for Zero"@),
    }
}

/// A step makes a term smaller.
pub proof fn lemma_step_shrinks(t: Term)
    ensures
        step(t) is Ok ==> width(step(t)->Ok_0) < width(t),
    decreases t,
{
    reveal_with_fuel(width, 3);
    match t {
        Term::If(c, a, b) => {
            lemma_step_shrinks(*c);
        },
        Term::Succ(a) => {
            lemma_step_shrinks(*a);
        },
        Term::Pred(a) => {
            lemma_step_shrinks(*a);
        },
        Term::IsZero(a) => {
            lemma_step_shrinks(*a);
        },
        _ => {},
    }
}

/// The term that stepping ends in: `t` itself if it does not step, else the
/// normal form of what it steps to.
pub open spec fn normal_form(t: Term) -> Term
    decreases width(t),
    via normal_form_decreases
{
    match step(t) {
        Ok(t1) => normal_form(t1),
        Err(_) => t,
    }
}

#[via_fn]
proof fn normal_form_decreases(t: Term) {
    lemma_step_shrinks(t);
}

/// A numeric value does not step: stepping under `Succ` goes down to the
/// `Zero` at the bottom, to which no rule applies.
pub proof fn lemma_numeric_is_stuck(t: Term)
    requires
        is_numeric(t),
    ensures
        step(t) == Err::<Term, Seq<char>>("No rule applies for Zero"@),
        normal_form(t) == t,
    decreases t,
{
    if let Term::Succ(a) = t {
        lemma_numeric_is_stuck(*a);
    }
}

/// The normal form of a term does not step.
pub proof fn lemma_normal_form_is_stuck(t: Term)
    ensures
        step(normal_form(t)) is Err,
    decreases width(t),
{
    lemma_step_shrinks(t);
    if let Ok(t1) = step(t) {
        lemma_normal_form_is_stuck(t1);
    }
}

/// Reducing to normal form is idempotent: the normal form of a normal form is
/// that normal form.
pub proof fn lemma_normal_form_idempotent(t: Term)
    ensures
        normal_form(normal_form(t)) == normal_form(t),
{
    lemma_normal_form_is_stuck(t);
}

/// A term that does not step is its own normal form.
pub proof fn lemma_stuck_is_normal(t: Term)
    requires
        step(t) is Err,
    ensures
        normal_form(t) == t,
{
}

/// Whether `t` is a numeral.
pub fn is_numeric_val(t: &Term) -> (b: bool)
    ensures
        b == is_numeric(*t),
    decreases t,
{
    match t {
        Term::Zero => true,
        Term::Succ(a) => is_numeric_val(a),
        _ => false,
    }
}

fn stuck(message: &str) -> (e: EvalError)
    ensures
        e.message@ == message@,
{
    EvalError { message: String::from_str(message) }
}

/// Takes one step of reduction, or reports the leaf at which no rule applies.
pub fn eval1(t: Term) -> (r: Result<Term, EvalError>)
    ensures
        match r {
            Ok(t1) => step(t) == Ok::<Term, Seq<char>>(t1),
            Err(e) => step(t) == Err::<Term, Seq<char>>(e.message@),
        },
    decreases t,
{
    match t {
        Term::If(c, a, b) => match *c {
            Term::True => Ok(*a),
            Term::False => Ok(*b),
            other => match eval1(other) {
                Ok(c1) => Ok(Term::If(Box::new(c1), a, b)),
                Err(e) => Err(e),
            },
        },
        Term::Succ(a) => match eval1(*a) {
            Ok(a1) => Ok(Term::Succ(Box::new(a1))),
            Err(e) => Err(e),
        },
        Term::Pred(a) => match *a {
            Term::Zero => Ok(Term::Zero),
            other => {
                if let Term::Succ(nv) = &other {
                    if is_numeric_val(nv) {
                        return Ok((&**nv).clone());
                    }
                }
                match eval1(other) {
                    Ok(a1) => Ok(Term::Pred(Box::new(a1))),
                    Err(e) => Err(e),
                }
            },
        },
        Term::IsZero(a) => match *a {
            Term::Zero => Ok(Term::True),
            other => {
                if let Term::Succ(nv) = &other {
                    if is_numeric_val(nv) {
                        return Ok(Term::False);
                    }
                }
                match eval1(other) {
                    Ok(a1) => Ok(Term::IsZero(Box::new(a1))),
                    Err(e) => Err(e),
                }
            },
        },
        Term::True => Err(stuck("No rule applies for True")),
        Term::False => Err(stuck("No rule applies for False")),
        Term::Zero => Err(stuck("No rule applies for Zero")),
    }
}

/// Reduces `t` until no rule applies and returns the term reached; a term that
/// does not step comes back as it is.
pub fn eval(t: Term) -> (r: Term)
    ensures
        r == normal_form(t),
        width(r) <= width(t),
    decreases width(t),
{
    proof {
        lemma_step_shrinks(t);
    }
    match eval1(t.clone()) {
        Ok(t1) => eval(t1),
        Err(_) => t,
    }
}

/// The lines joined by line feeds, where a line is taken alone as long as
/// nothing but empty lines came before it.
pub open spec fn join_lines(lines: Seq<Seq<char>>) -> Seq<char>
    decreases lines.len(),
{
    if lines.len() == 0 {
        Seq::empty()
    } else {
        let before = join_lines(lines.drop_last());
        if before.len() == 0 {
            lines.last()
        } else {
            before.push('\n') + lines.last()
        }
    }
}

/// The display text of the normal form of each term.
pub open spec fn results(terms: Seq<Term>) -> Seq<Seq<char>> {
    Seq::new(terms.len(), |i: int| render(normal_form(terms[i])))
}

/// What evaluating a sequence of tokens yields: the results of the terms it
/// spells, one per line, or the parser's message.
pub open spec fn outcome_of_tokens(tokens: Seq<Token>) -> Result<Seq<char>, Seq<char>> {
    match program(tokens) {
        Ok(terms) => Ok(join_lines(results(terms))),
        Err(message) => Err(message),
    }
}

/// What evaluating a text yields: the scanner's message, or what its tokens
/// yield.
pub open spec fn outcome(chars: Seq<char>, blank: Seq<bool>) -> Result<Seq<char>, Seq<char>>
    recommends
        blank.len() == chars.len(),
{
    match lex(chars, blank) {
        Ok(tokens) => outcome_of_tokens(tokens),
        Err(e) => Err(e.0),
    }
}

/// Empty input is no failure: it holds no token, spells no term and yields the
/// empty text.
pub proof fn lemma_empty_input()
    ensures
        lex(Seq::empty(), Seq::empty()) == Ok::<Seq<Token>, (Seq<char>, nat)>(Seq::empty()),
        program(Seq::empty()) == Ok::<Seq<Term>, Seq<char>>(Seq::empty()),
        outcome(Seq::empty(), Seq::empty()) == Ok::<Seq<char>, Seq<char>>(Seq::empty()),
{
    assert(results(Seq::empty()) =~= Seq::<Seq<char>>::empty());
}

/// Whether `r` holds the text, or the message, that `expected` does.
pub open spec fn yields(r: Result<String, String>, expected: Result<Seq<char>, Seq<char>>) -> bool {
    match r {
        Ok(text) => expected == Ok::<Seq<char>, Seq<char>>(text@),
        Err(message) => expected == Err::<Seq<char>, Seq<char>>(message@),
    }
}

/// Parses `tokens`, reduces each term to its normal form and shows the
/// results, one per line.
pub fn run_tokens(tokens: &Vec<Token>) -> (r: Result<String, String>)
    ensures
        yields(r, outcome_of_tokens(tokens@)),
{
    let terms = match parse(tokens) {
        Ok(terms) => terms,
        Err(e) => {
            return Err(e.message);
        },
    };
    let mut values = String::new();
    let mut i: usize = 0;
    while i < terms.len()
        invariant
            i <= terms.len(),
            forall|k: int| 0 <= k < terms.len() ==> width(#[trigger] terms[k]) <= tokens.len(),
            values@ == join_lines(results(terms@.take(i as int))),
        decreases terms.len() - i,
    {
        let value = eval(terms[i].clone()).to_string();
        proof {
            let shown = results(terms@.take(i + 1));
            assert(shown.drop_last() =~= results(terms@.take(i as int)));
            assert(shown.last() == value@);
        }
        if values.as_str().is_empty() {
            values = value;
        } else {
            values.push('\n');
            values.append(value.as_str());
        }
        i += 1;
    }
    assert(terms@.take(terms.len() as int) =~= terms@);
    Ok(values)
}

/// Evaluates the text `chars`, where `blank` marks the characters that
/// separate words.
pub fn run_chars(chars: &Vec<char>, blank: &Vec<bool>) -> (r: Result<String, String>)
    requires
        blank.len() == chars.len(),
    ensures
        yields(r, outcome(chars@, blank@)),
{
    match scan(chars, blank) {
        Ok(tokens) => run_tokens(&tokens),
        Err(e) => Err(e.message),
    }
}

/// Evaluates `source`: scans it with whitespace separating the words, parses
/// the tokens, reduces each term to its normal form and shows the results, one
/// per line. A scanning or parsing failure gives its message instead.
pub fn run(source: &str) -> (r: Result<String, String>)
    ensures
        yields(r, outcome(source@, whitespace_marks(source@))),
{
    let chars = chars_of(source);
    let blank = mark_whitespace(&chars);
    run_chars(&chars, &blank)
}

} // verus!
