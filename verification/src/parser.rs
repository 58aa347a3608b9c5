//! Terms, and the recursive-descent parser that builds them from tokens.

use vstd::prelude::*;
use vstd::string::*;
use crate::lexer::Token;

verus! {

/// A term of the language. It is the syntax tree and, once reduced, the value.
#[derive(Debug, PartialEq)]
pub enum Term {
    True,
    False,
    If(Box<Term>, Box<Term>, Box<Term>),
    Zero,
    Succ(Box<Term>),
    Pred(Box<Term>),
    IsZero(Box<Term>),
}

impl Clone for Term {
    /// A copy of the whole tree.
    fn clone(&self) -> (r: Self)
        ensures
            r == *self,
        decreases self,
    {
        match self {
            Term::True => Term::True,
            Term::False => Term::False,
            Term::Zero => Term::Zero,
            Term::Succ(a) => Term::Succ(Box::new((&**a).clone())),
            Term::Pred(a) => Term::Pred(Box::new((&**a).clone())),
            Term::IsZero(a) => Term::IsZero(Box::new((&**a).clone())),
            Term::If(c, a, b) => Term::If(
                Box::new((&**c).clone()),
                Box::new((&**a).clone()),
                Box::new((&**b).clone()),
            ),
        }
    }
}

/// A parsing failure, with its message.
#[derive(Debug, PartialEq)]
pub struct ParseError {
    pub message: String,
}

/// How many tokens spell `t`.
pub open spec fn width(t: Term) -> nat
    decreases t,
{
    match t {
        Term::True | Term::False | Term::Zero => 1,
        Term::Succ(a) | Term::Pred(a) | Term::IsZero(a) => 1 + width(*a),
        Term::If(c, a, b) => 3 + width(*c) + width(*a) + width(*b),
    }
}

/// The message for tokens that end where a term must start.
pub open spec fn incomplete() -> Seq<char> {
    "Invalid program!"@
}

/// The message for a conditional without `Then` after its condition.
pub open spec fn missing_then() -> Seq<char> {
    "Invalid If statement. Missing 'then' clause."@
}

/// The message for a conditional without `Else` after its first branch.
pub open spec fn missing_else() -> Seq<char> {
    "Invalid If statement. Missing 'else' clause."@
}

/// The message for a token that cannot start a term.
pub open spec fn unknown_token(token: Token) -> Seq<char> {
    match token {
        Token::Succ => "Unknown token : Succ"@,
        Token::Pred => "Unknown token : Pred"@,
        Token::Zero => "Unknown token : Zero"@,
        Token::True => "Unknown token : True"@,
        Token::False => "Unknown token : False"@,
        Token::If => "Unknown token : If"@,
        Token::Then => "Unknown token : Then"@,
        Token::Else => "Unknown token : Else"@,
        Token::IsZero => "Unknown token : IsZero"@,
    }
}

/// Whether position `pos` of `tokens` exists and holds `token`.
pub open spec fn holds(tokens: Seq<Token>, pos: int, token: Token) -> bool {
    0 <= pos < tokens.len() && tokens[pos] == token
}

/// The term that starts at position `pos`: the one that begins with the token
/// there. It ends `width` tokens later.
pub open spec fn term_at(tokens: Seq<Token>, pos: int) -> Result<Term, Seq<char>>
    decreases tokens.len() - pos, 0int,
{
    if 0 <= pos < tokens.len() {
        term_after(tokens[pos], tokens, pos + 1)
    } else {
        Err(incomplete())
    }
}

/// The term that begins with `token`, where the tokens after it start at `pos`.
pub open spec fn term_after(token: Token, tokens: Seq<Token>, pos: int) -> Result<
    Term,
    Seq<char>,
>
    decreases tokens.len() - pos, 1int,
{
    match token {
        Token::True => Ok(Term::True),
        Token::False => Ok(Term::False),
        Token::Zero => Ok(Term::Zero),
        Token::IsZero => match term_at(tokens, pos) {
            Ok(a) => Ok(Term::IsZero(Box::new(a))),
            Err(e) => Err(e),
        },
        Token::Succ => match term_at(tokens, pos) {
            Ok(a) => Ok(Term::Succ(Box::new(a))),
            Err(e) => Err(e),
        },
        Token::Pred => match term_at(tokens, pos) {
            Ok(a) => Ok(Term::Pred(Box::new(a))),
            Err(e) => Err(e),
        },
        Token::If => match term_at(tokens, pos) {
            Err(e) => Err(e),
            Ok(c) => {
                let then_at = pos + width(c);
                if !holds(tokens, then_at, Token::Then) {
                    Err(missing_then())
                } else {
                    match term_at(tokens, then_at + 1) {
                        Err(e) => Err(e),
                        Ok(a) => {
                            let else_at = then_at + 1 + width(a);
                            if !holds(tokens, else_at, Token::Else) {
                                Err(missing_else())
                            } else {
                                match term_at(tokens, else_at + 1) {
                                    Err(e) => Err(e),
                                    Ok(b) => Ok(Term::If(Box::new(c), Box::new(a), Box::new(b))),
                                }
                            }
                        },
                    }
                }
            },
        },
        Token::Then | Token::Else => Err(unknown_token(token)),
    }
}

/// The terms that the tokens from `pos` on spell, one after the other with
/// nothing between them, or the first failure.
pub open spec fn terms_from(tokens: Seq<Token>, pos: int) -> Result<Seq<Term>, Seq<char>>
    decreases tokens.len() - pos,
{
    if 0 <= pos < tokens.len() {
        match term_at(tokens, pos) {
            Err(e) => Err(e),
            Ok(t) => if pos + width(t) < tokens.len() {
                match terms_from(tokens, pos + width(t)) {
                    Ok(rest) => Ok(seq![t] + rest),
                    Err(e) => Err(e),
                }
            } else {
                Ok(seq![t])
            },
        }
    } else {
        Ok(Seq::empty())
    }
}

/// The terms that `tokens` spell.
pub open spec fn program(tokens: Seq<Token>) -> Result<Seq<Term>, Seq<char>> {
    terms_from(tokens, 0)
}

/// The tokens that spell `t`.
pub open spec fn spell(t: Term) -> Seq<Token>
    decreases t,
{
    match t {
        Term::True => seq![Token::True],
        Term::False => seq![Token::False],
        Term::Zero => seq![Token::Zero],
        Term::Succ(a) => seq![Token::Succ] + spell(*a),
        Term::Pred(a) => seq![Token::Pred] + spell(*a),
        Term::IsZero(a) => seq![Token::IsZero] + spell(*a),
        Term::If(c, a, b) => seq![Token::If] + spell(*c) + seq![Token::Then] + spell(*a)
            + seq![Token::Else] + spell(*b),
    }
}

/// A term is spelled by as many tokens as its width says.
pub proof fn lemma_spell_len(t: Term)
    ensures
        spell(t).len() == width(t),
    decreases t,
{
    match t {
        Term::Succ(a) | Term::Pred(a) | Term::IsZero(a) => {
            lemma_spell_len(*a);
        },
        Term::If(c, a, b) => {
            lemma_spell_len(*c);
            lemma_spell_len(*a);
            lemma_spell_len(*b);
        },
        _ => {},
    }
}

/// How the spelling of a conditional lies in the tokens: the three parts `sc`,
/// `sa` and `sb`, each after its keyword.
proof fn lemma_if_layout(
    before: Seq<Token>,
    sc: Seq<Token>,
    sa: Seq<Token>,
    sb: Seq<Token>,
    after: Seq<Token>,
)
    ensures
        ({
            let tokens = before + (seq![Token::If] + sc + seq![Token::Then] + sa + seq![
                Token::Else,
            ] + sb) + after;
            let pos = before.len() as int;
            let b1 = before.push(Token::If);
            let b2 = b1 + sc + seq![Token::Then];
            let b3 = b2 + sa + seq![Token::Else];
            &&& tokens == b1 + sc + (seq![Token::Then] + sa + seq![Token::Else] + sb + after)
            &&& tokens == b2 + sa + (seq![Token::Else] + sb + after)
            &&& tokens == b3 + sb + after
            &&& tokens[pos] == Token::If
            &&& tokens[pos + 1 + sc.len()] == Token::Then
            &&& tokens[pos + 2 + sc.len() + sa.len()] == Token::Else
            &&& b1.len() == pos + 1
            &&& b2.len() == pos + 2 + sc.len()
            &&& b3.len() == pos + 3 + sc.len() + sa.len()
            &&& tokens.len() == pos + 3 + sc.len() + sa.len() + sb.len() + after.len()
        }),
{
    let tokens = before + (seq![Token::If] + sc + seq![Token::Then] + sa + seq![Token::Else] + sb)
        + after;
    let b1 = before.push(Token::If);
    let b2 = b1 + sc + seq![Token::Then];
    let b3 = b2 + sa + seq![Token::Else];
    assert(tokens =~= b1 + sc + (seq![Token::Then] + sa + seq![Token::Else] + sb + after));
    assert(tokens =~= b2 + sa + (seq![Token::Else] + sb + after));
    assert(tokens =~= b3 + sb + after);
}

/// A conditional is parsed from its keyword, its three parts and the two
/// keywords between them.
proof fn lemma_parse_if(tokens: Seq<Token>, pos: int, c: Term, a: Term, b: Term)
    requires
        holds(tokens, pos, Token::If),
        term_at(tokens, pos + 1) == Ok::<Term, Seq<char>>(c),
        holds(tokens, pos + 1 + width(c), Token::Then),
        term_at(tokens, pos + 2 + width(c)) == Ok::<Term, Seq<char>>(a),
        holds(tokens, pos + 2 + width(c) + width(a), Token::Else),
        term_at(tokens, pos + 3 + width(c) + width(a)) == Ok::<Term, Seq<char>>(b),
    ensures
        term_at(tokens, pos) == Ok::<Term, Seq<char>>(
            Term::If(Box::new(c), Box::new(a), Box::new(b)),
        ),
{
    assert(term_at(tokens, pos) == term_after(Token::If, tokens, pos + 1));
}

/// Where the spelling of `t` stands in the tokens after `before`, the term
/// that starts there is `t`, whatever stands before and after.
pub proof fn lemma_parse_spelled(before: Seq<Token>, t: Term, after: Seq<Token>)
    ensures
        term_at(before + spell(t) + after, before.len() as int) == Ok::<Term, Seq<char>>(t),
    decreases t,
{
    let tokens = before + spell(t) + after;
    let pos = before.len() as int;
    lemma_spell_len(t);
    match t {
        Term::Succ(a) => {
            assert(tokens =~= before.push(Token::Succ) + spell(*a) + after);
            lemma_parse_spelled(before.push(Token::Succ), *a, after);
        },
        Term::Pred(a) => {
            assert(tokens =~= before.push(Token::Pred) + spell(*a) + after);
            lemma_parse_spelled(before.push(Token::Pred), *a, after);
        },
        Term::IsZero(a) => {
            assert(tokens =~= before.push(Token::IsZero) + spell(*a) + after);
            lemma_parse_spelled(before.push(Token::IsZero), *a, after);
        },
        Term::If(c, a, b) => {
            let sc = spell(*c);
            let sa = spell(*a);
            let sb = spell(*b);
            lemma_if_layout(before, sc, sa, sb, after);
            lemma_spell_len(*c);
            lemma_spell_len(*a);
            lemma_spell_len(*b);
            let b1 = before.push(Token::If);
            let a1 = seq![Token::Then] + sa + seq![Token::Else] + sb + after;
            lemma_parse_spelled(b1, *c, a1);
            let b2 = b1 + sc + seq![Token::Then];
            let a2 = seq![Token::Else] + sb + after;
            lemma_parse_spelled(b2, *a, a2);
            let b3 = b2 + sa + seq![Token::Else];
            lemma_parse_spelled(b3, *b, after);
            lemma_parse_if(tokens, pos, *c, *a, *b);
        },
        _ => {},
    }
}

/// Parsing undoes spelling: the tokens that spell a term parse as that one
/// term.
pub proof fn lemma_parse_spell(t: Term)
    ensures
        program(spell(t)) == Ok::<Seq<Term>, Seq<char>>(seq![t]),
{
    lemma_spell_len(t);
    assert(Seq::<Token>::empty() + spell(t) + Seq::<Token>::empty() =~= spell(t));
    lemma_parse_spelled(Seq::empty(), t, Seq::empty());
}

fn failure(message: &str) -> (r: ParseError)
    ensures
        r.message@ == message@,
{
    ParseError { message: String::from_str(message) }
}

fn unknown_token_error(token: Token) -> (r: ParseError)
    ensures
        r.message@ == unknown_token(token),
{
    match token {
        Token::Succ => failure("Unknown token : Succ"),
        Token::Pred => failure("Unknown token : Pred"),
        Token::Zero => failure("Unknown token : Zero"),
        Token::True => failure("Unknown token : True"),
        Token::False => failure("Unknown token : False"),
        Token::If => failure("Unknown token : If"),
        Token::Then => failure("Unknown token : Then"),
        Token::Else => failure("Unknown token : Else"),
        Token::IsZero => failure("Unknown token : IsZero"),
    }
}

/// Parses the term that starts at position `pos` and returns it with the
/// position after it.
pub fn parse_inner(tokens: &Vec<Token>, pos: usize) -> (r: Result<(Term, usize), ParseError>)
    requires
        pos <= tokens.len(),
    ensures
        match r {
            Ok((t, next)) => term_at(tokens@, pos as int) == Ok::<Term, Seq<char>>(t) && next
                == pos + width(t) && next <= tokens.len(),
            Err(e) => term_at(tokens@, pos as int) == Err::<Term, Seq<char>>(e.message@),
        },
    decreases tokens.len() - pos, 0int,
{
    if pos < tokens.len() {
        parse_term_from_tokens(tokens[pos], tokens, pos + 1)
    } else {
        Err(failure("Invalid program!"))
    }
}

/// Parses the term that begins with `token`, where the tokens after it start
/// at `pos`, and returns it with the position after it.
pub fn parse_term_from_tokens(token: Token, tokens: &Vec<Token>, pos: usize) -> (r: Result<
    (Term, usize),
    ParseError,
>)
    requires
        1 <= pos <= tokens.len(),
    ensures
        match r {
            Ok((t, next)) => term_after(token, tokens@, pos as int) == Ok::<Term, Seq<char>>(t)
                && next == pos - 1 + width(t) && next <= tokens.len(),
            Err(e) => term_after(token, tokens@, pos as int) == Err::<Term, Seq<char>>(
                e.message@,
            ),
        },
    decreases tokens.len() - pos, 1int,
{
    match token {
        Token::True => Ok((Term::True, pos)),
        Token::False => Ok((Term::False, pos)),
        Token::Zero => Ok((Term::Zero, pos)),
        Token::IsZero => match parse_inner(tokens, pos) {
            Ok((a, next)) => Ok((Term::IsZero(Box::new(a)), next)),
            Err(e) => Err(e),
        },
        Token::Succ => match parse_inner(tokens, pos) {
            Ok((a, next)) => Ok((Term::Succ(Box::new(a)), next)),
            Err(e) => Err(e),
        },
        Token::Pred => match parse_inner(tokens, pos) {
            Ok((a, next)) => Ok((Term::Pred(Box::new(a)), next)),
            Err(e) => Err(e),
        },
        Token::If => {
            let (condition, then_at) = match parse_inner(tokens, pos) {
                Ok(found) => found,
                Err(e) => {
                    return Err(e);
                },
            };
            if !(then_at < tokens.len() && tokens[then_at] == Token::Then) {
                return Err(failure("Invalid If statement. Missing 'then' clause."));
            }
            let (true_case, else_at) = match parse_inner(tokens, then_at + 1) {
                Ok(found) => found,
                Err(e) => {
                    return Err(e);
                },
            };
            if !(else_at < tokens.len() && tokens[else_at] == Token::Else) {
                return Err(failure("Invalid If statement. Missing 'else' clause."));
            }
            match parse_inner(tokens, else_at + 1) {
                Ok((false_case, next)) => Ok(
                    (Term::If(Box::new(condition), Box::new(true_case), Box::new(false_case)), next),
                ),
                Err(e) => Err(e),
            }
        },
        Token::Then | Token::Else => Err(unknown_token_error(token)),
    }
}

/// `terms` in front of what `rest` yields; a failure of `rest` stays as it is.
pub open spec fn followed_by(terms: Seq<Term>, rest: Result<Seq<Term>, Seq<char>>) -> Result<
    Seq<Term>,
    Seq<char>,
> {
    match rest {
        Ok(more) => Ok(terms + more),
        Err(e) => Err(e),
    }
}

/// Parses the whole of `tokens` into the terms it spells. Every term spans at
/// most as many tokens as there are.
pub fn parse(tokens: &Vec<Token>) -> (r: Result<Vec<Term>, ParseError>)
    ensures
        match r {
            Ok(terms) => program(tokens@) == Ok::<Seq<Term>, Seq<char>>(terms@) && forall|
                i: int,
            |
                0 <= i < terms.len() ==> width(#[trigger] terms[i]) <= tokens.len(),
            Err(e) => program(tokens@) == Err::<Seq<Term>, Seq<char>>(e.message@),
        },
{
    let mut terms: Vec<Term> = Vec::new();
    let mut pos: usize = 0;
    while pos < tokens.len()
        invariant
            pos <= tokens.len(),
            program(tokens@) == followed_by(terms@, terms_from(tokens@, pos as int)),
            forall|i: int| 0 <= i < terms.len() ==> width(#[trigger] terms[i]) <= tokens.len(),
        decreases tokens.len() - pos,
    {
        match parse_inner(tokens, pos) {
            Err(e) => {
                return Err(e);
            },
            Ok((t, next)) => {
                proof {
                    let rest = if next < tokens.len() {
                        terms_from(tokens@, next as int)
                    } else {
                        Ok(Seq::empty())
                    };
                    assert(terms_from(tokens@, pos as int) == followed_by(seq![t], rest)) by {
                        assert(seq![t] + Seq::<Term>::empty() =~= seq![t]);
                    }
                    if let Ok(more) = rest {
                        assert(terms@ + (seq![t] + more) =~= terms@.push(t) + more);
                    }
                }
                terms.push(t);
                pos = next;
            },
        }
    }
    assert(terms@ + Seq::<Term>::empty() =~= terms@);
    Ok(terms)
}

} // verus!
