//! Numerals, and what scanning, parsing, reducing and showing make of them.

use vstd::prelude::*;
use crate::interpretator::{is_numeric, join_lines, normal_form, outcome, results, step};
use crate::lexer::{lex, lex_from, word_end, word_run, Token};
use crate::parser::{program, term_at, width, Term};
use crate::render::{decimal, render, render_count};

verus! {

/// The numeral for `n`: `Zero` under `n` times `Succ`.
pub open spec fn numeral(n: nat) -> Term
    decreases n,
{
    if n == 0 {
        Term::Zero
    } else {
        Term::Succ(Box::new(numeral((n - 1) as nat)))
    }
}

/// A numeral is a numeric value, spans one token more than it counts, does not
/// step, and so is its own normal form.
pub proof fn lemma_numeral_is_normal(n: nat)
    ensures
        is_numeric(numeral(n)),
        width(numeral(n)) == n + 1,
        step(numeral(n)) is Err,
        normal_form(numeral(n)) == numeral(n),
    decreases n,
{
    if n > 0 {
        lemma_numeral_is_normal((n - 1) as nat);
    }
}

/// Under a count of `k`, the numeral for `n` is shown as the number `k + n`.
pub proof fn lemma_render_count_numeral(k: int, n: nat)
    ensures
        render_count(k, numeral(n)) == decimal(k + n),
    decreases n,
{
    if n > 0 {
        lemma_render_count_numeral(k + 1, (n - 1) as nat);
    }
}

/// The numeral for `n` is shown as the decimal text of `n`.
pub proof fn lemma_render_numeral(n: nat)
    ensures
        render(numeral(n)) == decimal(n as int),
{
    if n == 0 {
        reveal_strlit("0");
        reveal_strlit("0123456789");
        assert(render(numeral(0)) =~= decimal(0));
    } else {
        lemma_render_count_numeral(1, (n - 1) as nat);
    }
}

/// The tokens that spell the numeral for `n`: `n` times `Succ`, then `Zero`.
pub open spec fn numeral_tokens(n: nat) -> Seq<Token> {
    Seq::new(
        n + 1,
        |i: int|
            if i < n {
                Token::Succ
            } else {
                Token::Zero
            },
    )
}

/// The text that spells the numeral for `n`: `n` times the word `succ` with a
/// space after it, then the word `zero`.
pub open spec fn numeral_text(n: nat) -> Seq<char> {
    Seq::new(
        5 * n + 4,
        |i: int|
            if i < 5 * n {
                "succ "@[i % 5]
            } else {
                "zero"@[i - 5 * n]
            },
    )
}

/// From its `k`-th token on, the token sequence of the numeral for `n` spells
/// the numeral for `n - k`.
pub proof fn lemma_parse_numeral_from(n: nat, k: nat)
    requires
        k <= n,
    ensures
        term_at(numeral_tokens(n), k as int) == Ok::<Term, Seq<char>>(numeral((n - k) as nat)),
    decreases n - k,
{
    if k < n {
        lemma_parse_numeral_from(n, k + 1);
    }
}

/// The tokens of the numeral for `n` parse as that one numeral.
pub proof fn lemma_parse_numeral(n: nat)
    ensures
        program(numeral_tokens(n)) == Ok::<Seq<Term>, Seq<char>>(seq![numeral(n)]),
{
    lemma_parse_numeral_from(n, 0);
    lemma_numeral_is_normal(n);
}

/// From its `k`-th word on, the text of the numeral for `n` scans as the
/// tokens of the numeral for `n - k`, whenever spaces count as blank.
pub proof fn lemma_lex_numeral_from(n: nat, k: nat, blank: Seq<bool>)
    requires
        k <= n,
        blank.len() == numeral_text(n).len(),
        forall|i: int| 0 <= i < blank.len() && numeral_text(n)[i] == ' ' ==> blank[i],
    ensures
        lex_from(numeral_text(n), blank, 5 * (k as int)) == Ok::<Seq<Token>, (Seq<char>, nat)>(
            numeral_tokens((n - k) as nat),
        ),
    decreases n - k,
{
    reveal_strlit("succ ");
    reveal_strlit("succ");
    reveal_strlit("pred");
    reveal_strlit("zero");
    reveal_with_fuel(word_run, 5);
    let text = numeral_text(n);
    let from = 5 * (k as int);
    if k < n {
        lemma_lex_numeral_from(n, k + 1, blank);
        assert(text[from] == 's' && text[from + 1] == 'u' && text[from + 2] == 'c' && text[from
            + 3] == 'c' && text[from + 4] == ' ');
        assert(word_end(text, from + 1) == from + 4);
        assert(text.subrange(from, from + 4) =~= "succ"@);
        assert(seq![Token::Succ] + numeral_tokens((n - k - 1) as nat) =~= numeral_tokens(
            (n - k) as nat,
        ));
    } else {
        assert(text[from] == 'z' && text[from + 1] == 'e' && text[from + 2] == 'r' && text[from
            + 3] == 'o');
        assert(word_end(text, from + 1) == from + 4);
        assert(text.subrange(from, from + 4) =~= "zero"@);
        assert("zero"@[0] != "succ"@[0] && "zero"@[0] != "pred"@[0]);
        assert(seq![Token::Zero] =~= numeral_tokens(0));
    }
}

/// Numerals round-trip: the text of the numeral for `n` scans and parses as
/// that numeral, which is its own normal form, and the whole evaluation yields
/// the decimal text of `n`. This holds whenever spaces count as blank.
pub proof fn lemma_numeral_round_trip(n: nat, blank: Seq<bool>)
    requires
        blank.len() == numeral_text(n).len(),
        forall|i: int| 0 <= i < blank.len() && numeral_text(n)[i] == ' ' ==> blank[i],
    ensures
        lex(numeral_text(n), blank) == Ok::<Seq<Token>, (Seq<char>, nat)>(numeral_tokens(n)),
        program(numeral_tokens(n)) == Ok::<Seq<Term>, Seq<char>>(seq![numeral(n)]),
        render(normal_form(numeral(n))) == decimal(n as int),
        outcome(numeral_text(n), blank) == Ok::<Seq<char>, Seq<char>>(decimal(n as int)),
{
    lemma_lex_numeral_from(n, 0, blank);
    lemma_parse_numeral(n);
    lemma_numeral_is_normal(n);
    lemma_render_numeral(n);
    let shown = results(seq![numeral(n)]);
    assert(shown =~= seq![decimal(n as int)]);
    assert(shown.drop_last() =~= Seq::<Seq<char>>::empty());
    assert(join_lines(shown.drop_last()) =~= Seq::<char>::empty());
    assert(join_lines(shown) == decimal(n as int));
}

} // verus!
