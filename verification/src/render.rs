//! The display text of a term.

use vstd::prelude::*;
use vstd::string::*;
use crate::parser::{width, Term};

verus! {

/// The character for the decimal digit `d`.
pub open spec fn digit(d: int) -> char
    recommends
        0 <= d < 10,
{
    "0123456789"@[d]
}

/// The decimal digits of `n`, most significant first, without leading zeros.
pub open spec fn decimal_nat(n: nat) -> Seq<char>
    decreases n,
{
    if n < 10 {
        seq![digit(n as int)]
    } else {
        decimal_nat(n / 10).push(digit(n as int % 10))
    }
}

/// The decimal text of `n`, with a minus sign in front if it is negative.
pub open spec fn decimal(n: int) -> Seq<char> {
    if n < 0 {
        seq!['-'] + decimal_nat((-n) as nat)
    } else {
        decimal_nat(n as nat)
    }
}

/// The display text of `t`.
///
/// A `Succ` is shown as a number where the chain of `Succ` and `Pred` below
/// it ends in `Zero`; see `render_count`.
pub open spec fn render(t: Term) -> Seq<char>
    decreases t, 0int,
{
    match t {
        Term::True => "true"@,
        Term::False => "false"@,
        Term::Zero => "0"@,
        Term::If(c, a, b) => "if "@ + render(*c) + " then "@ + render(*a) + " else "@ + render(*b),
        Term::Succ(a) => render_count(1, *a),
        Term::Pred(a) => "pred "@ + render(*a),
        Term::IsZero(a) => "is_zero "@ + render(*a),
    }
}

/// The display text of what stands under a `Succ`, where `n` is the count so
/// far: each `Succ` on the way down adds one, each `Pred` takes one away, and
/// `Zero` shows the count. Any other term ends the walk: it is shown in
/// brackets after the word `succ`, and the count is dropped.
pub open spec fn render_count(n: int, t: Term) -> Seq<char>
    decreases t, 1int,
{
    match t {
        Term::Zero => decimal(n),
        Term::Succ(s) => render_count(n + 1, *s),
        Term::Pred(s) => render_count(n - 1, *s),
        _ => "(succ "@ + render(t) + ")"@,
    }
}

fn digit_char(d: u128) -> (c: char)
    requires
        d < 10,
    ensures
        c == digit(d as int),
{
    proof {
        reveal_strlit("0123456789");
    }
    "0123456789".get_char(d as usize)
}

/// Appends the decimal digits of `n` to `out`.
fn push_decimal(out: &mut String, n: u128)
    ensures
        final(out)@ == old(out)@ + decimal_nat(n as nat),
    decreases n,
{
    if n >= 10 {
        push_decimal(out, n / 10);
    }
    out.push(digit_char(n % 10));
    assert(final(out)@ =~= old(out)@ + decimal_nat(n as nat));
}

/// Appends the display text of what stands under a `Succ` to `out`.
fn write_count(n: i128, t: &Term, out: &mut String)
    requires
        width(*t) - usize::MAX <= n <= usize::MAX - width(*t),
    ensures
        final(out)@ == old(out)@ + render_count(n as int, *t),
    decreases t, 1int,
{
    match t {
        Term::Zero => {
            if n < 0 {
                out.push('-');
                push_decimal(out, (-n) as u128);
            } else {
                push_decimal(out, n as u128);
            }
            assert(final(out)@ =~= old(out)@ + decimal(n as int));
        },
        Term::Succ(s) => write_count(n + 1, s, out),
        Term::Pred(s) => write_count(n - 1, s, out),
        _ => {
            out.append("(succ ");
            write_term(t, out);
            out.append(")");
            assert(final(out)@ =~= old(out)@ + ("(succ "@ + render(*t) + ")"@));
        },
    }
}

/// Appends the display text of `t` to `out`.
fn write_term(t: &Term, out: &mut String)
    requires
        width(*t) <= usize::MAX,
    ensures
        final(out)@ == old(out)@ + render(*t),
    decreases t, 0int,
{
    match t {
        Term::True => out.append("true"),
        Term::False => out.append("false"),
        Term::Zero => out.append("0"),
        Term::If(c, a, b) => {
            out.append("if ");
            write_term(c, out);
            out.append(" then ");
            write_term(a, out);
            out.append(" else ");
            write_term(b, out);
            assert(final(out)@ =~= old(out)@ + ("if "@ + render(**c) + " then "@ + render(**a)
                + " else "@ + render(**b)));
        },
        Term::Succ(a) => write_count(1, a, out),
        Term::Pred(a) => {
            out.append("pred ");
            write_term(a, out);
            assert(final(out)@ =~= old(out)@ + ("pred "@ + render(**a)));
        },
        Term::IsZero(a) => {
            out.append("is_zero ");
            write_term(a, out);
            assert(final(out)@ =~= old(out)@ + ("is_zero "@ + render(**a)));
        },
    }
}

impl Term {
    /// The display text of the term. The term must not span more tokens than
    /// a `usize` can count.
    pub fn to_string(&self) -> (s: String)
        requires
            width(*self) <= usize::MAX,
        ensures
            s@ == render(*self),
    {
        let mut out = String::new();
        write_term(self, &mut out);
        assert(out@ =~= render(*self));
        out
    }
}

} // verus!
