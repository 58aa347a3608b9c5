//! The scanner: from text to the sequence of keyword tokens it spells.

use vstd::prelude::*;
use vstd::string::*;
use vstd::std_specs::iter::IteratorSpec;

verus! {

/// The keywords of the language.
#[derive(Clone, Copy, Debug, PartialEq, Eq, Structural)]
pub enum Token {
    Succ,
    Pred,
    Zero,
    True,
    False,
    If,
    Then,
    Else,
    IsZero,
}

/// A scanning failure: what went wrong and the 1-based offset of the character
/// (or of the first character of the word) at fault.
#[derive(Debug)]
pub struct SyntaxError {
    pub message: String,
    pub position: usize,
}

/// What the scanner yields: the tokens, or a message with its offset.
pub type Scanned = Result<Seq<Token>, (Seq<char>, nat)>;

/// Whether `c` has the Unicode `White_Space` property, as `char::is_whitespace`
/// decides it.
pub uninterp spec fn is_whitespace(c: char) -> bool;

/// `char::is_whitespace` is a function of the character alone; its answer is
/// the one that `is_whitespace` names.
pub assume_specification[ char::is_whitespace ](c: char) -> (b: bool)
    ensures
        b == is_whitespace(c),
;

/// `String::push` appends the given character to the end of the string.
pub assume_specification[ String::push ](s: &mut String, c: char)
    ensures
        final(s)@ == old(s)@.push(c),
;

/// Whether `c` is an ASCII letter: only a letter starts a word.
pub open spec fn is_letter(c: char) -> bool {
    ('a' <= c && c <= 'z') || ('A' <= c && c <= 'Z')
}

/// Whether `c` can stand inside a word: an ASCII letter or an underscore.
pub open spec fn is_word_char(c: char) -> bool {
    is_letter(c) || c == '_'
}

/// How many word characters stand in a row from position `from` on.
pub open spec fn word_run(chars: Seq<char>, from: int) -> nat
    decreases chars.len() - from,
{
    if 0 <= from < chars.len() && is_word_char(chars[from]) {
        1 + word_run(chars, from + 1)
    } else {
        0
    }
}

/// The first position at or after `from` that holds no word character (the
/// length of `chars` if there is none).
pub open spec fn word_end(chars: Seq<char>, from: int) -> int {
    from + word_run(chars, from)
}

/// The token that a word spells, if it is a keyword.
pub open spec fn keyword(word: Seq<char>) -> Option<Token> {
    if word == "succ"@ {
        Some(Token::Succ)
    } else if word == "pred"@ {
        Some(Token::Pred)
    } else if word == "zero"@ {
        Some(Token::Zero)
    } else if word == "true"@ {
        Some(Token::True)
    } else if word == "false"@ {
        Some(Token::False)
    } else if word == "is_zero"@ {
        Some(Token::IsZero)
    } else if word == "if"@ {
        Some(Token::If)
    } else if word == "then"@ {
        Some(Token::Then)
    } else if word == "else"@ {
        Some(Token::Else)
    } else {
        None
    }
}

/// The message for a character that cannot stand where it does.
pub open spec fn invalid_character(c: char) -> Seq<char> {
    "Invalid character : "@.push(c)
}

/// The message for a word that is no keyword.
pub open spec fn invalid_keyword(word: Seq<char>) -> Seq<char> {
    "Invalid keyword : "@ + word
}

/// `tokens` in front of what `rest` yields; a failure of `rest` stays as it is.
pub open spec fn prepend(tokens: Seq<Token>, rest: Scanned) -> Scanned {
    match rest {
        Ok(more) => Ok(tokens + more),
        Err(e) => Err(e),
    }
}

/// Scanning `chars` from position `from` on, where `blank[i]` tells whether
/// `chars[i]` separates words.
///
/// A letter starts a word, which runs over letters and underscores. The
/// character after a word must be blank (or the input ends there) and is
/// consumed with it; the word must be a keyword. Blanks between words are
/// skipped. Anything else is a failure at that character.
pub open spec fn lex_from(chars: Seq<char>, blank: Seq<bool>, from: int) -> Scanned
    recommends
        blank.len() == chars.len(),
    decreases chars.len() - from,
{
    if from < 0 || from >= chars.len() {
        Ok(Seq::empty())
    } else if is_letter(chars[from]) {
        let end = word_end(chars, from + 1);
        let word = chars.subrange(from, end);
        if end < chars.len() && !blank[end] {
            Err((invalid_character(chars[end]), (end + 1) as nat))
        } else {
            match keyword(word) {
                None => Err((invalid_keyword(word), (from + 1) as nat)),
                Some(token) => if end < chars.len() {
                    prepend(seq![token], lex_from(chars, blank, end + 1))
                } else {
                    Ok(seq![token])
                },
            }
        }
    } else if blank[from] {
        lex_from(chars, blank, from + 1)
    } else {
        Err((invalid_character(chars[from]), (from + 1) as nat))
    }
}

/// The tokens that `chars` spells, or the first failure.
pub open spec fn lex(chars: Seq<char>, blank: Seq<bool>) -> Scanned
    recommends
        blank.len() == chars.len(),
{
    lex_from(chars, blank, 0)
}

/// A word that is looked for before a character that is no word character
/// ends at that character at the latest, and ends at the same place in the
/// text cut off there.
pub proof fn lemma_word_ends_by(chars: Seq<char>, from: int, stop: int)
    requires
        0 <= from <= stop < chars.len(),
        !is_word_char(chars[stop]),
    ensures
        from <= word_end(chars, from) <= stop,
        word_end(chars.take(stop), from) == word_end(chars, from),
    decreases stop - from,
{
    if from < stop && is_word_char(chars[from]) {
        lemma_word_ends_by(chars, from + 1, stop);
    }
}

/// Scanning from `from` on fails at the character at `at`, which is neither a
/// word character nor blank, if the text before it scans from `from` on
/// without failure.
pub proof fn lemma_bad_character_from(chars: Seq<char>, blank: Seq<bool>, from: int, at: int)
    requires
        blank.len() == chars.len(),
        0 <= from <= at < chars.len(),
        !is_word_char(chars[at]),
        !blank[at],
        lex_from(chars.take(at), blank.take(at), from) is Ok,
    ensures
        lex_from(chars, blank, from) == Err::<Seq<Token>, (Seq<char>, nat)>(
            (invalid_character(chars[at]), (at + 1) as nat),
        ),
    decreases at - from,
{
    if from == at {
    } else if is_letter(chars[from]) {
        lemma_word_ends_by(chars, from + 1, at);
        let end = word_end(chars, from + 1);
        if end < at {
            assert(chars.take(at).subrange(from, end) =~= chars.subrange(from, end));
            lemma_bad_character_from(chars, blank, end + 1, at);
        }
    } else {
        lemma_bad_character_from(chars, blank, from + 1, at);
    }
}

/// A character that is neither a word character nor blank makes scanning fail
/// at that character, with its index plus one as the offset, if the text
/// before it scans without failure.
pub proof fn lemma_bad_character(chars: Seq<char>, blank: Seq<bool>, at: int)
    requires
        blank.len() == chars.len(),
        0 <= at < chars.len(),
        !is_word_char(chars[at]),
        !blank[at],
        lex(chars.take(at), blank.take(at)) is Ok,
    ensures
        lex(chars, blank) == Err::<Seq<Token>, (Seq<char>, nat)>(
            (invalid_character(chars[at]), (at + 1) as nat),
        ),
{
    lemma_bad_character_from(chars, blank, 0, at);
}

/// Scanning resumes after a cut that splits no word: if the text before `cut`
/// scans from `from` on without failure, the whole text yields those tokens
/// and then what it yields from `cut` on.
pub proof fn lemma_scan_resumes(chars: Seq<char>, blank: Seq<bool>, from: int, cut: int)
    requires
        blank.len() == chars.len(),
        0 <= from <= cut <= chars.len(),
        cut == 0 || !is_word_char(chars[cut - 1]),
        lex_from(chars.take(cut), blank.take(cut), from) is Ok,
    ensures
        lex_from(chars, blank, from) == prepend(
            lex_from(chars.take(cut), blank.take(cut), from)->Ok_0,
            lex_from(chars, blank, cut),
        ),
    decreases cut - from,
{
    let head = chars.take(cut);
    let marks = blank.take(cut);
    let rest = lex_from(chars, blank, cut);
    if from == cut {
        if let Ok(more) = rest {
            assert(Seq::<Token>::empty() + more =~= more);
        }
    } else if is_letter(chars[from]) {
        lemma_word_ends_by(chars, from + 1, cut - 1);
        lemma_word_ends_by(head, from + 1, cut - 1);
        assert(head.take(cut - 1) =~= chars.take(cut - 1));
        let end = word_end(chars, from + 1);
        assert(head.subrange(from, end) =~= chars.subrange(from, end));
        let token = keyword(chars.subrange(from, end))->Some_0;
        lemma_scan_resumes(chars, blank, end + 1, cut);
        let tail = lex_from(head, marks, end + 1)->Ok_0;
        if let Ok(more) = rest {
            assert(seq![token] + (tail + more) =~= (seq![token] + tail) + more);
        }
    } else {
        lemma_scan_resumes(chars, blank, from + 1, cut);
    }
}

/// A character that is neither a word character nor blank and stands directly
/// after a word makes scanning fail at that character, whatever the word is,
/// if the text before the word scans without failure.
pub proof fn lemma_bad_character_after_word(
    chars: Seq<char>,
    blank: Seq<bool>,
    start: int,
    at: int,
)
    requires
        blank.len() == chars.len(),
        0 <= start < at < chars.len(),
        !is_word_char(chars[at]),
        !blank[at],
        is_letter(chars[start]),
        forall|k: int| start < k < at ==> is_word_char(#[trigger] chars[k]),
        start == 0 || !is_word_char(chars[start - 1]),
        lex(chars.take(start), blank.take(start)) is Ok,
    ensures
        lex(chars, blank) == Err::<Seq<Token>, (Seq<char>, nat)>(
            (invalid_character(chars[at]), (at + 1) as nat),
        ),
{
    lemma_scan_resumes(chars, blank, 0, start);
    lemma_word_reaches(chars, start + 1, at);
}

/// A word runs on as long as word characters follow.
pub proof fn lemma_word_reaches(chars: Seq<char>, from: int, to: int)
    requires
        0 <= from <= to <= chars.len(),
        forall|k: int| from <= k < to ==> is_word_char(#[trigger] chars[k]),
    ensures
        word_end(chars, from) == word_end(chars, to),
    decreases to - from,
{
    if from < to {
        lemma_word_reaches(chars, from + 1, to);
    }
}

/// Scanning from `from` on fails, at the latest at the character at `at`, if
/// that character is neither a word character nor blank.
pub proof fn lemma_bad_character_fails_from(
    chars: Seq<char>,
    blank: Seq<bool>,
    from: int,
    at: int,
)
    requires
        blank.len() == chars.len(),
        0 <= from <= at < chars.len(),
        !is_word_char(chars[at]),
        !blank[at],
    ensures
        lex_from(chars, blank, from) is Err,
        from < lex_from(chars, blank, from)->Err_0.1 <= at + 1,
    decreases at - from,
{
    if from == at {
    } else if is_letter(chars[from]) {
        lemma_word_ends_by(chars, from + 1, at);
        let end = word_end(chars, from + 1);
        if end < at && blank[end] && keyword(chars.subrange(from, end)) is Some {
            lemma_bad_character_fails_from(chars, blank, end + 1, at);
        }
    } else if blank[from] {
        lemma_bad_character_fails_from(chars, blank, from + 1, at);
    }
}

/// A text that holds a character that is neither a word character nor blank
/// does not scan: scanning fails at that character or before it.
pub proof fn lemma_bad_character_fails(chars: Seq<char>, blank: Seq<bool>, at: int)
    requires
        blank.len() == chars.len(),
        0 <= at < chars.len(),
        !is_word_char(chars[at]),
        !blank[at],
    ensures
        lex(chars, blank) is Err,
        1 <= lex(chars, blank)->Err_0.1 <= at + 1,
{
    lemma_bad_character_fails_from(chars, blank, 0, at);
}

/// For each character of `chars`, whether it is whitespace.
pub open spec fn whitespace_marks(chars: Seq<char>) -> Seq<bool> {
    Seq::new(chars.len(), |i: int| is_whitespace(chars[i]))
}

fn is_letter_char(c: char) -> (b: bool)
    ensures
        b == is_letter(c),
{
    (c >= 'a' && c <= 'z') || (c >= 'A' && c <= 'Z')
}

/// The characters of `source`, in order.
pub fn chars_of(source: &str) -> (chars: Vec<char>)
    ensures
        chars@ == source@,
{
    broadcast use {axiom_spec_iter, next_postcondition};

    let mut chars: Vec<char> = Vec::new();
    let mut rest = source.chars();
    loop
        invariant
            chars@ + rest.remaining() == source@,
            rest.obeys_prophetic_iter_laws(),
            rest.decrease() is Some,
        decreases rest.decrease()->0,
    {
        let ghost before = rest.remaining();
        match rest.next() {
            Some(c) => {
                chars.push(c);
                assert(chars@ + rest.remaining() =~= source@) by {
                    assert(before =~= seq![c] + before.drop_first());
                }
            },
            None => {
                assert(chars@ =~= source@);
                return chars;
            },
        }
    }
}

/// For each character, the answer of `char::is_whitespace`.
pub fn mark_whitespace(chars: &Vec<char>) -> (blank: Vec<bool>)
    ensures
        blank@ == whitespace_marks(chars@),
{
    let mut blank: Vec<bool> = Vec::new();
    let mut i: usize = 0;
    while i < chars.len()
        invariant
            i <= chars.len(),
            blank.len() == i,
            forall|k: int| 0 <= k < i ==> blank@[k] == is_whitespace(chars@[k]),
        decreases chars.len() - i,
    {
        blank.push(chars[i].is_whitespace());
        i += 1;
    }
    assert(blank@ =~= whitespace_marks(chars@));
    blank
}

/// Whether the characters from `from` up to `to` spell `word`.
fn spells(chars: &Vec<char>, from: usize, to: usize, word: &str) -> (b: bool)
    requires
        from <= to <= chars.len(),
    ensures
        b == (chars@.subrange(from as int, to as int) == word@),
{
    let n = word.unicode_len();
    if to - from != n {
        return false;
    }
    let mut k: usize = 0;
    while k < n
        invariant
            from + n == to,
            to <= chars.len(),
            k <= n,
            n == word@.len(),
            forall|m: int| 0 <= m < k ==> chars@[from + m] == word@[m],
        decreases n - k,
    {
        if chars[from + k] != word.get_char(k) {
            assert(chars@.subrange(from as int, to as int)[k as int] != word@[k as int]);
            return false;
        }
        k += 1;
    }
    assert(chars@.subrange(from as int, to as int) =~= word@);
    true
}

/// The keyword that the characters from `from` up to `to` spell.
fn keyword_at(chars: &Vec<char>, from: usize, to: usize) -> (token: Option<Token>)
    requires
        from <= to <= chars.len(),
    ensures
        token == keyword(chars@.subrange(from as int, to as int)),
{
    if spells(chars, from, to, "succ") {
        Some(Token::Succ)
    } else if spells(chars, from, to, "pred") {
        Some(Token::Pred)
    } else if spells(chars, from, to, "zero") {
        Some(Token::Zero)
    } else if spells(chars, from, to, "true") {
        Some(Token::True)
    } else if spells(chars, from, to, "false") {
        Some(Token::False)
    } else if spells(chars, from, to, "is_zero") {
        Some(Token::IsZero)
    } else if spells(chars, from, to, "if") {
        Some(Token::If)
    } else if spells(chars, from, to, "then") {
        Some(Token::Then)
    } else if spells(chars, from, to, "else") {
        Some(Token::Else)
    } else {
        None
    }
}

fn invalid_character_error(c: char, index: usize) -> (e: SyntaxError)
    requires
        index < usize::MAX,
    ensures
        e.message@ == invalid_character(c),
        e.position == index + 1,
{
    let mut message = String::from_str("Invalid character : ");
    message.push(c);
    SyntaxError { message, position: index + 1 }
}

fn invalid_keyword_error(chars: &Vec<char>, from: usize, to: usize) -> (e: SyntaxError)
    requires
        from < to <= chars.len(),
    ensures
        e.message@ == invalid_keyword(chars@.subrange(from as int, to as int)),
        e.position == from + 1,
{
    let mut message = String::from_str("Invalid keyword : ");
    let mut k: usize = from;
    while k < to
        invariant
            from <= k <= to <= chars.len(),
            message@ == "Invalid keyword : "@ + chars@.subrange(from as int, k as int),
        decreases to - k,
    {
        message.push(chars[k]);
        assert(chars@.subrange(from as int, k + 1) =~= chars@.subrange(from as int, k as int).push(
            chars@[k as int],
        ));
        assert(message@ =~= "Invalid keyword : "@ + chars@.subrange(from as int, k + 1));
        k += 1;
    }
    SyntaxError { message, position: from + 1 }
}

/// Scans `chars`, where `blank` marks the characters that separate words.
pub fn scan(chars: &Vec<char>, blank: &Vec<bool>) -> (r: Result<Vec<Token>, SyntaxError>)
    requires
        blank.len() == chars.len(),
    ensures
        match r {
            Ok(tokens) => lex(chars@, blank@) == Ok::<Seq<Token>, (Seq<char>, nat)>(tokens@),
            Err(e) => lex(chars@, blank@) == Err::<Seq<Token>, (Seq<char>, nat)>(
                (e.message@, e.position as nat),
            ),
        },
{
    let n = chars.len();
    let mut tokens: Vec<Token> = Vec::new();
    let mut i: usize = 0;
    while i < n
        invariant
            n == chars.len(),
            blank.len() == n,
            i <= n,
            lex(chars@, blank@) == prepend(tokens@, lex_from(chars@, blank@, i as int)),
        decreases n - i,
    {
        let c = chars[i];
        if is_letter_char(c) {
            let mut j: usize = i + 1;
            while j < n && (is_letter_char(chars[j]) || chars[j] == '_')
                invariant
                    n == chars.len(),
                    i < j <= n,
                    word_end(chars@, j as int) == word_end(chars@, i + 1),
                decreases n - j,
            {
                j += 1;
            }
            if j < n && !blank[j] {
                return Err(invalid_character_error(chars[j], j));
            }
            match keyword_at(chars, i, j) {
                None => {
                    return Err(invalid_keyword_error(chars, i, j));
                },
                Some(token) => {
                    let ghost before = tokens@;
                    tokens.push(token);
                    proof {
                        let rest = if j < n {
                            lex_from(chars@, blank@, j + 1)
                        } else {
                            Ok(Seq::empty())
                        };
                        assert(lex_from(chars@, blank@, i as int) == prepend(seq![token], rest));
                        if let Ok(more) = rest {
                            assert(before + (seq![token] + more) =~= tokens@ + more);
                        }
                    }
                    i = if j < n {
                        j + 1
                    } else {
                        j
                    };
                },
            }
        } else if blank[i] {
            i += 1;
        } else {
            return Err(invalid_character_error(c, i));
        }
    }
    assert(tokens@ + Seq::<Token>::empty() =~= tokens@);
    Ok(tokens)
}

/// Scans `source`, with whitespace separating the words.
pub fn tokenize(source: &str) -> (r: Result<Vec<Token>, SyntaxError>)
    ensures
        match r {
            Ok(tokens) => lex(source@, whitespace_marks(source@)) == Ok::<
                Seq<Token>,
                (Seq<char>, nat),
            >(tokens@),
            Err(e) => lex(source@, whitespace_marks(source@)) == Err::<
                Seq<Token>,
                (Seq<char>, nat),
            >((e.message@, e.position as nat)),
        },
{
    let chars = chars_of(source);
    let blank = mark_whitespace(&chars);
    scan(&chars, &blank)
}

} // verus!
