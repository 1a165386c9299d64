//! The tokenizer: raw source text to a flat token sequence.
//!
//! A `(` or `)` is always its own token; every other maximal run of
//! non-space, non-parenthesis characters is one word. A word is classified
//! as `#t`, `#f`, `nil`, `'`, a signed 32-bit decimal integer, or — the
//! lenient default — a symbol. A word shaped like an integer whose value
//! does not fit in 32 bits is a malformed literal, not a symbol.

use vstd::prelude::*;
use vstd::string::StrSliceExecFns;

use crate::ast::{Token, TokenV, tokens_v};
use crate::errors::{ErrV, EvalError};

verus! {

/// Whitespace: the characters that separate words.
pub open spec fn is_space(c: char) -> bool {
    c == ' ' || c == '\t' || c == '\n' || c == '\r' || c == '\u{0B}' || c == '\u{0C}'
}

/// A character that continues a word: anything but whitespace or a
/// parenthesis.
pub open spec fn is_word_char(c: char) -> bool {
    !is_space(c) && c != '(' && c != ')'
}

/// An ASCII decimal digit.
pub open spec fn is_digit(c: char) -> bool {
    48 <= c as u32 <= 57
}

/// The numeric value of an ASCII decimal digit.
pub open spec fn digit_val(c: char) -> int {
    c as u32 - 48
}

/// Every character is a digit and there is at least one.
pub open spec fn is_digits(w: Seq<char>) -> bool {
    w.len() > 0 && forall|i: int| 0 <= i < w.len() ==> is_digit(w[i])
}

/// The value of an unsigned digit string.
pub open spec fn digits_val(w: Seq<char>) -> int
    decreases w.len(),
{
    if w.len() == 0 {
        0
    } else {
        digits_val(w.drop_last()) * 10 + digit_val(w.last())
    }
}

/// The word is an optional sign followed by one or more digits: the shape
/// accepted by the standard signed decimal parser.
pub open spec fn is_int_shape(w: Seq<char>) -> bool {
    if w.len() > 0 && (w[0] == '+' || w[0] == '-') {
        is_digits(w.drop_first())
    } else {
        is_digits(w)
    }
}

/// The signed value of an integer-shaped word.
pub open spec fn int_val(w: Seq<char>) -> int {
    if w.len() > 0 && w[0] == '-' {
        -digits_val(w.drop_first())
    } else if w.len() > 0 && w[0] == '+' {
        digits_val(w.drop_first())
    } else {
        digits_val(w)
    }
}

/// How one word is classified. An integer-shaped word outside the `i32`
/// range fails; any other unrecognized word is a symbol.
pub open spec fn classify_word(w: Seq<char>) -> Result<TokenV, ErrV> {
    if w == "#t"@ {
        Ok(TokenV::True)
    } else if w == "#f"@ {
        Ok(TokenV::False)
    } else if w == "nil"@ {
        Ok(TokenV::Nil)
    } else if w == "'"@ {
        Ok(TokenV::Quote)
    } else if is_int_shape(w) {
        if -2147483648 <= int_val(w) <= 2147483647 {
            Ok(TokenV::Int(int_val(w)))
        } else {
            Err(ErrV::MalformedSyntax)
        }
    } else {
        Ok(TokenV::Symbol(w))
    }
}

/// The length of the word starting at the head of `s`.
pub open spec fn word_len(s: Seq<char>) -> nat
    decreases s.len(),
{
    if s.len() == 0 || !is_word_char(s[0]) {
        0
    } else {
        1 + word_len(s.drop_first())
    }
}

/// Prepend a token to a tokenization outcome.
pub open spec fn tok_cons(t: TokenV, rest: Result<Seq<TokenV>, ErrV>) -> Result<
    Seq<TokenV>,
    ErrV,
> {
    match rest {
        Ok(ts) => Ok(seq![t] + ts),
        Err(e) => Err(e),
    }
}

/// Prepend already-produced tokens to a tokenization outcome.
pub open spec fn tok_append(acc: Seq<TokenV>, rest: Result<Seq<TokenV>, ErrV>) -> Result<
    Seq<TokenV>,
    ErrV,
> {
    match rest {
        Ok(ts) => Ok(acc + ts),
        Err(e) => Err(e),
    }
}

/// The model of tokenization: skip spaces, emit parenthesis tokens, and
/// classify each maximal word.
pub open spec fn spec_tokenize(s: Seq<char>) -> Result<Seq<TokenV>, ErrV>
    decreases s.len(),
    via spec_tokenize_dec
{
    if s.len() == 0 {
        Ok(Seq::empty())
    } else if is_space(s[0]) {
        spec_tokenize(s.drop_first())
    } else if s[0] == '(' {
        tok_cons(TokenV::LParen, spec_tokenize(s.drop_first()))
    } else if s[0] == ')' {
        tok_cons(TokenV::RParen, spec_tokenize(s.drop_first()))
    } else {
        // The head is a word character, so this is word_len(s), at least 1.
        let w = 1 + word_len(s.drop_first());
        match classify_word(s.take(w as int)) {
            Ok(t) => tok_cons(t, spec_tokenize(s.skip(w as int))),
            Err(e) => Err(e),
        }
    }
}

/// A word never extends past the end of the text.
proof fn lemma_word_len_le(s: Seq<char>)
    ensures
        word_len(s) <= s.len(),
    decreases s.len(),
{
    if s.len() > 0 && is_word_char(s[0]) {
        lemma_word_len_le(s.drop_first());
    }
}

#[via_fn]
proof fn spec_tokenize_dec(s: Seq<char>) {
    if s.len() > 0 && !is_space(s[0]) && s[0] != '(' && s[0] != ')' {
        lemma_word_len_le(s.drop_first());
    }
}

/// Prepending tokens already produced changes nothing when none were.
proof fn lemma_tok_append_empty(x: Result<Seq<TokenV>, ErrV>)
    ensures
        tok_append(Seq::empty(), x) == x,
{
    match x {
        Ok(ts) => {
            assert(Seq::<TokenV>::empty() + ts =~= ts);
        },
        Err(_) => {},
    }
}

/// Whether two string slices hold the same characters.
pub(crate) fn str_eq(a: &str, b: &str) -> (r: bool)
    ensures
        r == (a@ == b@),
{
    let sa: String = a.to_owned();
    let sb: String = b.to_owned();
    sa.eq(&sb)
}

/// Whether a character separates words.
fn space_char(c: char) -> (r: bool)
    ensures
        r == is_space(c),
{
    c == ' ' || c == '\t' || c == '\n' || c == '\r' || c == '\u{0B}' || c == '\u{0C}'
}

/// Whether a character continues a word.
fn word_char(c: char) -> (r: bool)
    ensures
        r == is_word_char(c),
{
    !space_char(c) && c != '(' && c != ')'
}

/// The value of an all-digit string is never negative.
proof fn lemma_digits_val_nonneg(w: Seq<char>)
    requires
        forall|i: int| 0 <= i < w.len() ==> is_digit(w[i]),
    ensures
        digits_val(w) >= 0,
    decreases w.len(),
{
    if w.len() > 0 {
        lemma_digits_val_nonneg(w.drop_last());
    }
}

/// Extending a digit string by one digit multiplies its value by ten and
/// adds the digit.
proof fn lemma_digits_val_step(w: Seq<char>, k: int)
    requires
        0 <= k < w.len(),
    ensures
        digits_val(w.take(k + 1)) == digits_val(w.take(k)) * 10 + digit_val(w[k]),
{
    assert(w.take(k + 1).drop_last() =~= w.take(k));
    assert(w.take(k + 1).last() == w[k]);
}

/// The word length is exactly the position of the first non-word character.
proof fn lemma_word_len_eq(s: Seq<char>, m: int)
    requires
        0 <= m <= s.len(),
        forall|k: int| 0 <= k < m ==> is_word_char(s[k]),
        m == s.len() || !is_word_char(s[m]),
    ensures
        word_len(s) == m,
    decreases m,
{
    if m > 0 {
        lemma_word_len_eq(s.drop_first(), m - 1);
    }
}

/// Classify one word, producing its token. Relied on by `tokenize` for
/// everything between the parentheses.
fn word_token(w: &str) -> (r: Result<Token, EvalError>)
    ensures
        match (classify_word(w@), r) {
            (Ok(tv), Ok(t)) => t@ == tv,
            (Err(ev), Err(e)) => e@ == ev,
            _ => false,
        },
{
    if str_eq(w, "#t") {
        return Ok(Token::True);
    }
    if str_eq(w, "#f") {
        return Ok(Token::False);
    }
    if str_eq(w, "nil") {
        return Ok(Token::Nil);
    }
    if str_eq(w, "'") {
        return Ok(Token::Quote);
    }
    let n = w.unicode_len();
    let ghost dw: Seq<char> = if n > 0 && (w@[0] == '+' || w@[0] == '-') {
        w@.drop_first()
    } else {
        w@
    };
    let mut start: usize = 0;
    if n > 0 {
        let c0 = w.get_char(0);
        if c0 == '+' || c0 == '-' {
            start = 1;
        }
    }
    if n == start {
        // Empty word or a bare sign: not integer-shaped, so a symbol.
        return Ok(Token::Symbol(w.to_owned()));
    }
    let mut k: usize = start;
    let mut acc: u64 = 0;
    let mut overflow = false;
    while k < n
        invariant
            w@ != "#t"@ && w@ != "#f"@ && w@ != "nil"@ && w@ != "'"@,
            start <= 1,
            start <= k <= n,
            n == w@.len(),
            start == 1 ==> (w@[0] == '+' || w@[0] == '-') && dw == w@.drop_first(),
            start == 0 ==> !(n > 0 && (w@[0] == '+' || w@[0] == '-')) && dw == w@,
            dw.len() == n - start,
            forall|j: int| 0 <= j < k - start ==> is_digit(dw[j]),
            !overflow ==> acc == digits_val(dw.take(k - start)) && acc <= 2147483648,
            overflow ==> digits_val(dw.take(k - start)) > 2147483648,
        decreases n - k,
    {
        let c = w.get_char(k);
        proof {
            assert(dw[k - start] == w@[k as int]);
        }
        let u = c as u32;
        if u < 48 || u > 57 {
            // A non-digit after the sign: the word is not integer-shaped.
            assert(!is_digit(dw[k - start]));
            assert(!is_digits(dw));
            return Ok(Token::Symbol(w.to_owned()));
        }
        proof {
            lemma_digits_val_step(dw, k - start);
            lemma_digits_val_nonneg(dw.take(k - start));
        }
        if !overflow {
            let acc2 = acc * 10 + (u - 48) as u64;
            if acc2 > 2147483648 {
                overflow = true;
            } else {
                acc = acc2;
            }
        }
        k = k + 1;
    }
    proof {
        assert(dw.take(n - start) =~= dw);
        assert(is_digits(dw));
        assert(is_int_shape(w@));
    }
    if overflow {
        return Err(EvalError::MalformedSyntax);
    }
    if start == 1 {
        let c0 = w.get_char(0);
        if c0 == '-' {
            if acc == 2147483648 {
                return Ok(Token::Int(i32::MIN));
            }
            return Ok(Token::Int(-(acc as i32)));
        }
        if acc > 2147483647 {
            return Err(EvalError::MalformedSyntax);
        }
        return Ok(Token::Int(acc as i32));
    }
    if acc > 2147483647 {
        return Err(EvalError::MalformedSyntax);
    }
    Ok(Token::Int(acc as i32))
}

/// Tokenize one line of source text. Total but for integer literals outside
/// the 32-bit range, which are malformed syntax.
pub fn tokenize(program: &str) -> (r: Result<Vec<Token>, EvalError>)
    ensures
        match (spec_tokenize(program@), r) {
            (Ok(ts), Ok(v)) => tokens_v(v@) == ts,
            (Err(ev), Err(e)) => e@ == ev,
            _ => false,
        },
{
    let n = program.unicode_len();
    let mut toks: Vec<Token> = Vec::new();
    let mut i: usize = 0;
    proof {
        assert(program@.skip(0) =~= program@);
        assert(tokens_v(toks@) =~= Seq::<TokenV>::empty());
        lemma_tok_append_empty(spec_tokenize(program@));
    }
    while i < n
        invariant
            i <= n,
            n == program@.len(),
            spec_tokenize(program@) == tok_append(
                tokens_v(toks@),
                spec_tokenize(program@.skip(i as int)),
            ),
        decreases n - i,
    {
        let ghost rest = program@.skip(i as int);
        let c = program.get_char(i);
        if space_char(c) {
            proof {
                assert(rest.drop_first() =~= program@.skip(i as int + 1));
            }
            i = i + 1;
        } else if c == '(' {
            proof {
                assert(rest.drop_first() =~= program@.skip(i as int + 1));
                lemma_push_token(toks@, Token::LParen, TokenV::LParen, program@, rest.drop_first());
            }
            toks.push(Token::LParen);
            i = i + 1;
        } else if c == ')' {
            proof {
                assert(rest.drop_first() =~= program@.skip(i as int + 1));
                lemma_push_token(toks@, Token::RParen, TokenV::RParen, program@, rest.drop_first());
            }
            toks.push(Token::RParen);
            i = i + 1;
        } else {
            let mut j = i + 1;
            while j < n && word_char(program.get_char(j))
                invariant
                    i < j <= n,
                    n == program@.len(),
                    forall|k: int| i < k < j ==> is_word_char(program@[k]),
                decreases n - j,
            {
                j = j + 1;
            }
            proof {
                lemma_word_len_eq(rest, j - i);
                assert(rest.take(j - i) =~= program@.subrange(i as int, j as int));
                assert(rest.skip(j - i) =~= program@.skip(j as int));
            }
            let word = program.substring_char(i, j);
            match word_token(word) {
                Ok(t) => {
                    proof {
                        lemma_push_token(toks@, t, t@, program@, program@.skip(j as int));
                    }
                    toks.push(t);
                },
                Err(e) => {
                    return Err(e);
                },
            }
            i = j;
        }
    }
    proof {
        assert(program@.skip(n as int) =~= Seq::<char>::empty());
        assert(tokens_v(toks@) + Seq::<TokenV>::empty() =~= tokens_v(toks@));
    }
    Ok(toks)
}

/// Pushing a token onto the produced prefix commutes with prepending it to
/// the remaining tokenization.
proof fn lemma_push_token(
    toks: Seq<Token>,
    t: Token,
    tv: TokenV,
    whole: Seq<char>,
    rest: Seq<char>,
)
    requires
        t@ == tv,
        spec_tokenize(whole) == tok_append(tokens_v(toks), tok_cons(tv, spec_tokenize(rest))),
    ensures
        spec_tokenize(whole) == tok_append(tokens_v(toks.push(t)), spec_tokenize(rest)),
{
    assert(tokens_v(toks.push(t)) =~= tokens_v(toks).push(tv));
    match spec_tokenize(rest) {
        Ok(ts) => {
            assert(tokens_v(toks) + (seq![tv] + ts) =~= tokens_v(toks).push(tv) + ts);
        },
        Err(_) => {},
    }
}

} // verus!
