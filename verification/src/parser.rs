//! The parser: recursive descent over a stack of tokens.
//!
//! The token sequence is reversed so the next token is always removed from
//! the end in O(1) while keeping left-to-right reading order. Leaf tokens
//! append leaf expressions to the accumulating list; `(` opens a nested
//! list; `)` closes the current one; `'` is recognized and skipped. If the
//! stream runs out before a `)`, the partial list accumulated so far is
//! returned: unbalanced input is deliberately not rejected.

use vstd::prelude::*;
use vstd::seq_lib::*;

use crate::ast::{tokens_v, Token, TokenV};
use crate::errors::{ErrV, EvalError};
use crate::expr::{exprs_v, Expr, ExprV};
use crate::tokenizer::{spec_tokenize, tokenize};

verus! {

/// Prepend one parsed expression to a parse outcome.
pub open spec fn cons_item(e: ExprV, r: Option<(Seq<ExprV>, Seq<TokenV>)>) -> Option<
    (Seq<ExprV>, Seq<TokenV>),
> {
    match r {
        Some(p) => Some((seq![e] + p.0, p.1)),
        None => None,
    }
}

/// The fueled model of parsing the items of one list: the expressions up to
/// the matching `)` or the end of the stream, and the tokens left after it.
/// The fuel only serves termination; any fuel above the stream length gives
/// the same answer.
pub open spec fn parse_items_fuel(ts: Seq<TokenV>, fuel: nat) -> Option<
    (Seq<ExprV>, Seq<TokenV>),
>
    decreases fuel,
{
    if fuel == 0 {
        None
    } else if ts.len() == 0 {
        Some((Seq::empty(), ts))
    } else {
        match ts[0] {
            TokenV::Int(n) => cons_item(
                ExprV::Int(n),
                parse_items_fuel(ts.drop_first(), (fuel - 1) as nat),
            ),
            TokenV::Symbol(s) => cons_item(
                ExprV::Symbol(s),
                parse_items_fuel(ts.drop_first(), (fuel - 1) as nat),
            ),
            TokenV::False => cons_item(
                ExprV::Bool(false),
                parse_items_fuel(ts.drop_first(), (fuel - 1) as nat),
            ),
            TokenV::True => cons_item(
                ExprV::Bool(true),
                parse_items_fuel(ts.drop_first(), (fuel - 1) as nat),
            ),
            TokenV::Nil => cons_item(
                ExprV::Nil,
                parse_items_fuel(ts.drop_first(), (fuel - 1) as nat),
            ),
            TokenV::Quote => parse_items_fuel(ts.drop_first(), (fuel - 1) as nat),
            TokenV::RParen => Some((Seq::empty(), ts.drop_first())),
            TokenV::LParen => match parse_items_fuel(ts.drop_first(), (fuel - 1) as nat) {
                Some(sub) => cons_item(
                    ExprV::List(sub.0),
                    parse_items_fuel(sub.1, (fuel - 1) as nat),
                ),
                None => None,
            },
        }
    }
}

/// The model of parsing list items: the fueled parser with enough fuel.
pub open spec fn spec_parse_items(ts: Seq<TokenV>) -> (Seq<ExprV>, Seq<TokenV>) {
    match parse_items_fuel(ts, (ts.len() + 1) as nat) {
        Some(p) => p,
        None => (Seq::empty(), Seq::empty()),
    }
}

/// The model of parsing one line: tokenize, require an opening parenthesis,
/// and parse one list.
pub open spec fn spec_parse(s: Seq<char>) -> Result<ExprV, ErrV> {
    match spec_tokenize(s) {
        Err(e) => Err(e),
        Ok(ts) => if ts.len() == 0 || !(ts[0] is LParen) {
            Err(ErrV::MalformedSyntax)
        } else {
            Ok(ExprV::List(spec_parse_items(ts.drop_first()).0))
        },
    }
}

/// The fueled parser succeeds on any fuel above the stream length, gives
/// the same answer for every such fuel, and consumes at least one token
/// from a nonempty stream.
pub proof fn lemma_parse_items_total(ts: Seq<TokenV>, fuel: nat)
    requires
        fuel > ts.len(),
    ensures
        parse_items_fuel(ts, fuel) is Some,
        parse_items_fuel(ts, fuel) == parse_items_fuel(ts, (ts.len() + 1) as nat),
        match parse_items_fuel(ts, fuel) {
            Some(p) => p.1.len() <= ts.len() && (ts.len() > 0 ==> p.1.len() < ts.len()),
            None => false,
        },
    decreases fuel,
{
    if ts.len() == 0 {
    } else {
        let drop = ts.drop_first();
        match ts[0] {
            TokenV::RParen => {},
            TokenV::LParen => {
                lemma_parse_items_total(drop, (fuel - 1) as nat);
                lemma_parse_items_total(drop, ts.len() as nat);
                let sub = parse_items_fuel(drop, (fuel - 1) as nat)->0;
                lemma_parse_items_total(sub.1, (fuel - 1) as nat);
                lemma_parse_items_total(sub.1, ts.len() as nat);
            },
            _ => {
                lemma_parse_items_total(drop, (fuel - 1) as nat);
                lemma_parse_items_total(drop, ts.len() as nat);
            },
        }
    }
}

/// One unfolding of the parse model on a nonempty stream, stated over
/// `spec_parse_items` itself.
pub proof fn lemma_parse_items_unfold(ts: Seq<TokenV>)
    requires
        ts.len() > 0,
    ensures
        match ts[0] {
            TokenV::Int(n) => spec_parse_items(ts) == (
                seq![ExprV::Int(n)] + spec_parse_items(ts.drop_first()).0,
                spec_parse_items(ts.drop_first()).1,
            ),
            TokenV::Symbol(s) => spec_parse_items(ts) == (
                seq![ExprV::Symbol(s)] + spec_parse_items(ts.drop_first()).0,
                spec_parse_items(ts.drop_first()).1,
            ),
            TokenV::False => spec_parse_items(ts) == (
                seq![ExprV::Bool(false)] + spec_parse_items(ts.drop_first()).0,
                spec_parse_items(ts.drop_first()).1,
            ),
            TokenV::True => spec_parse_items(ts) == (
                seq![ExprV::Bool(true)] + spec_parse_items(ts.drop_first()).0,
                spec_parse_items(ts.drop_first()).1,
            ),
            TokenV::Nil => spec_parse_items(ts) == (
                seq![ExprV::Nil] + spec_parse_items(ts.drop_first()).0,
                spec_parse_items(ts.drop_first()).1,
            ),
            TokenV::Quote => spec_parse_items(ts) == spec_parse_items(ts.drop_first()),
            TokenV::RParen => spec_parse_items(ts) == (
                Seq::<ExprV>::empty(),
                ts.drop_first(),
            ),
            TokenV::LParen => {
                let sub = spec_parse_items(ts.drop_first());
                &&& sub.1.len() < ts.len()
                &&& spec_parse_items(ts) == (
                    seq![ExprV::List(sub.0)] + spec_parse_items(sub.1).0,
                    spec_parse_items(sub.1).1,
                )
            },
        },
        spec_parse_items(ts).1.len() < ts.len(),
{
    lemma_parse_items_total(ts, (ts.len() + 1) as nat);
    let drop = ts.drop_first();
    match ts[0] {
        TokenV::RParen => {},
        TokenV::LParen => {
            lemma_parse_items_total(drop, ts.len() as nat);
            let sub = parse_items_fuel(drop, ts.len() as nat)->0;
            lemma_parse_items_total(sub.1, ts.len() as nat);
            lemma_parse_items_total(sub.1, (sub.1.len() + 1) as nat);
        },
        _ => {
            lemma_parse_items_total(drop, ts.len() as nat);
        },
    }
}

/// Popping the token vector reads the head of the conceptual stream.
proof fn lemma_pop_stream(v: Seq<Token>)
    requires
        v.len() > 0,
    ensures
        tokens_v(v).reverse().len() == v.len(),
        tokens_v(v).reverse()[0] == v.last()@,
        tokens_v(v).reverse().drop_first() =~= tokens_v(v.drop_last()).reverse(),
{
}

/// Parse the items of the currently open list from the reversed token
/// stack, consuming up to and including the matching `)`.
fn parse_items(tokens: &mut Vec<Token>) -> (r: Vec<Expr>)
    ensures
        exprs_v(r@) == spec_parse_items(tokens_v(old(tokens)@).reverse()).0,
        tokens_v(final(tokens)@).reverse() == spec_parse_items(
            tokens_v(old(tokens)@).reverse(),
        ).1,
        final(tokens)@.len() <= old(tokens)@.len(),
    decreases old(tokens)@.len(),
{
    let ghost entry_stream = tokens_v(old(tokens)@).reverse();
    let mut items: Vec<Expr> = Vec::new();
    proof {
        assert(exprs_v(items@) + spec_parse_items(entry_stream).0 =~= spec_parse_items(
            entry_stream,
        ).0);
    }
    while tokens.len() > 0
        invariant
            tokens@.len() <= old(tokens)@.len(),
            entry_stream == tokens_v(old(tokens)@).reverse(),
            spec_parse_items(entry_stream).0 == exprs_v(items@) + spec_parse_items(
                tokens_v(tokens@).reverse(),
            ).0,
            spec_parse_items(entry_stream).1 == spec_parse_items(tokens_v(tokens@).reverse()).1,
        decreases tokens@.len(),
    {
        let ghost cur = tokens_v(tokens@).reverse();
        proof {
            lemma_pop_stream(tokens@);
            lemma_parse_items_unfold(cur);
        }
        let t = match tokens.pop() {
            Some(t) => t,
            None => {
                // Unreachable: the stream is nonempty here.
                return items;
            },
        };
        let ghost rest = tokens_v(tokens@).reverse();
        match t {
            Token::Int(n) => {
                proof {
                    lemma_push_item(items@, Expr::Int(n), entry_stream, rest);
                }
                items.push(Expr::Int(n));
            },
            Token::Symbol(s) => {
                proof {
                    lemma_push_item(items@, Expr::Symbol(s), entry_stream, rest);
                }
                items.push(Expr::Symbol(s));
            },
            Token::False => {
                proof {
                    lemma_push_item(items@, Expr::Bool(false), entry_stream, rest);
                }
                items.push(Expr::Bool(false));
            },
            Token::True => {
                proof {
                    lemma_push_item(items@, Expr::Bool(true), entry_stream, rest);
                }
                items.push(Expr::Bool(true));
            },
            Token::Nil => {
                proof {
                    lemma_push_item(items@, Expr::Nil, entry_stream, rest);
                }
                items.push(Expr::Nil);
            },
            Token::Quote => {},
            Token::RParen => {
                proof {
                    assert(exprs_v(items@) + Seq::<ExprV>::empty() =~= exprs_v(items@));
                }
                return items;
            },
            Token::LParen => {
                let sub = parse_items(tokens);
                proof {
                    lemma_push_item(items@, Expr::List(sub), entry_stream, tokens_v(tokens@).reverse());
                }
                items.push(Expr::List(sub));
            },
        }
    }
    proof {
        assert(tokens_v(tokens@).reverse() =~= Seq::<TokenV>::empty());
        assert(exprs_v(items@) + Seq::<ExprV>::empty() =~= exprs_v(items@));
    }
    items
}

/// Pushing a parsed expression onto the accumulated items commutes with
/// prepending its model to the remaining parse.
proof fn lemma_push_item(
    items: Seq<Expr>,
    e: Expr,
    entry_stream: Seq<TokenV>,
    rest: Seq<TokenV>,
)
    requires
        spec_parse_items(entry_stream).0 == exprs_v(items) + (seq![e@] + spec_parse_items(
            rest,
        ).0),
    ensures
        spec_parse_items(entry_stream).0 == exprs_v(items.push(e)) + spec_parse_items(rest).0,
{
    crate::expr::lemma_exprs_v(items);
    crate::expr::lemma_exprs_v(items.push(e));
    assert(exprs_v(items.push(e)) =~= exprs_v(items).push(e@));
    assert(exprs_v(items) + (seq![e@] + spec_parse_items(rest).0) =~= exprs_v(items).push(e@)
        + spec_parse_items(rest).0);
}

/// Parse one list form: the next token must be `(`; the items up to its
/// matching `)` become one `Expr::List`.
pub fn parse_list(tokens: &mut Vec<Token>) -> (r: Result<Expr, EvalError>)
    ensures
        ({
            let stream = tokens_v(old(tokens)@).reverse();
            match r {
                Ok(e) => stream.len() > 0 && stream[0] is LParen && e@ == ExprV::List(
                    spec_parse_items(stream.drop_first()).0,
                ) && tokens_v(final(tokens)@).reverse() == spec_parse_items(
                    stream.drop_first(),
                ).1,
                Err(err) => (stream.len() == 0 || !(stream[0] is LParen)) && err@
                    == ErrV::MalformedSyntax,
            }
        }),
{
    proof {
        if old(tokens)@.len() > 0 {
            lemma_pop_stream(old(tokens)@);
        }
    }
    match tokens.pop() {
        Some(Token::LParen) => {
            let items = parse_items(tokens);
            Ok(Expr::List(items))
        },
        _ => Err(EvalError::MalformedSyntax),
    }
}

/// Parse one line of source text into a single expression tree.
pub fn parse(source: &str) -> (r: Result<Expr, EvalError>)
    ensures
        match (spec_parse(source@), r) {
            (Ok(ev), Ok(e)) => e@ == ev,
            (Err(ev), Err(e)) => e@ == ev,
            _ => false,
        },
{
    let toks = match tokenize(source) {
        Ok(v) => v,
        Err(e) => {
            return Err(e);
        },
    };
    let ghost toks0 = toks@;
    // Reverse the tokens so the parser pops the next one from the end.
    let mut remaining = toks;
    let mut rev: Vec<Token> = Vec::new();
    while remaining.len() > 0
        invariant
            remaining@.len() + rev@.len() == toks0.len(),
            remaining@ == toks0.take(remaining@.len() as int),
            forall|i: int|
                0 <= i < rev@.len() ==> #[trigger] rev@[i] == toks0[toks0.len() - 1 - i],
        decreases remaining@.len(),
    {
        proof {
            assert(toks0.take(remaining@.len() as int).drop_last() =~= toks0.take(
                remaining@.len() as int - 1,
            ));
        }
        match remaining.pop() {
            Some(t) => {
                rev.push(t);
            },
            None => {},
        }
    }
    proof {
        assert(tokens_v(rev@).reverse() =~= tokens_v(toks0));
    }
    parse_list(&mut rev)
}

} // verus!
