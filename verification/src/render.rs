//! Textual rendering of values for display: `nil`, `#t`/`#f`, decimal
//! integers, raw symbol names, `(a . b)` for pairs, and space-joined
//! parenthesized lists. A lambda value has no literal syntax and renders as
//! `<fn>`.

use vstd::prelude::*;
use vstd::string::StringExecFns;

use crate::expr::{expr_v, exprs_v, lemma_exprs_v, Expr, ExprV};

verus! {

/// The character of one decimal digit.
pub open spec fn digit_char(d: nat) -> char {
    if d == 0 {
        '0'
    } else if d == 1 {
        '1'
    } else if d == 2 {
        '2'
    } else if d == 3 {
        '3'
    } else if d == 4 {
        '4'
    } else if d == 5 {
        '5'
    } else if d == 6 {
        '6'
    } else if d == 7 {
        '7'
    } else if d == 8 {
        '8'
    } else {
        '9'
    }
}

/// The decimal digits of a natural number, most significant first.
pub open spec fn dec_str(n: nat) -> Seq<char>
    decreases n,
{
    if n < 10 {
        seq![digit_char(n)]
    } else {
        dec_str(n / 10).push(digit_char(n % 10))
    }
}

/// The decimal rendering of an integer, with a leading minus sign when
/// negative.
pub open spec fn int_str(n: int) -> Seq<char> {
    if n < 0 {
        seq!['-'] + dec_str((-n) as nat)
    } else {
        dec_str(n as nat)
    }
}

/// The rendering of one value.
pub open spec fn render(e: ExprV) -> Seq<char>
    decreases e,
{
    match e {
        ExprV::Nil => "nil"@,
        ExprV::Int(n) => int_str(n),
        ExprV::Bool(b) => if b {
            "#t"@
        } else {
            "#f"@
        },
        ExprV::Symbol(s) => s,
        ExprV::Pair(a, b) => "("@ + render(*a) + " . "@ + render(*b) + ")"@,
        ExprV::Lambda(ps, body) => "<fn>"@,
        ExprV::List(es) => "("@ + render_items(es) + ")"@,
    }
}

/// The renderings of list elements joined by single spaces, with no
/// trailing separator.
pub open spec fn render_items(es: Seq<ExprV>) -> Seq<char>
    decreases es,
{
    if es.len() == 0 {
        Seq::empty()
    } else if es.len() == 1 {
        render(es[0])
    } else {
        render_items(es.drop_last()) + " "@ + render(es.last())
    }
}

/// One decimal digit as a string slice.
fn digit_str(d: u32) -> (s: &'static str)
    requires
        d < 10,
    ensures
        s@ == seq![digit_char(d as nat)],
{
    proof {
        reveal_strlit("0");
        reveal_strlit("1");
        reveal_strlit("2");
        reveal_strlit("3");
        reveal_strlit("4");
        reveal_strlit("5");
        reveal_strlit("6");
        reveal_strlit("7");
        reveal_strlit("8");
        reveal_strlit("9");
    }
    if d == 0 {
        "0"
    } else if d == 1 {
        "1"
    } else if d == 2 {
        "2"
    } else if d == 3 {
        "3"
    } else if d == 4 {
        "4"
    } else if d == 5 {
        "5"
    } else if d == 6 {
        "6"
    } else if d == 7 {
        "7"
    } else if d == 8 {
        "8"
    } else {
        "9"
    }
}

/// The decimal rendering of an unsigned 32-bit number.
fn u32_dec(n: u32) -> (s: String)
    ensures
        s@ == dec_str(n as nat),
    decreases n,
{
    if n < 10 {
        digit_str(n).to_owned()
    } else {
        let mut s = u32_dec(n / 10);
        s.append(digit_str(n % 10));
        proof {
            assert(dec_str((n / 10) as nat) + seq![digit_char((n % 10) as nat)] =~= dec_str(
                (n / 10) as nat,
            ).push(digit_char((n % 10) as nat)));
        }
        s
    }
}

/// The decimal rendering of a signed 32-bit integer.
fn i32_dec(n: i32) -> (s: String)
    ensures
        s@ == int_str(n as int),
{
    if n < 0 {
        let mag: u32 = (-(n as i64)) as u32;
        let mut s = "-".to_owned();
        s.append(u32_dec(mag).as_str());
        proof {
            reveal_strlit("-");
            assert("-"@ + dec_str(mag as nat) =~= seq!['-'] + dec_str(mag as nat));
        }
        s
    } else {
        u32_dec(n as u32)
    }
}

impl Expr {
    /// The textual rendering of this value, exactly as the model renders
    /// its view.
    pub fn to_text(&self) -> (s: String)
        ensures
            s@ == render(self@),
        decreases *self,
    {
        match self {
            Expr::Nil => "nil".to_owned(),
            Expr::Int(n) => i32_dec(*n),
            Expr::Bool(b) => if *b {
                "#t".to_owned()
            } else {
                "#f".to_owned()
            },
            Expr::Symbol(sym) => sym.clone(),
            Expr::Pair(a, b) => {
                let mut s = "(".to_owned();
                s.append(a.to_text().as_str());
                s.append(" . ");
                s.append(b.to_text().as_str());
                s.append(")");
                s
            },
            Expr::Lambda(_, _) => "<fn>".to_owned(),
            Expr::List(es) => {
                let mut s = "(".to_owned();
                s.append(render_elems(es).as_str());
                s.append(")");
                s
            },
        }
    }
}

/// Render the elements of a list, space-joined.
fn render_elems(es: &Vec<Expr>) -> (s: String)
    ensures
        s@ == render_items(exprs_v(es@)),
    decreases *es,
{
    proof {
        lemma_exprs_v(es@);
    }
    let mut s = String::new();
    let mut i: usize = 0;
    while i < es.len()
        invariant
            i <= es@.len(),
            exprs_v(es@).len() == es@.len(),
            forall|j: int| 0 <= j < es@.len() ==> #[trigger] exprs_v(es@)[j] == expr_v(es@[j]),
            s@ == render_items(exprs_v(es@).take(i as int)),
        decreases es@.len() - i,
    {
        if i > 0 {
            s.append(" ");
        }
        s.append(es[i].to_text().as_str());
        proof {
            let evs = exprs_v(es@);
            assert(evs.take(i as int + 1).drop_last() =~= evs.take(i as int));
            assert(evs.take(i as int + 1).last() == evs[i as int]);
            if i == 0 {
                assert(Seq::<char>::empty() + render(evs[0]) =~= render(evs[0]));
                assert(evs.take(1).len() == 1);
            }
        }
        i = i + 1;
    }
    proof {
        assert(exprs_v(es@).take(es@.len() as int) =~= exprs_v(es@));
    }
    s
}

} // verus!
