//! The result renderer: turns a value into its display text.
//!
//! Scalars render as their text (`OK`, `(nil)`, decimal integers, the
//! kept float text, the raw string); containers render one numbered
//! line per element, front to back.

use crate::models::{seq_model, Container, PrimModel, Primitive, ValModel, Value};
use std::collections::VecDeque;
use vstd::prelude::*;
use vstd::string::StringExecFns;

verus! {

/// The character of one decimal digit.
pub open spec fn digit_char(d: int) -> char {
    if d == 0 {
        '0'
    } else if d == 1 {
        '1'
    } else if d == 2 {
        '2'
    } else if d == 3 {
        '3'
    } else if d == 4 {
        '4'
    } else if d == 5 {
        '5'
    } else if d == 6 {
        '6'
    } else if d == 7 {
        '7'
    } else if d == 8 {
        '8'
    } else {
        '9'
    }
}

/// The decimal digits of a non-negative number, most significant
/// first.
pub open spec fn dec_digits(n: int) -> Seq<char>
    recommends
        n >= 0,
    decreases n,
{
    if n < 10 {
        seq![digit_char(n)]
    } else {
        dec_digits(n / 10).push(digit_char(n % 10))
    }
}

/// The decimal text of an integer, with a leading minus sign when
/// negative.
pub open spec fn int_text(i: int) -> Seq<char> {
    if i < 0 {
        seq!['-'] + dec_digits(-i)
    } else {
        dec_digits(i)
    }
}

/// The display text of a scalar.
pub open spec fn render_prim(p: PrimModel) -> Seq<char> {
    match p {
        PrimModel::Okay => seq!['O', 'K'],
        PrimModel::Nil => seq!['(', 'n', 'i', 'l', ')'],
        PrimModel::Int(i) => int_text(i),
        PrimModel::Flt(f) => f,
        PrimModel::Str(s) => s,
    }
}

/// One numbered line per element, counting from `idx`.
pub open spec fn render_items(l: Seq<PrimModel>, idx: int) -> Seq<char>
    decreases l.len(),
{
    if l.len() == 0 {
        Seq::empty()
    } else {
        int_text(idx) + seq![')', ' '] + render_prim(l[0]) + seq!['\n'] + render_items(
            l.skip(1),
            idx + 1,
        )
    }
}

/// The display text of a value.
pub open spec fn render_value(v: ValModel) -> Seq<char> {
    match v {
        ValModel::Prim(p) => render_prim(p),
        ValModel::List(l) => render_items(l, 1),
        ValModel::USet(s) => render_items(s, 1),
    }
}

/// Appends one decimal digit.
fn push_digit(out: &mut String, d: u64)
    requires
        d < 10,
    ensures
        final(out)@ == old(out)@.push(digit_char(d as int)),
{
    proof {
        reveal_strlit("0");
        reveal_strlit("1");
        reveal_strlit("2");
        reveal_strlit("3");
        reveal_strlit("4");
        reveal_strlit("5");
        reveal_strlit("6");
        reveal_strlit("7");
        reveal_strlit("8");
        reveal_strlit("9");
    }
    let c: &str = if d == 0 {
        "0"
    } else if d == 1 {
        "1"
    } else if d == 2 {
        "2"
    } else if d == 3 {
        "3"
    } else if d == 4 {
        "4"
    } else if d == 5 {
        "5"
    } else if d == 6 {
        "6"
    } else if d == 7 {
        "7"
    } else if d == 8 {
        "8"
    } else {
        "9"
    };
    assert(c@ =~= seq![digit_char(d as int)]);
    out.append(c);
    assert(final(out)@ =~= old(out)@.push(digit_char(d as int)));
}

/// The digits collected least significant first, as the text they
/// spell once reversed.
pub open spec fn chars_rev(rev: Seq<u64>) -> Seq<char> {
    rev.reverse().map_values(|d: u64| digit_char(d as int))
}

/// Appends the decimal digits of `n`.
fn push_u64_dec(out: &mut String, n: u64)
    ensures
        final(out)@ == old(out)@ + dec_digits(n as int),
{
    let mut rev: Vec<u64> = Vec::new();
    let mut x = n;
    while x >= 10
        invariant
            dec_digits(n as int) == dec_digits(x as int) + chars_rev(rev@),
            forall|t: int| 0 <= t < rev@.len() ==> rev@[t] < 10,
        decreases x,
    {
        let d = x % 10;
        let ghost rpre = rev@;
        rev.push(d);
        x = x / 10;
        proof {
            assert(chars_rev(rev@) =~= seq![digit_char(d as int)] + chars_rev(rpre));
            assert(dec_digits(x as int) + chars_rev(rev@) =~= (dec_digits(x as int).push(
                digit_char(d as int),
            )) + chars_rev(rpre));
        }
    }
    push_digit(out, x);
    let ghost mid = out@;
    assert(mid =~= old(out)@ + dec_digits(x as int));
    let mut k = rev.len();
    while k > 0
        invariant
            k <= rev@.len(),
            out@ == mid + chars_rev(rev@).take(rev@.len() - k),
            dec_digits(n as int) == dec_digits(x as int) + chars_rev(rev@),
            mid == old(out)@ + dec_digits(x as int),
            forall|t: int| 0 <= t < rev@.len() ==> rev@[t] < 10,
        decreases k,
    {
        k = k - 1;
        push_digit(out, rev[k]);
        proof {
            assert(chars_rev(rev@)[rev@.len() - k - 1] == digit_char(rev@[k as int] as int));
            assert(chars_rev(rev@).take(rev@.len() - k) =~= chars_rev(rev@).take(
                rev@.len() - (k + 1),
            ).push(digit_char(rev@[k as int] as int)));
        }
    }
    proof {
        assert(chars_rev(rev@).take(rev@.len() as int) =~= chars_rev(rev@));
        assert(mid + chars_rev(rev@) =~= old(out)@ + (dec_digits(x as int) + chars_rev(rev@)));
    }
}

/// Appends the decimal text of `i`, sign included.
fn push_i64_dec(out: &mut String, i: i64)
    ensures
        final(out)@ == old(out)@ + int_text(i as int),
{
    if i < 0 {
        proof {
            reveal_strlit("-");
        }
        assert("-"@ =~= seq!['-']);
        out.append("-");
        let m: u64 = ((-(i + 1)) as u64) + 1;
        assert(m as int == -(i as int));
        let ghost mid = out@;
        push_u64_dec(out, m);
        proof {
            assert(mid + dec_digits(m as int) =~= old(out)@ + (seq!['-'] + dec_digits(
                m as int,
            )));
        }
    } else {
        push_u64_dec(out, i as u64);
    }
}

/// The display text of one scalar.
pub fn prim_text(p: &Primitive) -> (r: String)
    ensures
        r@ == render_prim(p@),
{
    let mut out = String::new();
    match p {
        Primitive::Okay => {
            proof {
                reveal_strlit("OK");
            }
            assert("OK"@ =~= seq!['O', 'K']);
            out.append("OK");
        },
        Primitive::Nil => {
            proof {
                reveal_strlit("(nil)");
            }
            assert("(nil)"@ =~= seq!['(', 'n', 'i', 'l', ')']);
            out.append("(nil)");
        },
        Primitive::Int(i) => {
            push_i64_dec(&mut out, *i);
        },
        Primitive::Flt(f) => {
            out.append(f.as_str());
        },
        Primitive::Str(s) => {
            out.append(s.as_str());
        },
    }
    out
}

/// Appends one numbered line for an element.
fn push_line(out: &mut String, idx: usize, p: &Primitive)
    ensures
        final(out)@ == old(out)@ + int_text(idx as int) + seq![')', ' '] + render_prim(p@)
            + seq!['\n'],
{
    proof {
        reveal_strlit(") ");
        reveal_strlit("\n");
    }
    assert(") "@ =~= seq![')', ' ']);
    assert("\n"@ =~= seq!['\n']);
    push_u64_dec(out, idx as u64);
    out.append(") ");
    let t = prim_text(p);
    out.append(t.as_str());
    out.append("\n");
}

/// The numbered lines of a list, front to back.
fn list_text(l: &VecDeque<Primitive>) -> (r: String)
    ensures
        r@ == render_items(seq_model(l@), 1),
{
    let ghost lm = seq_model(l@);
    let mut out = String::new();
    proof {
        assert(lm.skip(0) =~= lm);
        assert(out@ + render_items(lm, 1) =~= render_items(lm, 1));
    }
    let mut i: usize = 0;
    while i < l.len()
        invariant
            i <= l@.len(),
            lm == seq_model(l@),
            out@ + render_items(lm.skip(i as int), i + 1) == render_items(lm, 1),
        decreases l@.len() - i,
    {
        let ghost opre = out@;
        push_line(&mut out, i + 1, &l[i]);
        proof {
            assert(lm.skip(i as int)[0] == lm[i as int]);
            assert(lm.skip(i as int).skip(1) =~= lm.skip(i + 1));
            assert(out@ + render_items(lm.skip(i + 1), i + 2) =~= opre + render_items(
                lm.skip(i as int),
                i + 1,
            ));
        }
        i = i + 1;
    }
    proof {
        assert(lm.skip(lm.len() as int) =~= Seq::<PrimModel>::empty());
    }
    out
}

/// The numbered lines of a set, in its kept order.
fn set_text(s: &Vec<Primitive>) -> (r: String)
    ensures
        r@ == render_items(seq_model(s@), 1),
{
    let ghost sm = seq_model(s@);
    let mut out = String::new();
    proof {
        assert(sm.skip(0) =~= sm);
        assert(out@ + render_items(sm, 1) =~= render_items(sm, 1));
    }
    let mut i: usize = 0;
    while i < s.len()
        invariant
            i <= s@.len(),
            sm == seq_model(s@),
            out@ + render_items(sm.skip(i as int), i + 1) == render_items(sm, 1),
        decreases s@.len() - i,
    {
        let ghost opre = out@;
        push_line(&mut out, i + 1, &s[i]);
        proof {
            assert(sm.skip(i as int)[0] == sm[i as int]);
            assert(sm.skip(i as int).skip(1) =~= sm.skip(i + 1));
            assert(out@ + render_items(sm.skip(i + 1), i + 2) =~= opre + render_items(
                sm.skip(i as int),
                i + 1,
            ));
        }
        i = i + 1;
    }
    proof {
        assert(sm.skip(sm.len() as int) =~= Seq::<PrimModel>::empty());
    }
    out
}

/// Converts a value to its display text.
pub fn display(x: Value) -> (r: String)
    ensures
        r@ == render_value(x@),
{
    match x {
        Value::Primitive(p) => prim_text(&p),
        Value::Container(Container::List(l)) => list_text(&l),
        Value::Container(Container::UnorderedSet(s)) => set_text(&s),
    }
}

} // verus!
