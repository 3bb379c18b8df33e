//! A representation of what a value in Fjord can be.

use vstd::prelude::*;
use std::rc::Rc;
use crate::tree::{SyntaxNode, rc_clone};
use crate::text::push_char;
use crate::debug_tree::{decimal, push_decimal};

verus! {

/// A lambda: its syntax node, holding its parameters and its body.
#[derive(Debug, Clone, PartialEq, Eq, Hash)]
pub struct Lambda(pub Rc<SyntaxNode>);

/// A value.
#[derive(Debug, Clone, PartialEq, Eq, Hash)]
pub enum Val {
    Number(i64),
    Str(String),
    Lambda(Lambda),
    Nil,
}

/// The type of a value.
#[derive(Debug, Copy, Clone, PartialEq, Eq, Hash, Structural)]
pub enum Ty {
    Number,
    Str,
    Lambda,
    Nil,
}

/// What a name that is called refers to: a lambda, or an external command
/// (given by its path).
#[derive(Debug, Clone, PartialEq, Eq)]
pub enum FuncOrCommand {
    Func(Lambda),
    Command(String),
}

pub open spec fn spec_ty(v: Val) -> Ty {
    match v {
        Val::Number(_) => Ty::Number,
        Val::Str(_) => Ty::Str,
        Val::Lambda(_) => Ty::Lambda,
        Val::Nil => Ty::Nil,
    }
}

/// The decimal representation of a signed number, with a leading minus sign
/// for negative numbers.
pub open spec fn signed_decimal(n: int) -> Seq<char> {
    if n < 0 {
        seq!['-'] + decimal((-n) as nat)
    } else {
        decimal(n as nat)
    }
}

/// How a value is displayed, if it can be.
pub open spec fn spec_display_repr(v: Val) -> Option<Seq<char>> {
    match v {
        Val::Number(n) => Some(signed_decimal(n as int)),
        Val::Str(s) => Some(s@),
        Val::Lambda(_) => None,
        Val::Nil => Some(seq!['n', 'i', 'l']),
    }
}

/// Appends the decimal representation of a 64-bit number.
fn push_decimal_u64(out: &mut String, n: u64)
    ensures
        final(out)@ == old(out)@ + decimal(n as nat),
    decreases n,
{
    if n < 10 {
        push_decimal(out, n as u32);
    } else {
        push_decimal_u64(out, n / 10);
        push_decimal(out, (n % 10) as u32);
        proof {
            assert(decimal((n % 10) as nat) =~= seq![crate::debug_tree::digit_char((n % 10) as nat)]);
            assert(old(out)@ + decimal(n as nat) =~= old(out)@ + decimal((n / 10) as nat)
                + decimal((n % 10) as nat));
        }
    }
}

impl Val {
    /// The type of this value.
    pub fn ty(&self) -> (t: Ty)
        ensures
            t == spec_ty(*self),
    {
        match self {
            Val::Number(_) => Ty::Number,
            Val::Str(_) => Ty::Str,
            Val::Lambda(_) => Ty::Lambda,
            Val::Nil => Ty::Nil,
        }
    }

    /// How this value is displayed; `None` for lambdas, which cannot be.
    pub fn display_repr(&self) -> (r: Option<String>)
        ensures
            r is Some <==> spec_display_repr(*self) is Some,
            r matches Some(s) ==> s@ == spec_display_repr(*self).unwrap(),
    {
        match self {
            Val::Number(n) => {
                let mut out = String::new();
                if *n < 0 {
                    push_char(&mut out, '-');
                    let m: u64 = if *n == i64::MIN {
                        9223372036854775808u64
                    } else {
                        (-*n) as u64
                    };
                    push_decimal_u64(&mut out, m);
                } else {
                    push_decimal_u64(&mut out, *n as u64);
                }
                proof {
                    assert(out@ =~= signed_decimal(*n as int));
                }
                Some(out)
            },
            Val::Str(s) => Some(s.clone()),
            Val::Lambda(_) => None,
            Val::Nil => {
                let s = String::from_str("nil");
                proof {
                    reveal_strlit("nil");
                    assert(s@ =~= seq!['n', 'i', 'l']);
                }
                Some(s)
            },
        }
    }
}

/// A copy of a value.
pub fn clone_val(v: &Val) -> (r: Val)
    ensures
        r == *v,
{
    match v {
        Val::Number(n) => Val::Number(*n),
        Val::Str(s) => Val::Str(s.clone()),
        Val::Lambda(l) => Val::Lambda(Lambda(rc_clone(&l.0))),
        Val::Nil => Val::Nil,
    }
}

} // verus!
