//! Functions written in Rust that a script's state can be given.

use vstd::prelude::*;
use crate::ident_name::IdentName;
use crate::script_ast::DefParam;
use crate::script_eval::OutputExpr;

verus! {

/// A function written in Rust that a script's state can hold beside the
/// functions written in Fjord. Implement it to make Rust code available under
/// a name.
pub trait ForeignFjordFunc {
    /// The parameters that the function takes.
    fn params(&self) -> &[DefParam];

    /// Runs the function on `params`, which are already evaluated and come in
    /// the order of `params()`.
    fn run(&self, params: Vec<Param>) -> OutputExpr;
}

/// A parameter of a call of a foreign function: a name and an evaluated value.
#[derive(Clone, Debug)]
pub struct Param {
    /// its name
    pub name: IdentName,
    /// its value
    pub val: OutputExpr,
}

} // verus!
