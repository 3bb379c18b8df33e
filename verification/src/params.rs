//! Matching up the parameters of a function call with those of the
//! function's definition.

use vstd::prelude::*;
use crate::ident_name::IdentName;

verus! {

/// The errors that can occur when matching up function definition parameters
/// with function call parameters.
#[derive(Debug, PartialEq, Eq, Clone, Copy)]
pub enum Error {
    /// when too many function parameters are specified
    TooManyFuncParams,
    /// when not enough function parameters are specified
    NotEnoughFuncParams,
}

impl Error {
    /// The message that describes the error.
    pub fn message(&self) -> (s: &'static str)
        ensures
            *self == Error::TooManyFuncParams ==> s@ == "too many function parameters were provided"@,
            *self == Error::NotEnoughFuncParams ==> s@ == "not enough function parameters were provided"@,
    {
        match self {
            Error::TooManyFuncParams => "too many function parameters were provided",
            Error::NotEnoughFuncParams => "not enough function parameters were provided",
        }
    }
}

/// A parameter's name together with the value that a call gives it.
#[derive(Debug, PartialEq)]
pub struct CompleteParam<V> {
    pub name: IdentName,
    pub val: V,
}

/// Pairs each definition parameter with the call parameter at the same
/// position; the two lists must be equally long.
pub fn eval<V>(call_params: Vec<V>, def_params: Vec<IdentName>) -> (r: Result<Vec<CompleteParam<V>>, Error>)
    ensures
        call_params@.len() > def_params@.len() ==> r == Err::<Vec<CompleteParam<V>>, Error>(Error::TooManyFuncParams),
        call_params@.len() < def_params@.len() ==> r == Err::<Vec<CompleteParam<V>>, Error>(Error::NotEnoughFuncParams),
        call_params@.len() == def_params@.len() ==> (r matches Ok(v) && v@.len() == call_params@.len()
            && forall|k: int| 0 <= k < v@.len() ==> (#[trigger] v@[k]).name@ == def_params@[k]@
                && v@[k].val == call_params@[k]),
{
    let n = call_params.len();
    if n > def_params.len() {
        return Err(Error::TooManyFuncParams);
    }
    if n < def_params.len() {
        return Err(Error::NotEnoughFuncParams);
    }
    let ghost calls = call_params@;
    let ghost defs = def_params@;
    let mut r: Vec<CompleteParam<V>> = Vec::new();
    let mut vals = call_params;
    let mut names = def_params;
    let mut rev: Vec<CompleteParam<V>> = Vec::new();
    let mut k = n;
    while k > 0
        invariant
            k <= n,
            n == calls.len(),
            n == defs.len(),
            vals@ == calls.take(k as int),
            names@ == defs.take(k as int),
            rev@.len() == n - k,
            forall|j: int| 0 <= j < n - k ==> (#[trigger] rev@[j]).name@ == defs[n - 1 - j]@
                && rev@[j].val == calls[n - 1 - j],
        decreases k,
    {
        let v = vals.pop().unwrap();
        let name = names.pop().unwrap();
        proof {
            assert(vals@ =~= calls.take(k - 1));
            assert(names@ =~= defs.take(k - 1));
        }
        rev.push(CompleteParam { name, val: v });
        k = k - 1;
    }
    while rev.len() > 0
        invariant
            rev@.len() + r@.len() == n,
            forall|j: int| 0 <= j < rev@.len() ==> (#[trigger] rev@[j]).name@ == defs[n - 1 - j]@
                && rev@[j].val == calls[n - 1 - j],
            forall|j: int| 0 <= j < r@.len() ==> (#[trigger] r@[j]).name@ == defs[j]@ && r@[j].val == calls[j],
        decreases rev@.len(),
    {
        let p = rev.pop().unwrap();
        r.push(p);
    }
    Ok(r)
}

} // verus!
