//! The non-deterministic solvers a prover runs to populate directive outputs.
//!
//! Each solver is a pure function of its inputs; the surrounding constraints,
//! not the solver, are what binds the produced witness values.

use vstd::prelude::*;
use vstd::arithmetic::power2::pow2;
use crate::field::{bits_le, field_modulus, FieldElem};

verus! {

/// An operation a prover executes to fill in directive outputs.
#[derive(Clone, Copy, Debug, PartialEq, Eq, Structural, Hash)]
pub enum Solver {
    /// Decompose one field element into the given number of bits, high bit
    /// first.
    Bits(usize),
    /// Run one SHA-256 compression round, returning every auxiliary witness
    /// value of the embedded constraint system.
    Sha256Round,
    /// From one input `x`, output `1 - isZero` and the inverse of `x` when
    /// `x` is nonzero, `1` otherwise. The equality constraints around this
    /// directive read `x * inv == 1 - isZero` and `isZero * x == 0`, so the
    /// first output is the complement of the zero test, not the zero test
    /// itself; at zero the second output may be any value the constraints
    /// admit, and `1` is emitted.
    ConditionEq,
}

/// Why a solver could not be executed.
#[derive(Clone, Copy, Debug, PartialEq, Eq, Structural)]
pub enum SolverError {
    /// The number of inputs does not match what the solver expects.
    WrongInputCount,
    /// The solver's witness generator lives in the external gadget library
    /// and is not executable here.
    Unavailable,
}

/// How many inputs and outputs a solver has.
impl Solver {
    pub fn get_signature(&self) -> (r: (usize, usize))
        ensures
            r == self.signature_spec(),
    {
        match self {
            Solver::Bits(w) => (1, *w),
            Solver::Sha256Round => (768, 26935),
            Solver::ConditionEq => (1, 2),
        }
    }

    pub open spec fn signature_spec(self) -> (usize, usize) {
        match self {
            Solver::Bits(w) => (1, w),
            Solver::Sha256Round => (768, 26935),
            Solver::ConditionEq => (1, 2),
        }
    }
}

/// Executes a solver on fully known inputs.
///
/// `Bits(w)` yields the `w` low-order bits of the input, high bit first;
/// `ConditionEq` yields `(1 - isZero, inv)` as the flattener's equality
/// constraints expect; the SHA-256 round witness generator is part of the
/// external gadget library and reports itself unavailable.
pub fn execute_solver(s: &Solver, inputs: &Vec<FieldElem>) -> (r: Result<
    Vec<FieldElem>,
    SolverError,
>)
    requires
        forall|i: int| 0 <= i < inputs@.len() ==> (#[trigger] inputs@[i]).wf(),
    ensures
        match r {
            Ok(out) => (forall|i: int|
                0 <= i < out@.len() ==> (#[trigger] out@[i]).wf()) && match *s {
                Solver::Bits(w) => {
                    &&& inputs@.len() == 1
                    &&& out@.len() == w
                    &&& forall|i: int|
                        0 <= i < w ==> (#[trigger] out@[i]).val() == (inputs@[0].val() / pow2(
                            (w - 1 - i) as nat,
                        )) % 2
                },
                Solver::Sha256Round => false,
                Solver::ConditionEq => {
                    &&& inputs@.len() == 1
                    &&& out@.len() == 2
                    &&& (inputs@[0].val() == 0 ==> out@[0].val() == 0 && out@[1].val() == 1)
                    &&& (inputs@[0].val() != 0 ==> out@[0].val() == 1 && (inputs@[0].val()
                        * out@[1].val()) % field_modulus() == 1)
                },
            },
            Err(e) => match *s {
                Solver::Bits(w) => e == SolverError::WrongInputCount && inputs@.len() != 1,
                Solver::Sha256Round => e == SolverError::Unavailable || (
                e == SolverError::WrongInputCount && inputs@.len() != 768),
                Solver::ConditionEq => e == SolverError::WrongInputCount && inputs@.len() != 1,
            },
        },
{
    let (expected, _) = s.get_signature();
    if inputs.len() != expected {
        return Err(SolverError::WrongInputCount);
    }
    match s {
        Solver::Bits(w) => {
            let bits = bits_le(&inputs[0], *w);
            let mut out: Vec<FieldElem> = Vec::new();
            let mut i: usize = 0;
            while i < *w
                invariant
                    i <= *w,
                    bits@.len() == *w,
                    out@.len() == i,
                    inputs@.len() == 1,
                    forall|k: int|
                        0 <= k < *w ==> bits@[k] == ((inputs@[0].val() / pow2(k as nat)) % 2 == 1),
                    forall|k: int|
                        0 <= k < i ==> (#[trigger] out@[k]).val() == (inputs@[0].val() / pow2(
                            (*w - 1 - k) as nat,
                        )) % 2,
                decreases *w - i,
            {
                let b = bits[*w - 1 - i];
                out.push(
                    if b {
                        FieldElem::from_u64(1)
                    } else {
                        FieldElem::zero()
                    },
                );
                proof {
                    vstd::arithmetic::div_mod::lemma_mod_bound(
                        (inputs@[0].val() / pow2((*w - 1 - i) as nat)) as int,
                        2,
                    );
                }
                i = i + 1;
            }
            Ok(out)
        },
        Solver::Sha256Round => Err(SolverError::Unavailable),
        Solver::ConditionEq => {
            let x = inputs[0];
            if x.is_zero() {
                let mut out: Vec<FieldElem> = Vec::new();
                out.push(FieldElem::zero());
                out.push(FieldElem::from_u64(1));
                Ok(out)
            } else {
                match x.inverse() {
                    None => {
                        // a nonzero field element always has an inverse
                        proof {
                            assert(false);
                        }
                        Err(SolverError::WrongInputCount)
                    },
                    Some(inv) => {
                        let mut out: Vec<FieldElem> = Vec::new();
                        out.push(FieldElem::from_u64(1));
                        out.push(inv);
                        Ok(out)
                    },
                }
            }
        },
    }
}

} // verus!
