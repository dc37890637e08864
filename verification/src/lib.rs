//! Core of a zk-SNARK circuit compiler: a rank-1 constraint system (R1CS)
//! intermediate representation over a prime field, together with the passes
//! that build and transform it: gadget synthesis (bit decomposition and a
//! SHA-256 round over an externally generated constraint system), lowering
//! of flat programs to the IR, a redefinition optimizer, and a static
//! analysis that detects unconstrained witness variables.

pub mod analysis;
pub mod compile;
pub mod embed;
pub mod field;
pub mod flat;
pub mod ir;
pub mod optimizer;
pub mod solvers;
