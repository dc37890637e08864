//! The flat program form: statements over expression trees, as the flattener
//! and the gadget synthesizers emit them, before lowering to the IR's
//! linear-combination form.

use vstd::prelude::*;
use crate::field::FieldElem;
use crate::solvers::Solver;

verus! {

/// A variable of the flat and IR layers.
///
/// The encoding keeps the three families apart: the distinguished `~one`
/// variable is id `0`, ordinary variables count up from `1`, and public
/// output variables count down from `-1`.
#[derive(Clone, Copy, Debug, PartialEq, Eq, Structural, Hash)]
pub struct FlatVariable {
    pub id: i64,
}

impl FlatVariable {
    /// The ordinary variable with the given index.
    pub fn new(index: usize) -> (r: FlatVariable)
        requires
            index < 0x7fffffffffffffff,
        ensures
            r.id == 1 + index,
    {
        FlatVariable { id: 1 + (index as i64) }
    }

    /// The distinguished variable bound to the field element one.
    pub fn one() -> (r: FlatVariable)
        ensures
            r.id == 0,
    {
        FlatVariable { id: 0 }
    }

    /// The public output variable with the given index.
    pub fn public(index: usize) -> (r: FlatVariable)
        requires
            index < 0x7fffffffffffffff,
        ensures
            r.id == -1 - index,
    {
        FlatVariable { id: -1 - (index as i64) }
    }

    /// Whether this is the distinguished `~one` variable.
    pub fn is_one(&self) -> (r: bool)
        ensures
            r <==> self.id == 0,
    {
        self.id == 0
    }
}

/// A function argument: a variable together with its privacy.
#[derive(Clone, Copy, Debug, PartialEq, Eq, Structural, Hash)]
pub struct FlatParameter {
    pub id: FlatVariable,
    pub private: bool,
}

impl FlatParameter {
    /// A public argument.
    pub fn public(v: FlatVariable) -> (r: FlatParameter)
        ensures
            r == (FlatParameter { id: v, private: false }),
    {
        FlatParameter { id: v, private: false }
    }

    /// A private argument.
    pub fn private(v: FlatVariable) -> (r: FlatParameter)
        ensures
            r == (FlatParameter { id: v, private: true }),
    {
        FlatParameter { id: v, private: true }
    }
}

/// An arithmetic expression over variables and field constants.
#[derive(Debug, PartialEq)]
pub enum FlatExpression {
    Number(FieldElem),
    Identifier(FlatVariable),
    Add(Box<FlatExpression>, Box<FlatExpression>),
    Sub(Box<FlatExpression>, Box<FlatExpression>),
    Mult(Box<FlatExpression>, Box<FlatExpression>),
}

impl Clone for FlatExpression {
    /// Deep copy; the clone equals the original.
    fn clone(&self) -> (r: Self)
        ensures
            r == *self,
        decreases *self,
    {
        match self {
            FlatExpression::Number(c) => FlatExpression::Number(*c),
            FlatExpression::Identifier(v) => FlatExpression::Identifier(*v),
            FlatExpression::Add(a, b) => FlatExpression::Add(
                Box::new((**a).clone()),
                Box::new((**b).clone()),
            ),
            FlatExpression::Sub(a, b) => FlatExpression::Sub(
                Box::new((**a).clone()),
                Box::new((**b).clone()),
            ),
            FlatExpression::Mult(a, b) => FlatExpression::Mult(
                Box::new((**a).clone()),
                Box::new((**b).clone()),
            ),
        }
    }
}

impl FlatExpression {
    /// Whether lowering turns the expression into a single linear
    /// combination: free of multiplications, except by a constant.
    pub open spec fn is_linear_spec(self) -> bool
        decreases self,
    {
        match self {
            FlatExpression::Number(_) => true,
            FlatExpression::Identifier(_) => true,
            FlatExpression::Add(a, b) => a.is_linear_spec() && b.is_linear_spec(),
            FlatExpression::Sub(a, b) => a.is_linear_spec() && b.is_linear_spec(),
            FlatExpression::Mult(a, b) => match *a {
                FlatExpression::Number(_) => b.is_linear_spec(),
                _ => match *b {
                    FlatExpression::Number(_) => a.is_linear_spec(),
                    _ => false,
                },
            },
        }
    }

    /// Decides linearity, as `is_linear_spec` defines it.
    pub fn is_linear(&self) -> (r: bool)
        ensures
            r == self.is_linear_spec(),
        decreases *self,
    {
        match self {
            FlatExpression::Number(_) => true,
            FlatExpression::Identifier(_) => true,
            FlatExpression::Add(a, b) => a.is_linear() && b.is_linear(),
            FlatExpression::Sub(a, b) => a.is_linear() && b.is_linear(),
            FlatExpression::Mult(a, b) => match &**a {
                FlatExpression::Number(_) => b.is_linear(),
                _ => match &**b {
                    FlatExpression::Number(_) => a.is_linear(),
                    _ => false,
                },
            },
        }
    }

    /// An expression made from a variable.
    pub fn from_variable(v: FlatVariable) -> (r: FlatExpression)
        ensures
            r == FlatExpression::Identifier(v),
    {
        FlatExpression::Identifier(v)
    }
}

/// A non-deterministic witness assignment: at proving time the solver runs on
/// the inputs and its results are bound to the outputs.
#[derive(Clone, Debug, PartialEq)]
pub struct FlatDirective {
    pub outputs: Vec<FlatVariable>,
    pub inputs: Vec<FlatExpression>,
    pub solver: Solver,
}

impl FlatDirective {
    pub fn new(outputs: Vec<FlatVariable>, solver: Solver, inputs: Vec<FlatExpression>) -> (r:
        FlatDirective)
        ensures
            r == (FlatDirective { outputs, inputs, solver }),
    {
        FlatDirective { outputs, inputs, solver }
    }
}

/// The values a flat function returns.
#[derive(Clone, Debug, PartialEq)]
pub struct FlatExpressionList {
    pub expressions: Vec<FlatExpression>,
}

/// A statement of a flat function.
#[derive(Clone, Debug, PartialEq)]
pub enum FlatStatement {
    /// Asserts that the two expressions take the same value.
    Condition(FlatExpression, FlatExpression),
    /// Binds solver results to fresh variables.
    Directive(FlatDirective),
    /// Returns the listed expressions.
    Return(FlatExpressionList),
}

/// A flat function: arguments and the statements over them.
#[derive(Clone, Debug, PartialEq)]
pub struct FlatFunction {
    pub arguments: Vec<FlatParameter>,
    pub statements: Vec<FlatStatement>,
}

} // verus!
