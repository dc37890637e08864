use zkir::compile::{compile, CompileConfig, CompileErrorInner};
use zkir::field::{bits_le, FieldElem};
use zkir::flat::{
    FlatDirective, FlatExpression, FlatExpressionList, FlatFunction, FlatParameter, FlatStatement,
    FlatVariable,
};
use zkir::ir::{Function, LinComb, QuadComb};
use zkir::solvers::{execute_solver, Solver, SolverError};

fn fe(x: u64) -> FieldElem {
    FieldElem::from_u64(x)
}

#[test]
fn field_arithmetic() {
    assert_eq!(fe(3).add(&fe(5)), fe(8));
    assert_eq!(fe(3).mul(&fe(5)), fe(15));
    assert_eq!(fe(10).sub(&fe(4)), fe(6));
    // wrap-around through the modulus
    assert_eq!(fe(1).neg().add(&fe(1)), fe(0));
    assert_eq!(fe(0).sub(&fe(1)), fe(1).neg());
}

#[test]
fn field_inverse() {
    let a = fe(7);
    let inv = a.inverse().expect("7 is invertible");
    assert_eq!(a.mul(&inv), fe(1));
    assert!(fe(0).inverse().is_none());
}

#[test]
fn field_powers_of_two() {
    assert_eq!(FieldElem::pow2_elem(0), fe(1));
    assert_eq!(FieldElem::pow2_elem(10), fe(1024));
    assert_eq!(FieldElem::pow2_elem(63), fe(1u64 << 63));
    assert_eq!(FieldElem::required_bits(), 254);
}

#[test]
fn field_bits() {
    let bits = bits_le(&fe(5), 8);
    assert_eq!(
        bits,
        vec![true, false, true, false, false, false, false, false]
    );
    // a value above the width is reduced modulo 2^w
    let bits = bits_le(&fe(256 + 3), 8);
    assert_eq!(
        bits,
        vec![true, true, false, false, false, false, false, false]
    );
}

#[test]
fn bit_recombination() {
    // the bits of a value, recombined with their binary weights, give the
    // value back whenever it fits the width
    let x = 300u64;
    let bits = bits_le(&fe(x), 16);
    let mut acc = fe(0);
    for (i, b) in bits.iter().enumerate() {
        if *b {
            acc = acc.add(&FieldElem::pow2_elem(i));
        }
    }
    assert_eq!(acc, fe(x));
}

#[test]
fn solver_bits_high_first() {
    let out = execute_solver(&Solver::Bits(8), &vec![fe(5)]).unwrap();
    let expected: Vec<FieldElem> = [0u64, 0, 0, 0, 0, 1, 0, 1].iter().map(|b| fe(*b)).collect();
    assert_eq!(out, expected);
    assert_eq!(
        execute_solver(&Solver::Bits(8), &vec![]),
        Err(SolverError::WrongInputCount)
    );
}

#[test]
fn solver_condition_eq() {
    assert_eq!(
        execute_solver(&Solver::ConditionEq, &vec![fe(0)]).unwrap(),
        vec![fe(0), fe(1)]
    );
    let out = execute_solver(&Solver::ConditionEq, &vec![fe(5)]).unwrap();
    assert_eq!(out[0], fe(1));
    assert_eq!(fe(5).mul(&out[1]), fe(1));
}

#[test]
fn solver_sha256_round_unavailable() {
    let inputs: Vec<FieldElem> = (0..768).map(|_| fe(0)).collect();
    assert_eq!(
        execute_solver(&Solver::Sha256Round, &inputs),
        Err(SolverError::Unavailable)
    );
}

#[test]
fn canonicalize() {
    let x = FlatVariable::new(0);
    let y = FlatVariable::new(1);
    // y + 2x + 3y - with the y coefficients merging
    let l = LinComb::summand(fe(1), y)
        .add(&LinComb::summand(fe(2), x))
        .add(&LinComb::summand(fe(3), y));
    let red = l.reduce();
    assert_eq!(red, LinComb::summand(fe(2), x).add(&LinComb::summand(fe(4), y)));
    // canonicalization is idempotent
    let again = red.clone().reduce();
    assert_eq!(again, red);
    // opposite terms cancel to nothing
    let z = LinComb::summand(fe(5), x).add(&LinComb::summand(fe(5), x).scale(&fe(1).neg()));
    assert_eq!(z.reduce(), LinComb::zero());
}

#[test]
fn try_constant_and_summand() {
    let one = FlatVariable::one();
    let x = FlatVariable::new(0);
    assert_eq!(
        LinComb::summand(fe(2), one)
            .add(&LinComb::summand(fe(3), one))
            .try_constant(),
        Ok(fe(5))
    );
    assert_eq!(LinComb::zero().try_constant(), Ok(fe(0)));
    assert!(LinComb::from_variable(x).try_constant().is_err());
    let (v, c) = LinComb::summand(fe(4), x).try_summand().unwrap();
    assert_eq!((v, c), (x, fe(4)));
    assert!(LinComb::from_constant(fe(4)).try_summand().is_err());
}

#[test]
fn try_linear() {
    let x = FlatVariable::new(0);
    let q = QuadComb::from_linear_combinations(
        LinComb::from_constant(fe(3)),
        LinComb::summand(fe(2), x),
    );
    let l = q.try_linear().unwrap();
    assert_eq!(l, LinComb::summand(fe(6), x));
    let q = QuadComb::from_linear_combinations(
        LinComb::from_variable(x),
        LinComb::from_variable(x),
    );
    assert!(q.try_linear().is_err());
}

fn tiny_flat_function() -> FlatFunction {
    // def main(x) private:
    //    b0..b1 = Bits(2)(x)
    //    b0 == b0 * b0
    //    b1 == b1 * b1
    //    b1 + 2*b0 == x * 1
    //    return b0, b1
    let x = FlatVariable::new(0);
    let b0 = FlatVariable::new(1);
    let b1 = FlatVariable::new(2);
    let ident = |v: FlatVariable| FlatExpression::Identifier(v);
    let boolean = |v: FlatVariable| {
        FlatStatement::Condition(
            ident(v),
            FlatExpression::Mult(Box::new(ident(v)), Box::new(ident(v))),
        )
    };
    FlatFunction {
        arguments: vec![FlatParameter::private(x)],
        statements: vec![
            FlatStatement::Directive(FlatDirective::new(
                vec![b0, b1],
                Solver::Bits(2),
                vec![ident(x)],
            )),
            boolean(b0),
            boolean(b1),
            FlatStatement::Condition(
                FlatExpression::Add(
                    Box::new(ident(b1)),
                    Box::new(FlatExpression::Mult(
                        Box::new(ident(b0)),
                        Box::new(FlatExpression::Number(fe(2))),
                    )),
                ),
                FlatExpression::Mult(
                    Box::new(ident(x)),
                    Box::new(FlatExpression::Number(fe(1))),
                ),
            ),
            FlatStatement::Return(FlatExpressionList {
                expressions: vec![ident(b0), ident(b1)],
            }),
        ],
    }
}

#[test]
fn lowering_produces_r1cs() {
    let f = Function::from_flat(&tiny_flat_function()).unwrap();
    // one statement per non-return statement, plus one per return value
    assert_eq!(f.statements.len(), 6);
    assert_eq!(f.return_vars, vec![FlatVariable::public(0), FlatVariable::public(1)]);
    assert_eq!(f.arguments, vec![FlatParameter::private(FlatVariable::new(0))]);
}

#[test]
fn lowering_rejects_nonlinear_condition() {
    let x = FlatVariable::new(0);
    let ident = |v: FlatVariable| FlatExpression::Identifier(v);
    let square = FlatExpression::Mult(Box::new(ident(x)), Box::new(ident(x)));
    let f = FlatFunction {
        arguments: vec![FlatParameter::public(x)],
        statements: vec![
            FlatStatement::Condition(
                FlatExpression::Mult(Box::new(square.clone()), Box::new(square)),
                ident(x),
            ),
            FlatStatement::Return(FlatExpressionList { expressions: vec![] }),
        ],
    };
    assert!(Function::from_flat(&f).is_err());
}

#[test]
fn compile_pipeline() {
    let config = CompileConfig::default();
    let artifacts = compile(&tiny_flat_function(), "main", &config).unwrap();
    // the argument survives optimization; the directive and its booleanity
    // constraints remain
    assert_eq!(
        artifacts.prog().main.arguments,
        vec![FlatParameter::private(FlatVariable::new(0))]
    );
}

#[test]
fn compile_rejects_unconstrained() {
    // one private argument that no constraint mentions
    let x = FlatVariable::new(0);
    let f = FlatFunction {
        arguments: vec![FlatParameter::private(x)],
        statements: vec![FlatStatement::Return(FlatExpressionList {
            expressions: vec![FlatExpression::Number(fe(42))],
        })],
    };
    let config = CompileConfig::default();
    let errors = compile(&f, "main", &config).unwrap_err();
    match &errors.0[0].value {
        CompileErrorInner::AnalysisError(e) => {
            assert_eq!(
                e.message(),
                "Found unconstrained variables during IR analysis (found 1 occurrence)"
            );
        }
        other => panic!("expected an analysis error, got {:?}", other),
    }
    // the same program is accepted when unconstrained variables are allowed
    let permissive = CompileConfig::default().allow_unconstrained_variables(true);
    assert!(compile(&f, "main", &permissive).is_ok());
}

#[test]
fn compile_error_is_located() {
    // a program with no return statement is refused by the lowering, and
    // the error carries the caller's location
    let f = FlatFunction { arguments: vec![], statements: vec![] };
    let errors = compile(&f, "main.zok", &CompileConfig::default()).unwrap_err();
    assert_eq!(errors.0.len(), 1);
    assert_eq!(errors.0[0].file(), "main.zok");
    assert!(matches!(errors.0[0].value(), CompileErrorInner::InternalError(_)));
}

#[test]
fn analysis_error_message_plural() {
    assert_eq!(
        zkir::analysis::Error(2).message(),
        "Found unconstrained variables during IR analysis (found 2 occurrences)"
    );
}

#[test]
fn config_builders() {
    let config = CompileConfig::default()
        .allow_unconstrained_variables(true)
        .isolate_branches(true);
    assert!(config.allow_unconstrained_variables);
    assert!(config.isolate_branches);
}
