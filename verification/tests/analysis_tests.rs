use zkir::analysis::UnconstrainedVariableDetector;
use zkir::field::FieldElem;
use zkir::flat::{FlatParameter, FlatVariable};
use zkir::ir::{Directive, Function, LinComb, Prog, QuadComb, Statement};
use zkir::solvers::Solver;

fn fe(x: u64) -> FieldElem {
    FieldElem::from_u64(x)
}

fn prog(arguments: Vec<FlatParameter>, statements: Vec<Statement>, returns: Vec<FlatVariable>) -> Prog {
    Prog::new(Function { arguments, statements, return_vars: returns })
}

#[test]
fn unconstrained_private_input() {
    // def main(_0) -> (1):
    //     (1 * ~one) * (42 * ~one) == 1 * ~out_0
    //     return ~out_0
    let _0 = FlatParameter::private(FlatVariable::new(0)); // unused private parameter
    let one = FlatVariable::one();
    let out_0 = FlatVariable::public(0);

    let p = prog(
        vec![_0],
        vec![Statement::constraint(
            QuadComb::from_linear_combinations(
                LinComb::summand(fe(1), one),
                LinComb::summand(fe(42), one),
            ),
            LinComb::summand(fe(1), out_0),
        )],
        vec![out_0],
    );

    let result = UnconstrainedVariableDetector::detect(&p);
    assert_eq!(
        result.expect_err("expected an error").message(),
        "Found unconstrained variables during IR analysis (found 1 occurrence)"
    );
}

#[test]
fn constrained_private_input() {
    // def main(_0) -> (1):
    //     (1 * ~one) * (1 * _0) == 1 * ~out_0
    //     return ~out_0
    let _0 = FlatParameter::private(FlatVariable::new(0));
    let out_0 = FlatVariable::public(0);

    let p = prog(
        vec![_0],
        vec![Statement::definition(
            out_0,
            QuadComb::from_lincomb(LinComb::from_variable(_0.id)),
        )],
        vec![out_0],
    );

    let result = UnconstrainedVariableDetector::detect(&p);
    assert_eq!(result, Ok(()));
}

#[test]
fn constrained_directive() {
    // def main(_0) -> (1):
    //     # _1, _2 = ConditionEq((-42) * ~one + 1 * _0)
    //     ((-42) * ~one + 1 * _0) * (1 * _2) == 1 * _1
    //     (1 * ~one + (-1) * _1) * ((-42) * ~one + 1 * _0) == 0
    //     (1 * ~one) * (1 * ~one + (-1) * _1) == 1 * ~out_0
    //     return ~out_0
    let _0 = FlatParameter::private(FlatVariable::new(0));
    let _1 = FlatVariable::new(1);
    let _2 = FlatVariable::new(2);
    let out_0 = FlatVariable::public(0);
    let one = FlatVariable::one();

    let minus_42 = fe(42).neg();
    let minus_1 = fe(1).neg();

    let p = prog(
        vec![_0],
        vec![
            Statement::Directive(Directive {
                inputs: vec![QuadComb::from_lincomb(
                    LinComb::summand(minus_42, one).add(&LinComb::summand(fe(1), _0.id)),
                )],
                outputs: vec![_1, _2],
                solver: Solver::ConditionEq,
            }),
            Statement::constraint(
                QuadComb::from_linear_combinations(
                    LinComb::summand(minus_42, one).add(&LinComb::summand(fe(1), _0.id)),
                    LinComb::summand(fe(1), _2),
                ),
                LinComb::summand(fe(1), _1),
            ),
            Statement::constraint(
                QuadComb::from_linear_combinations(
                    LinComb::summand(fe(1), one).add(&LinComb::summand(minus_1, _1)),
                    LinComb::summand(minus_42, one).add(&LinComb::summand(fe(1), _0.id)),
                ),
                LinComb::zero(),
            ),
            Statement::constraint(
                QuadComb::from_linear_combinations(
                    LinComb::summand(fe(1), one),
                    LinComb::summand(fe(1), one).add(&LinComb::summand(minus_1, _1)),
                ),
                LinComb::summand(fe(1), out_0),
            ),
        ],
        vec![out_0],
    );

    let result = UnconstrainedVariableDetector::detect(&p);
    assert_eq!(result, Ok(()));
}
