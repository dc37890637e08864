use zkir::field::FieldElem;
use zkir::flat::{FlatParameter, FlatVariable};
use zkir::ir::{Directive, Function, LinComb, Prog, QuadComb, Statement};
use zkir::optimizer::RedefinitionOptimizer;
use zkir::solvers::Solver;

fn fe(x: u64) -> FieldElem {
    FieldElem::from_u64(x)
}

fn prog(arguments: Vec<FlatParameter>, statements: Vec<Statement>, returns: Vec<FlatVariable>) -> Prog {
    Prog::new(Function { arguments, statements, return_vars: returns })
}

fn def_var(v: FlatVariable, rhs: FlatVariable) -> Statement {
    Statement::definition(v, QuadComb::from_lincomb(LinComb::from_variable(rhs)))
}

fn def_const(v: FlatVariable, c: FieldElem) -> Statement {
    Statement::definition(v, QuadComb::from_lincomb(LinComb::from_constant(c)))
}

#[test]
fn remove_synonyms() {
    // def main(x):
    //    y = x
    //    z = y
    //    return z
    let x = FlatParameter::public(FlatVariable::new(0));
    let y = FlatVariable::new(1);
    let z = FlatVariable::new(2);

    let p = prog(
        vec![x],
        vec![def_var(y, x.id), def_var(z, y)],
        vec![z],
    );

    let optimized = prog(vec![x], vec![def_var(z, x.id)], vec![z]);

    let mut optimizer = RedefinitionOptimizer::new();
    assert_eq!(optimizer.fold_module(p).unwrap(), optimized);
}

#[test]
fn keep_one() {
    // def main(x):
    //    one = x
    //    return one
    let one = FlatVariable::one();
    let x = FlatParameter::public(FlatVariable::new(0));

    let p = prog(vec![x], vec![def_var(one, x.id)], vec![x.id]);
    let expected = p.clone();

    let mut optimizer = RedefinitionOptimizer::new();
    assert_eq!(optimizer.fold_module(p).unwrap(), expected);
}

#[test]
fn remove_synonyms_in_condition() {
    // def main(x) -> (1):
    //    y = x
    //    z = y
    //    z == y
    //    return z
    let x = FlatParameter::public(FlatVariable::new(0));
    let y = FlatVariable::new(1);
    let z = FlatVariable::new(2);

    let p = prog(
        vec![x],
        vec![
            def_var(y, x.id),
            def_var(z, y),
            Statement::constraint(
                QuadComb::from_lincomb(LinComb::from_variable(z)),
                LinComb::from_variable(y),
            ),
        ],
        vec![z],
    );

    let optimized = prog(
        vec![x],
        vec![
            def_var(z, x.id),
            Statement::constraint(
                QuadComb::from_lincomb(LinComb::from_variable(z)),
                LinComb::from_variable(x.id),
            ),
        ],
        vec![z],
    );

    let mut optimizer = RedefinitionOptimizer::new();
    assert_eq!(optimizer.fold_module(p).unwrap(), optimized);
}

#[test]
fn remove_multiple_synonyms() {
    // def main(x) -> (2):
    //    y = x
    //    t = 1
    //    z = y
    //    w = t
    //    return z, w
    let x = FlatParameter::public(FlatVariable::new(0));
    let y = FlatVariable::new(1);
    let z = FlatVariable::new(2);
    let t = FlatVariable::new(3);
    let w = FlatVariable::new(4);

    let p = prog(
        vec![x],
        vec![
            def_var(y, x.id),
            def_const(t, fe(1)),
            def_var(z, y),
            def_var(w, t),
        ],
        vec![z, w],
    );

    let optimized = prog(
        vec![x],
        vec![def_var(z, x.id), def_const(w, fe(1))],
        vec![z, w],
    );

    let mut optimizer = RedefinitionOptimizer::new();
    assert_eq!(optimizer.fold_module(p).unwrap(), optimized);
}

#[test]
fn substitute_lincomb() {
    // def main(x, y) -> (1):
    //     a = x + y
    //     b = a + x + y
    //     c = b + x + y
    //     2*c == 6*x + 6*y
    //     r = a + b + c
    //     return r
    let x = FlatParameter::public(FlatVariable::new(0));
    let y = FlatParameter::public(FlatVariable::new(1));
    let a = FlatVariable::new(2);
    let b = FlatVariable::new(3);
    let c = FlatVariable::new(4);
    let r = FlatVariable::new(5);

    let lin = |v: FlatVariable| LinComb::from_variable(v);
    let p = prog(
        vec![x, y],
        vec![
            Statement::definition(a, QuadComb::from_lincomb(lin(x.id).add(&lin(y.id)))),
            Statement::definition(
                b,
                QuadComb::from_lincomb(lin(a).add(&lin(x.id)).add(&lin(y.id))),
            ),
            Statement::definition(
                c,
                QuadComb::from_lincomb(lin(b).add(&lin(x.id)).add(&lin(y.id))),
            ),
            Statement::constraint(
                QuadComb::from_lincomb(LinComb::summand(fe(2), c)),
                LinComb::summand(fe(6), x.id).add(&LinComb::summand(fe(6), y.id)),
            ),
            Statement::definition(
                r,
                QuadComb::from_lincomb(lin(a).add(&lin(b)).add(&lin(c))),
            ),
        ],
        vec![r],
    );

    let expected = prog(
        vec![x, y],
        vec![
            Statement::constraint(
                QuadComb::from_lincomb(
                    LinComb::summand(fe(6), x.id).add(&LinComb::summand(fe(6), y.id)),
                ),
                LinComb::summand(fe(6), x.id).add(&LinComb::summand(fe(6), y.id)),
            ),
            Statement::definition(
                r,
                QuadComb::from_lincomb(
                    LinComb::summand(fe(1), x.id)
                        .add(&LinComb::summand(fe(1), y.id))
                        .add(&LinComb::summand(fe(2), x.id))
                        .add(&LinComb::summand(fe(2), y.id))
                        .add(&LinComb::summand(fe(3), x.id))
                        .add(&LinComb::summand(fe(3), y.id)),
                ),
            ),
        ],
        vec![r],
    );

    let mut optimizer = RedefinitionOptimizer::new();
    assert_eq!(optimizer.fold_module(p).unwrap(), expected);
}

#[test]
fn keep_existing_quadratic_variable() {
    // def main(x, y):
    //     z = x * y
    //     z = x
    //     return
    let x = FlatParameter::public(FlatVariable::new(0));
    let y = FlatParameter::public(FlatVariable::new(1));
    let z = FlatVariable::new(2);

    let p = prog(
        vec![x, y],
        vec![
            Statement::definition(
                z,
                QuadComb::from_linear_combinations(
                    LinComb::from_variable(x.id),
                    LinComb::from_variable(y.id),
                ),
            ),
            def_var(z, x.id),
        ],
        vec![],
    );
    let expected = p.clone();

    let mut optimizer = RedefinitionOptimizer::new();
    assert_eq!(optimizer.fold_module(p).unwrap(), expected);
}

#[test]
fn keep_existing_variable() {
    // def main(x) -> (1):
    //     x == 1
    //     x == 2
    //     return x
    let x = FlatParameter::public(FlatVariable::new(0));

    let p = prog(
        vec![x],
        vec![
            Statement::constraint(
                QuadComb::from_lincomb(LinComb::from_variable(x.id)),
                LinComb::from_constant(fe(1)),
            ),
            Statement::constraint(
                QuadComb::from_lincomb(LinComb::from_variable(x.id)),
                LinComb::from_constant(fe(2)),
            ),
        ],
        vec![x.id],
    );
    let expected = p.clone();

    let mut optimizer = RedefinitionOptimizer::new();
    assert_eq!(optimizer.fold_module(p).unwrap(), expected);
}

#[test]
fn directive_constant_folding() {
    // a Bits(8) directive on the constant 5 is solved at compile time: the
    // eight outputs are bound to the bits of 5, high bit first, and only the
    // use of the two set bits survives in the kept definition
    let one = FlatVariable::one();
    let z = FlatVariable::new(8);
    let outs: Vec<FlatVariable> = (0..8).map(FlatVariable::new).collect();

    let mut use_all = LinComb::from_variable(outs[0]);
    for o in &outs[1..] {
        use_all = use_all.add(&LinComb::from_variable(*o));
    }

    let p = prog(
        vec![],
        vec![
            Statement::Directive(Directive {
                inputs: vec![QuadComb::from_lincomb(LinComb::summand(fe(5), one))],
                outputs: outs.clone(),
                solver: Solver::Bits(8),
            }),
            Statement::definition(z, QuadComb::from_lincomb(use_all)),
        ],
        vec![z],
    );

    let expected = prog(
        vec![],
        vec![Statement::definition(
            z,
            QuadComb::from_lincomb(
                LinComb::from_constant(fe(1)).add(&LinComb::from_constant(fe(1))),
            ),
        )],
        vec![z],
    );

    let mut optimizer = RedefinitionOptimizer::new();
    assert_eq!(optimizer.fold_module(p).unwrap(), expected);
}
