//! The backend pipeline driver: lowering a flat program to the IR, running
//! the redefinition optimizer, and analyzing the result for unconstrained
//! variables. Parsing, semantic checking and high-level desugaring happen in
//! external collaborators upstream of this crate.

use vstd::prelude::*;
use crate::analysis::{final_suspects, UnconstrainedVariableDetector};
use crate::field::lemma_from_nat_val;
use crate::flat::{FlatExpression, FlatFunction, FlatStatement};
use crate::ir::{
    function_lowerable, function_lowered, lin_terms_spec, quad_lowered, ret_exprs, stmt_lowered,
    Function, LinComb, LowerError, Prog, Statement, Term,
};
use crate::optimizer::{
    distinct_vars, fold_seq_rel, lemma_canon_wf, lemma_scale_wf, prog_wf, seeded_ignore,
    solver_can_fail, stmt_wf, terms_wf, OptimizeError, RedefinitionOptimizer,
};
use crate::solvers::Solver;

verus! {

/// Switches of one compilation run.
#[derive(Clone, Copy, Debug, PartialEq, Eq, Structural, Default)]
pub struct CompileConfig {
    pub allow_unconstrained_variables: bool,
    pub isolate_branches: bool,
}

impl CompileConfig {
    /// Sets whether the analyzer's findings are fatal.
    pub fn allow_unconstrained_variables(self, flag: bool) -> (r: CompileConfig)
        ensures
            r == (CompileConfig {
                allow_unconstrained_variables: flag,
                isolate_branches: self.isolate_branches,
            }),
    {
        CompileConfig { allow_unconstrained_variables: flag, isolate_branches: self.isolate_branches }
    }

    /// Sets whether conditional arms are isolated during flattening.
    pub fn isolate_branches(self, flag: bool) -> (r: CompileConfig)
        ensures
            r == (CompileConfig {
                allow_unconstrained_variables: self.allow_unconstrained_variables,
                isolate_branches: flag,
            }),
    {
        CompileConfig {
            allow_unconstrained_variables: self.allow_unconstrained_variables,
            isolate_branches: flag,
        }
    }
}

/// One error of the pipeline, tagged by the stage that found it.
#[derive(Clone, Debug, PartialEq)]
pub enum CompileErrorInner {
    /// The surface text could not be parsed (reported upstream).
    ParserError(String),
    /// An import could not be resolved (reported upstream).
    ImportError(String),
    /// A macro could not be expanded (reported upstream).
    MacroError(String),
    /// The program is not well-typed (reported upstream).
    SemanticError(String),
    /// A source file could not be read (reported upstream).
    ReadError(String),
    /// The flat program violates an internal invariant of the lowering.
    InternalError(String),
    /// The optimizer could not run a solver at compile time.
    OptimizerError(OptimizeError),
    /// The analyzer found unconstrained variables.
    AnalysisError(crate::analysis::Error),
}

impl CompileErrorInner {
    /// Attaches the file the error belongs to.
    pub fn in_file(self, context: &str) -> (r: CompileError)
        ensures
            r.value == self,
            r.file@ == context@,
    {
        CompileError { value: self, file: string_clone(context) }
    }
}

/// Relies on `str::to_string`: the owned copy holds the same characters.
#[verifier::external_body]
fn string_clone(s: &str) -> (r: String)
    ensures
        r@ == s@,
{
    s.to_string()
}

/// An error, located in a source file.
#[derive(Clone, Debug, PartialEq)]
pub struct CompileError {
    pub file: String,
    pub value: CompileErrorInner,
}

impl CompileError {
    /// The file the error was found in.
    pub fn file(&self) -> (r: &String)
        ensures
            r == &self.file,
    {
        &self.file
    }

    /// The stage-tagged error itself.
    pub fn value(&self) -> (r: &CompileErrorInner)
        ensures
            r == &self.value,
    {
        &self.value
    }
}

/// All the errors of one compilation run.
#[derive(Clone, Debug, PartialEq)]
pub struct CompileErrors(pub Vec<CompileError>);

impl CompileErrors {
    /// Relocates every error to the given file, keeping each error's value
    /// and their order.
    pub fn with_context(self, file: String) -> (r: CompileErrors)
        ensures
            r.0@.len() == self.0@.len(),
            forall|i: int|
                0 <= i < r.0@.len() ==> (#[trigger] r.0@[i]).file@ == file@ && r.0@[i].value
                    == self.0@[i].value,
    {
        let ghost orig = self.0@;
        let ghost n0 = self.0@.len();
        let mut rest = self.0;
        let mut rev: Vec<CompileError> = Vec::new();
        while rest.len() > 0
            invariant
                rest@.len() + rev@.len() == n0,
                forall|k: int| 0 <= k < rest@.len() ==> rest@[k] == orig[k],
                forall|k: int| 0 <= k < rev@.len() ==> rev@[k] == orig[n0 - 1 - k],
            decreases rest@.len(),
        {
            match rest.pop() {
                Some(e) => rev.push(e),
                None => {
                    proof {
                        assert(false);
                    }
                },
            }
        }
        let mut out: Vec<CompileError> = Vec::new();
        while rev.len() > 0
            invariant
                rev@.len() + out@.len() == n0,
                forall|k: int| 0 <= k < rev@.len() ==> rev@[k] == orig[n0 - 1 - k],
                forall|i: int|
                    0 <= i < out@.len() ==> (#[trigger] out@[i]).file@ == file@ && out@[i].value
                        == orig[i].value,
            decreases rev@.len(),
        {
            match rev.pop() {
                Some(e) => {
                    let CompileError { file: _old_file, value } = e;
                    out.push(CompileError { file: string_clone(file.as_str()), value });
                },
                None => {
                    proof {
                        assert(false);
                    }
                },
            }
        }
        CompileErrors(out)
    }
}

/// What a successful run yields: the final IR program. The ABI describing
/// the main function's external signature is produced upstream and passed
/// through unchanged beside it.
#[derive(Clone, Debug, PartialEq)]
pub struct CompilationArtifacts {
    pub prog: Prog,
}

impl CompilationArtifacts {
    /// The final IR program.
    pub fn prog(&self) -> (r: &Prog)
        ensures
            r == &self.prog,
    {
        &self.prog
    }
}

/// Every field constant in the expression is reduced below the modulus.
pub open spec fn expr_coeffs_wf(e: FlatExpression) -> bool
    decreases e,
{
    match e {
        FlatExpression::Number(c) => c.wf(),
        FlatExpression::Identifier(_v) => true,
        FlatExpression::Add(a, b) => expr_coeffs_wf(*a) && expr_coeffs_wf(*b),
        FlatExpression::Sub(a, b) => expr_coeffs_wf(*a) && expr_coeffs_wf(*b),
        FlatExpression::Mult(a, b) => expr_coeffs_wf(*a) && expr_coeffs_wf(*b),
    }
}

/// Reduced constants everywhere and distinct directive outputs: the flat
/// form of the invariants the optimizer requires of the lowered program.
pub open spec fn flat_stmt_wf(s: FlatStatement) -> bool {
    match s {
        FlatStatement::Condition(a, b) => expr_coeffs_wf(a) && expr_coeffs_wf(b),
        FlatStatement::Directive(d) => distinct_vars(d.outputs@) && forall|i: int|
            0 <= i < d.inputs@.len() ==> expr_coeffs_wf(#[trigger] d.inputs@[i]),
        FlatStatement::Return(l) => forall|i: int|
            0 <= i < l.expressions@.len() ==> expr_coeffs_wf(#[trigger] l.expressions@[i]),
    }
}

/// The whole flat program well-formed, statement by statement.
pub open spec fn flat_wf(f: FlatFunction) -> bool {
    forall|i: int| 0 <= i < f.statements@.len() ==> flat_stmt_wf(#[trigger] f.statements@[i])
}

/// Whether this flat statement's directive, once lowered, could make a
/// compile-time solver run fail: the SHA-256 round (whose witness generator
/// is external), or mismatched input/output counts.
pub open spec fn flat_stmt_infallible(s: FlatStatement) -> bool {
    match s {
        FlatStatement::Directive(d) => match d.solver {
            Solver::Bits(w) => d.inputs@.len() == 1 && d.outputs@.len() == w,
            Solver::ConditionEq => d.inputs@.len() == 1 && d.outputs@.len() == 2,
            Solver::Sha256Round => false,
        },
        _ => true,
    }
}

/// No directive of the flat program can make a compile-time solver fail.
pub open spec fn flat_no_fallible_directives(f: FlatFunction) -> bool {
    forall|i: int| 0 <= i < f.statements@.len() ==> flat_stmt_infallible(#[trigger] f.statements@[i])
}

/// Concatenation keeps coefficients reduced.
proof fn lemma_concat_wf(x: Seq<Term>, y: Seq<Term>)
    requires
        terms_wf(x),
        terms_wf(y),
    ensures
        terms_wf(x + y),
{
    assert forall|i: int| 0 <= i < (x + y).len() implies (#[trigger] (x + y)[i]).1.wf() by {
        if i < x.len() {
            assert((x + y)[i] == x[i]);
        } else {
            assert((x + y)[i] == y[i - x.len()]);
        }
    }
}

/// A linear expression with reduced constants lowers to reduced terms.
proof fn lemma_lin_terms_wf(e: FlatExpression)
    requires
        expr_coeffs_wf(e),
    ensures
        terms_wf(lin_terms_spec(e)),
    decreases e,
{
    match e {
        FlatExpression::Number(_c) => {},
        FlatExpression::Identifier(_v) => {
            lemma_from_nat_val(1);
        },
        FlatExpression::Add(a, b) => {
            lemma_lin_terms_wf(*a);
            lemma_lin_terms_wf(*b);
            lemma_concat_wf(lin_terms_spec(*a), lin_terms_spec(*b));
        },
        FlatExpression::Sub(a, b) => {
            lemma_lin_terms_wf(*a);
            lemma_scale_wf(
                lin_terms_spec(*b),
                (crate::field::field_modulus() - 1) as nat,
            );
            lemma_concat_wf(
                lin_terms_spec(*a),
                crate::ir::scale_terms(
                    lin_terms_spec(*b),
                    (crate::field::field_modulus() - 1) as nat,
                ),
            );
        },
        FlatExpression::Mult(a, b) => {
            match *a {
                FlatExpression::Number(c) => {
                    lemma_scale_wf(lin_terms_spec(*b), c.val());
                },
                _ => {
                    match *b {
                        FlatExpression::Number(c) => {
                            lemma_scale_wf(lin_terms_spec(*a), c.val());
                        },
                        _ => {},
                    }
                },
            }
        },
    }
}

/// Both sides of a lowered product have reduced coefficients.
proof fn lemma_quad_lowered_wf(e: FlatExpression, left: Seq<Term>, right: Seq<Term>)
    requires
        expr_coeffs_wf(e),
        quad_lowered(e, left, right),
    ensures
        terms_wf(left),
        terms_wf(right),
{
    match e {
        FlatExpression::Mult(a, b) => {
            lemma_lin_terms_wf(*a);
            lemma_lin_terms_wf(*b);
        },
        _ => {
            lemma_from_nat_val(1);
            lemma_lin_terms_wf(e);
        },
    }
}

/// A well-formed flat program lowers to a well-formed IR program.
pub proof fn lemma_lowered_prog_wf(f: FlatFunction, p: Prog)
    requires
        function_lowerable(f),
        function_lowered(f, p.main),
        flat_wf(f),
    ensures
        prog_wf(p),
{
    let n = f.statements@.len() as int;
    assert forall|i: int| 0 <= i < p.main.statements@.len() implies stmt_wf(
        #[trigger] p.main.statements@[i],
    ) by {
        if i < n - 1 {
            assert(flat_stmt_wf(f.statements@[i]));
            assert(stmt_lowered(f.statements@[i], p.main.statements@[i]));
            match f.statements@[i] {
                FlatStatement::Condition(a, b) => {
                    lemma_lin_terms_wf(a);
                    lemma_canon_wf(lin_terms_spec(a));
                    match p.main.statements@[i] {
                        Statement::Constraint(q, _l, _mm) => {
                            lemma_quad_lowered_wf(b, q.left@, q.right@);
                        },
                        Statement::Directive(_d) => {
                            assert(false);
                        },
                    }
                },
                FlatStatement::Directive(d) => {
                    match p.main.statements@[i] {
                        Statement::Directive(d2) => {
                            assert forall|k: int| 0 <= k < d2.inputs@.len() implies terms_wf(
                                (#[trigger] d2.inputs@[k]).left@,
                            ) && terms_wf(d2.inputs@[k].right@) by {
                                assert(expr_coeffs_wf(d.inputs@[k]));
                                lemma_quad_lowered_wf(
                                    d.inputs@[k],
                                    d2.inputs@[k].left@,
                                    d2.inputs@[k].right@,
                                );
                            }
                        },
                        Statement::Constraint(_q, _l, _mm) => {
                            assert(false);
                        },
                    }
                },
                FlatStatement::Return(_l) => {
                    assert(false);
                },
            }
        } else {
            let j = i - (n - 1);
            assert(p.main.statements@[i] == p.main.statements@[f.statements@.len() - 1 + j]);
            assert(flat_stmt_wf(f.statements@[n - 1]));
            match f.statements@[n - 1] {
                FlatStatement::Return(l) => {
                    assert(expr_coeffs_wf(ret_exprs(f)[j]));
                },
                _ => {
                    assert(false);
                },
            }
            match p.main.statements@[i] {
                Statement::Constraint(q, _l, _mm) => {
                    lemma_quad_lowered_wf(ret_exprs(f)[j], q.left@, q.right@);
                    lemma_from_nat_val(1);
                },
                Statement::Directive(_d) => {
                    assert(false);
                },
            }
        }
    }
}

/// A flat program without fallible directives lowers to one whose
/// directives cannot make a compile-time solver run fail.
pub proof fn lemma_lowered_infallible(f: FlatFunction, p: Prog)
    requires
        function_lowerable(f),
        function_lowered(f, p.main),
        flat_no_fallible_directives(f),
    ensures
        forall|i: int|
            0 <= i < p.main.statements@.len() ==> ((#[trigger] p.main.statements@[i])
                matches Statement::Directive(d) ==> !solver_can_fail(d)),
{
    let n = f.statements@.len() as int;
    assert forall|i: int|
        0 <= i < p.main.statements@.len() && (#[trigger] p.main.statements@[i])
            is Directive implies match p.main.statements@[i] {
        Statement::Directive(d) => !solver_can_fail(d),
        Statement::Constraint(_q, _l, _mm) => true,
    } by {
        if i < n - 1 {
            assert(stmt_lowered(f.statements@[i], p.main.statements@[i]));
            assert(flat_stmt_infallible(f.statements@[i]));
            match f.statements@[i] {
                FlatStatement::Condition(_a, _b) => {
                    assert(false);
                },
                FlatStatement::Return(_l) => {
                    assert(false);
                },
                FlatStatement::Directive(_d) => {},
            }
        } else {
            let j = i - (n - 1);
            assert(p.main.statements@[i] == p.main.statements@[f.statements@.len() - 1 + j]);
            assert(false);
        }
    }
}

/// Runs the backend half of the pipeline on a flattened program: lowers it
/// to the IR, optimizes redefinitions away, and unless the configuration
/// allows them, rejects programs with unconstrained variables.
///
/// It fails exactly on: a program the lowering refuses, one whose lowered
/// coefficients are not reduced or whose directive outputs collide (both
/// internal invariant violations), a compile-time solver run that the
/// optimizer could not complete, or unconstrained variables when the
/// configuration forbids them. Every error is located at the given file.
pub fn compile(
    flattened: &FlatFunction,
    location: &str,
    config: &CompileConfig,
) -> (r: Result<CompilationArtifacts, CompileErrors>)
    ensures
        !function_lowerable(*flattened) ==> (r matches Err(e) && e.0@[0].value is InternalError),
        (r matches Err(e) ==> e.0@.len() == 1 && e.0@[0].file@ == location@),
        (function_lowerable(*flattened) && flat_wf(*flattened) && flat_no_fallible_directives(
            *flattened,
        ) && config.allow_unconstrained_variables) ==> r is Ok,
        (r matches Err(e) ==> match e.0@[0].value {
            CompileErrorInner::InternalError(_s) => !function_lowerable(*flattened) || (exists|
                low: Prog,
            |
                #![trigger function_lowered(*flattened, low.main)]
                function_lowered(*flattened, low.main) && !prog_wf(low)),
            CompileErrorInner::OptimizerError(_oe) => exists|low: Prog|
                #![trigger function_lowered(*flattened, low.main)]
                function_lowered(*flattened, low.main) && prog_wf(low) && (exists|i: int|
                    0 <= i < low.main.statements@.len() && ((#[trigger] low.main.statements@[i])
                        matches Statement::Directive(d) && solver_can_fail(d))),
            CompileErrorInner::AnalysisError(err) => !config.allow_unconstrained_variables
                && err.0 != 0 && (exists|
                low: Prog,
                q: Prog,
                sub2: Map<i64, LinComb>,
                ign2: Set<i64>,
            |
                #![trigger fold_seq_rel(
                    Map::<i64, LinComb>::empty(),
                    seeded_ignore(Set::<i64>::empty(), low),
                    low.main.statements@,
                    q.main.statements@,
                    sub2,
                    ign2,
                )]
                function_lowered(*flattened, low.main) && prog_wf(low) && fold_seq_rel(
                    Map::<i64, LinComb>::empty(),
                    seeded_ignore(Set::<i64>::empty(), low),
                    low.main.statements@,
                    q.main.statements@,
                    sub2,
                    ign2,
                ) && q.main.arguments@ == low.main.arguments@ && q.main.return_vars@
                    == low.main.return_vars@ && q.private_flags@ == low.private_flags@ && err.0
                    == final_suspects(q).len()),
            _ => false,
        }),
        (r matches Ok(a) ==> {
            &&& a.prog.main.arguments@ == flattened.arguments@
            &&& (config.allow_unconstrained_variables || final_suspects(a.prog).len() == 0)
            &&& exists|low: Prog, sub2: Map<i64, LinComb>, ign2: Set<i64>|
                #![trigger fold_seq_rel(
                    Map::<i64, LinComb>::empty(),
                    seeded_ignore(Set::<i64>::empty(), low),
                    low.main.statements@,
                    a.prog.main.statements@,
                    sub2,
                    ign2,
                )]
                function_lowered(*flattened, low.main) && prog_wf(low)
                    && a.prog.main.arguments@ == low.main.arguments@
                    && a.prog.main.return_vars@ == low.main.return_vars@ && a.prog.private_flags@
                    == low.private_flags@ && fold_seq_rel(
                    Map::<i64, LinComb>::empty(),
                    seeded_ignore(Set::<i64>::empty(), low),
                    low.main.statements@,
                    a.prog.main.statements@,
                    sub2,
                    ign2,
                )
        }),
{
    let lowered = match Function::from_flat(flattened) {
        Ok(f) => f,
        Err(e) => {
            let inner = match e {
                LowerError::NonLinear => CompileErrorInner::InternalError(
                    string_clone("a constraint is not in rank-1 form"),
                ),
                LowerError::MissingReturn => CompileErrorInner::InternalError(
                    string_clone("the program does not end in a single return"),
                ),
            };
            let mut v: Vec<CompileError> = Vec::new();
            v.push(inner.in_file(location));
            return Err(CompileErrors(v));
        },
    };
    let prog = Prog::new(lowered);
    let ghost prog0 = prog;
    if !check_prog_wf(&prog) {
        proof {
            assert(function_lowered(*flattened, prog0.main));
            assert(!prog_wf(prog0));
            if function_lowerable(*flattened) && flat_wf(*flattened) {
                lemma_lowered_prog_wf(*flattened, prog0);
                assert(false);
            }
        }
        let inner = CompileErrorInner::InternalError(
            string_clone("a coefficient is not reduced or directive outputs collide"),
        );
        let mut v: Vec<CompileError> = Vec::new();
        v.push(inner.in_file(location));
        return Err(CompileErrors(v));
    }
    let optimized = match RedefinitionOptimizer::optimize(prog) {
        Ok(p) => p,
        Err(e) => {
            proof {
                assert(function_lowered(*flattened, prog0.main));
                assert(prog_wf(prog0));
                if function_lowerable(*flattened) && flat_no_fallible_directives(*flattened) {
                    lemma_lowered_infallible(*flattened, prog0);
                    assert(false);
                }
            }
            let mut v: Vec<CompileError> = Vec::new();
            v.push(CompileErrorInner::OptimizerError(e).in_file(location));
            return Err(CompileErrors(v));
        },
    };
    if !config.allow_unconstrained_variables {
        match UnconstrainedVariableDetector::detect(&optimized) {
            Ok(()) => {},
            Err(e) => {
                proof {
                    assert(function_lowered(*flattened, prog0.main));
                    assert(prog_wf(prog0));
                }
                let mut v: Vec<CompileError> = Vec::new();
                v.push(CompileErrorInner::AnalysisError(e).in_file(location));
                return Err(CompileErrors(v));
            },
        }
    }
    Ok(CompilationArtifacts { prog: optimized })
}

/// Decides the optimizer's well-formedness precondition: reduced
/// coefficients everywhere and distinct directive outputs.
pub fn check_prog_wf(p: &Prog) -> (r: bool)
    ensures
        r == prog_wf(*p),
{
    let mut i: usize = 0;
    let n = p.main.statements.len();
    while i < n
        invariant
            n == p.main.statements@.len(),
            i <= n,
            forall|k: int| 0 <= k < i ==> crate::optimizer::stmt_wf(#[trigger] p.main.statements@[k]),
        decreases n - i,
    {
        match &p.main.statements[i] {
            crate::ir::Statement::Constraint(q, l, _m) => {
                if !(check_terms_wf(&q.left.0) && check_terms_wf(&q.right.0) && check_terms_wf(
                    &l.0,
                )) {
                    return false;
                }
            },
            crate::ir::Statement::Directive(d) => {
                if !check_distinct(&d.outputs) {
                    return false;
                }
                let mut j: usize = 0;
                while j < d.inputs.len()
                    invariant
                        n == p.main.statements@.len(),
                        i < n,
                        p.main.statements@[i as int] == crate::ir::Statement::Directive(*d),
                        j <= d.inputs@.len(),
                        forall|k: int|
                            0 <= k < j ==> crate::optimizer::terms_wf(
                                (#[trigger] d.inputs@[k]).left@,
                            ) && crate::optimizer::terms_wf(d.inputs@[k].right@),
                    decreases d.inputs@.len() - j,
                {
                    if !(check_terms_wf(&d.inputs[j].left.0) && check_terms_wf(
                        &d.inputs[j].right.0,
                    )) {
                        return false;
                    }
                    j = j + 1;
                }
            },
        };
        i = i + 1;
    }
    true
}

/// Decides whether every coefficient is reduced below the modulus.
fn check_terms_wf(terms: &Vec<crate::ir::Term>) -> (r: bool)
    ensures
        r == crate::optimizer::terms_wf(terms@),
{
    let mut i: usize = 0;
    while i < terms.len()
        invariant
            i <= terms@.len(),
            forall|k: int| 0 <= k < i ==> (#[trigger] terms@[k]).1.wf(),
        decreases terms@.len() - i,
    {
        if !fe_is_reduced(&terms[i].1) {
            return false;
        }
        i = i + 1;
    }
    true
}

/// Decides whether a field element's value is below the modulus.
fn fe_is_reduced(x: &crate::field::FieldElem) -> (r: bool)
    ensures
        r == x.wf(),
{
    let m = crate::field::FieldElem::modulus();
    crate::field::fe_lt(x, &m)
}

/// Decides whether the variables all have distinct ids.
fn check_distinct(vs: &Vec<crate::flat::FlatVariable>) -> (r: bool)
    ensures
        r == crate::optimizer::distinct_vars(vs@),
{
    let mut i: usize = 0;
    while i < vs.len()
        invariant
            i <= vs@.len(),
            forall|a: int, b: int| 0 <= a < b < i ==> vs@[a].id != vs@[b].id,
        decreases vs@.len() - i,
    {
        let mut j: usize = 0;
        while j < i
            invariant
                j <= i < vs@.len(),
                forall|a: int, b: int| 0 <= a < b < i ==> vs@[a].id != vs@[b].id,
                forall|a: int| 0 <= a < j ==> vs@[a].id != vs@[i as int].id,
            decreases i - j,
        {
            if vs[j].id == vs[i].id {
                return false;
            }
            j = j + 1;
        }
        i = i + 1;
    }
    true
}

} // verus!
