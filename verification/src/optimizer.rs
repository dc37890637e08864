//! The redefinition optimizer: propagates linear definitions of the form
//! `linear == k * v` by substituting `linear / k` for `v` downstream,
//! dropping the defining constraint, and runs solvers at compile time when a
//! directive's inputs have become constants.
//!
//! Variables that must survive — `~one`, arguments, returns, and directive
//! outputs — are held in an ignore set and never substituted away.

use vstd::prelude::*;
use std::collections::{HashMap, HashSet};
use vstd::arithmetic::div_mod::lemma_mod_bound;
use crate::field::{field_modulus, lemma_from_nat_val, lemma_val_injective, FieldElem};
use crate::flat::{FlatParameter, FlatVariable};
use crate::ir::{
    canon_constant, canon_spec, scale_terms, Directive, Function, LinComb, Prog,
    QuadComb, Statement, Term,
};
use crate::solvers::{execute_solver, Solver, SolverError};

verus! {

broadcast use vstd::std_specs::hash::group_hash_axioms;

/// What one term contributes after substitution: the recorded combination
/// scaled by the term's coefficient, or the term itself.
pub open spec fn subst_one(sub: Map<i64, LinComb>, t: Term) -> Seq<Term> {
    if sub.contains_key(t.0.id) {
        scale_terms(sub[t.0.id]@, t.1.val())
    } else {
        seq![t]
    }
}

/// A term sequence with the substitution applied to each term, in order.
#[verifier::opaque]
pub open spec fn subst_terms(sub: Map<i64, LinComb>, s: Seq<Term>) -> Seq<Term>
    decreases s.len(),
{
    if s.len() == 0 {
        Seq::<Term>::empty()
    } else {
        subst_one(sub, s[0]) + subst_terms(sub, s.drop_first())
    }
}

proof fn lemma_subst_snoc(sub: Map<i64, LinComb>, s: Seq<Term>, t: Term)
    ensures
        subst_terms(sub, s.push(t)) == subst_terms(sub, s) + subst_one(sub, t),
    decreases s.len(),
{
    reveal(subst_terms);
    if s.len() == 0 {
        assert(s.push(t).drop_first() =~= Seq::<Term>::empty());
        assert(s.push(t)[0] == t);
        assert(subst_terms(sub, s.push(t)) == subst_one(sub, t) + subst_terms(
            sub,
            s.push(t).drop_first(),
        ));
        assert(subst_one(sub, t) + Seq::<Term>::empty() =~= subst_one(sub, t));
        assert(subst_terms(sub, s) == Seq::<Term>::empty());
        assert(Seq::<Term>::empty() + subst_one(sub, t) =~= subst_one(sub, t));
    } else {
        assert(s.push(t).drop_first() =~= s.drop_first().push(t));
        assert(s.push(t)[0] == s[0]);
        lemma_subst_snoc(sub, s.drop_first(), t);
        assert(subst_one(sub, s[0]) + (subst_terms(sub, s.drop_first()) + subst_one(sub, t)) =~= (
        subst_one(sub, s[0]) + subst_terms(sub, s.drop_first())) + subst_one(sub, t));
    }
}

/// All coefficients reduced below the modulus.
pub open spec fn terms_wf(s: Seq<Term>) -> bool {
    forall|i: int| 0 <= i < s.len() ==> (#[trigger] s[i]).1.wf()
}

/// All recorded combinations have reduced coefficients.
pub open spec fn sub_wf(sub: Map<i64, LinComb>) -> bool {
    forall|k: i64| sub.contains_key(k) ==> terms_wf((#[trigger] sub[k])@)
}

/// Scaling always yields reduced coefficients.
pub(crate) proof fn lemma_scale_wf(s: Seq<Term>, c: nat)
    ensures
        terms_wf(scale_terms(s, c)),
{
    reveal(scale_terms);
    assert forall|i: int| 0 <= i < scale_terms(s, c).len() implies (#[trigger] scale_terms(s, c)[i]).1.wf() by {
        lemma_mod_bound((s[i].1.val() * c) as int, field_modulus() as int);
        lemma_from_nat_val((s[i].1.val() * c) % field_modulus());
    }
}

proof fn lemma_subst_wf(sub: Map<i64, LinComb>, s: Seq<Term>)
    requires
        terms_wf(s),
    ensures
        sub_wf(sub) ==> terms_wf(subst_terms(sub, s)),
    decreases s.len(),
{
    reveal(subst_terms);
    if s.len() > 0 {
        assert(terms_wf(s.drop_first()));
        lemma_subst_wf(sub, s.drop_first());
        if sub.contains_key(s[0].0.id) {
            lemma_scale_wf(sub[s[0].0.id]@, s[0].1.val());
        }
    }
}

proof fn lemma_canon_insert_wf(s: Seq<Term>, t: Term)
    requires
        terms_wf(s),
        t.1.wf(),
    ensures
        terms_wf(crate::ir::canon_insert(s, t)),
    decreases s.len(),
{
    if s.len() == 0 {
    } else if t.0.id < s[0].0.id {
    } else if t.0.id == s[0].0.id {
        let c = (t.1.val() + s[0].1.val()) % field_modulus();
        if c != 0 {
            lemma_mod_bound((t.1.val() + s[0].1.val()) as int, field_modulus() as int);
            lemma_from_nat_val(c);
        }
        assert(terms_wf(s.drop_first()));
    } else {
        assert(terms_wf(s.drop_first()));
        lemma_canon_insert_wf(s.drop_first(), t);
    }
}

/// Canonicalization keeps coefficients reduced.
pub(crate) proof fn lemma_canon_wf(s: Seq<Term>)
    requires
        terms_wf(s),
    ensures
        terms_wf(canon_spec(s)),
    decreases s.len(),
{
    if s.len() > 0 {
        assert(terms_wf(s.drop_first()));
        lemma_canon_wf(s.drop_first());
        lemma_canon_insert_wf(canon_spec(s.drop_first()), s[0]);
    }
}

/// No two of the variables share an id.
pub open spec fn distinct_vars(vs: Seq<FlatVariable>) -> bool {
    forall|i: int, j: int| 0 <= i < j < vs.len() ==> vs[i].id != vs[j].id
}

/// All of a statement's coefficients reduced; a directive's outputs are
/// pairwise distinct, as the flattener's fresh allocation guarantees.
pub open spec fn stmt_wf(s: Statement) -> bool {
    match s {
        Statement::Constraint(q, l, _m) => terms_wf(q.left@) && terms_wf(q.right@) && terms_wf(l@),
        Statement::Directive(d) => distinct_vars(d.outputs@) && forall|i: int|
            0 <= i < d.inputs@.len() ==> terms_wf((#[trigger] d.inputs@[i]).left@) && terms_wf(
                d.inputs@[i].right@,
            ),
    }
}

/// Why optimization failed; neither arises from a well-formed program
/// except a directive over the externally generated SHA-256 witness whose
/// inputs all became constants.
#[derive(Clone, Copy, Debug, PartialEq, Eq, Structural)]
pub enum OptimizeError {
    /// A solver could not run on compile-time constant inputs.
    Solver(SolverError),
    /// A solver returned a different number of values than the directive
    /// binds.
    WrongOutputCount,
}

/// All of a program's coefficients reduced.
pub open spec fn prog_wf(p: Prog) -> bool {
    forall|i: int| 0 <= i < p.main.statements@.len() ==> stmt_wf(#[trigger] p.main.statements@[i])
}

/// The constant a directive input denotes once the substitution is applied
/// and both sides are reduced, if it denotes one.
#[verifier::opaque]
pub open spec fn dir_input_const(sub: Map<i64, LinComb>, q: QuadComb) -> Option<nat> {
    let lc = canon_spec(subst_terms(sub, q.left@));
    let rc = canon_spec(subst_terms(sub, q.right@));
    if canon_constant(lc) is Some {
        canon_constant(scale_terms(rc, canon_constant(lc)->Some_0))
    } else if canon_constant(rc) is Some {
        canon_constant(scale_terms(lc, canon_constant(rc)->Some_0))
    } else {
        Option::None
    }
}

/// Whether every input of a directive has become a constant.
pub open spec fn all_inputs_const(sub: Map<i64, LinComb>, inputs: Seq<QuadComb>) -> bool {
    forall|i: int| 0 <= i < inputs.len() ==> dir_input_const(sub, #[trigger] inputs[i]) is Some
}

/// The constants of a directive's inputs.
#[verifier::opaque]
pub open spec fn input_consts(sub: Map<i64, LinComb>, inputs: Seq<QuadComb>) -> Seq<nat> {
    inputs.map_values(|q: QuadComb| dir_input_const(sub, q)->Some_0)
}

/// What a solver computes from constant inputs, as `execute_solver` states
/// it over plain values.
#[verifier::opaque]
pub open spec fn solver_output_ok(s: Solver, ins: Seq<nat>, outs: Seq<nat>) -> bool {
    match s {
        Solver::Bits(w) => ins.len() == 1 && outs.len() == w && forall|i: int|
            0 <= i < w ==> outs[i] == (ins[0] / vstd::arithmetic::power2::pow2((w - 1 - i) as nat))
                % 2,
        Solver::Sha256Round => false,
        Solver::ConditionEq => ins.len() == 1 && outs.len() == 2 && (ins[0] == 0 ==> outs[0] == 0
            && outs[1] == 1) && (ins[0] != 0 ==> outs[0] == 1 && (ins[0] * outs[1])
            % field_modulus() == 1),
    }
}

/// Whether a compile-time solver run can fail at all for this directive:
/// only the externally solved SHA-256 round, or a directive whose input or
/// output counts do not match its solver's signature.
pub open spec fn solver_can_fail(d: Directive) -> bool {
    match d.solver {
        Solver::Bits(w) => d.inputs@.len() != 1 || d.outputs@.len() != w,
        Solver::ConditionEq => d.inputs@.len() != 1 || d.outputs@.len() != 2,
        Solver::Sha256Round => true,
    }
}

/// The terms of the canonical combination standing for a constant: empty
/// for zero, a lone `~one` term otherwise.
pub open spec fn const_lc_terms(v: nat) -> Seq<Term> {
    if v == 0 {
        Seq::<Term>::empty()
    } else {
        seq![(FlatVariable { id: 0 }, FieldElem::from_nat(v))]
    }
}

/// The set of ids of a variable list.
pub open spec fn var_ids(vs: Seq<FlatVariable>) -> Set<i64> {
    Set::new(|k: i64| exists|i: int| 0 <= i < vs.len() && (#[trigger] vs[i]).id == k)
}

/// How one rewritten directive input relates to the original under the
/// substitution: constants are re-expressed on `~one`, a side that reduced
/// to a constant is folded into the other, and anything else is kept with
/// both sides reduced.
#[verifier::opaque]
pub open spec fn dir_input_rebuilt(sub: Map<i64, LinComb>, q: QuadComb, q2: QuadComb) -> bool {
    let lc = canon_spec(subst_terms(sub, q.left@));
    let rc = canon_spec(subst_terms(sub, q.right@));
    match dir_input_const(sub, q) {
        Option::Some(v) => q2.left@ == seq![(FlatVariable { id: 0 }, FieldElem::from_nat(1))]
            && q2.right@.len() == 1 && q2.right@[0].0.id == 0 && q2.right@[0].1.val() == v,
        Option::None => if canon_constant(lc) is Some {
            q2.left@ == seq![(FlatVariable { id: 0 }, FieldElem::from_nat(1))] && q2.right@
                == scale_terms(rc, canon_constant(lc)->Some_0)
        } else if canon_constant(rc) is Some {
            q2.left@ == seq![(FlatVariable { id: 0 }, FieldElem::from_nat(1))] && q2.right@
                == scale_terms(lc, canon_constant(rc)->Some_0)
        } else {
            q2.left@ == lc && q2.right@ == rc
        },
    }
}

/// How folding one constraint transforms the state and what it emits.
#[verifier::opaque]
pub open spec fn fold_constraint_rel(
    sub: Map<i64, LinComb>,
    ign: Set<i64>,
    quad: QuadComb,
    lin: LinComb,
    msg: Option<String>,
    out: Seq<Statement>,
    sub2: Map<i64, LinComb>,
    ign2: Set<i64>,
) -> bool {
    let ql = subst_terms(sub, quad.left@);
    let qr = subst_terms(sub, quad.right@);
    let l = subst_terms(sub, lin@);
    let lc = canon_spec(l);
    if l.len() == 0 || ign.contains(l[0].0.id) || sub.contains_key(l[0].0.id) {
        // the constraint is kept, rewritten
        &&& sub2 == sub
        &&& ign2 == ign
        &&& out.len() == 1
        &&& (out[0] matches Statement::Constraint(q2, l2, m2) && q2.left@ == ql && q2.right@ == qr
            && l2@ == l && m2 == msg)
    } else if lc.len() == 1 && lc[0].0.id != 0 {
        let v = lc[0].0;
        let k = lc[0].1;
        if canon_constant(ql) is Some || canon_constant(qr) is Some {
            // a fresh linear definition: record it, drop the constraint
            &&& out.len() == 0
            &&& ign2 == ign
            &&& sub2.dom() == sub.dom().insert(v.id)
            &&& (forall|kk: i64|
                kk != v.id && sub.contains_key(kk) ==> sub2[kk] == sub[kk])
            &&& (if canon_constant(ql) is Some {
                exists|kinv: nat|
                    kinv < field_modulus() && (k.val() * kinv) % field_modulus() == 1 && sub2[v.id]@
                        == #[trigger] canon_spec(
                        scale_terms(scale_terms(qr, canon_constant(ql)->Some_0), kinv),
                    )
            } else {
                exists|kinv: nat|
                    kinv < field_modulus() && (k.val() * kinv) % field_modulus() == 1 && sub2[v.id]@
                        == #[trigger] canon_spec(
                        scale_terms(scale_terms(ql, canon_constant(qr)->Some_0), kinv),
                    )
            })
        } else {
            // defined by a genuine quadratic: keep it, protect the variable
            &&& sub2 == sub
            &&& ign2 == ign.insert(v.id)
            &&& out.len() == 1
            &&& (out[0] matches Statement::Constraint(q2, l2, m2) && q2.left@ == ql && q2.right@
                == qr && l2@ =~= seq![(v, k)] && m2 == msg)
        }
    } else {
        // not of the form `k * v`: keep, rewritten
        &&& sub2 == sub
        &&& ign2 == ign
        &&& out.len() == 1
        &&& (out[0] matches Statement::Constraint(q2, l2, m2) && q2.left@ == ql && q2.right@ == qr
            && l2@ == l && m2 == msg)
    }
}

/// How folding one directive transforms the state and what it emits.
#[verifier::opaque]
pub open spec fn fold_directive_rel(
    sub: Map<i64, LinComb>,
    ign: Set<i64>,
    d: Directive,
    out: Seq<Statement>,
    sub2: Map<i64, LinComb>,
    ign2: Set<i64>,
) -> bool {
    if all_inputs_const(sub, d.inputs@) {
        // the solver ran at compile time; its results enter the substitution
        &&& out.len() == 0
        &&& ign2 == ign
        &&& (forall|kk: i64|
            !var_ids(d.outputs@).contains(kk) ==> (sub2.contains_key(kk) <==> sub.contains_key(kk))
                && (sub.contains_key(kk) ==> sub2[kk] == sub[kk]))
        &&& (forall|j: int|
            0 <= j < d.outputs@.len() ==> sub2.contains_key((#[trigger] d.outputs@[j]).id))
        &&& (exists|outs: Seq<nat>|
            solver_output_ok(d.solver, input_consts(sub, d.inputs@), outs) && outs.len()
                == d.outputs@.len() && forall|j: int|
                0 <= j < d.outputs@.len() ==> sub2[(#[trigger] d.outputs@[j]).id]@
                    == const_lc_terms(outs[j]))
    } else {
        // re-emitted with rewritten inputs; outputs are protected
        &&& sub2 == sub
        &&& ign2 == ign.union(var_ids(d.outputs@))
        &&& out.len() == 1
        &&& (out[0] matches Statement::Directive(d2) && d2.solver == d.solver && d2.outputs@
            == d.outputs@ && d2.inputs@.len() == d.inputs@.len() && forall|j: int|
            0 <= j < d.inputs@.len() ==> dir_input_rebuilt(
                sub,
                #[trigger] d.inputs@[j],
                d2.inputs@[j],
            ))
    }
}

/// The sum a concatenation denotes splits over its parts.
proof fn lemma_sum_concat(x: Seq<Term>, y: Seq<Term>, w: Map<i64, nat>)
    ensures
        crate::ir::sum_terms(x + y, w) == crate::ir::sum_terms(x, w) + crate::ir::sum_terms(y, w),
    decreases x.len(),
{
    if x.len() == 0 {
        assert(x + y =~= y);
    } else {
        assert((x + y)[0] == x[0]);
        assert((x + y).drop_first() =~= x.drop_first() + y);
        lemma_sum_concat(x.drop_first(), y, w);
    }
}

/// Scaling multiplies the denoted value, modulo the field's prime.
proof fn lemma_scale_eval(s: Seq<Term>, c: nat, w: Map<i64, nat>)
    ensures
        crate::ir::sum_terms(scale_terms(s, c), w) % field_modulus() == (c * crate::ir::sum_terms(
            s,
            w,
        )) % field_modulus(),
    decreases s.len(),
{
    reveal(scale_terms);
    let p = field_modulus();
    if s.len() == 0 {
        assert(scale_terms(s, c) =~= Seq::<Term>::empty());
        assert(c * 0 == 0) by (nonlinear_arith);
    } else {
        let a = s[0].1.val();
        let wv = w[s[0].0.id];
        let rest = s.drop_first();
        assert(scale_terms(s, c).drop_first() =~= scale_terms(rest, c));
        assert(scale_terms(s, c)[0] == (s[0].0, FieldElem::from_nat((a * c) % p)));
        lemma_scale_eval(rest, c, w);
        let sp = crate::ir::sum_terms(scale_terms(rest, c), w);
        let r = crate::ir::sum_terms(rest, w);
        assert(FieldElem::from_nat((a * c) % p).val() == (a * c) % p) by {
            lemma_mod_bound((a * c) as int, p as int);
            lemma_from_nat_val((a * c) % p);
        }
        assert(crate::ir::sum_terms(scale_terms(s, c), w) == ((a * c) % p) * wv + sp);
        // fold the scaled head through the modulus
        assert((((a * c) % p) * wv + sp) % p == ((a * c) * wv + sp) % p) by {
            vstd::arithmetic::div_mod::lemma_add_mod_noop(
                ((((a * c) % p)) * wv) as int,
                sp as int,
                p as int,
            );
            vstd::arithmetic::div_mod::lemma_add_mod_noop(
                ((a * c) * wv) as int,
                sp as int,
                p as int,
            );
            vstd::arithmetic::div_mod::lemma_mul_mod_noop_left((a * c) as int, wv as int, p as int);
        }
        // replace the scaled tail by c times the tail
        assert(((a * c) * wv + sp) % p == ((a * c) * wv + c * r) % p) by {
            vstd::arithmetic::div_mod::lemma_add_mod_noop(
                ((a * c) * wv) as int,
                sp as int,
                p as int,
            );
            vstd::arithmetic::div_mod::lemma_add_mod_noop(
                ((a * c) * wv) as int,
                (c * r) as int,
                p as int,
            );
        }
        assert((a * c) * wv + c * r == c * (a * wv + r)) by (nonlinear_arith);
        assert(crate::ir::sum_terms(s, w) == a * wv + r);
    }
}

/// Whether a witness agrees with every recorded substitution: each
/// substituted variable's value equals what its recorded combination
/// denotes.
pub open spec fn respects_subst(sub: Map<i64, LinComb>, w: Map<i64, nat>) -> bool {
    forall|k: i64|
        sub.contains_key(k) ==> (w[k] % field_modulus() == crate::ir::sum_terms(
            (#[trigger] sub[k])@,
            w,
        ) % field_modulus())
}

/// The semantic half of the redefinition rule, at the level of linear
/// combinations: under any witness that agrees with the recorded
/// substitutions, a term sequence and its rewritten form denote the same
/// field value. What the optimizer substitutes into a constraint therefore
/// does not change which such witnesses satisfy it.
pub proof fn lemma_subst_preserves_eval(sub: Map<i64, LinComb>, s: Seq<Term>, w: Map<i64, nat>)
    requires
        respects_subst(sub, w),
    ensures
        crate::ir::sum_terms(subst_terms(sub, s), w) % field_modulus() == crate::ir::sum_terms(
            s,
            w,
        ) % field_modulus(),
    decreases s.len(),
{
    reveal(subst_terms);
    let p = field_modulus();
    if s.len() > 0 {
        let a = s[0].1.val();
        let k = s[0].0.id;
        let rest = s.drop_first();
        lemma_subst_preserves_eval(sub, rest, w);
        lemma_sum_concat(subst_one(sub, s[0]), subst_terms(sub, rest), w);
        let hs = crate::ir::sum_terms(subst_one(sub, s[0]), w);
        let ts = crate::ir::sum_terms(subst_terms(sub, rest), w);
        let r = crate::ir::sum_terms(rest, w);
        // the rewritten head denotes the original head's contribution
        assert(hs % p == (a * w[k]) % p) by {
            if sub.contains_key(k) {
                lemma_scale_eval(sub[k]@, a, w);
                // a * sum(sub[k]) == a * w[k] modulo p, from the agreement
                vstd::arithmetic::div_mod::lemma_mul_mod_noop_right(
                    a as int,
                    crate::ir::sum_terms(sub[k]@, w) as int,
                    p as int,
                );
                vstd::arithmetic::div_mod::lemma_mul_mod_noop_right(
                    a as int,
                    w[k] as int,
                    p as int,
                );
            } else {
                assert(subst_one(sub, s[0]) =~= seq![s[0]]);
                assert(seq![s[0]].drop_first() =~= Seq::<Term>::empty());
                assert(crate::ir::sum_terms(Seq::<Term>::empty(), w) == 0);
                assert(hs == a * w[k] + 0);
            }
        }
        // recombine head and tail through the modulus
        assert((hs + ts) % p == (a * w[k] + r) % p) by {
            vstd::arithmetic::div_mod::lemma_add_mod_noop(hs as int, ts as int, p as int);
            vstd::arithmetic::div_mod::lemma_add_mod_noop(
                (a * w[k]) as int,
                r as int,
                p as int,
            );
        }
        assert(crate::ir::sum_terms(s, w) == a * w[k] + r);
    }
}

/// How one statement is folded, dispatching on its kind.
pub open spec fn stmt_fold_rel(
    sub: Map<i64, LinComb>,
    ign: Set<i64>,
    s: Statement,
    out: Seq<Statement>,
    sub2: Map<i64, LinComb>,
    ign2: Set<i64>,
) -> bool {
    match s {
        Statement::Constraint(q, l, m) => fold_constraint_rel(sub, ign, q, l, m, out, sub2, ign2),
        Statement::Directive(d) => fold_directive_rel(sub, ign, d, out, sub2, ign2),
    }
}

/// The whole pass over a statement sequence: each statement is folded in
/// order under the evolving state, and what each emits is concatenated.
pub open spec fn fold_seq_rel(
    sub: Map<i64, LinComb>,
    ign: Set<i64>,
    stmts: Seq<Statement>,
    out: Seq<Statement>,
    sub2: Map<i64, LinComb>,
    ign2: Set<i64>,
) -> bool
    decreases stmts.len(),
{
    if stmts.len() == 0 {
        out.len() == 0 && sub2 == sub && ign2 == ign
    } else {
        exists|prefix: Seq<Statement>, o1: Seq<Statement>, sa: Map<i64, LinComb>, ia: Set<i64>|
            #![trigger fold_witness(prefix, o1, sa, ia)]
            fold_seq_rel(sub, ign, stmts.drop_last(), prefix, sa, ia) && stmt_fold_rel(
                sa,
                ia,
                stmts.last(),
                o1,
                sub2,
                ign2,
            ) && out == prefix + o1
    }
}

/// Marks a witness for `fold_seq_rel`'s intermediate state and output split.
pub open spec fn fold_witness(
    prefix: Seq<Statement>,
    o1: Seq<Statement>,
    sa: Map<i64, LinComb>,
    ia: Set<i64>,
) -> bool {
    true
}

/// The ids of a parameter list.
pub open spec fn param_ids(ps: Seq<FlatParameter>) -> Set<i64> {
    Set::new(|k: i64| exists|i: int| 0 <= i < ps.len() && (#[trigger] ps[i]).id.id == k)
}

/// What the ignore set holds before any statement is folded: whatever it
/// held, plus `~one`, the returns, and the arguments.
pub open spec fn seeded_ignore(ign: Set<i64>, p: Prog) -> Set<i64> {
    ign.insert(0).union(crate::optimizer::var_ids(p.main.return_vars@)).union(
        param_ids(p.main.arguments@),
    )
}

/// One more parameter's id joins the id set of a growing prefix.
proof fn lemma_param_ids_take(ps: Seq<FlatParameter>, j: int)
    requires
        0 <= j < ps.len(),
    ensures
        param_ids(ps.take(j + 1)) =~= param_ids(ps.take(j)).insert(ps[j].id.id),
{
    assert forall|k: i64| param_ids(ps.take(j + 1)).contains(k) implies param_ids(
        ps.take(j),
    ).insert(ps[j].id.id).contains(k) by {
        let i = choose|i: int| 0 <= i < ps.take(j + 1).len() && (#[trigger] ps.take(j + 1)[i]).id.id
            == k;
        if i < j {
            assert(ps.take(j)[i].id.id == k);
        }
    }
    assert forall|k: i64| param_ids(ps.take(j)).insert(ps[j].id.id).contains(k) implies param_ids(
        ps.take(j + 1),
    ).contains(k) by {
        if k == ps[j].id.id {
            assert(ps.take(j + 1)[j].id.id == k);
        } else {
            let i = choose|i: int| 0 <= i < ps.take(j).len() && (#[trigger] ps.take(j)[i]).id.id
                == k;
            assert(ps.take(j + 1)[i].id.id == k);
        }
    }
}

/// The optimizer's state: recorded substitutions and protected variables.
#[derive(Debug)]
pub struct RedefinitionOptimizer {
    /// Maps a variable id to the canonical combination that replaces it.
    pub substitution: HashMap<i64, LinComb>,
    /// Ids that must never be substituted away.
    pub ignore: HashSet<i64>,
}

impl RedefinitionOptimizer {
    /// A fresh optimizer with nothing recorded.
    pub fn new() -> (r: RedefinitionOptimizer)
        ensures
            r.substitution@ == Map::<i64, LinComb>::empty(),
            r.ignore@ == Set::<i64>::empty(),
    {
        RedefinitionOptimizer { substitution: HashMap::new(), ignore: HashSet::new() }
    }

    /// Applies the substitution to every term of a combination, in order.
    pub fn fold_linear_combination(&self, lc: &LinComb) -> (r: LinComb)
        ensures
            r@ == subst_terms(self.substitution@, lc@),
    {
        let mut acc: Vec<Term> = Vec::new();
        let mut i: usize = 0;
        proof {
            reveal(subst_terms);
            assert(lc@.take(0) =~= Seq::<Term>::empty());
        }
        while i < lc.0.len()
            invariant
                i <= lc.0@.len(),
                acc@ == subst_terms(self.substitution@, lc.0@.take(i as int)),
            decreases lc.0@.len() - i,
        {
            let t = lc.0[i];
            proof {
                reveal(subst_terms);
                assert(lc.0@.take(i + 1) =~= lc.0@.take(i as int).push(t));
                lemma_subst_snoc(self.substitution@, lc.0@.take(i as int), t);
            }
            match self.substitution.get(&t.0.id) {
                Some(l) => {
                    let mut scaled = l.scale(&t.1);
                    acc.append(&mut scaled.0);
                },
                None => {
                    acc.push(t);
                    proof {
                        assert(acc@ =~= subst_terms(self.substitution@, lc.0@.take(i as int))
                            + subst_one(self.substitution@, t));
                    }
                },
            }
            i = i + 1;
        }
        proof {
            assert(lc.0@.take(lc.0@.len() as int) =~= lc.0@);
        }
        LinComb(acc)
    }

    /// Applies the substitution to both sides of a product.
    pub fn fold_quadratic_combination(&self, q: &QuadComb) -> (r: QuadComb)
        ensures
            r.left@ == subst_terms(self.substitution@, q.left@),
            r.right@ == subst_terms(self.substitution@, q.right@),
    {
        QuadComb {
            left: self.fold_linear_combination(&q.left),
            right: self.fold_linear_combination(&q.right),
        }
    }

    /// Processes one statement: rewrites it under the substitution, records
    /// fresh linear definitions (dropping their constraints), protects
    /// quadratically defined variables and re-emitted directive outputs, and
    /// folds directives whose inputs became constants by running the solver.
    #[verifier::rlimit(100)]
    pub fn fold_statement(&mut self, s: Statement) -> (r: Result<Vec<Statement>, OptimizeError>)
        requires
            sub_wf(old(self).substitution@),
            stmt_wf(s),
        ensures
            sub_wf(final(self).substitution@),
            match r {
                Ok(out) => match s {
                    Statement::Constraint(q, l, m) => fold_constraint_rel(
                        old(self).substitution@,
                        old(self).ignore@,
                        q,
                        l,
                        m,
                        out@,
                        final(self).substitution@,
                        final(self).ignore@,
                    ),
                    Statement::Directive(d) => fold_directive_rel(
                        old(self).substitution@,
                        old(self).ignore@,
                        d,
                        out@,
                        final(self).substitution@,
                        final(self).ignore@,
                    ),
                },
                Err(_) => (s matches Statement::Directive(d) && all_inputs_const(
                    old(self).substitution@,
                    d.inputs@,
                ) && solver_can_fail(d)),
            },
            (s matches Statement::Constraint(_q, _l, _m) ==> r is Ok),
    {
        match s {
            Statement::Constraint(quad, lin, message) => self.fold_constraint(
                quad,
                lin,
                message,
            ),
            Statement::Directive(d) => self.fold_directive(d),
        }
    }

    /// Processes one constraint, as `fold_constraint_rel` states.
    #[verifier::rlimit(100)]
    fn fold_constraint(&mut self, quad: QuadComb, lin: LinComb, message: Option<String>) -> (r:
        Result<Vec<Statement>, OptimizeError>)
        requires
            sub_wf(old(self).substitution@),
            terms_wf(lin@),
        ensures
            sub_wf(final(self).substitution@),
            r is Ok,
            (r matches Ok(out) ==> fold_constraint_rel(
                old(self).substitution@,
                old(self).ignore@,
                quad,
                lin,
                message,
                out@,
                final(self).substitution@,
                final(self).ignore@,
            )),
    {
        let ghost sub0 = self.substitution@;
        let ghost ign0 = self.ignore@;
        let ghost quad0 = quad;
        let ghost lin0 = lin;
        let ghost msg0 = message;
        proof {
            lemma_subst_wf(sub0, lin0@);
        }
        let quad = self.fold_quadratic_combination(&quad);
        let lin = self.fold_linear_combination(&lin);
        if lin.is_zero() {
            let mut out: Vec<Statement> = Vec::new();
            out.push(Statement::Constraint(quad, lin, message));
            proof {
                reveal(fold_constraint_rel);
                assert(fold_constraint_rel(
                    sub0,
                    ign0,
                    quad0,
                    lin0,
                    msg0,
                    out@,
                    self.substitution@,
                    self.ignore@,
                ));
            }
            return Ok(out);
        }
        let first_id = lin.0[0].0.id;
        if self.ignore.contains(&first_id) || self.substitution.contains_key(&first_id) {
            let mut out: Vec<Statement> = Vec::new();
            out.push(Statement::Constraint(quad, lin, message));
            proof {
                reveal(fold_constraint_rel);
                assert(fold_constraint_rel(
                    sub0,
                    ign0,
                    quad0,
                    lin0,
                    msg0,
                    out@,
                    self.substitution@,
                    self.ignore@,
                ));
            }
            Ok(out)
        } else {
            proof {
                lemma_canon_wf(lin@);
                crate::ir::lemma_canon_spec_canon(lin@);
            }
            match lin.try_summand() {
                Ok((variable, coefficient)) => {
                    match quad.try_linear() {
                        Ok(l) => {
                            proof {
                                assert(coefficient.wf() && coefficient.val() != 0);
                            }
                            let inv = match coefficient.inverse() {
                                Some(x) => x,
                                None => {
                                    proof {
                                        assert(false);
                                    }
                                    return Err(OptimizeError::WrongOutputCount);
                                },
                            };
                            let entry = l.scale(&inv).reduce();
                            proof {
                                lemma_scale_wf(l@, inv.val());
                                lemma_canon_wf(scale_terms(l@, inv.val()));
                            }
                            self.substitution.insert(variable.id, entry);
                            let out: Vec<Statement> = Vec::new();
                            proof {
                                assert(sub_wf(self.substitution@)) by {
                                    assert(forall|k: i64|
                                        self.substitution@.contains_key(k) && k != variable.id
                                            ==> #[trigger] self.substitution@[k] == sub0[k]);
                                }
                                reveal(fold_constraint_rel);
                                assert(subst_terms(sub0, lin0@).len() != 0);
                                assert(canon_spec(subst_terms(sub0, lin0@)).len() == 1);
                                assert(canon_spec(subst_terms(sub0, lin0@))[0] == (
                                variable,
                                coefficient,
                                ));
                                assert(variable.id != 0);
                                assert(!ign0.contains(subst_terms(sub0, lin0@)[0].0.id));
                                assert(!sub0.contains_key(subst_terms(sub0, lin0@)[0].0.id));
                                assert(canon_constant(subst_terms(sub0, quad0.left@)) is Some
                                    || canon_constant(subst_terms(sub0, quad0.right@)) is Some);
                                assert(self.substitution@.dom() =~= sub0.dom().insert(
                                    variable.id,
                                ));
                                assert(inv.val() < field_modulus() && (coefficient.val()
                                    * inv.val()) % field_modulus() == 1);
                                assert(self.substitution@[variable.id] == entry);
                                assert(entry@ == canon_spec(scale_terms(l@, inv.val())));
                                assert(l@ == (if canon_constant(
                                    subst_terms(sub0, quad0.left@),
                                ) is Some {
                                    scale_terms(
                                        subst_terms(sub0, quad0.right@),
                                        canon_constant(subst_terms(sub0, quad0.left@))->Some_0,
                                    )
                                } else {
                                    scale_terms(
                                        subst_terms(sub0, quad0.left@),
                                        canon_constant(subst_terms(sub0, quad0.right@))->Some_0,
                                    )
                                }));
                                assert(forall|kk: i64|
                                    kk != variable.id && sub0.contains_key(kk)
                                        ==> self.substitution@[kk] == sub0[kk]);
                                if canon_constant(subst_terms(sub0, quad0.left@)) is Some {
                                    assert(l@ == scale_terms(
                                        subst_terms(sub0, quad0.right@),
                                        canon_constant(subst_terms(sub0, quad0.left@))->Some_0,
                                    ));
                                    assert(inv.val() < field_modulus() && (coefficient.val()
                                        * inv.val()) % field_modulus() == 1
                                        && self.substitution@[variable.id]@ == canon_spec(
                                        scale_terms(
                                            scale_terms(
                                                subst_terms(sub0, quad0.right@),
                                                canon_constant(
                                                    subst_terms(sub0, quad0.left@),
                                                )->Some_0,
                                            ),
                                            inv.val(),
                                        ),
                                    ));
                                } else {
                                    assert(l@ == scale_terms(
                                        subst_terms(sub0, quad0.left@),
                                        canon_constant(subst_terms(sub0, quad0.right@))->Some_0,
                                    ));
                                    assert(inv.val() < field_modulus() && (coefficient.val()
                                        * inv.val()) % field_modulus() == 1
                                        && self.substitution@[variable.id]@ == canon_spec(
                                        scale_terms(
                                            scale_terms(
                                                subst_terms(sub0, quad0.left@),
                                                canon_constant(
                                                    subst_terms(sub0, quad0.right@),
                                                )->Some_0,
                                            ),
                                            inv.val(),
                                        ),
                                    ));
                                }
                                assert(fold_constraint_rel(
                                    sub0,
                                    ign0,
                                    quad0,
                                    lin0,
                                    msg0,
                                    out@,
                                    self.substitution@,
                                    self.ignore@,
                                ));
                            }
                            Ok(out)
                        },
                        Err(q) => {
                            self.ignore.insert(variable.id);
                            let mut out: Vec<Statement> = Vec::new();
                            out.push(
                                Statement::Constraint(
                                    q,
                                    LinComb::summand(coefficient, variable),
                                    message,
                                ),
                            );
                            proof {
                                reveal(fold_constraint_rel);
                                assert(fold_constraint_rel(
                                    sub0,
                                    ign0,
                                    quad0,
                                    lin0,
                                    msg0,
                                    out@,
                                    self.substitution@,
                                    self.ignore@,
                                ));
                            }
                            Ok(out)
                        },
                    }
                },
                Err(lin) => {
                    let mut out: Vec<Statement> = Vec::new();
                    out.push(Statement::Constraint(quad, lin, message));
                    proof {
                        reveal(fold_constraint_rel);
                        assert(fold_constraint_rel(
                            sub0,
                            ign0,
                            quad0,
                            lin0,
                            msg0,
                            out@,
                            self.substitution@,
                            self.ignore@,
                        ));
                    }
                    Ok(out)
                },
            }
        }
    }

    /// Rewrites one directive input under the substitution and reduces it;
    /// reports the constant it denotes, or the rewritten product.
    #[verifier::rlimit(100)]
    fn classify_input(&self, q: &QuadComb) -> (r: Result<FieldElem, QuadComb>)
        requires
            sub_wf(self.substitution@),
            terms_wf(q.left@),
            terms_wf(q.right@),
        ensures
            match r {
                Ok(v) => dir_input_const(self.substitution@, *q) == Some(v.val()) && v.wf(),
                Err(q2) => dir_input_const(self.substitution@, *q) is None && dir_input_rebuilt(
                    self.substitution@,
                    *q,
                    q2,
                ),
            },
    {
        reveal(dir_input_const);
        reveal(dir_input_rebuilt);
        reveal(crate::ir::canon_constant);
        let ghost sub0 = self.substitution@;
        proof {
            lemma_subst_wf(sub0, q.left@);
            lemma_subst_wf(sub0, q.right@);
            lemma_canon_wf(subst_terms(sub0, q.left@));
            lemma_canon_wf(subst_terms(sub0, q.right@));
        }
        let folded = self.fold_quadratic_combination(q);
        let reduced = folded.reduce();
        match reduced.try_linear() {
            Ok(l) => {
                match l.try_constant() {
                    Ok(v) => {
                        proof {
                            let lc = canon_spec(subst_terms(sub0, q.left@));
                            let rc = canon_spec(subst_terms(sub0, q.right@));
                            if canon_constant(lc) is Some {
                                lemma_scale_wf(rc, canon_constant(lc)->Some_0);
                                lemma_canon_wf(scale_terms(rc, canon_constant(lc)->Some_0));
                            } else {
                                lemma_scale_wf(lc, canon_constant(rc)->Some_0);
                                lemma_canon_wf(scale_terms(lc, canon_constant(rc)->Some_0));
                            }
                            if v.val() != 0 {
                                vstd::arithmetic::div_mod::lemma_mod_bound(
                                    v.val() as int,
                                    field_modulus() as int,
                                );
                            }
                        }
                        Ok(v)
                    },
                    Err(l2) => Err(QuadComb::from_lincomb(l2)),
                }
            },
            Err(qq) => Err(qq),
        }
    }

    /// Processes one directive, as `fold_directive_rel` states.
    #[verifier::rlimit(100)]
    fn fold_directive(&mut self, d: Directive) -> (r: Result<Vec<Statement>, OptimizeError>)
        requires
            sub_wf(old(self).substitution@),
            stmt_wf(Statement::Directive(d)),
        ensures
            sub_wf(final(self).substitution@),
            match r {
                Ok(out) => fold_directive_rel(
                    old(self).substitution@,
                    old(self).ignore@,
                    d,
                    out@,
                    final(self).substitution@,
                    final(self).ignore@,
                ),
                Err(_) => all_inputs_const(old(self).substitution@, d.inputs@)
                    && solver_can_fail(d),
            },
    {
        reveal(fold_directive_rel);
        reveal(input_consts);
        reveal(solver_output_ok);
        let ghost sub0 = self.substitution@;
        let ghost ign0 = self.ignore@;
        let Directive { inputs, outputs, solver } = d;
        let mut results: Vec<Result<FieldElem, QuadComb>> = Vec::new();
        let mut all_const = true;
        let mut i: usize = 0;
        while i < inputs.len()
            invariant
                self.substitution@ == sub0,
                self.ignore@ == ign0,
                sub_wf(sub0),
                forall|k: int|
                    0 <= k < inputs@.len() ==> terms_wf((#[trigger] inputs@[k]).left@) && terms_wf(
                        inputs@[k].right@,
                    ),
                i <= inputs@.len(),
                results@.len() == i,
                all_const <==> (forall|k: int| 0 <= k < i ==> !((#[trigger] results@[k]) is Err)),
                forall|k: int|
                    0 <= k < i ==> ((#[trigger] results@[k]) matches Ok(v) ==> dir_input_const(
                        sub0,
                        inputs@[k],
                    ) == Some(v.val()) && v.wf()),
                forall|k: int|
                    0 <= k < i ==> ((#[trigger] results@[k]) matches Err(q) ==> dir_input_const(
                        sub0,
                        inputs@[k],
                    ) is None && dir_input_rebuilt(sub0, inputs@[k], q)),
            decreases inputs@.len() - i,
        {
            let ghost old_results = results@;
            match self.classify_input(&inputs[i]) {
                Ok(v) => results.push(Ok(v)),
                Err(q) => {
                    all_const = false;
                    results.push(Err(q));
                },
            }
            proof {
                assert(forall|k: int| 0 <= k < i ==> results@[k] == old_results[k]);
                if results@[i as int] is Err {
                    assert(!(forall|k: int|
                        0 <= k < i + 1 ==> !((#[trigger] results@[k]) is Err)));
                } else {
                    assert((forall|k: int| 0 <= k < i ==> !((#[trigger] old_results[k]) is Err))
                        ==> (forall|k: int|
                        0 <= k < i + 1 ==> !((#[trigger] results@[k]) is Err)));
                    assert((forall|k: int| 0 <= k < i + 1 ==> !((#[trigger] results@[k]) is Err))
                        ==> (forall|k: int|
                        0 <= k < i ==> !((#[trigger] old_results[k]) is Err)));
                }
            }
            i = i + 1;
        }
        if all_const {
            proof {
                assert forall|k: int| 0 <= k < inputs@.len() implies dir_input_const(
                    sub0,
                    #[trigger] inputs@[k],
                ) is Some by {
                    assert(!((results@[k]) is Err));
                    assert(results@[k] matches Ok(v) ==> dir_input_const(sub0, inputs@[k])
                        == Some(v.val()));
                }
                assert(all_inputs_const(sub0, inputs@));
            }
            let mut vals: Vec<FieldElem> = Vec::new();
            let mut k: usize = 0;
            while k < results.len()
                invariant
                    self.substitution@ == sub0,
                    self.ignore@ == ign0,
                    results@.len() == inputs@.len(),
                    forall|c: int|
                        0 <= c < results@.len() ==> ((#[trigger] results@[c]) matches Ok(v)
                            && dir_input_const(sub0, inputs@[c]) == Some(v.val()) && v.wf()),
                    k <= results@.len(),
                    vals@.len() == k,
                    forall|c: int|
                        0 <= c < k ==> (#[trigger] vals@[c]).wf() && Some(vals@[c].val())
                            == dir_input_const(sub0, inputs@[c]),
                decreases results@.len() - k,
            {
                match &results[k] {
                    Ok(v) => vals.push(*v),
                    Err(_) => {
                        proof {
                            assert(false);
                        }
                        return Err(OptimizeError::WrongOutputCount);
                    },
                }
                k = k + 1;
            }
            let outs = match execute_solver(&solver, &vals) {
                Ok(o) => o,
                Err(e) => {
                    return Err(OptimizeError::Solver(e));
                },
            };
            if outs.len() != outputs.len() {
                return Err(OptimizeError::WrongOutputCount);
            }
            let ghost outs_vals = outs@.map_values(|f: FieldElem| f.val());
            proof {
                assert(vals@.map_values(|f: FieldElem| f.val()) =~= input_consts(sub0, inputs@));
                assert(solver_output_ok(solver, input_consts(sub0, inputs@), outs_vals));
            }
            let mut j: usize = 0;
            while j < outputs.len()
                invariant
                    self.ignore@ == ign0,
                    sub_wf(self.substitution@),
                    outs@.len() == outputs@.len(),
                    distinct_vars(outputs@),
                    forall|c: int| 0 <= c < outs@.len() ==> (#[trigger] outs@[c]).wf(),
                    outs_vals == outs@.map_values(|f: FieldElem| f.val()),
                    j <= outputs@.len(),
                    forall|kk: i64|
                        #[trigger] self.substitution@.contains_key(kk) ==> sub0.contains_key(kk)
                            || var_ids(outputs@).contains(kk),
                    forall|kk: i64|
                        #[trigger] sub0.contains_key(kk) && !var_ids(outputs@).contains(kk)
                            ==> self.substitution@.contains_key(kk) && self.substitution@[kk]
                            == sub0[kk],
                    forall|c: int|
                        0 <= c < j ==> self.substitution@.contains_key(
                            (#[trigger] outputs@[c]).id,
                        ) && self.substitution@[outputs@[c].id]@ == const_lc_terms(outs_vals[c]),
                decreases outputs@.len() - j,
            {
                let entry = LinComb::summand(outs[j], FlatVariable::one()).reduce();
                proof {
                    let t = (FlatVariable { id: 0i64 }, outs@[j as int]);
                    assert(seq![t].drop_first() =~= Seq::<Term>::empty());
                    assert(canon_spec(seq![t]) == crate::ir::canon_insert(
                        canon_spec(seq![t].drop_first()),
                        t,
                    ));
                    if outs@[j as int].val() != 0 {
                        lemma_from_nat_val(outs@[j as int].val());
                        lemma_val_injective(
                            outs@[j as int],
                            FieldElem::from_nat(outs@[j as int].val()),
                        );
                    }
                    assert(entry@ == const_lc_terms(outs_vals[j as int]));
                }
                self.substitution.insert(outputs[j].id, entry);
                proof {
                    assert(var_ids(outputs@).contains(outputs@[j as int].id)) by {
                        assert(exists|c: int|
                            0 <= c < outputs@.len() && (#[trigger] outputs@[c]).id
                                == outputs@[j as int].id);
                    }
                    assert(forall|c: int|
                        0 <= c < j ==> (#[trigger] outputs@[c]).id != outputs@[j as int].id);
                }
                j = j + 1;
            }
            let out: Vec<Statement> = Vec::new();
            proof {
                assert(outputs@.take(outputs@.len() as int) =~= outputs@);
                assert(solver_output_ok(d.solver, input_consts(sub0, d.inputs@), outs_vals));
                assert(outs_vals.len() == d.outputs@.len());
                assert(forall|c: int|
                    0 <= c < d.outputs@.len() ==> self.substitution@[(#[trigger] d.outputs@[c]).id]@
                        == const_lc_terms(outs_vals[c]));
                assert forall|kk: i64|
                    !var_ids(d.outputs@).contains(kk) implies ((
                self.substitution@.contains_key(kk) <==> sub0.contains_key(kk)) && (
                sub0.contains_key(kk) ==> self.substitution@[kk] == sub0[kk])) by {
                    assert(self.substitution@.contains_key(kk) ==> sub0.contains_key(kk)
                        || var_ids(outputs@).contains(kk));
                    assert(sub0.contains_key(kk) && !var_ids(outputs@).contains(kk)
                        ==> self.substitution@.contains_key(kk) && self.substitution@[kk]
                        == sub0[kk]);
                }
                assert(fold_directive_rel(
                    sub0,
                    ign0,
                    d,
                    out@,
                    self.substitution@,
                    self.ignore@,
                ));
            }
            Ok(out)
        } else {
            let mut rebuilt: Vec<QuadComb> = Vec::new();
            let mut k: usize = 0;
            while k < results.len()
                invariant
                    self.substitution@ == sub0,
                    self.ignore@ == ign0,
                    results@.len() == inputs@.len(),
                    forall|c: int|
                        0 <= c < results@.len() ==> ((#[trigger] results@[c]) matches Ok(v)
                            ==> dir_input_const(sub0, inputs@[c]) == Some(v.val()) && v.wf()),
                    forall|c: int|
                        0 <= c < results@.len() ==> ((#[trigger] results@[c]) matches Err(q)
                            ==> dir_input_const(sub0, inputs@[c]) is None && dir_input_rebuilt(
                            sub0,
                            inputs@[c],
                            q,
                        )),
                    k <= results@.len(),
                    rebuilt@.len() == k,
                    forall|c: int|
                        0 <= c < k ==> dir_input_rebuilt(sub0, inputs@[c], #[trigger] rebuilt@[c]),
                decreases results@.len() - k,
            {
                proof {
                    reveal(dir_input_rebuilt);
                    reveal(dir_input_const);
                }
                match &results[k] {
                    Ok(v) => {
                        rebuilt.push(
                            QuadComb::from_lincomb(LinComb::summand(*v, FlatVariable::one())),
                        );
                    },
                    Err(q) => {
                        rebuilt.push(q.clone());
                    },
                }
                k = k + 1;
            }
            let mut j: usize = 0;
            while j < outputs.len()
                invariant
                    self.substitution@ == sub0,
                    sub_wf(sub0),
                    j <= outputs@.len(),
                    self.ignore@ == ign0.union(var_ids(outputs@.take(j as int))),
                decreases outputs@.len() - j,
            {
                self.ignore.insert(outputs[j].id);
                proof {
                    lemma_var_ids_take(outputs@, j as int);
                    assert(ign0.union(var_ids(outputs@.take(j as int))).insert(
                        outputs@[j as int].id,
                    ) =~= ign0.union(var_ids(outputs@.take(j + 1))));
                }
                j = j + 1;
            }
            let mut out: Vec<Statement> = Vec::new();
            out.push(Statement::Directive(Directive { inputs: rebuilt, outputs, solver }));
            proof {
                assert(outputs@.take(outputs@.len() as int) =~= outputs@);
                let kw = choose|c: int| 0 <= c < results@.len() && (#[trigger] results@[c]) is Err;
                assert(dir_input_const(sub0, d.inputs@[kw]) is None);
                assert(!all_inputs_const(sub0, d.inputs@));
                assert(fold_directive_rel(
                    sub0,
                    ign0,
                    d,
                    out@,
                    self.substitution@,
                    self.ignore@,
                ));
            }
            Ok(out)
        }
    }
}

impl RedefinitionOptimizer {
    /// Protects an argument from being substituted away.
    pub fn fold_argument(&mut self, a: &FlatParameter)
        ensures
            final(self).substitution@ == old(self).substitution@,
            final(self).ignore@ == old(self).ignore@.insert(a.id.id),
    {
        self.ignore.insert(a.id.id);
    }

    /// Optimizes a whole program: protects `~one`, the returns and the
    /// arguments, then folds every statement in order, concatenating what
    /// each emits. The interface — arguments, returns, privacy — is kept.
    pub fn fold_module(&mut self, p: Prog) -> (r: Result<Prog, OptimizeError>)
        requires
            sub_wf(old(self).substitution@),
            prog_wf(p),
        ensures
            sub_wf(final(self).substitution@),
            (r matches Ok(q) ==> {
                &&& q.main.arguments@ == p.main.arguments@
                &&& q.main.return_vars@ == p.main.return_vars@
                &&& q.private_flags@ == p.private_flags@
                &&& fold_seq_rel(
                    old(self).substitution@,
                    seeded_ignore(old(self).ignore@, p),
                    p.main.statements@,
                    q.main.statements@,
                    final(self).substitution@,
                    final(self).ignore@,
                )
            }),
            (r is Err ==> exists|i: int|
                0 <= i < p.main.statements@.len() && ((#[trigger] p.main.statements@[i])
                    matches Statement::Directive(d) && solver_can_fail(d))),
            (forall|i: int|
                0 <= i < p.main.statements@.len() ==> ((#[trigger] p.main.statements@[i])
                    matches Statement::Directive(d) ==> !solver_can_fail(d))) ==> r is Ok,
    {
        let ghost sub_start = self.substitution@;
        let ghost ign_start = self.ignore@;
        let Prog { main, private_flags } = p;
        let Function { arguments, statements, return_vars } = main;
        let mut i: usize = 0;
        while i < return_vars.len()
            invariant
                i <= return_vars@.len(),
                self.substitution@ == sub_start,
                sub_wf(sub_start),
                self.ignore@ == ign_start.union(var_ids(return_vars@.take(i as int))),
            decreases return_vars@.len() - i,
        {
            self.ignore.insert(return_vars[i].id);
            proof {
                lemma_var_ids_take(return_vars@, i as int);
                assert(ign_start.union(var_ids(return_vars@.take(i as int))).insert(
                    return_vars@[i as int].id,
                ) =~= ign_start.union(var_ids(return_vars@.take(i + 1))));
            }
            i = i + 1;
        }
        self.ignore.insert(FlatVariable::one().id);
        proof {
            assert(return_vars@.take(return_vars@.len() as int) =~= return_vars@);
        }
        let ghost ign_mid = self.ignore@;
        let mut i2: usize = 0;
        while i2 < arguments.len()
            invariant
                i2 <= arguments@.len(),
                self.substitution@ == sub_start,
                sub_wf(sub_start),
                self.ignore@ == ign_mid.union(param_ids(arguments@.take(i2 as int))),
            decreases arguments@.len() - i2,
        {
            self.fold_argument(&arguments[i2]);
            proof {
                lemma_param_ids_take(arguments@, i2 as int);
                assert(ign_mid.union(param_ids(arguments@.take(i2 as int))).insert(
                    arguments@[i2 as int].id.id,
                ) =~= ign_mid.union(param_ids(arguments@.take(i2 + 1))));
            }
            i2 = i2 + 1;
        }
        proof {
            assert(arguments@.take(arguments@.len() as int) =~= arguments@);
            assert(self.ignore@ =~= seeded_ignore(ign_start, p));
        }
        let ghost ign_seed = self.ignore@;
        let ghost stmts0 = statements@;
        let mut statements = statements;
        let mut rev: Vec<Statement> = Vec::new();
        while statements.len() > 0
            invariant
                self.substitution@ == sub_start,
                self.ignore@ == ign_seed,
                sub_wf(sub_start),
                statements@.len() + rev@.len() == stmts0.len(),
                forall|k: int| 0 <= k < statements@.len() ==> statements@[k] == stmts0[k],
                forall|k: int|
                    0 <= k < rev@.len() ==> rev@[k] == stmts0[stmts0.len() - 1 - k],
                forall|k: int| 0 <= k < stmts0.len() ==> stmt_wf(#[trigger] stmts0[k]),
            decreases statements@.len(),
        {
            match statements.pop() {
                Some(st) => {
                    rev.push(st);
                },
                None => {
                    proof {
                        assert(false);
                    }
                },
            }
        }
        let mut out_stmts: Vec<Statement> = Vec::new();
        proof {
            assert(stmts0.take(0) =~= Seq::<Statement>::empty());
        }
        while rev.len() > 0
            invariant
                sub_wf(self.substitution@),
                stmts0 == p.main.statements@,
                rev@.len() <= stmts0.len(),
                forall|k: int|
                    0 <= k < rev@.len() ==> rev@[k] == stmts0[stmts0.len() - 1 - k],
                forall|k: int| 0 <= k < stmts0.len() ==> stmt_wf(#[trigger] stmts0[k]),
                fold_seq_rel(
                    sub_start,
                    ign_seed,
                    stmts0.take(stmts0.len() - rev@.len()),
                    out_stmts@,
                    self.substitution@,
                    self.ignore@,
                ),
            decreases rev@.len(),
        {
            let ghost done = stmts0.len() - rev@.len();
            let ghost out_prev = out_stmts@;
            let ghost sub_prev = self.substitution@;
            let ghost ign_prev = self.ignore@;
            match rev.pop() {
                Some(st) => {
                    proof {
                        assert(st == stmts0[done]);
                    }
                    match self.fold_statement(st) {
                        Ok(mut emitted) => {
                            let ghost emitted0 = emitted@;
                            out_stmts.append(&mut emitted);
                            proof {
                                assert(stmt_fold_rel(
                                    sub_prev,
                                    ign_prev,
                                    stmts0[done],
                                    emitted0,
                                    self.substitution@,
                                    self.ignore@,
                                ));
                                assert(stmts0.take(done + 1).drop_last() =~= stmts0.take(done));
                                assert(stmts0.take(done + 1).last() == stmts0[done]);
                                assert(fold_witness(
                                    out_prev,
                                    emitted0,
                                    sub_prev,
                                    ign_prev,
                                ));
                                assert(fold_seq_rel(
                                    sub_start,
                                    ign_seed,
                                    stmts0.take(done + 1),
                                    out_prev + emitted0,
                                    self.substitution@,
                                    self.ignore@,
                                ));
                            }
                        },
                        Err(e) => {
                            proof {
                                assert(stmts0[done] matches Statement::Directive(d)
                                    && solver_can_fail(d));
                            }
                            return Err(e);
                        },
                    }
                },
                None => {
                    proof {
                        assert(false);
                    }
                },
            }
        }
        proof {
            assert(stmts0.take(stmts0.len() as int) =~= stmts0);
        }
        Ok(
            Prog {
                main: Function { arguments, statements: out_stmts, return_vars },
                private_flags,
            },
        )
    }

    /// Runs the optimizer over a program with a fresh state: the result's
    /// statements are the sequential fold of the input's statements, its
    /// interface is unchanged, and only a directive can make it fail.
    pub fn optimize(p: Prog) -> (r: Result<Prog, OptimizeError>)
        requires
            prog_wf(p),
        ensures
            (r matches Ok(q) ==> {
                &&& q.main.arguments@ == p.main.arguments@
                &&& q.main.return_vars@ == p.main.return_vars@
                &&& q.private_flags@ == p.private_flags@
                &&& exists|sub2: Map<i64, LinComb>, ign2: Set<i64>|
                    #![trigger fold_seq_rel(
                        Map::<i64, LinComb>::empty(),
                        seeded_ignore(Set::<i64>::empty(), p),
                        p.main.statements@,
                        q.main.statements@,
                        sub2,
                        ign2,
                    )]
                    fold_seq_rel(
                        Map::<i64, LinComb>::empty(),
                        seeded_ignore(Set::<i64>::empty(), p),
                        p.main.statements@,
                        q.main.statements@,
                        sub2,
                        ign2,
                    )
            }),
            (r is Err ==> exists|i: int|
                0 <= i < p.main.statements@.len() && ((#[trigger] p.main.statements@[i])
                    matches Statement::Directive(d) && solver_can_fail(d))),
            (forall|i: int|
                0 <= i < p.main.statements@.len() ==> ((#[trigger] p.main.statements@[i])
                    matches Statement::Directive(d) ==> !solver_can_fail(d))) ==> r is Ok,
    {
        let mut opt = RedefinitionOptimizer::new();
        match opt.fold_module(p) {
            Ok(q) => {
                proof {
                    assert(fold_seq_rel(
                        Map::<i64, LinComb>::empty(),
                        seeded_ignore(Set::<i64>::empty(), p),
                        p.main.statements@,
                        q.main.statements@,
                        opt.substitution@,
                        opt.ignore@,
                    ));
                }
                Ok(q)
            },
            Err(e) => Err(e),
        }
    }
}

/// The ids of a variable list form a finite set.
pub proof fn lemma_var_ids_finite(vs: Seq<FlatVariable>)
    ensures
        var_ids(vs).finite(),
{
    let f = |i: int| vs[i].id;
    let all = Set::new(|i: int| 0 <= i < vs.len()).map(f);
    vstd::set_lib::lemma_int_range(0, vs.len() as int);
    assert(Set::new(|i: int| 0 <= i < vs.len()) =~= vstd::set_lib::set_int_range(
        0,
        vs.len() as int,
    ));
    vstd::set_lib::set_int_range(0, vs.len() as int).lemma_map_finite(f);
    assert(var_ids(vs).subset_of(all)) by {
        assert forall|k: i64| var_ids(vs).contains(k) implies all.contains(k) by {
            let i = choose|i: int| 0 <= i < vs.len() && (#[trigger] vs[i]).id == k;
            assert(Set::new(|j: int| 0 <= j < vs.len()).contains(i));
            assert(f(i) == k);
        }
    }
    vstd::set_lib::lemma_len_subset(var_ids(vs), all);
}

/// One more variable's id joins the id set of a growing prefix.
pub proof fn lemma_var_ids_take(vs: Seq<FlatVariable>, j: int)
    requires
        0 <= j < vs.len(),
    ensures
        var_ids(vs.take(j + 1)) =~= var_ids(vs.take(j)).insert(vs[j].id),
{
    assert forall|k: i64| var_ids(vs.take(j + 1)).contains(k) implies var_ids(vs.take(j)).insert(
        vs[j].id,
    ).contains(k) by {
        let i = choose|i: int| 0 <= i < vs.take(j + 1).len() && (#[trigger] vs.take(j + 1)[i]).id
            == k;
        if i < j {
            assert(vs.take(j)[i].id == k);
        }
    }
    assert forall|k: i64| var_ids(vs.take(j)).insert(vs[j].id).contains(k) implies var_ids(
        vs.take(j + 1),
    ).contains(k) by {
        if k == vs[j].id {
            assert(vs.take(j + 1)[j].id == k);
        } else {
            let i = choose|i: int| 0 <= i < vs.take(j).len() && (#[trigger] vs.take(j)[i]).id == k;
            assert(vs.take(j + 1)[i].id == k);
        }
    }
}

} // verus!
