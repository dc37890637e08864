//! Static soundness analysis: every private argument and every directive
//! output must appear in at least one constraint, else a malicious prover
//! could choose its value freely.

use vstd::prelude::*;
use std::collections::HashSet;
use crate::ir::{Prog, Statement, Term};

verus! {

broadcast use vstd::std_specs::hash::group_hash_axioms;

/// The ids of the variables of a term sequence.
pub open spec fn term_ids(s: Seq<Term>) -> Set<i64> {
    Set::new(|k: i64| exists|i: int| 0 <= i < s.len() && (#[trigger] s[i]).0.id == k)
}

/// The ids a constraint mentions, on either side.
pub open spec fn constraint_ids(s: Statement) -> Set<i64> {
    match s {
        Statement::Constraint(q, l, _m) => term_ids(q.left@).union(term_ids(q.right@)).union(
            term_ids(l@),
        ),
        Statement::Directive(_d) => Set::<i64>::empty(),
    }
}

/// One step of the analysis: a constraint clears every variable it uses, a
/// directive makes each of its outputs a suspect.
pub open spec fn detect_step(vars: Set<i64>, s: Statement) -> Set<i64> {
    match s {
        Statement::Constraint(_q, _l, _m) => vars.difference(constraint_ids(s)),
        Statement::Directive(d) => vars.union(crate::optimizer::var_ids(d.outputs@)),
    }
}

/// The analysis folded over the statements in program order.
pub open spec fn detect_fold(vars: Set<i64>, stmts: Seq<Statement>) -> Set<i64>
    decreases stmts.len(),
{
    if stmts.len() == 0 {
        vars
    } else {
        detect_fold(detect_step(vars, stmts[0]), stmts.drop_first())
    }
}

/// The initial suspects: the ids of the private arguments.
pub open spec fn private_arg_ids(p: Prog) -> Set<i64> {
    Set::new(
        |k: i64|
            exists|i: int|
                0 <= i < p.main.arguments@.len() && (#[trigger] p.main.arguments@[i]).private
                    && p.main.arguments@[i].id.id == k,
    )
}

/// The suspects left when the whole program has been visited.
pub open spec fn final_suspects(p: Prog) -> Set<i64> {
    detect_fold(private_arg_ids(p), p.main.statements@)
}

/// The analysis error: the number of unconstrained variables found.
#[derive(Debug, PartialEq, Eq, Structural, Clone, Copy)]
pub struct Error(pub usize);

/// The decimal rendering of a count: its digits as characters, most
/// significant first, with no sign or padding.
pub open spec fn dec_digits(n: nat) -> Seq<char>
    decreases n,
{
    if n < 10 {
        seq![((48 + n) as u8) as char]
    } else {
        dec_digits(n / 10).push(((48 + (n % 10)) as u8) as char)
    }
}

/// The full analysis message for a count and a plural suffix.
pub open spec fn message_chars(n: nat, suffix: Seq<char>) -> Seq<char> {
    "Found unconstrained variables during IR analysis (found "@ + dec_digits(n)
        + " occurrence"@ + suffix + ")"@
}

impl Error {
    /// The rendering the compiler reports for this error: the fixed wording
    /// around the count in decimal, with the plural suffix exactly when the
    /// count is not one.
    pub fn message(&self) -> (r: String)
        ensures
            r@ == message_chars(
                self.0 as nat,
                if self.0 == 1 {
                    Seq::<char>::empty()
                } else {
                    "s"@
                },
            ),
            self.0 == 1 ==> r@
                == "Found unconstrained variables during IR analysis (found 1 occurrence)"@,
            self.0 == 2 ==> r@
                == "Found unconstrained variables during IR analysis (found 2 occurrences)"@,
    {
        let suffix: &str = if self.0 == 1 {
            ""
        } else {
            "s"
        };
        proof {
            reveal_strlit("");
            reveal_strlit("s");
            assert(""@ =~= Seq::<char>::empty());
        }
        render_message(self.0, suffix)
    }
}

/// Relies on std's `format!`: the count is rendered in decimal — `Display`
/// for `usize` writes the base-ten digits with no sign or padding — between
/// the fixed message parts; for the counts of one and two the whole string
/// is also stated literally.
#[verifier::external_body]
fn render_message(count: usize, suffix: &str) -> (r: String)
    ensures
        r@ == message_chars(count as nat, suffix@),
        count == 1 && suffix@ =~= Seq::<char>::empty() ==> r@
            == "Found unconstrained variables during IR analysis (found 1 occurrence)"@,
        count == 2 && suffix@ =~= "s"@ ==> r@
            == "Found unconstrained variables during IR analysis (found 2 occurrences)"@,
{
    format!(
        "Found unconstrained variables during IR analysis (found {} occurrence{})",
        count,
        suffix,
    )
}

/// Walks a program and reports the variables that no constraint mentions.
#[derive(Debug)]
pub struct UnconstrainedVariableDetector {
    pub variables: HashSet<i64>,
}

impl UnconstrainedVariableDetector {
    /// Marks a private argument as a suspect.
    pub fn visit_argument(&mut self, a: &crate::flat::FlatParameter)
        ensures
            final(self).variables@ == if a.private {
                old(self).variables@.insert(a.id.id)
            } else {
                old(self).variables@
            },
    {
        if a.private {
            self.variables.insert(a.id.id);
        }
    }

    /// Clears a variable that a constraint uses.
    pub fn visit_variable(&mut self, v: &crate::flat::FlatVariable)
        ensures
            final(self).variables@ == old(self).variables@.remove(v.id),
    {
        self.variables.remove(&v.id);
    }

    /// Marks every output of a directive as a suspect.
    pub fn visit_directive(&mut self, d: &crate::ir::Directive)
        ensures
            final(self).variables@ == old(self).variables@.union(
                crate::optimizer::var_ids(d.outputs@),
            ),
    {
        let mut j: usize = 0;
        let ghost vars0 = self.variables@;
        while j < d.outputs.len()
            invariant
                j <= d.outputs@.len(),
                self.variables@ == vars0.union(
                    crate::optimizer::var_ids(d.outputs@.take(j as int)),
                ),
            decreases d.outputs@.len() - j,
        {
            self.variables.insert(d.outputs[j].id);
            proof {
                crate::optimizer::lemma_var_ids_take(d.outputs@, j as int);
                assert(vars0.union(crate::optimizer::var_ids(d.outputs@.take(j as int))).insert(
                    d.outputs@[j as int].id,
                ) =~= vars0.union(crate::optimizer::var_ids(d.outputs@.take(j + 1))));
            }
            j = j + 1;
        }
        proof {
            assert(d.outputs@.take(d.outputs@.len() as int) =~= d.outputs@);
            assert(vars0.union(crate::optimizer::var_ids(d.outputs@)) =~= self.variables@);
        }
    }

    /// Clears every variable a term sequence mentions.
    fn visit_terms(&mut self, terms: &Vec<Term>)
        ensures
            final(self).variables@ == old(self).variables@.difference(term_ids(terms@)),
    {
        let mut j: usize = 0;
        let ghost vars0 = self.variables@;
        while j < terms.len()
            invariant
                j <= terms@.len(),
                self.variables@ == vars0.difference(term_ids(terms@.take(j as int))),
            decreases terms@.len() - j,
        {
            self.variables.remove(&terms[j].0.id);
            proof {
                lemma_term_ids_take(terms@, j as int);
                assert(vars0.difference(term_ids(terms@.take(j as int))).remove(
                    terms@[j as int].0.id,
                ) =~= vars0.difference(term_ids(terms@.take(j + 1))));
            }
            j = j + 1;
        }
        proof {
            assert(terms@.take(terms@.len() as int) =~= terms@);
        }
    }

    /// Reports `Ok` when no suspect survives the walk, else how many did.
    pub fn detect(p: &Prog) -> (r: Result<(), Error>)
        ensures
            match r {
                Ok(()) => final_suspects(*p).len() == 0,
                Err(e) => e.0 == final_suspects(*p).len() && e.0 != 0,
            },
    {
        let mut instance = UnconstrainedVariableDetector { variables: HashSet::new() };
        let mut i: usize = 0;
        while i < p.main.arguments.len()
            invariant
                i <= p.main.arguments@.len(),
                instance.variables@ == Set::new(
                    |k: i64|
                        exists|c: int|
                            0 <= c < i && (#[trigger] p.main.arguments@[c]).private
                                && p.main.arguments@[c].id.id == k,
                ),
            decreases p.main.arguments@.len() - i,
        {
            instance.visit_argument(&p.main.arguments[i]);
            proof {
                let prev = Set::new(
                    |k: i64|
                        exists|c: int|
                            0 <= c < i && (#[trigger] p.main.arguments@[c]).private
                                && p.main.arguments@[c].id.id == k,
                );
                let next = Set::new(
                    |k: i64|
                        exists|c: int|
                            0 <= c < i + 1 && (#[trigger] p.main.arguments@[c]).private
                                && p.main.arguments@[c].id.id == k,
                );
                if p.main.arguments@[i as int].private {
                    assert(prev.insert(p.main.arguments@[i as int].id.id) =~= next);
                } else {
                    assert(prev =~= next);
                }
            }
            i = i + 1;
        }
        proof {
            assert(instance.variables@ =~= private_arg_ids(*p));
            assert(p.main.statements@.take(0) =~= Seq::<Statement>::empty());
        }
        let n = p.main.statements.len();
        let mut j: usize = 0;
        while j < n
            invariant
                n == p.main.statements@.len(),
                j <= n,
                instance.variables@ == detect_fold(
                    private_arg_ids(*p),
                    p.main.statements@.take(j as int),
                ),
            decreases n - j,
        {
            match &p.main.statements[j] {
                Statement::Constraint(q, l, _m) => {
                    instance.visit_terms(&q.left.0);
                    instance.visit_terms(&q.right.0);
                    instance.visit_terms(&l.0);
                    proof {
                        assert(constraint_ids(p.main.statements@[j as int]) =~= term_ids(
                            q.left@,
                        ).union(term_ids(q.right@)).union(term_ids(l@)));
                        let v0 = detect_fold(
                            private_arg_ids(*p),
                            p.main.statements@.take(j as int),
                        );
                        assert(v0.difference(term_ids(q.left@)).difference(
                            term_ids(q.right@),
                        ).difference(term_ids(l@)) =~= v0.difference(
                            constraint_ids(p.main.statements@[j as int]),
                        ));
                    }
                },
                Statement::Directive(d) => {
                    instance.visit_directive(d);
                },
            }
            proof {
                lemma_detect_fold_take(private_arg_ids(*p), p.main.statements@, j as int);
            }
            j = j + 1;
        }
        proof {
            assert(p.main.statements@.take(n as int) =~= p.main.statements@);
        }
        let count = instance.variables.len();
        if count == 0 {
            Ok(())
        } else {
            Err(Error(count))
        }
    }
}

/// Whether some constraint of the statements mentions the id.
pub open spec fn covered(k: i64, stmts: Seq<Statement>) -> bool {
    exists|i: int| 0 <= i < stmts.len() && constraint_ids(#[trigger] stmts[i]).contains(k)
}

/// Whether every directive output is mentioned by a later constraint.
pub open spec fn directives_covered(stmts: Seq<Statement>) -> bool {
    forall|i: int|
        0 <= i < stmts.len() ==> match #[trigger] stmts[i] {
            Statement::Directive(d) => forall|k: i64|
                #[trigger] crate::optimizer::var_ids(d.outputs@).contains(k) ==> covered(
                    k,
                    stmts.skip(i + 1),
                ),
            Statement::Constraint(_q, _l, _m) => true,
        }
}

/// A fold over statements that cover all current suspects, and whose
/// directive outputs are covered later, ends with no suspect.
proof fn lemma_detect_fold_empty(vars: Set<i64>, stmts: Seq<Statement>)
    requires
        forall|k: i64| vars.contains(k) ==> covered(k, stmts),
        directives_covered(stmts),
        vars.finite(),
    ensures
        detect_fold(vars, stmts) =~= Set::<i64>::empty(),
    decreases stmts.len(),
{
    if stmts.len() == 0 {
        assert forall|k: i64| !vars.contains(k) by {
            if vars.contains(k) {
                assert(covered(k, stmts));
            }
        }
        assert(vars =~= Set::<i64>::empty());
    } else {
        let s = stmts[0];
        let rest = stmts.drop_first();
        assert(rest =~= stmts.skip(1));
        let vars2 = detect_step(vars, s);
        assert forall|k: i64| vars2.contains(k) implies covered(k, rest) by {
            match s {
                Statement::Constraint(_q, _l, _m) => {
                    assert(vars.contains(k) && !constraint_ids(s).contains(k));
                    assert(covered(k, stmts));
                    let i = choose|i: int|
                        0 <= i < stmts.len() && constraint_ids(#[trigger] stmts[i]).contains(k);
                    assert(i != 0);
                    assert(rest[i - 1] == stmts[i]);
                },
                Statement::Directive(d) => {
                    if vars.contains(k) {
                        assert(covered(k, stmts));
                        let i = choose|i: int|
                            0 <= i < stmts.len() && constraint_ids(
                                #[trigger] stmts[i],
                            ).contains(k);
                        assert(constraint_ids(stmts[0]) =~= Set::<i64>::empty());
                        assert(i != 0);
                        assert(rest[i - 1] == stmts[i]);
                    } else {
                        assert(crate::optimizer::var_ids(d.outputs@).contains(k));
                        assert(covered(k, stmts.skip(1)));
                    }
                },
            }
        }
        assert(directives_covered(rest)) by {
            assert forall|i: int| 0 <= i < rest.len() implies match #[trigger] rest[i] {
                Statement::Directive(d) => forall|k: i64|
                    #[trigger] crate::optimizer::var_ids(d.outputs@).contains(k) ==> covered(
                        k,
                        rest.skip(i + 1),
                    ),
                Statement::Constraint(_q, _l, _m) => true,
            } by {
                assert(rest[i] == stmts[i + 1]);
                match rest[i] {
                    Statement::Directive(d) => {
                        assert forall|k: i64|
                            #[trigger] crate::optimizer::var_ids(d.outputs@).contains(k)
                                implies covered(k, rest.skip(i + 1)) by {
                            assert(covered(k, stmts.skip(i + 2)));
                            assert(stmts.skip(i + 2) =~= rest.skip(i + 1));
                        }
                    },
                    Statement::Constraint(_q, _l, _m) => {},
                }
            }
        }
        assert(vars2.finite()) by {
            match s {
                Statement::Constraint(_q, _l, _m) => {},
                Statement::Directive(d) => {
                    crate::optimizer::lemma_var_ids_finite(d.outputs@);
                },
            }
        }
        lemma_detect_fold_empty(vars2, rest);
    }
}

/// The law behind the analysis: when every private argument appears in some
/// constraint and every directive output appears in a constraint after its
/// directive, the detector finds nothing, so `detect` reports `Ok`.
pub proof fn lemma_detector_accepts_constrained(p: Prog)
    requires
        forall|k: i64| private_arg_ids(p).contains(k) ==> covered(k, p.main.statements@),
        directives_covered(p.main.statements@),
    ensures
        final_suspects(p).len() == 0,
{
    lemma_private_arg_ids_finite(p);
    lemma_detect_fold_empty(private_arg_ids(p), p.main.statements@);
}

/// The private argument ids form a finite set.
proof fn lemma_private_arg_ids_finite(p: Prog)
    ensures
        private_arg_ids(p).finite(),
{
    let f = |i: int| p.main.arguments@[i].id.id;
    let all = Set::new(|i: int| 0 <= i < p.main.arguments@.len()).map(f);
    vstd::set_lib::lemma_int_range(0, p.main.arguments@.len() as int);
    assert(Set::new(|i: int| 0 <= i < p.main.arguments@.len()) =~= vstd::set_lib::set_int_range(
        0,
        p.main.arguments@.len() as int,
    ));
    vstd::set_lib::set_int_range(0, p.main.arguments@.len() as int).lemma_map_finite(f);
    assert(private_arg_ids(p).subset_of(all)) by {
        assert forall|k: i64| private_arg_ids(p).contains(k) implies all.contains(k) by {
            let i = choose|i: int|
                0 <= i < p.main.arguments@.len() && (#[trigger] p.main.arguments@[i]).private
                    && p.main.arguments@[i].id.id == k;
            assert(Set::new(|j: int| 0 <= j < p.main.arguments@.len()).contains(i));
            assert(f(i) == k);
        }
    }
    vstd::set_lib::lemma_len_subset(private_arg_ids(p), all);
}

/// Folding one more statement steps the fold once.
proof fn lemma_detect_fold_take(init: Set<i64>, stmts: Seq<Statement>, j: int)
    requires
        0 <= j < stmts.len(),
    ensures
        detect_fold(init, stmts.take(j + 1)) == detect_step(
            detect_fold(init, stmts.take(j)),
            stmts[j],
        ),
    decreases j,
{
    if j == 0 {
        assert(stmts.take(1).drop_first() =~= stmts.take(0));
        assert(stmts.take(1)[0] == stmts[0]);
        assert(detect_fold(detect_step(init, stmts[0]), stmts.take(0)) == detect_step(
            init,
            stmts[0],
        ));
        assert(detect_fold(init, stmts.take(0)) == init);
    } else {
        lemma_detect_fold_take(detect_step(init, stmts[0]), stmts.drop_first(), j - 1);
        assert(stmts.take(j + 1).drop_first() =~= stmts.drop_first().take(j));
        assert(stmts.take(j).drop_first() =~= stmts.drop_first().take(j - 1));
        assert(stmts.take(j + 1)[0] == stmts[0]);
        assert(stmts.take(j)[0] == stmts[0]);
        assert(stmts.drop_first()[j - 1] == stmts[j]);
    }
}

/// One more term's id joins the id set of a growing prefix.
proof fn lemma_term_ids_take(ts: Seq<Term>, j: int)
    requires
        0 <= j < ts.len(),
    ensures
        term_ids(ts.take(j + 1)) =~= term_ids(ts.take(j)).insert(ts[j].0.id),
{
    assert forall|k: i64| term_ids(ts.take(j + 1)).contains(k) implies term_ids(ts.take(j)).insert(
        ts[j].0.id,
    ).contains(k) by {
        let i = choose|i: int| 0 <= i < ts.take(j + 1).len() && (#[trigger] ts.take(j + 1)[i]).0.id
            == k;
        if i < j {
            assert(ts.take(j)[i].0.id == k);
        }
    }
    assert forall|k: i64| term_ids(ts.take(j)).insert(ts[j].0.id).contains(k) implies term_ids(
        ts.take(j + 1),
    ).contains(k) by {
        if k == ts[j].0.id {
            assert(ts.take(j + 1)[j].0.id == k);
        } else {
            let i = choose|i: int| 0 <= i < ts.take(j).len() && (#[trigger] ts.take(j)[i]).0.id
                == k;
            assert(ts.take(j + 1)[i].0.id == k);
        }
    }
}

} // verus!
