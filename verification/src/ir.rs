//! The arithmetic intermediate representation: linear combinations, products
//! of two linear combinations, R1CS constraints, directives, and programs,
//! together with their algebraic normalization and the lowering of flat
//! functions into this form.

use vstd::prelude::*;
use crate::field::{field_modulus, lemma_from_nat_val, lemma_val_injective, FieldElem};
use crate::flat::{
    FlatExpression, FlatFunction, FlatParameter, FlatStatement, FlatVariable,
};
use crate::solvers::Solver;

verus! {

/// One term of a linear combination: a variable and its coefficient.
pub type Term = (FlatVariable, FieldElem);

/// A linear combination of variables with field coefficients. Constants are
/// carried as coefficients of the distinguished `~one` variable.
#[derive(Debug, PartialEq)]
pub struct LinComb(pub Vec<Term>);

impl View for LinComb {
    type V = Seq<Term>;

    open spec fn view(&self) -> Seq<Term> {
        self.0@
    }
}

impl Clone for LinComb {
    /// Copies the terms; the clone's view equals the original's.
    fn clone(&self) -> (r: Self)
        ensures
            r@ == self@,
    {
        let mut v: Vec<Term> = Vec::new();
        let mut i: usize = 0;
        while i < self.0.len()
            invariant
                i <= self.0@.len(),
                v@ == self.0@.take(i as int),
            decreases self.0@.len() - i,
        {
            v.push(self.0[i]);
            proof {
                assert(v@ =~= self.0@.take(i + 1));
            }
            i = i + 1;
        }
        proof {
            assert(self.0@.take(self.0@.len() as int) =~= self.0@);
        }
        LinComb(v)
    }
}

/// Canonical form: variables strictly ascending by id, no zero coefficient.
pub open spec fn is_canon(s: Seq<Term>) -> bool {
    &&& forall|i: int, j: int| 0 <= i < j < s.len() ==> s[i].0.id < s[j].0.id
    &&& forall|i: int| 0 <= i < s.len() ==> (#[trigger] s[i]).1.val() != 0
}

/// Inserts one term into a canonical sequence: coefficients of the same
/// variable are summed in the field, zero results are dropped, and the
/// ascending order is kept.
pub open spec fn canon_insert(s: Seq<Term>, t: Term) -> Seq<Term>
    decreases s.len(),
{
    if s.len() == 0 {
        if t.1.val() == 0 {
            Seq::<Term>::empty()
        } else {
            seq![t]
        }
    } else if t.0.id < s[0].0.id {
        if t.1.val() == 0 {
            s
        } else {
            seq![t] + s
        }
    } else if t.0.id == s[0].0.id {
        if (t.1.val() + s[0].1.val()) % field_modulus() == 0 {
            s.drop_first()
        } else {
            seq![
                (s[0].0, FieldElem::from_nat((t.1.val() + s[0].1.val()) % field_modulus())),
            ] + s.drop_first()
        }
    } else {
        seq![s[0]] + canon_insert(s.drop_first(), t)
    }
}

/// The canonical form of a term sequence, built by inserting each term into
/// the canonical form of the rest.
pub open spec fn canon_spec(s: Seq<Term>) -> Seq<Term>
    decreases s.len(),
{
    if s.len() == 0 {
        Seq::<Term>::empty()
    } else {
        canon_insert(canon_spec(s.drop_first()), s[0])
    }
}

/// Inserting into a canonical sequence keeps it canonical, and introduces no
/// id below both the inserted one and the head's.
proof fn lemma_canon_insert_canon(s: Seq<Term>, t: Term)
    requires
        is_canon(s),
    ensures
        is_canon(canon_insert(s, t)),
        forall|i: int|
            0 <= i < canon_insert(s, t).len() ==> (#[trigger] canon_insert(s, t)[i]).0.id >= t.0.id
                || (s.len() > 0 && canon_insert(s, t)[i].0.id >= s[0].0.id),
    decreases s.len(),
{
    let r = canon_insert(s, t);
    if s.len() == 0 {
    } else if t.0.id < s[0].0.id {
    } else if t.0.id == s[0].0.id {
        let c = (t.1.val() + s[0].1.val()) % field_modulus();
        assert(is_canon(s.drop_first()));
        if c != 0 {
            crate::field::lemma_from_nat_val(c);
            assert(r[0].1.val() == c) by {
                assert(field_modulus()
                    < 0x10000000000000000000000000000000000000000000000000000000000000000nat);
                vstd::arithmetic::div_mod::lemma_mod_bound(
                    (t.1.val() + s[0].1.val()) as int,
                    field_modulus() as int,
                );
            }
        }
    } else {
        assert(is_canon(s.drop_first()));
        lemma_canon_insert_canon(s.drop_first(), t);
        let rr = canon_insert(s.drop_first(), t);
        assert forall|i: int, j: int| 0 <= i < j < r.len() implies r[i].0.id < r[j].0.id by {
            if i > 0 {
                assert(r[i] == rr[i - 1] && r[j] == rr[j - 1]);
            } else {
                assert(r[j] == rr[j - 1]);
                if s.len() > 1 {
                    assert(s.drop_first()[0] == s[1]);
                }
            }
        }
    }
}

/// The canonical form is canonical.
pub proof fn lemma_canon_spec_canon(s: Seq<Term>)
    ensures
        is_canon(canon_spec(s)),
    decreases s.len(),
{
    if s.len() > 0 {
        lemma_canon_spec_canon(s.drop_first());
        lemma_canon_insert_canon(canon_spec(s.drop_first()), s[0]);
    }
}

/// On an already canonical sequence, canonicalization is the identity.
pub proof fn lemma_canon_of_canon(s: Seq<Term>)
    requires
        is_canon(s),
    ensures
        canon_spec(s) == s,
    decreases s.len(),
{
    if s.len() == 0 {
        assert(canon_spec(s) =~= s);
    } else {
        let rest = s.drop_first();
        assert(is_canon(rest));
        lemma_canon_of_canon(rest);
        if rest.len() > 0 {
            assert(rest[0] == s[1]);
            assert(s[0].0.id < s[1].0.id);
        }
        assert(canon_insert(rest, s[0]) =~= seq![s[0]] + rest);
        assert(seq![s[0]] + rest =~= s);
    }
}

/// The law that canonicalization is idempotent: reducing a linear
/// combination twice gives the same terms as reducing it once.
pub proof fn lemma_canonicalize_idempotent(s: Seq<Term>)
    ensures
        canon_spec(canon_spec(s)) == canon_spec(s),
{
    lemma_canon_spec_canon(s);
    lemma_canon_of_canon(canon_spec(s));
}

/// The value a term sequence denotes under a witness assignment, as the
/// plain sum of coefficient times variable value; the field sees it modulo
/// the modulus.
pub open spec fn sum_terms(s: Seq<Term>, w: Map<i64, nat>) -> nat
    decreases s.len(),
{
    if s.len() == 0 {
        0
    } else {
        (s[0].1.val() * w[s[0].0.id] + sum_terms(s.drop_first(), w)) as nat
    }
}

/// Merging two coefficients of one variable keeps the contribution, modulo
/// the field's prime.
proof fn lemma_merge_arith(a: nat, b: nat, wv: nat, rest: nat)
    ensures
        (((a + b) % field_modulus()) * wv + rest) % field_modulus() == (a * wv + (b * wv
            + rest)) % field_modulus(),
{
    let p = field_modulus();
    assert(a * wv + (b * wv + rest) == (a + b) * wv + rest) by (nonlinear_arith);
    vstd::arithmetic::div_mod::lemma_add_mod_noop(((a + b) * wv) as int, rest as int, p as int);
    vstd::arithmetic::div_mod::lemma_add_mod_noop(
        ((((a + b) % p) * wv)) as int,
        rest as int,
        p as int,
    );
    vstd::arithmetic::div_mod::lemma_mul_mod_noop_left((a + b) as int, wv as int, p as int);
}

/// Adding the same head keeps sums congruent.
proof fn lemma_head_arith(h: nat, x: nat, y: nat)
    requires
        x % field_modulus() == y % field_modulus(),
    ensures
        (h + x) % field_modulus() == (h + y) % field_modulus(),
{
    let p = field_modulus();
    vstd::arithmetic::div_mod::lemma_add_mod_noop(h as int, x as int, p as int);
    vstd::arithmetic::div_mod::lemma_add_mod_noop(h as int, y as int, p as int);
}

/// Merging into an equal-id head keeps the contribution.
proof fn lemma_cie_merge(s: Seq<Term>, t: Term, w: Map<i64, nat>)
    requires
        s.len() > 0,
        t.0.id == s[0].0.id,
    ensures
        sum_terms(canon_insert(s, t), w) % field_modulus() == (t.1.val() * w[t.0.id] + sum_terms(
            s,
            w,
        )) % field_modulus(),
{
    let p = field_modulus();
    let wv = w[t.0.id];
    let a = t.1.val();
    let b = s[0].1.val();
    let rest = sum_terms(s.drop_first(), w);
    assert(sum_terms(s, w) == (b * wv + rest) as nat);
    lemma_merge_arith(a, b, wv, rest);
    if (a + b) % p == 0 {
        assert(sum_terms(canon_insert(s, t), w) == rest);
        vstd::arithmetic::div_mod::lemma_mod_twice(rest as int, p as int);
    } else {
        let cm = FieldElem::from_nat((a + b) % p);
        assert(cm.val() == (a + b) % p) by {
            vstd::arithmetic::div_mod::lemma_mod_bound((a + b) as int, p as int);
            lemma_from_nat_val((a + b) % p);
        }
        let r = canon_insert(s, t);
        assert(r.drop_first() =~= s.drop_first());
        assert(r[0] == (s[0].0, cm));
        assert(sum_terms(r, w) == (cm.val() * wv + rest) as nat);
        vstd::arithmetic::div_mod::lemma_mod_twice((cm.val() * wv + rest) as int, p as int);
    }
}

/// Passing a smaller-id head through keeps the contribution.
proof fn lemma_cie_compose(s: Seq<Term>, t: Term, w: Map<i64, nat>)
    requires
        s.len() > 0,
        t.0.id > s[0].0.id,
        sum_terms(canon_insert(s.drop_first(), t), w) % field_modulus() == (t.1.val() * w[t.0.id]
            + sum_terms(s.drop_first(), w)) % field_modulus(),
    ensures
        sum_terms(canon_insert(s, t), w) % field_modulus() == (t.1.val() * w[t.0.id] + sum_terms(
            s,
            w,
        )) % field_modulus(),
{
    let wv = w[t.0.id];
    let r = canon_insert(s, t);
    let h = s[0].1.val() * w[s[0].0.id];
    let rr = canon_insert(s.drop_first(), t);
    assert(r.drop_first() =~= rr);
    assert(r[0] == s[0]);
    assert(sum_terms(r, w) == (h + sum_terms(rr, w)) as nat);
    assert(sum_terms(s, w) == (h + sum_terms(s.drop_first(), w)) as nat);
    lemma_head_arith(h, sum_terms(rr, w), (t.1.val() * wv + sum_terms(s.drop_first(), w)) as nat);
    assert(h + (t.1.val() * wv + sum_terms(s.drop_first(), w)) == t.1.val() * wv + (h + sum_terms(
        s.drop_first(),
        w,
    )));
}

/// Inserting a term adds its contribution, modulo the field's prime.
proof fn lemma_canon_insert_eval(s: Seq<Term>, t: Term, w: Map<i64, nat>)
    ensures
        sum_terms(canon_insert(s, t), w) % field_modulus() == (t.1.val() * w[t.0.id] + sum_terms(
            s,
            w,
        )) % field_modulus(),
    decreases s.len(),
{
    if s.len() == 0 {
        assert(sum_terms(s, w) == 0);
        if t.1.val() != 0 {
            assert(canon_insert(s, t) == seq![t]);
            assert(seq![t].drop_first() =~= Seq::<Term>::empty());
            assert(seq![t][0] == t);
            assert(sum_terms(Seq::<Term>::empty(), w) == 0);
            assert(sum_terms(seq![t], w) == t.1.val() * w[t.0.id] + 0);
        } else {
            assert(t.1.val() * w[t.0.id] == 0) by (nonlinear_arith)
                requires
                    t.1.val() == 0,
            ;
            assert(canon_insert(s, t) == Seq::<Term>::empty());
            assert(sum_terms(canon_insert(s, t), w) == 0);
        }
    } else if t.0.id < s[0].0.id {
        if t.1.val() != 0 {
            assert((seq![t] + s).drop_first() =~= s);
            assert((seq![t] + s)[0] == t);
        } else {
            assert(t.1.val() * w[t.0.id] == 0) by (nonlinear_arith)
                requires
                    t.1.val() == 0,
            ;
        }
    } else if t.0.id == s[0].0.id {
        lemma_cie_merge(s, t, w);
    } else {
        lemma_canon_insert_eval(s.drop_first(), t, w);
        lemma_cie_compose(s, t, w);
    }
}

/// The law that canonicalization is meaning-preserving: under every witness
/// assignment, a term sequence and its canonical form denote the same field
/// value. Together with idempotence this makes canonical forms a sound
/// normal form for linear combinations.
pub proof fn lemma_canonicalize_preserves_eval(s: Seq<Term>, w: Map<i64, nat>)
    ensures
        sum_terms(canon_spec(s), w) % field_modulus() == sum_terms(s, w) % field_modulus(),
    decreases s.len(),
{
    let p = field_modulus();
    if s.len() > 0 {
        lemma_canonicalize_preserves_eval(s.drop_first(), w);
        lemma_canon_insert_eval(canon_spec(s.drop_first()), s[0], w);
        let h = s[0].1.val() * w[s[0].0.id];
        vstd::arithmetic::div_mod::lemma_add_mod_noop(
            h as int,
            sum_terms(canon_spec(s.drop_first()), w) as int,
            p as int,
        );
        vstd::arithmetic::div_mod::lemma_add_mod_noop(
            h as int,
            sum_terms(s.drop_first(), w) as int,
            p as int,
        );
        assert(sum_terms(s, w) == (h + sum_terms(s.drop_first(), w)) as nat);
    }
}

/// Insertion walks past a prefix of strictly smaller ids unchanged.
proof fn lemma_canon_insert_skip(s: Seq<Term>, t: Term, k: int)
    requires
        0 <= k <= s.len(),
        forall|i: int| 0 <= i < k ==> s[i].0.id < t.0.id,
    ensures
        canon_insert(s, t) == s.take(k) + canon_insert(s.skip(k), t),
    decreases k,
{
    if k == 0 {
        assert(s.skip(0) =~= s);
        assert(canon_insert(s, t) =~= s.take(0) + canon_insert(s, t));
    } else {
        assert(s[0].0.id < t.0.id);
        lemma_canon_insert_skip(s.drop_first(), t, k - 1);
        assert(s.drop_first().take(k - 1) =~= s.take(k).drop_first());
        assert(s.drop_first().skip(k - 1) =~= s.skip(k));
        assert(canon_insert(s, t) =~= seq![s[0]] + canon_insert(s.drop_first(), t));
        assert(seq![s[0]] + (s.drop_first().take(k - 1) + canon_insert(s.skip(k), t)) =~= s.take(k)
            + canon_insert(s.skip(k), t));
    }
}

/// Inserts a term into a vector holding a canonical sequence; the result
/// holds exactly `canon_insert` of the input.
fn insert_term(acc: Vec<Term>, t: Term) -> (r: Vec<Term>)
    ensures
        r@ == canon_insert(acc@, t),
{
    let ghost orig = acc@;
    let mut acc = acc;
    let mut k: usize = 0;
    while k < acc.len() && acc[k].0.id < t.0.id
        invariant
            k <= acc@.len(),
            acc@ == orig,
            forall|i: int| 0 <= i < k ==> orig[i].0.id < t.0.id,
        decreases acc@.len() - k,
    {
        k = k + 1;
    }
    proof {
        lemma_canon_insert_skip(orig, t, k as int);
    }
    if k == acc.len() {
        if !t.1.is_zero() {
            acc.push(t);
            proof {
                assert(orig.skip(k as int) =~= Seq::<Term>::empty());
                assert(orig.take(k as int) =~= orig);
                assert(acc@ =~= orig.take(k as int) + canon_insert(orig.skip(k as int), t));
            }
        } else {
            proof {
                assert(orig.skip(k as int) =~= Seq::<Term>::empty());
                assert(orig.take(k as int) =~= orig);
                assert(acc@ =~= orig.take(k as int) + canon_insert(orig.skip(k as int), t));
            }
        }
        acc
    } else if acc[k].0.id == t.0.id {
        let c = t.1.add(&acc[k].1);
        proof {
            assert(orig.skip(k as int)[0] == orig[k as int]);
            if c.val() != 0 {
                lemma_from_nat_val((t.1.val() + orig[k as int].1.val()) % field_modulus());
                lemma_val_injective(
                    c,
                    FieldElem::from_nat((t.1.val() + orig[k as int].1.val()) % field_modulus()),
                );
            }
        }
        if c.is_zero() {
            acc.remove(k);
            proof {
                assert(orig.skip(k as int).drop_first() =~= orig.skip(k as int + 1));
                assert(acc@ =~= orig.take(k as int) + canon_insert(orig.skip(k as int), t));
            }
        } else {
            acc.remove(k);
            acc.insert(k, (t.0, c));
            proof {
                assert((t.0, c) == (orig[k as int].0, c));
                assert(orig.skip(k as int).drop_first() =~= orig.skip(k as int + 1));
                assert(acc@ =~= orig.take(k as int) + canon_insert(orig.skip(k as int), t));
            }
        }
        acc
    } else {
        if !t.1.is_zero() {
            acc.insert(k, t);
            proof {
                assert(canon_insert(orig.skip(k as int), t) =~= seq![t] + orig.skip(k as int));
                assert(acc@ =~= orig.take(k as int) + canon_insert(orig.skip(k as int), t));
            }
        } else {
            proof {
                assert(canon_insert(orig.skip(k as int), t) =~= orig.skip(k as int));
                assert(acc@ =~= orig.take(k as int) + canon_insert(orig.skip(k as int), t));
            }
        }
        acc
    }
}

impl LinComb {
    /// The empty linear combination.
    pub fn zero() -> (r: LinComb)
        ensures
            r@ =~= Seq::<Term>::empty(),
    {
        LinComb(Vec::new())
    }

    /// A single term.
    pub fn summand(coefficient: FieldElem, variable: FlatVariable) -> (r: LinComb)
        ensures
            r@ =~= seq![(variable, coefficient)],
    {
        let mut v: Vec<Term> = Vec::new();
        v.push((variable, coefficient));
        LinComb(v)
    }

    /// Whether the combination has no terms at all.
    pub fn is_zero(&self) -> (r: bool)
        ensures
            r <==> self@.len() == 0,
    {
        self.0.len() == 0
    }

    /// The canonical form: same-variable terms merged, zero coefficients
    /// dropped, variables ascending.
    pub fn reduce(self) -> (r: LinComb)
        ensures
            r@ == canon_spec(self@),
            is_canon(r@),
    {
        let ghost orig = self.0@;
        let mut acc: Vec<Term> = Vec::new();
        let mut i: usize = self.0.len();
        proof {
            assert(orig.skip(i as int) =~= Seq::<Term>::empty());
        }
        while i > 0
            invariant
                i <= orig.len(),
                self.0@ == orig,
                acc@ == canon_spec(orig.skip(i as int)),
            decreases i,
        {
            i = i - 1;
            acc = insert_term(acc, self.0[i]);
            proof {
                assert(orig.skip(i as int).drop_first() =~= orig.skip(i as int + 1));
                assert(orig.skip(i as int)[0] == orig[i as int]);
            }
        }
        proof {
            assert(orig.skip(0) =~= orig);
            lemma_canon_spec_canon(orig);
        }
        LinComb(acc)
    }
}

/// Every term scaled by a field value, coefficient-wise in the field.
#[verifier::opaque]
pub open spec fn scale_terms(s: Seq<Term>, c: nat) -> Seq<Term> {
    s.map_values(|t: Term| (t.0, FieldElem::from_nat((t.1.val() * c) % field_modulus())))
}

/// The constant a sequence denotes, if its canonical form is a constant:
/// zero for the empty form, the `~one` coefficient for a lone `~one` term.
#[verifier::opaque]
pub open spec fn canon_constant(s: Seq<Term>) -> Option<nat> {
    if canon_spec(s).len() == 0 {
        Some(0)
    } else if canon_spec(s).len() == 1 && canon_spec(s)[0].0.id == 0 {
        Some(canon_spec(s)[0].1.val())
    } else {
        None
    }
}

impl LinComb {
    /// A combination made of one variable with coefficient one.
    pub fn from_variable(v: FlatVariable) -> (r: LinComb)
        ensures
            r@ =~= seq![(v, FieldElem::from_nat(1))],
    {
        let one = FieldElem::from_u64(1);
        proof {
            lemma_from_nat_val(1);
            lemma_val_injective(one, FieldElem::from_nat(1));
        }
        LinComb::summand(one, v)
    }

    /// A constant, carried on the `~one` variable.
    pub fn from_constant(c: FieldElem) -> (r: LinComb)
        ensures
            r@ =~= seq![(FlatVariable { id: 0 }, c)],
    {
        LinComb::summand(c, FlatVariable::one())
    }

    /// Concatenates the terms of the two combinations.
    pub fn add(&self, other: &LinComb) -> (r: LinComb)
        ensures
            r@ == self@ + other@,
    {
        let mut v = self.clone().0;
        let mut i: usize = 0;
        while i < other.0.len()
            invariant
                i <= other.0@.len(),
                v@ == self.0@ + other.0@.take(i as int),
            decreases other.0@.len() - i,
        {
            v.push(other.0[i]);
            proof {
                assert(self.0@ + other.0@.take(i + 1) =~= (self.0@ + other.0@.take(i as int)).push(
                    other.0@[i as int],
                ));
            }
            i = i + 1;
        }
        proof {
            assert(other.0@.take(other.0@.len() as int) =~= other.0@);
        }
        LinComb(v)
    }

    /// Every coefficient multiplied by the given field element.
    pub fn scale(&self, c: &FieldElem) -> (r: LinComb)
        ensures
            r@ == scale_terms(self@, c.val()),
    {
        proof {
            reveal(scale_terms);
        }
        let mut v: Vec<Term> = Vec::new();
        let mut i: usize = 0;
        while i < self.0.len()
            invariant
                i <= self.0@.len(),
                v@ == scale_terms(self.0@.take(i as int), c.val()),
            decreases self.0@.len() - i,
        {
            let t = self.0[i];
            let nc = t.1.mul(c);
            proof {
                reveal(scale_terms);
                lemma_from_nat_val((t.1.val() * c.val()) % field_modulus());
                lemma_val_injective(
                    nc,
                    FieldElem::from_nat((t.1.val() * c.val()) % field_modulus()),
                );
                assert(scale_terms(self.0@.take(i + 1), c.val()) =~= scale_terms(
                    self.0@.take(i as int),
                    c.val(),
                ).push((t.0, nc)));
            }
            v.push((t.0, nc));
            i = i + 1;
        }
        proof {
            assert(self.0@.take(self.0@.len() as int) =~= self.0@);
        }
        LinComb(v)
    }

    /// Subtraction: the other side's terms are appended scaled by `-1`.
    pub fn sub(&self, other: &LinComb) -> (r: LinComb)
        ensures
            r@ == self@ + scale_terms(other@, (field_modulus() - 1) as nat),
    {
        let one = FieldElem::from_u64(1);
        let minus_one = one.neg();
        proof {
            vstd::arithmetic::div_mod::lemma_small_mod(
                (field_modulus() - 1) as nat,
                field_modulus(),
            );
        }
        self.add(&other.scale(&minus_one))
    }

    /// The constant the combination reduces to, if its canonical form holds
    /// no variable but `~one`; otherwise the combination itself, unchanged.
    pub fn try_constant(self) -> (r: Result<FieldElem, LinComb>)
        ensures
            match r {
                Ok(c) => canon_constant(self@) == Some(c.val()),
                Err(l) => l@ == self@ && canon_constant(self@) is None,
            },
    {
        proof {
            reveal(canon_constant);
        }
        let red = self.clone().reduce();
        if red.0.len() == 0 {
            Ok(FieldElem::zero())
        } else if red.0.len() == 1 && red.0[0].0.is_one() {
            Ok(red.0[0].1)
        } else {
            Err(self)
        }
    }

    /// The single `(variable, coefficient)` summand the combination reduces
    /// to, provided that variable is not `~one`; otherwise the combination
    /// itself, unchanged.
    pub fn try_summand(self) -> (r: Result<(FlatVariable, FieldElem), LinComb>)
        ensures
            match r {
                Ok(t) => canon_spec(self@).len() == 1 && canon_spec(self@)[0] == t && t.0.id != 0,
                Err(l) => l@ == self@ && !(canon_spec(self@).len() == 1 && canon_spec(
                    self@,
                )[0].0.id != 0),
            },
    {
        let red = self.clone().reduce();
        if red.0.len() == 1 && !red.0[0].0.is_one() {
            Ok(red.0[0])
        } else {
            Err(self)
        }
    }
}

/// A product of two linear combinations: the `A * B` half of an R1CS
/// constraint.
#[derive(Debug, PartialEq)]
pub struct QuadComb {
    pub left: LinComb,
    pub right: LinComb,
}

impl Clone for QuadComb {
    /// Copies both sides; the clone's views equal the original's.
    fn clone(&self) -> (r: Self)
        ensures
            r.left@ == self.left@,
            r.right@ == self.right@,
    {
        QuadComb { left: self.left.clone(), right: self.right.clone() }
    }
}

impl QuadComb {
    /// The product of the two given combinations.
    pub fn from_linear_combinations(left: LinComb, right: LinComb) -> (r: QuadComb)
        ensures
            r.left@ == left@,
            r.right@ == right@,
    {
        QuadComb { left, right }
    }

    /// A linear combination seen as a product: one times the combination.
    pub fn from_lincomb(l: LinComb) -> (r: QuadComb)
        ensures
            r.left@ =~= seq![(FlatVariable { id: 0 }, FieldElem::from_nat(1))],
            r.right@ == l@,
    {
        QuadComb { left: LinComb::from_variable(FlatVariable::one()), right: l }
    }

    /// Both sides brought to canonical form.
    pub fn reduce(self) -> (r: QuadComb)
        ensures
            r.left@ == canon_spec(self.left@),
            r.right@ == canon_spec(self.right@),
    {
        QuadComb { left: self.left.reduce(), right: self.right.reduce() }
    }

    /// If one side reduces to a constant, the other side scaled by it;
    /// otherwise the product, unchanged. The left side is tried first.
    pub fn try_linear(self) -> (r: Result<LinComb, QuadComb>)
        ensures
            match r {
                Ok(l) => {
                    ||| (canon_constant(self.left@) matches Some(c) && l@ == scale_terms(
                        self.right@,
                        c,
                    ))
                    ||| (canon_constant(self.left@) is None && (canon_constant(self.right@)
                        matches Some(c) && l@ == scale_terms(self.left@, c)))
                },
                Err(q) => q.left@ == self.left@ && q.right@ == self.right@ && canon_constant(
                    self.left@,
                ) is None && canon_constant(self.right@) is None,
            },
    {
        let QuadComb { left, right } = self;
        match left.clone().try_constant() {
            Ok(c) => Ok(right.scale(&c)),
            Err(_) => match right.clone().try_constant() {
                Ok(c) => Ok(left.scale(&c)),
                Err(_) => Err(QuadComb { left, right }),
            },
        }
    }
}

/// A non-deterministic assignment: at proving time the solver runs on the
/// evaluated inputs and the results are bound to the output variables.
#[derive(Clone, Debug, PartialEq)]
pub struct Directive {
    pub inputs: Vec<QuadComb>,
    pub outputs: Vec<FlatVariable>,
    pub solver: Solver,
}

/// A statement of an IR program.
#[derive(Clone, Debug, PartialEq)]
pub enum Statement {
    /// Asserts `quad = lin`: the R1CS form `A * B = C`, with an optional
    /// message shown when the constraint fails at proving time.
    Constraint(QuadComb, LinComb, Option<String>),
    /// Binds solver results to witness variables without constraining them.
    Directive(Directive),
}

impl Statement {
    /// The constraint `quad = lin` with no message.
    pub fn constraint(quad: QuadComb, lin: LinComb) -> (r: Statement)
        ensures
            r == Statement::Constraint(quad, lin, Option::<String>::None),
    {
        Statement::Constraint(quad, lin, Option::None)
    }

    /// The defining constraint `e = 1 * v`.
    pub fn definition(v: FlatVariable, e: QuadComb) -> (r: Statement)
        ensures
            (r matches Statement::Constraint(q, l, m) && q == e && l@ =~= seq![
                (v, FieldElem::from_nat(1)),
            ] && m is None),
    {
        Statement::Constraint(e, LinComb::from_variable(v), Option::None)
    }
}

/// A main function: arguments, statements over them, and the variables that
/// carry its return values.
#[derive(Clone, Debug, PartialEq)]
pub struct Function {
    pub arguments: Vec<FlatParameter>,
    pub statements: Vec<Statement>,
    pub return_vars: Vec<FlatVariable>,
}

/// A whole IR program: the main function, with each argument's privacy
/// recorded for the proof-system setup.
#[derive(Clone, Debug, PartialEq)]
pub struct Prog {
    pub main: Function,
    pub private_flags: Vec<bool>,
}

impl Prog {
    /// Wraps a function, reading each argument's privacy off its parameters.
    pub fn new(main: Function) -> (r: Prog)
        ensures
            r.main == main,
            r.private_flags@.len() == main.arguments@.len(),
            forall|i: int|
                0 <= i < main.arguments@.len() ==> r.private_flags@[i] == main.arguments@[i].private,
    {
        let mut flags: Vec<bool> = Vec::new();
        let mut i: usize = 0;
        while i < main.arguments.len()
            invariant
                i <= main.arguments@.len(),
                flags@.len() == i,
                forall|k: int| 0 <= k < i ==> flags@[k] == main.arguments@[k].private,
            decreases main.arguments@.len() - i,
        {
            flags.push(main.arguments[i].private);
            i = i + 1;
        }
        Prog { main, private_flags: flags }
    }
}

/// Why a flat function could not be lowered to the IR. Both malformations
/// are internal invariant violations: the flattener and the gadget
/// synthesizers never emit them.
#[derive(Clone, Copy, Debug, PartialEq, Eq, Structural)]
pub enum LowerError {
    /// An expression in linear position holds a product of two non-constants.
    NonLinear,
    /// The function's statements do not end in exactly one return.
    MissingReturn,
}

/// The terms a linear flat expression lowers to, in left-to-right order.
pub open spec fn lin_terms_spec(e: FlatExpression) -> Seq<Term>
    decreases e,
{
    match e {
        FlatExpression::Number(c) => seq![(FlatVariable { id: 0 }, c)],
        FlatExpression::Identifier(v) => seq![(v, FieldElem::from_nat(1))],
        FlatExpression::Add(a, b) => lin_terms_spec(*a) + lin_terms_spec(*b),
        FlatExpression::Sub(a, b) => lin_terms_spec(*a) + scale_terms(
            lin_terms_spec(*b),
            (field_modulus() - 1) as nat,
        ),
        FlatExpression::Mult(a, b) => match *a {
            FlatExpression::Number(c) => scale_terms(lin_terms_spec(*b), c.val()),
            _ => match *b {
                FlatExpression::Number(c) => scale_terms(lin_terms_spec(*a), c.val()),
                _ => Seq::<Term>::empty(),
            },
        },
    }
}

/// Whether an expression can stand as the product side of a constraint:
/// either a product of two linear expressions, or itself linear.
pub open spec fn quad_shaped(e: FlatExpression) -> bool {
    match e {
        FlatExpression::Mult(a, b) => a.is_linear_spec() && b.is_linear_spec(),
        _ => e.is_linear_spec(),
    }
}

/// What the two sides of a lowered product hold for a given expression.
pub open spec fn quad_lowered(e: FlatExpression, left: Seq<Term>, right: Seq<Term>) -> bool {
    match e {
        FlatExpression::Mult(a, b) => left == lin_terms_spec(*a) && right == lin_terms_spec(*b),
        _ => left == seq![(FlatVariable { id: 0 }, FieldElem::from_nat(1))] && right
            == lin_terms_spec(e),
    }
}

/// Lowers a linear flat expression to its terms.
pub fn lincomb_from_flat(e: &FlatExpression) -> (r: Result<LinComb, LowerError>)
    ensures
        r is Ok <==> e.is_linear_spec(),
        (r matches Ok(l) ==> l@ == lin_terms_spec(*e)),
        (r matches Err(err) ==> err == LowerError::NonLinear),
    decreases *e,
{
    match e {
        FlatExpression::Number(c) => Ok(LinComb::from_constant(*c)),
        FlatExpression::Identifier(v) => Ok(LinComb::from_variable(*v)),
        FlatExpression::Add(a, b) => match lincomb_from_flat(a) {
            Ok(la) => match lincomb_from_flat(b) {
                Ok(lb) => Ok(la.add(&lb)),
                Err(err) => Err(err),
            },
            Err(err) => Err(err),
        },
        FlatExpression::Sub(a, b) => match lincomb_from_flat(a) {
            Ok(la) => match lincomb_from_flat(b) {
                Ok(lb) => Ok(la.sub(&lb)),
                Err(err) => Err(err),
            },
            Err(err) => Err(err),
        },
        FlatExpression::Mult(a, b) => match &**a {
            FlatExpression::Number(c) => match lincomb_from_flat(b) {
                Ok(lb) => Ok(lb.scale(c)),
                Err(err) => Err(err),
            },
            _ => match &**b {
                FlatExpression::Number(c) => match lincomb_from_flat(a) {
                    Ok(la) => Ok(la.scale(c)),
                    Err(err) => Err(err),
                },
                _ => Err(LowerError::NonLinear),
            },
        },
    }
}

/// Lowers an expression to a product of two linear combinations: a product
/// node becomes its two sides, anything else is wrapped as one times itself.
pub fn quadcomb_from_flat(e: &FlatExpression) -> (r: Result<QuadComb, LowerError>)
    ensures
        r is Ok <==> quad_shaped(*e),
        (r matches Ok(q) ==> quad_lowered(*e, q.left@, q.right@)),
        (r matches Err(err) ==> err == LowerError::NonLinear),
{
    match e {
        FlatExpression::Mult(a, b) => match lincomb_from_flat(a) {
            Ok(la) => match lincomb_from_flat(b) {
                Ok(lb) => Ok(QuadComb::from_linear_combinations(la, lb)),
                Err(err) => Err(err),
            },
            Err(err) => Err(err),
        },
        _ => match lincomb_from_flat(e) {
            Ok(l) => Ok(QuadComb::from_lincomb(l)),
            Err(err) => Err(err),
        },
    }
}

/// Whether the statements end in exactly one return, standing last.
pub open spec fn ends_in_one_return(ss: Seq<FlatStatement>) -> bool {
    &&& ss.len() > 0
    &&& ss[ss.len() - 1] is Return
    &&& forall|i: int| 0 <= i < ss.len() - 1 ==> !((#[trigger] ss[i]) is Return)
}

/// Whether one non-return flat statement can be lowered.
pub open spec fn stmt_lowerable(s: FlatStatement) -> bool {
    match s {
        FlatStatement::Condition(a, b) => a.is_linear_spec() && quad_shaped(b),
        FlatStatement::Directive(d) => forall|i: int|
            0 <= i < d.inputs@.len() ==> quad_shaped(#[trigger] d.inputs@[i]),
        FlatStatement::Return(_) => true,
    }
}

/// The expressions of the function's final return statement.
pub open spec fn ret_exprs(f: FlatFunction) -> Seq<FlatExpression> {
    match f.statements@[f.statements@.len() - 1] {
        FlatStatement::Return(l) => l.expressions@,
        _ => Seq::<FlatExpression>::empty(),
    }
}

/// Whether a whole flat function can be lowered: well-shaped statements and
/// one final return whose expressions are well-shaped too.
pub open spec fn function_lowerable(f: FlatFunction) -> bool {
    &&& ends_in_one_return(f.statements@)
    &&& forall|i: int|
        0 <= i < f.statements@.len() ==> stmt_lowerable(#[trigger] f.statements@[i])
    &&& forall|j: int| 0 <= j < ret_exprs(f).len() ==> quad_shaped(#[trigger] ret_exprs(f)[j])
    &&& ret_exprs(f).len() < 0x7fffffffffffffff
}

/// How one non-return flat statement lowers to an IR statement: conditions
/// become constraints with the linear side canonicalized, directives keep
/// their outputs and solver with each input lowered to a product.
pub open spec fn stmt_lowered(fs: FlatStatement, s: Statement) -> bool {
    match fs {
        FlatStatement::Condition(a, b) => (s matches Statement::Constraint(q, l, m) && quad_lowered(
            b,
            q.left@,
            q.right@,
        ) && l@ == canon_spec(lin_terms_spec(a)) && m is None),
        FlatStatement::Directive(d) => (s matches Statement::Directive(d2) && d2.outputs@
            == d.outputs@ && d2.solver == d.solver && d2.inputs@.len() == d.inputs@.len() && forall|
            k: int,
        |
            0 <= k < d.inputs@.len() ==> quad_lowered(
                #[trigger] d.inputs@[k],
                d2.inputs@[k].left@,
                d2.inputs@[k].right@,
            )),
        FlatStatement::Return(_) => false,
    }
}

/// Everything the lowering promises of its result: the arguments carried
/// over, every non-return statement lowered in place, one defining
/// constraint per return expression binding it to a public output variable,
/// those variables as the returns, and every constraint's linear side
/// canonical.
pub open spec fn function_lowered(f: FlatFunction, func: Function) -> bool {
    &&& func.arguments@ == f.arguments@
    &&& func.statements@.len() == f.statements@.len() - 1 + ret_exprs(f).len()
    &&& forall|i: int|
        0 <= i < f.statements@.len() - 1 ==> stmt_lowered(
            #[trigger] f.statements@[i],
            func.statements@[i],
        )
    &&& forall|j: int|
        0 <= j < ret_exprs(f).len() ==> (#[trigger] func.statements@[f.statements@.len() - 1 + j]
            matches Statement::Constraint(q, l, m) && quad_lowered(
            ret_exprs(f)[j],
            q.left@,
            q.right@,
        ) && l@ =~= seq![(FlatVariable { id: (-1 - j) as i64 }, FieldElem::from_nat(1))]
            && m is None)
    &&& func.return_vars@.len() == ret_exprs(f).len()
    &&& forall|j: int|
        0 <= j < func.return_vars@.len() ==> (#[trigger] func.return_vars@[j]).id == -1 - j
    &&& forall|i: int|
        0 <= i < func.statements@.len() ==> ((#[trigger] func.statements@[i])
            matches Statement::Constraint(_q, l, _m) ==> is_canon(l@))
}

impl Function {
    /// Lowers a flat function into IR form.
    ///
    /// Each non-return statement is lowered in order. Then each expression
    /// of the final return is bound to a fresh public output variable by a
    /// defining constraint, and those variables are the function's return_vars.
    /// Every produced constraint has a canonical linear side.
    pub fn from_flat(f: &FlatFunction) -> (r: Result<Function, LowerError>)
        ensures
            (r is Ok) == function_lowerable(*f),
            (r matches Ok(func) ==> function_lowered(*f, func)),
    {
        let n = f.statements.len();
        if n == 0 {
            return Err(LowerError::MissingReturn);
        }
        let mut stmts: Vec<Statement> = Vec::new();
        let mut i: usize = 0;
        while i < n - 1
            invariant
                n == f.statements@.len(),
                n > 0,
                i <= n - 1,
                stmts@.len() == i,
                forall|k: int|
                    0 <= k < i ==> stmt_lowerable(#[trigger] f.statements@[k]) && !(f.statements@[k]
                        is Return),
                forall|k: int|
                    0 <= k < i ==> stmt_lowered(#[trigger] f.statements@[k], stmts@[k]),
                forall|k: int|
                    0 <= k < i ==> ((#[trigger] stmts@[k]) matches Statement::Constraint(
                        _q,
                        l,
                        _m,
                    ) ==> is_canon(l@)),
            decreases n - 1 - i,
        {
            match &f.statements[i] {
                FlatStatement::Condition(a, b) => {
                    let lin = match lincomb_from_flat(a) {
                        Ok(l) => l,
                        Err(e) => {
                            proof {
                                assert(!stmt_lowerable(f.statements@[i as int]));
                            }
                            return Err(e);
                        },
                    };
                    let quad = match quadcomb_from_flat(b) {
                        Ok(q) => q,
                        Err(e) => {
                            proof {
                                assert(!stmt_lowerable(f.statements@[i as int]));
                            }
                            return Err(e);
                        },
                    };
                    stmts.push(Statement::Constraint(quad, lin.reduce(), Option::None));
                },
                FlatStatement::Directive(d) => {
                    let mut inputs: Vec<QuadComb> = Vec::new();
                    let mut k: usize = 0;
                    while k < d.inputs.len()
                        invariant
                            n == f.statements@.len(),
                            i < n - 1,
                            f.statements@[i as int] == FlatStatement::Directive(*d),
                            k <= d.inputs@.len(),
                            inputs@.len() == k,
                            forall|c: int| 0 <= c < k ==> quad_shaped(#[trigger] d.inputs@[c]),
                            forall|c: int|
                                0 <= c < k ==> quad_lowered(
                                    #[trigger] d.inputs@[c],
                                    inputs@[c].left@,
                                    inputs@[c].right@,
                                ),
                        decreases d.inputs@.len() - k,
                    {
                        match quadcomb_from_flat(&d.inputs[k]) {
                            Ok(q) => inputs.push(q),
                            Err(e) => {
                                proof {
                                    assert(!stmt_lowerable(f.statements@[i as int]));
                                }
                                return Err(e);
                            },
                        }
                        k = k + 1;
                    }
                    let mut outputs: Vec<FlatVariable> = Vec::new();
                    let mut k2: usize = 0;
                    while k2 < d.outputs.len()
                        invariant
                            k2 <= d.outputs@.len(),
                            outputs@ == d.outputs@.take(k2 as int),
                        decreases d.outputs@.len() - k2,
                    {
                        outputs.push(d.outputs[k2]);
                        proof {
                            assert(outputs@ =~= d.outputs@.take(k2 + 1));
                        }
                        k2 = k2 + 1;
                    }
                    proof {
                        assert(d.outputs@.take(d.outputs@.len() as int) =~= d.outputs@);
                    }
                    stmts.push(
                        Statement::Directive(Directive { inputs, outputs, solver: d.solver }),
                    );
                },
                FlatStatement::Return(_) => {
                    return Err(LowerError::MissingReturn);
                },
            }
            i = i + 1;
        }
        let exprs = match &f.statements[n - 1] {
            FlatStatement::Return(l) => &l.expressions,
            _ => {
                return Err(LowerError::MissingReturn);
            },
        };
        if (exprs.len() as u64) >= 0x7fffffffffffffffu64 {
            return Err(LowerError::MissingReturn);
        }
        let mut return_vars: Vec<FlatVariable> = Vec::new();
        let mut j: usize = 0;
        while j < exprs.len()
            invariant
                n == f.statements@.len(),
                n > 0,
                f.statements@[n - 1] matches FlatStatement::Return(l) && l.expressions@ == exprs@,
                exprs@ == ret_exprs(*f),
                exprs@.len() < 0x7fffffffffffffff,
                j <= exprs@.len(),
                stmts@.len() == n - 1 + j,
                return_vars@.len() == j,
                forall|k: int|
                    0 <= k < n - 1 ==> stmt_lowerable(#[trigger] f.statements@[k]) && !(
                    f.statements@[k] is Return),
                forall|k: int|
                    0 <= k < n - 1 ==> stmt_lowered(#[trigger] f.statements@[k], stmts@[k]),
                forall|c: int| 0 <= c < j ==> quad_shaped(#[trigger] exprs@[c]),
                forall|c: int|
                    0 <= c < j ==> (#[trigger] stmts@[n - 1 + c] matches Statement::Constraint(
                        q,
                        l,
                        m,
                    ) && quad_lowered(exprs@[c], q.left@, q.right@) && l@ =~= seq![
                        (FlatVariable { id: (-1 - c) as i64 }, FieldElem::from_nat(1)),
                    ] && m is None),
                forall|c: int| 0 <= c < j ==> (#[trigger] return_vars@[c]).id == -1 - c,
                forall|k: int|
                    0 <= k < stmts@.len() ==> ((#[trigger] stmts@[k]) matches Statement::Constraint(
                        _q,
                        l,
                        _m,
                    ) ==> is_canon(l@)),
            decreases exprs@.len() - j,
        {
            let quad = match quadcomb_from_flat(&exprs[j]) {
                Ok(q) => q,
                Err(e) => {
                    proof {
                        assert(!quad_shaped(ret_exprs(*f)[j as int]));
                    }
                    return Err(e);
                },
            };
            let out = FlatVariable::public(j);
            proof {
                crate::field::lemma_from_nat_val(1);
            }
            stmts.push(Statement::Constraint(quad, LinComb::from_variable(out), Option::None));
            return_vars.push(out);
            j = j + 1;
        }
        let mut arguments: Vec<FlatParameter> = Vec::new();
        let mut a: usize = 0;
        while a < f.arguments.len()
            invariant
                a <= f.arguments@.len(),
                arguments@ == f.arguments@.take(a as int),
            decreases f.arguments@.len() - a,
        {
            arguments.push(f.arguments[a]);
            proof {
                assert(arguments@ =~= f.arguments@.take(a + 1));
            }
            a = a + 1;
        }
        proof {
            assert(f.arguments@.take(f.arguments@.len() as int) =~= f.arguments@);
        }
        Ok(Function { arguments, statements: stmts, return_vars })
    }
}

} // verus!
