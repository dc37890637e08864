//! Arithmetic in the scalar prime field of the BN128 curve.
//!
//! A field element is held as eight 32-bit limbs, least significant first,
//! so that its mathematical value is recovered by the spec function `val`.
//! The modular operations are delegated to the `num-bigint` crate through
//! trusted wrappers whose contracts state the result's value exactly.

use vstd::prelude::*;
use vstd::arithmetic::div_mod::{
    lemma_fundamental_div_mod, lemma_fundamental_div_mod_converse, lemma_mod_bound,
    lemma_small_mod,
};
use vstd::arithmetic::power2::{
    lemma2_to64, lemma2_to64_rest, lemma_pow2_adds, lemma_pow2_strictly_increases, pow2,
};
use num_bigint::BigUint;

verus! {

/// The prime modulus: the order of the BN128 G1 group, about 2^254.
pub open spec fn field_modulus() -> nat {
    21888242871839275222246405745257275088548364400416034343698204186575808495617nat
}

/// An element of the prime field, as eight base-2^32 limbs, least
/// significant first. A well-formed element's value is below the modulus.
#[derive(Clone, Copy, Debug, PartialEq, Eq, Structural, Hash)]
pub struct FieldElem {
    pub w0: u32,
    pub w1: u32,
    pub w2: u32,
    pub w3: u32,
    pub w4: u32,
    pub w5: u32,
    pub w6: u32,
    pub w7: u32,
}

impl FieldElem {
    /// The mathematical value of the limbs.
    pub open spec fn val(self) -> nat {
        (self.w0 as nat) + (self.w1 as nat) * 0x100000000nat + (self.w2 as nat)
            * 0x10000000000000000nat + (self.w3 as nat) * 0x1000000000000000000000000nat + (
        self.w4 as nat) * 0x100000000000000000000000000000000nat + (self.w5 as nat)
            * 0x10000000000000000000000000000000000000000nat + (self.w6 as nat)
            * 0x1000000000000000000000000000000000000000000000000nat + (self.w7 as nat)
            * 0x100000000000000000000000000000000000000000000000000000000nat
    }

    /// A well-formed element is reduced below the modulus.
    pub open spec fn wf(self) -> bool {
        self.val() < field_modulus()
    }

    /// The unique limb encoding of a value below 2^256.
    #[verifier::opaque]
    pub open spec fn from_nat(n: nat) -> FieldElem {
        FieldElem {
            w0: (n % 0x100000000nat) as u32,
            w1: ((n / 0x100000000nat) % 0x100000000nat) as u32,
            w2: ((n / 0x10000000000000000nat) % 0x100000000nat) as u32,
            w3: ((n / 0x1000000000000000000000000nat) % 0x100000000nat) as u32,
            w4: ((n / 0x100000000000000000000000000000000nat) % 0x100000000nat) as u32,
            w5: ((n / 0x10000000000000000000000000000000000000000nat) % 0x100000000nat) as u32,
            w6: ((n / 0x1000000000000000000000000000000000000000000000000nat) % 0x100000000nat)
                as u32,
            w7: ((n / 0x100000000000000000000000000000000000000000000000000000000nat)
                % 0x100000000nat) as u32,
        }
    }
}

/// Each limb of an element is the corresponding base-2^32 digit of its value.
pub proof fn lemma_val_parts(a: FieldElem)
    ensures
        a.w0 == a.val() % 0x100000000nat,
        a.w1 == (a.val() / 0x100000000nat) % 0x100000000nat,
        a.w2 == (a.val() / 0x10000000000000000nat) % 0x100000000nat,
        a.w3 == (a.val() / 0x1000000000000000000000000nat) % 0x100000000nat,
        a.w4 == (a.val() / 0x100000000000000000000000000000000nat) % 0x100000000nat,
        a.w5 == (a.val() / 0x10000000000000000000000000000000000000000nat) % 0x100000000nat,
        a.w6 == (a.val() / 0x1000000000000000000000000000000000000000000000000nat) % 0x100000000nat,
        a.w7 == (a.val() / 0x100000000000000000000000000000000000000000000000000000000nat)
            % 0x100000000nat,
        a.val() < 0x10000000000000000000000000000000000000000000000000000000000000000nat,
{
    let b: int = 0x100000000int;
    let v = a.val() as int;
    lemma_fundamental_div_mod_converse(
        v,
        b,
        a.w1 + a.w2 * 0x100000000int + a.w3 * 0x10000000000000000int + a.w4 * 0x1000000000000000000000000int
            + a.w5 * 0x100000000000000000000000000000000int
            + a.w6 * 0x10000000000000000000000000000000000000000int
            + a.w7 * 0x1000000000000000000000000000000000000000000000000int,
        a.w0 as int,
    );
    lemma_fundamental_div_mod_converse(
        v / b,
        b,
        a.w2 + a.w3 * 0x100000000int + a.w4 * 0x10000000000000000int + a.w5 * 0x1000000000000000000000000int
            + a.w6 * 0x100000000000000000000000000000000int
            + a.w7 * 0x10000000000000000000000000000000000000000int,
        a.w1 as int,
    );
    lemma_fundamental_div_mod_converse(
        v / b / b,
        b,
        a.w3 + a.w4 * 0x100000000int + a.w5 * 0x10000000000000000int + a.w6 * 0x1000000000000000000000000int
            + a.w7 * 0x100000000000000000000000000000000int,
        a.w2 as int,
    );
    lemma_fundamental_div_mod_converse(
        v / b / b / b,
        b,
        a.w4 + a.w5 * 0x100000000int + a.w6 * 0x10000000000000000int
            + a.w7 * 0x1000000000000000000000000int,
        a.w3 as int,
    );
    lemma_fundamental_div_mod_converse(
        v / b / b / b / b,
        b,
        a.w5 + a.w6 * 0x100000000int + a.w7 * 0x10000000000000000int,
        a.w4 as int,
    );
    lemma_fundamental_div_mod_converse(
        v / b / b / b / b / b,
        b,
        a.w6 + a.w7 * 0x100000000int,
        a.w5 as int,
    );
    lemma_fundamental_div_mod_converse(v / b / b / b / b / b / b, b, a.w7 as int, a.w6 as int);
    lemma_fundamental_div_mod_converse(v / b / b / b / b / b / b / b, b, 0, a.w7 as int);
    assert(v / b / b == v / 0x10000000000000000int) by {
        vstd::arithmetic::div_mod::lemma_div_denominator(v, b, b);
    }
    assert(v / 0x10000000000000000int / b == v / 0x1000000000000000000000000int) by {
        vstd::arithmetic::div_mod::lemma_div_denominator(v, 0x10000000000000000int, b);
    }
    assert(v / 0x1000000000000000000000000int / b == v / 0x100000000000000000000000000000000int) by {
        vstd::arithmetic::div_mod::lemma_div_denominator(v, 0x1000000000000000000000000int, b);
    }
    assert(v / 0x100000000000000000000000000000000int / b == v
        / 0x10000000000000000000000000000000000000000int) by {
        vstd::arithmetic::div_mod::lemma_div_denominator(
            v,
            0x100000000000000000000000000000000int,
            b,
        );
    }
    assert(v / 0x10000000000000000000000000000000000000000int / b == v
        / 0x1000000000000000000000000000000000000000000000000int) by {
        vstd::arithmetic::div_mod::lemma_div_denominator(
            v,
            0x10000000000000000000000000000000000000000int,
            b,
        );
    }
    assert(v / 0x1000000000000000000000000000000000000000000000000int / b == v
        / 0x100000000000000000000000000000000000000000000000000000000int) by {
        vstd::arithmetic::div_mod::lemma_div_denominator(
            v,
            0x1000000000000000000000000000000000000000000000000int,
            b,
        );
    }
}

/// The limb encoding is injective: equal values mean equal limbs.
pub proof fn lemma_val_injective(a: FieldElem, b: FieldElem)
    requires
        a.val() == b.val(),
    ensures
        a == b,
{
    lemma_val_parts(a);
    lemma_val_parts(b);
}

/// `from_nat` inverts `val` on values below 2^256.
#[verifier::rlimit(100)]
pub proof fn lemma_from_nat_val(n: nat)
    requires
        n < 0x10000000000000000000000000000000000000000000000000000000000000000nat,
    ensures
        FieldElem::from_nat(n).val() == n,
        FieldElem::from_nat(FieldElem::from_nat(n).val()) == FieldElem::from_nat(n),
{
    reveal(FieldElem::from_nat);
    let b: nat = 0x100000000nat;
    let f = FieldElem::from_nat(n);
    lemma_mod_bound(n as int, b as int);
    lemma_mod_bound((n / b) as int, b as int);
    lemma_mod_bound((n / b / b) as int, b as int);
    lemma_mod_bound((n / b / b / b) as int, b as int);
    lemma_mod_bound((n / b / b / b / b) as int, b as int);
    lemma_mod_bound((n / b / b / b / b / b) as int, b as int);
    lemma_mod_bound((n / b / b / b / b / b / b) as int, b as int);
    lemma_fundamental_div_mod(n as int, b as int);
    lemma_fundamental_div_mod((n / b) as int, b as int);
    lemma_fundamental_div_mod((n / b / b) as int, b as int);
    lemma_fundamental_div_mod((n / b / b / b) as int, b as int);
    lemma_fundamental_div_mod((n / b / b / b / b) as int, b as int);
    lemma_fundamental_div_mod((n / b / b / b / b / b) as int, b as int);
    lemma_fundamental_div_mod((n / b / b / b / b / b / b) as int, b as int);
    assert(n / b / b / b / b / b / b / b
        < b) by {
        vstd::arithmetic::div_mod::lemma_div_denominator(n as int, b as int, b as int);
        vstd::arithmetic::div_mod::lemma_div_denominator(n as int, (b * b) as int, b as int);
        vstd::arithmetic::div_mod::lemma_div_denominator(n as int, (b * b * b) as int, b as int);
        vstd::arithmetic::div_mod::lemma_div_denominator(
            n as int,
            (b * b * b * b) as int,
            b as int,
        );
        vstd::arithmetic::div_mod::lemma_div_denominator(
            n as int,
            (b * b * b * b * b) as int,
            b as int,
        );
        vstd::arithmetic::div_mod::lemma_div_denominator(
            n as int,
            (b * b * b * b * b * b) as int,
            b as int,
        );
        vstd::arithmetic::div_mod::lemma_multiply_divide_lt(
            n as int,
            (b * b * b * b * b * b * b) as int,
            b as int,
        );
    }
    lemma_small_mod(n / b / b / b / b / b / b / b, b);
    lemma_val_parts(f);
    lemma_val_injective(FieldElem::from_nat(f.val()), f);
}

/// The value of eight base-2^32 limbs, least significant first.
pub open spec fn limbs_val(s: Seq<u32>) -> nat {
    (s[0] as nat) + (s[1] as nat) * 0x100000000nat + (s[2] as nat) * 0x10000000000000000nat + (
    s[3] as nat) * 0x1000000000000000000000000nat + (s[4] as nat)
        * 0x100000000000000000000000000000000nat + (s[5] as nat)
        * 0x10000000000000000000000000000000000000000nat + (s[6] as nat)
        * 0x1000000000000000000000000000000000000000000000000nat + (s[7] as nat)
        * 0x100000000000000000000000000000000000000000000000000000000nat
}

/// An element's limbs as a vector, value preserved.
fn to_limbs(x: &FieldElem) -> (r: Vec<u32>)
    ensures
        r@.len() == 8,
        limbs_val(r@) == x.val(),
{
    let mut v: Vec<u32> = Vec::new();
    v.push(x.w0);
    v.push(x.w1);
    v.push(x.w2);
    v.push(x.w3);
    v.push(x.w4);
    v.push(x.w5);
    v.push(x.w6);
    v.push(x.w7);
    v
}

/// An element built back from its limbs.
fn from_limbs(v: &Vec<u32>) -> (r: FieldElem)
    requires
        v@.len() == 8,
    ensures
        r.val() == limbs_val(v@),
{
    FieldElem {
        w0: v[0],
        w1: v[1],
        w2: v[2],
        w3: v[3],
        w4: v[4],
        w5: v[5],
        w6: v[6],
        w7: v[7],
    }
}

/// Relies on `num_bigint::BigUint`: `from_slice` reads base-2^32 digits least
/// significant first, `+` and `%` are exact natural-number operations, and
/// `to_u32_digits` writes the digits back, least significant first, without
/// trailing zeros.
#[verifier::external_body]
fn add_mod_raw(a: &Vec<u32>, b: &Vec<u32>, m: &Vec<u32>) -> (r: Vec<u32>)
    requires
        a@.len() == 8,
        b@.len() == 8,
        m@.len() == 8,
        limbs_val(m@) > 0,
    ensures
        r@.len() == 8,
        limbs_val(r@) == (limbs_val(a@) + limbs_val(b@)) % limbs_val(m@),
{
    let s = (BigUint::from_slice(a) + BigUint::from_slice(b)) % BigUint::from_slice(m);
    let mut d = s.to_u32_digits();
    d.resize(8, 0);
    d
}

/// Relies on `num_bigint::BigUint`: as `add_mod_raw`, with `*` the exact
/// natural-number product.
#[verifier::external_body]
fn mul_mod_raw(a: &Vec<u32>, b: &Vec<u32>, m: &Vec<u32>) -> (r: Vec<u32>)
    requires
        a@.len() == 8,
        b@.len() == 8,
        m@.len() == 8,
        limbs_val(m@) > 0,
    ensures
        r@.len() == 8,
        limbs_val(r@) == (limbs_val(a@) * limbs_val(b@)) % limbs_val(m@),
{
    let s = (BigUint::from_slice(a) * BigUint::from_slice(b)) % BigUint::from_slice(m);
    let mut d = s.to_u32_digits();
    d.resize(8, 0);
    d
}

/// Relies on `num_bigint::BigUint`: as `add_mod_raw`, with `-` the exact
/// difference, defined here because `a + m >= b` under the precondition.
#[verifier::external_body]
fn sub_mod_raw(a: &Vec<u32>, b: &Vec<u32>, m: &Vec<u32>) -> (r: Vec<u32>)
    requires
        a@.len() == 8,
        b@.len() == 8,
        m@.len() == 8,
        limbs_val(m@) > 0,
        limbs_val(b@) <= limbs_val(m@),
    ensures
        r@.len() == 8,
        limbs_val(r@) == (limbs_val(a@) + limbs_val(m@) - limbs_val(b@)) % (limbs_val(m@) as int),
{
    let bm = BigUint::from_slice(m);
    let s = ((BigUint::from_slice(a) + &bm) - BigUint::from_slice(b)) % &bm;
    let mut d = s.to_u32_digits();
    d.resize(8, 0);
    d
}

/// Relies on `num_bigint::BigUint`'s numeric ordering: `<` compares the
/// values the limbs denote.
#[verifier::external_body]
pub fn fe_lt(a: &FieldElem, b: &FieldElem) -> (r: bool)
    ensures
        r == (a.val() < b.val()),
{
    let ba = BigUint::from_slice(&[a.w0, a.w1, a.w2, a.w3, a.w4, a.w5, a.w6, a.w7]);
    let bb = BigUint::from_slice(&[b.w0, b.w1, b.w2, b.w3, b.w4, b.w5, b.w6, b.w7]);
    ba < bb
}

/// Relies on `num_bigint::BigUint::modinv`: when it returns `Some(x)`, then
/// `x < m` and `self * x = 1 (mod m)`; it returns `None` exactly when
/// `gcd(self, m) != 1`. The `None` clause below additionally relies on the
/// modulus being the field's prime: for a prime `m`, `gcd(a, m) != 1` holds
/// exactly when `m` divides `a`, so the precondition pins `m` to it.
#[verifier::external_body]
fn inv_mod_raw(a: &FieldElem, m: &FieldElem) -> (r: Option<FieldElem>)
    requires
        m.val() == field_modulus(),
    ensures
        match r {
            Some(x) => x.val() < m.val() && (a.val() * x.val()) % m.val() == 1,
            None => a.val() % m.val() == 0,
        },
{
    let ba = BigUint::from_slice(&[a.w0, a.w1, a.w2, a.w3, a.w4, a.w5, a.w6, a.w7]);
    let bm = BigUint::from_slice(&[m.w0, m.w1, m.w2, m.w3, m.w4, m.w5, m.w6, m.w7]);
    let x = ba.modinv(&bm)?;
    let mut d = x.to_u32_digits();
    d.resize(8, 0);
    Some(FieldElem { w0: d[0], w1: d[1], w2: d[2], w3: d[3], w4: d[4], w5: d[5], w6: d[6], w7: d[7] })
}

impl FieldElem {
    /// The modulus itself as limbs; its value is the field's prime.
    pub fn modulus() -> (r: FieldElem)
        ensures
            r.val() == field_modulus(),
    {
        FieldElem {
            w0: 0xf0000001,
            w1: 0x43e1f593,
            w2: 0x79b97091,
            w3: 0x2833e848,
            w4: 0x8181585d,
            w5: 0xb85045b6,
            w6: 0xe131a029,
            w7: 0x30644e72,
        }
    }

    /// The zero element.
    pub fn zero() -> (r: FieldElem)
        ensures
            r.val() == 0,
            r.wf(),
    {
        FieldElem { w0: 0, w1: 0, w2: 0, w3: 0, w4: 0, w5: 0, w6: 0, w7: 0 }
    }

    /// Embeds a machine integer in the field; machine integers are below the
    /// modulus, so the value is preserved.
    pub fn from_u64(x: u64) -> (r: FieldElem)
        ensures
            r.val() == x,
            r.wf(),
    {
        proof {
            assert(x & 0xffffffff < 0x100000000 && x >> 32 < 0x100000000 && (x & 0xffffffff) + (x
                >> 32) * 0x100000000 == x) by (bit_vector);
        }
        FieldElem {
            w0: (x & 0xffffffff) as u32,
            w1: (x >> 32) as u32,
            w2: 0,
            w3: 0,
            w4: 0,
            w5: 0,
            w6: 0,
            w7: 0,
        }
    }

    /// Whether the element is zero, decided on the limbs.
    pub fn is_zero(&self) -> (r: bool)
        ensures
            r <==> self.val() == 0,
    {
        self.w0 == 0 && self.w1 == 0 && self.w2 == 0 && self.w3 == 0 && self.w4 == 0 && self.w5
            == 0 && self.w6 == 0 && self.w7 == 0
    }

    /// Field addition.
    pub fn add(&self, other: &FieldElem) -> (r: FieldElem)
        ensures
            r.val() == (self.val() + other.val()) % field_modulus(),
            r.wf(),
    {
        let m = FieldElem::modulus();
        let r = from_limbs(&add_mod_raw(&to_limbs(self), &to_limbs(other), &to_limbs(&m)));
        proof {
            lemma_mod_bound((self.val() + other.val()) as int, field_modulus() as int);
        }
        r
    }

    /// Field subtraction.
    pub fn sub(&self, other: &FieldElem) -> (r: FieldElem)
        requires
            other.val() <= field_modulus(),
        ensures
            r.val() == (self.val() + field_modulus() - other.val()) % (field_modulus() as int),
            r.wf(),
    {
        let m = FieldElem::modulus();
        let r = from_limbs(&sub_mod_raw(&to_limbs(self), &to_limbs(other), &to_limbs(&m)));
        proof {
            lemma_mod_bound(
                (self.val() + field_modulus() - other.val()) as int,
                field_modulus() as int,
            );
        }
        r
    }

    /// Field negation.
    pub fn neg(&self) -> (r: FieldElem)
        requires
            self.val() <= field_modulus(),
        ensures
            r.val() == (field_modulus() - self.val()) % (field_modulus() as int),
            r.wf(),
    {
        let z = FieldElem::zero();
        z.sub(self)
    }

    /// Field multiplication.
    pub fn mul(&self, other: &FieldElem) -> (r: FieldElem)
        ensures
            r.val() == (self.val() * other.val()) % field_modulus(),
            r.wf(),
    {
        let m = FieldElem::modulus();
        let r = from_limbs(&mul_mod_raw(&to_limbs(self), &to_limbs(other), &to_limbs(&m)));
        proof {
            lemma_mod_bound((self.val() * other.val()) as int, field_modulus() as int);
        }
        r
    }

    /// Field inverse. `None` can only be reported for the zero element.
    pub fn inverse(&self) -> (r: Option<FieldElem>)
        requires
            self.wf(),
        ensures
            match r {
                Some(x) => x.wf() && (self.val() * x.val()) % field_modulus() == 1,
                None => self.val() == 0,
            },
    {
        let m = FieldElem::modulus();
        let r = inv_mod_raw(self, &m);
        proof {
            if r is None {
                lemma_small_mod(self.val(), field_modulus());
            }
        }
        r
    }

    /// The number of bits needed to hold any field element.
    pub fn required_bits() -> (r: usize)
        ensures
            r == 254,
    {
        254
    }

    /// The value divided by two, rounding down.
    pub fn half(&self) -> (r: FieldElem)
        ensures
            r.val() == self.val() / 2,
    {
        proof {
            lemma_half_limb(self.w0, self.w1);
            lemma_half_limb(self.w1, self.w2);
            lemma_half_limb(self.w2, self.w3);
            lemma_half_limb(self.w3, self.w4);
            lemma_half_limb(self.w4, self.w5);
            lemma_half_limb(self.w5, self.w6);
            lemma_half_limb(self.w6, self.w7);
        }
        let r = FieldElem {
            w0: (self.w0 >> 1) | (self.w1 << 31),
            w1: (self.w1 >> 1) | (self.w2 << 31),
            w2: (self.w2 >> 1) | (self.w3 << 31),
            w3: (self.w3 >> 1) | (self.w4 << 31),
            w4: (self.w4 >> 1) | (self.w5 << 31),
            w5: (self.w5 >> 1) | (self.w6 << 31),
            w6: (self.w6 >> 1) | (self.w7 << 31),
            w7: self.w7 >> 1,
        };
        proof {
            let w7 = self.w7;
            assert(w7 >> 1 == w7 / 2) by (bit_vector);
            assert(self.w0 == 2 * (self.w0 / 2) + self.w0 % 2) by {
                lemma_fundamental_div_mod(self.w0 as int, 2);
            }
            assert(self.val() == 2 * r.val() + self.w0 % 2);
            lemma_fundamental_div_mod_converse(
                self.val() as int,
                2,
                r.val() as int,
                (self.w0 % 2) as int,
            );
        }
        r
    }

    /// The least significant bit of the value.
    pub fn low_bit(&self) -> (r: bool)
        ensures
            r <==> self.val() % 2 == 1,
    {
        proof {
            assert(self.w0 == 2 * (self.w0 / 2) + self.w0 % 2) by {
                lemma_fundamental_div_mod(self.w0 as int, 2);
            }
            lemma_fundamental_div_mod_converse(
                self.val() as int,
                2,
                self.w0 / 2 + (self.w1 as int) * 0x80000000int + (self.w2 as int)
                    * 0x8000000000000000int + (self.w3 as int) * 0x800000000000000000000000int + (
                self.w4 as int) * 0x80000000000000000000000000000000int + (self.w5 as int)
                    * 0x8000000000000000000000000000000000000000int + (self.w6 as int)
                    * 0x800000000000000000000000000000000000000000000000int + (self.w7 as int)
                    * 0x80000000000000000000000000000000000000000000000000000000int,
                (self.w0 % 2) as int,
            );
        }
        self.w0 % 2 == 1
    }

    /// The power of two with the given exponent, as a field element.
    pub fn pow2_elem(e: usize) -> (r: FieldElem)
        requires
            e < 254,
        ensures
            r.val() == pow2(e as nat),
            r.wf(),
    {
        let mut r = FieldElem::from_u64(1);
        let mut j: usize = 0;
        proof {
            lemma2_to64();
            lemma_pow2_below_modulus(0);
        }
        while j < e
            invariant
                j <= e < 254,
                r.val() == pow2(j as nat),
                r.wf(),
            decreases e - j,
        {
            proof {
                lemma_pow2_adds(j as nat, 1);
                lemma2_to64();
                lemma_pow2_below_modulus((j + 1) as nat);
                lemma_small_mod(2 * pow2(j as nat), field_modulus());
            }
            r = r.add(&r);
            j = j + 1;
        }
        r
    }
}

/// A 32-bit limb halved, with the following limb's low bit carried in on top.
proof fn lemma_half_limb(a: u32, b: u32)
    ensures
        ((a >> 1) | (b << 31)) == a / 2 + (b % 2) * 0x80000000,
        b == 2 * (b / 2) + b % 2,
{
    assert(((a >> 1) | (b << 31)) == a / 2 + (b % 2) * 0x80000000) by (bit_vector);
    lemma_fundamental_div_mod(b as int, 2);
}

/// Powers of two up to the field's bit width stay below the modulus.
pub proof fn lemma_pow2_below_modulus(e: nat)
    requires
        e <= 253,
    ensures
        pow2(e) < field_modulus(),
{
    lemma2_to64();
    lemma2_to64_rest();
    lemma_pow2_adds(64, 64);
    lemma_pow2_adds(128, 64);
    lemma_pow2_adds(192, 61);
    if e < 253 {
        lemma_pow2_strictly_increases(e, 253);
    }
}

/// The value recombined from a little-endian bit sequence.
pub open spec fn bits_sum(s: Seq<bool>) -> nat
    decreases s.len(),
{
    if s.len() == 0 {
        0
    } else {
        (if s[0] {
            1nat
        } else {
            0nat
        }) + 2 * bits_sum(s.drop_first())
    }
}

/// The little-endian bits of a field element's value.
///
/// Bit `i` of the result is bit `i` of the value; when the width is at least
/// 254 the bits recombine to the full value, and for smaller widths to the
/// value reduced modulo `2^w`.
pub fn bits_le(x: &FieldElem, w: usize) -> (r: Vec<bool>)
    ensures
        r@.len() == w,
        forall|i: int| 0 <= i < w ==> r@[i] == ((x.val() / pow2(i as nat)) % 2 == 1),
        bits_sum(r@) == x.val() % pow2(w as nat),
{
    let mut r: Vec<bool> = Vec::new();
    let mut cur = *x;
    let mut i: usize = 0;
    proof {
        lemma2_to64();
    }
    while i < w
        invariant
            i <= w,
            r@.len() == i,
            cur.val() == x.val() / pow2(i as nat),
            forall|k: int| 0 <= k < i ==> r@[k] == ((x.val() / pow2(k as nat)) % 2 == 1),
        decreases w - i,
    {
        proof {
            lemma_pow2_adds(i as nat, 1);
            lemma2_to64();
            vstd::arithmetic::power2::lemma_pow2_pos(i as nat);
            vstd::arithmetic::div_mod::lemma_div_denominator(
                x.val() as int,
                pow2(i as nat) as int,
                2,
            );
        }
        r.push(cur.low_bit());
        cur = cur.half();
        i = i + 1;
    }
    proof {
        lemma_bits_sum_recombines(x.val(), r@);
    }
    r
}

/// The law behind bit decomposition: the bits taken from a field value,
/// recombined with their binary weights, give back exactly the original
/// value whenever it fits the width. This is what the unpack gadget's
/// weighted-sum constraint checks.
pub proof fn lemma_unpack_recombines(v: nat, s: Seq<bool>)
    requires
        forall|i: int| 0 <= i < s.len() ==> s[i] == ((v / pow2(i as nat)) % 2 == 1),
        v < pow2(s.len() as nat),
    ensures
        bits_sum(s) == v,
{
    lemma_bits_sum_recombines(v, s);
    lemma_small_mod(v, pow2(s.len() as nat));
}

/// A bit sequence taken from a value recombines to the value modulo `2^w`.
proof fn lemma_bits_sum_recombines(v: nat, s: Seq<bool>)
    requires
        forall|i: int| 0 <= i < s.len() ==> s[i] == ((v / pow2(i as nat)) % 2 == 1),
    ensures
        bits_sum(s) == v % pow2(s.len()),
    decreases s.len(),
{
    lemma2_to64();
    if s.len() == 0 {
        lemma_small_mod(0, 1);
        assert(v % pow2(0) == v % 1);
        vstd::arithmetic::div_mod::lemma_mod_self_0(1);
        assert(v % 1 == 0) by {
            lemma_fundamental_div_mod(v as int, 1);
        }
    } else {
        let t = s.drop_first();
        assert forall|i: int| 0 <= i < t.len() implies t[i] == (((v / 2) / pow2(i as nat)) % 2
            == 1) by {
            lemma_pow2_adds(1, i as nat);
            vstd::arithmetic::power2::lemma_pow2_pos(i as nat);
            vstd::arithmetic::div_mod::lemma_div_denominator(v as int, 2, pow2(i as nat) as int);
            assert(t[i] == s[i + 1]);
        }
        lemma_bits_sum_recombines(v / 2, t);
        lemma_pow2_adds(1, (s.len() - 1) as nat);
        // v % 2^n == (v % 2) + 2 * ((v / 2) % 2^(n-1))
        let n1 = pow2((s.len() - 1) as nat);
        vstd::arithmetic::power2::lemma_pow2_pos((s.len() - 1) as nat);
        lemma_fundamental_div_mod(v as int, 2);
        lemma_fundamental_div_mod((v / 2) as int, n1 as int);
        lemma_mod_bound((v / 2) as int, n1 as int);
        lemma_mod_bound(v as int, 2);
        let q = ((v / 2) / n1) as int;
        assert(q * ((2 * n1) as int) == 2 * ((n1 as int) * q)) by (nonlinear_arith);
        lemma_fundamental_div_mod_converse(
            v as int,
            (2 * n1) as int,
            ((v / 2) / n1) as int,
            (v % 2 + 2 * ((v / 2) % n1)) as int,
        );
        assert(s[0] == ((v / pow2(0)) % 2 == 1));
        assert(v / pow2(0) == v) by {
            vstd::arithmetic::div_mod::lemma_div_basics_1(v as int);
        }
    }
}

} // verus!
