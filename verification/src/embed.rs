//! Embedded gadgets: flat functions synthesized on demand and inlined by the
//! flattener as if they were user functions — bit decomposition to a chosen
//! width, and the lowering of an externally generated SHA-256 round
//! constraint system into flat statements.

use vstd::prelude::*;
use crate::field::FieldElem;
use crate::flat::{
    FlatDirective, FlatExpression, FlatExpressionList, FlatFunction, FlatParameter, FlatStatement,
    FlatVariable,
};
use crate::solvers::Solver;

verus! {

/// A type of the embedded functions' signatures.
#[derive(Debug, PartialEq)]
pub enum Type {
    FieldElement,
    Boolean,
    Uint(usize),
    Array(Box<Type>, usize),
}

impl Type {
    /// An array of the given element type and size.
    pub fn array(ty: Type, size: usize) -> (r: Type)
        ensures
            r == Type::Array(Box::new(ty), size),
    {
        Type::Array(Box::new(ty), size)
    }
}

/// The input and output types of an embedded function.
#[derive(Debug, PartialEq)]
pub struct Signature {
    pub inputs: Vec<Type>,
    pub outputs: Vec<Type>,
}

impl Signature {
    /// An empty signature, to be filled by the builder methods.
    pub fn new() -> (r: Signature)
        ensures
            r.inputs@.len() == 0,
            r.outputs@.len() == 0,
    {
        Signature { inputs: Vec::new(), outputs: Vec::new() }
    }

    /// Replaces the input types.
    pub fn inputs(self, inputs: Vec<Type>) -> (r: Signature)
        ensures
            r == (Signature { inputs, outputs: self.outputs }),
    {
        Signature { inputs, outputs: self.outputs }
    }

    /// Replaces the output types.
    pub fn outputs(self, outputs: Vec<Type>) -> (r: Signature)
        ensures
            r == (Signature { inputs: self.inputs, outputs }),
    {
        Signature { inputs: self.inputs, outputs }
    }
}

/// The name and signature under which an embedded function is resolved.
#[derive(Debug, PartialEq)]
pub struct FunctionKey {
    pub id: &'static str,
    pub signature: Signature,
}

impl FunctionKey {
    /// A key with the given name and an empty signature.
    pub fn with_id(id: &'static str) -> (r: FunctionKey)
        ensures
            r.id == id,
    {
        FunctionKey { id, signature: Signature::new() }
    }

    /// Replaces the signature.
    pub fn signature(self, signature: Signature) -> (r: FunctionKey)
        ensures
            r == (FunctionKey { id: self.id, signature }),
    {
        FunctionKey { id: self.id, signature }
    }
}

/// A low-level function with non-deterministic variable introduction,
/// carried as is and inlined at flattening.
#[derive(Clone, Copy, Debug, PartialEq, Eq, Structural, Hash)]
pub enum FlatEmbed {
    Sha256Round,
    Unpack,
    CheckU8,
    CheckU16,
    CheckU32,
    U8ToBits,
    U16ToBits,
    U32ToBits,
    U32FromBits,
}

impl FlatEmbed {
    /// The signature under which the typed layer refers to this embed.
    pub fn signature(&self) -> (r: Signature)
        ensures
            *self == FlatEmbed::Sha256Round ==> r.inputs@ =~= seq![
                Type::Array(Box::new(Type::FieldElement), 512),
                Type::Array(Box::new(Type::FieldElement), 256),
            ] && r.outputs@ =~= seq![Type::Array(Box::new(Type::FieldElement), 256)],
            *self == FlatEmbed::Unpack ==> r.inputs@ =~= seq![Type::FieldElement] && r.outputs@
                =~= seq![Type::Array(Box::new(Type::FieldElement), 254)],
            *self == FlatEmbed::CheckU8 ==> r.inputs@ =~= seq![Type::Uint(8)] && r.outputs@ =~= seq![
                Type::Array(Box::new(Type::FieldElement), 8),
            ],
            *self == FlatEmbed::CheckU16 ==> r.inputs@ =~= seq![Type::Uint(16)] && r.outputs@
                =~= seq![Type::Array(Box::new(Type::FieldElement), 16)],
            *self == FlatEmbed::CheckU32 ==> r.inputs@ =~= seq![Type::Uint(32)] && r.outputs@
                =~= seq![Type::Array(Box::new(Type::FieldElement), 32)],
            *self == FlatEmbed::U8ToBits ==> r.inputs@ =~= seq![Type::Uint(8)] && r.outputs@
                =~= seq![Type::Array(Box::new(Type::Boolean), 8)],
            *self == FlatEmbed::U16ToBits ==> r.inputs@ =~= seq![Type::Uint(16)] && r.outputs@
                =~= seq![Type::Array(Box::new(Type::Boolean), 16)],
            *self == FlatEmbed::U32ToBits ==> r.inputs@ =~= seq![Type::Uint(32)] && r.outputs@
                =~= seq![Type::Array(Box::new(Type::Boolean), 32)],
            *self == FlatEmbed::U32FromBits ==> r.inputs@ =~= seq![
                Type::Array(Box::new(Type::Boolean), 32),
            ] && r.outputs@ =~= seq![Type::Uint(32)],
    {
        match self {
            FlatEmbed::Sha256Round => Signature::new().inputs(
                {
                    let mut v: Vec<Type> = Vec::new();
                    v.push(Type::array(Type::FieldElement, 512));
                    v.push(Type::array(Type::FieldElement, 256));
                    v
                },
            ).outputs(
                {
                    let mut v: Vec<Type> = Vec::new();
                    v.push(Type::array(Type::FieldElement, 256));
                    v
                },
            ),
            FlatEmbed::Unpack => Signature::new().inputs(
                {
                    let mut v: Vec<Type> = Vec::new();
                    v.push(Type::FieldElement);
                    v
                },
            ).outputs(
                {
                    let mut v: Vec<Type> = Vec::new();
                    v.push(Type::array(Type::FieldElement, FieldElem::required_bits()));
                    v
                },
            ),
            FlatEmbed::CheckU8 => Signature::new().inputs(
                {
                    let mut v: Vec<Type> = Vec::new();
                    v.push(Type::Uint(8));
                    v
                },
            ).outputs(
                {
                    let mut v: Vec<Type> = Vec::new();
                    v.push(Type::array(Type::FieldElement, 8));
                    v
                },
            ),
            FlatEmbed::CheckU16 => Signature::new().inputs(
                {
                    let mut v: Vec<Type> = Vec::new();
                    v.push(Type::Uint(16));
                    v
                },
            ).outputs(
                {
                    let mut v: Vec<Type> = Vec::new();
                    v.push(Type::array(Type::FieldElement, 16));
                    v
                },
            ),
            FlatEmbed::CheckU32 => Signature::new().inputs(
                {
                    let mut v: Vec<Type> = Vec::new();
                    v.push(Type::Uint(32));
                    v
                },
            ).outputs(
                {
                    let mut v: Vec<Type> = Vec::new();
                    v.push(Type::array(Type::FieldElement, 32));
                    v
                },
            ),
            FlatEmbed::U8ToBits => Signature::new().inputs(
                {
                    let mut v: Vec<Type> = Vec::new();
                    v.push(Type::Uint(8));
                    v
                },
            ).outputs(
                {
                    let mut v: Vec<Type> = Vec::new();
                    v.push(Type::array(Type::Boolean, 8));
                    v
                },
            ),
            FlatEmbed::U16ToBits => Signature::new().inputs(
                {
                    let mut v: Vec<Type> = Vec::new();
                    v.push(Type::Uint(16));
                    v
                },
            ).outputs(
                {
                    let mut v: Vec<Type> = Vec::new();
                    v.push(Type::array(Type::Boolean, 16));
                    v
                },
            ),
            FlatEmbed::U32ToBits => Signature::new().inputs(
                {
                    let mut v: Vec<Type> = Vec::new();
                    v.push(Type::Uint(32));
                    v
                },
            ).outputs(
                {
                    let mut v: Vec<Type> = Vec::new();
                    v.push(Type::array(Type::Boolean, 32));
                    v
                },
            ),
            FlatEmbed::U32FromBits => Signature::new().outputs(
                {
                    let mut v: Vec<Type> = Vec::new();
                    v.push(Type::Uint(32));
                    v
                },
            ).inputs(
                {
                    let mut v: Vec<Type> = Vec::new();
                    v.push(Type::array(Type::Boolean, 32));
                    v
                },
            ),
        }
    }

    /// The key under which the typed layer resolves this embed.
    pub fn key(&self) -> FunctionKey {
        FunctionKey::with_id(self.id()).signature(self.signature())
    }

    /// The reserved name of the embed.
    pub fn id(&self) -> (r: &'static str)
        ensures
            r == self.id_spec(),
    {
        match self {
            FlatEmbed::Sha256Round => "_SHA256_ROUND",
            FlatEmbed::Unpack => "_UNPACK",
            FlatEmbed::CheckU8 => "_CHECK_U8",
            FlatEmbed::CheckU16 => "_CHECK_U16",
            FlatEmbed::CheckU32 => "_CHECK_U32",
            FlatEmbed::U8ToBits => "_U8_TO_BITS",
            FlatEmbed::U16ToBits => "_U16_TO_BITS",
            FlatEmbed::U32ToBits => "_U32_TO_BITS",
            FlatEmbed::U32FromBits => "_U32_FROM_BITS",
        }
    }

    /// The reserved name, as a specification value.
    pub open spec fn id_spec(self) -> &'static str {
        match self {
            FlatEmbed::Sha256Round => "_SHA256_ROUND",
            FlatEmbed::Unpack => "_UNPACK",
            FlatEmbed::CheckU8 => "_CHECK_U8",
            FlatEmbed::CheckU16 => "_CHECK_U16",
            FlatEmbed::CheckU32 => "_CHECK_U32",
            FlatEmbed::U8ToBits => "_U8_TO_BITS",
            FlatEmbed::U16ToBits => "_U16_TO_BITS",
            FlatEmbed::U32ToBits => "_U32_TO_BITS",
            FlatEmbed::U32FromBits => "_U32_FROM_BITS",
        }
    }

    /// Synthesizes the flat function this embed stands for. The bit-width
    /// embeds are built locally; the SHA-256 round is assembled from the
    /// constraint system handed in by the external gadget generator. The remaining
    /// embeds are handled directly on the typed layer and cannot be
    /// synthesized.
    pub fn synthetize(&self, sha256_gadget: &Sha256RoundGadget) -> (r: FlatFunction)
        requires
            matches!(
                *self,
                FlatEmbed::Sha256Round
                    | FlatEmbed::Unpack
                    | FlatEmbed::CheckU8
                    | FlatEmbed::CheckU16
                    | FlatEmbed::CheckU32
            ),
            sha256_gadget.wf(),
        ensures
            *self == FlatEmbed::Sha256Round ==> sha256_shape(r, *sha256_gadget),
            *self == FlatEmbed::Unpack ==> unpack_shape(r, 254),
            *self == FlatEmbed::CheckU8 ==> unpack_shape(r, 8),
            *self == FlatEmbed::CheckU16 ==> unpack_shape(r, 16),
            *self == FlatEmbed::CheckU32 ==> unpack_shape(r, 32),
    {
        match self {
            FlatEmbed::Sha256Round => sha256_round(sha256_gadget),
            FlatEmbed::Unpack => unpack_to_host_bitwidth(),
            FlatEmbed::CheckU8 => unpack_to_bitwidth(8),
            FlatEmbed::CheckU16 => unpack_to_bitwidth(16),
            FlatEmbed::CheckU32 => unpack_to_bitwidth(32),
            _ => {
                proof {
                    assert(false);
                }
                unpack_to_bitwidth(8)
            },
        }
    }
}

/// One R1CS constraint of the external gadget: sparse `a`, `b`, `c` vectors
/// of `(variable index, coefficient)` pairs asserting `a * b = c`.
#[derive(Clone, Debug, PartialEq)]
pub struct GadgetConstraint {
    pub a: Vec<(usize, FieldElem)>,
    pub b: Vec<(usize, FieldElem)>,
    pub c: Vec<(usize, FieldElem)>,
}

/// What the external SHA-256 round gadget generator hands over: its
/// constraints, how many auxiliary variables they use, and which indices
/// carry the message, the current hash, and the output bits.
#[derive(Clone, Debug, PartialEq)]
pub struct Sha256RoundGadget {
    pub aux_count: usize,
    pub constraints: Vec<GadgetConstraint>,
    pub input_indices: Vec<usize>,
    pub current_hash_indices: Vec<usize>,
    pub output_indices: Vec<usize>,
}

impl Sha256RoundGadget {
    /// Indices small enough that offsetting them stays in range.
    pub open spec fn wf(self) -> bool {
        &&& self.aux_count < 0x10000000
        &&& self.input_indices@.len() == 512
        &&& self.current_hash_indices@.len() == 256
        &&& self.output_indices@.len() == 256
        &&& forall|i: int|
            0 <= i < self.input_indices@.len() ==> #[trigger] self.input_indices@[i] < 0x10000000
        &&& forall|i: int|
            0 <= i < self.current_hash_indices@.len() ==> #[trigger] self.current_hash_indices@[i]
                < 0x10000000
        &&& forall|i: int|
            0 <= i < self.output_indices@.len() ==> #[trigger] self.output_indices@[i] < 0x10000000
        &&& forall|i: int, j: int|
            0 <= i < self.constraints@.len() && 0 <= j < (#[trigger] self.constraints@[i]).a@.len()
                ==> (#[trigger] self.constraints@[i].a@[j]).0 < 0x10000000
        &&& forall|i: int, j: int|
            0 <= i < self.constraints@.len() && 0 <= j < (#[trigger] self.constraints@[i]).b@.len()
                ==> (#[trigger] self.constraints@[i].b@[j]).0 < 0x10000000
        &&& forall|i: int, j: int|
            0 <= i < self.constraints@.len() && 0 <= j < (#[trigger] self.constraints@[i]).c@.len()
                ==> (#[trigger] self.constraints@[i].c@[j]).0 < 0x10000000
    }
}

/// The product expression one sparse `(variable index, coefficient)` entry
/// lowers to.
pub open spec fn term_expr_spec(t: (usize, FieldElem)) -> FlatExpression {
    FlatExpression::Mult(
        Box::new(FlatExpression::Number(t.1)),
        Box::new(FlatExpression::Identifier(FlatVariable { id: (1 + t.0) as i64 })),
    )
}

/// The left-nested sum of the entries' products, in input order.
pub open spec fn sum_expr_spec(v: Seq<(usize, FieldElem)>) -> FlatExpression
    decreases v.len(),
{
    if v.len() == 0 {
        FlatExpression::Number(FieldElem::from_nat(0))
    } else if v.len() == 1 {
        term_expr_spec(v[0])
    } else {
        FlatExpression::Add(
            Box::new(sum_expr_spec(v.drop_last())),
            Box::new(term_expr_spec(v.last())),
        )
    }
}

/// What a sparse vector lowers to: its sum of products, with a lone product
/// wrapped in an addition with zero so that the serializer always meets an
/// addition.
pub open spec fn gadget_expr_spec(v: Seq<(usize, FieldElem)>) -> FlatExpression {
    if v.len() == 1 {
        FlatExpression::Add(
            Box::new(FlatExpression::Number(FieldElem::from_nat(0))),
            Box::new(term_expr_spec(v[0])),
        )
    } else {
        sum_expr_spec(v)
    }
}

/// Turns a sparse `(variable index, coefficient)` vector into a sum of
/// products expression. A lone product is wrapped in an addition with zero
/// and an empty vector becomes zero, because the constraint serializer only
/// recognizes additions.
pub fn flat_expression_from_vec(v: &Vec<(usize, FieldElem)>) -> (r: FlatExpression)
    requires
        forall|i: int| 0 <= i < v@.len() ==> (#[trigger] v@[i]).0 < 0x7fffffffffffffff,
    ensures
        r == gadget_expr_spec(v@),
{
    let mut acc: Option<FlatExpression> = Option::None;
    let mut i: usize = 0;
    while i < v.len()
        invariant
            i <= v@.len(),
            forall|k: int| 0 <= k < v@.len() ==> (#[trigger] v@[k]).0 < 0x7fffffffffffffff,
            i == 0 ==> acc is None,
            i > 0 ==> acc == Option::Some(sum_expr_spec(v@.take(i as int))),
        decreases v@.len() - i,
    {
        let (key, val) = v[i];
        let term = FlatExpression::Mult(
            Box::new(FlatExpression::Number(val)),
            Box::new(FlatExpression::Identifier(FlatVariable::new(key))),
        );
        proof {
            assert(term == term_expr_spec(v@[i as int]));
            if i == 0 {
                assert(v@.take(1)[0] == v@[0]);
                assert(v@.take(1).len() == 1);
            } else {
                assert(v@.take(i + 1).drop_last() =~= v@.take(i as int));
                assert(v@.take(i + 1).last() == v@[i as int]);
            }
        }
        acc = match acc {
            Option::None => Option::Some(term),
            Option::Some(e) => Option::Some(FlatExpression::Add(Box::new(e), Box::new(term))),
        };
        i = i + 1;
    }
    proof {
        assert(v@.take(v@.len() as int) =~= v@);
    }
    match acc {
        Option::Some(e) => {
            if v.len() == 1 {
                let z = FieldElem::zero();
                proof {
                    crate::field::lemma_from_nat_val(0);
                    crate::field::lemma_val_injective(z, FieldElem::from_nat(0));
                }
                FlatExpression::Add(Box::new(FlatExpression::Number(z)), Box::new(e))
            } else {
                e
            }
        },
        Option::None => {
            let z = FieldElem::zero();
            proof {
                crate::field::lemma_from_nat_val(0);
                crate::field::lemma_val_injective(z, FieldElem::from_nat(0));
            }
            FlatExpression::Number(z)
        },
    }
}

/// Allocates the next variable of a local layout.
pub fn use_variable(index: &mut usize) -> (r: FlatVariable)
    requires
        *old(index) < 0xffffffff,
    ensures
        r.id == 1 + *old(index),
        *final(index) == *old(index) + 1,
{
    let var = FlatVariable::new(*index);
    *index = *index + 1;
    var
}

/// A flat function decomposing one field element over the full field width.
///
/// The width equals the bits needed for the modulus, so elements near the
/// modulus have two valid decompositions: zero also decomposes as the bits
/// of the modulus. This is inherent to full-width unpacking.
pub fn unpack_to_host_bitwidth() -> (r: FlatFunction)
    ensures
        unpack_shape(r, 254),
{
    unpack_to_bitwidth(FieldElem::required_bits())
}

/// The weighted-sum expression of the first `count` bits: a left-nested
/// addition of `o_{width-i} * 2^i` products, starting from an explicit zero.
pub open spec fn unpack_sum_spec(width: usize, count: int) -> FlatExpression
    decreases count,
{
    if count <= 0 {
        FlatExpression::Number(FieldElem::from_nat(0))
    } else {
        FlatExpression::Add(
            Box::new(unpack_sum_spec(width, count - 1)),
            Box::new(
                FlatExpression::Mult(
                    Box::new(
                        FlatExpression::Identifier(
                            FlatVariable { id: (1 + width - (count - 1)) as i64 },
                        ),
                    ),
                    Box::new(
                        FlatExpression::Number(
                            FieldElem::from_nat(vstd::arithmetic::power2::pow2((count - 1) as nat)),
                        ),
                    ),
                ),
            ),
        )
    }
}

/// What the bit-decomposition gadget looks like: one private argument, a
/// directive binding the bits high-first, one booleanity constraint per bit,
/// a weighted-sum constraint, and the bits returned in order.
pub open spec fn unpack_shape(r: FlatFunction, width: usize) -> bool {
    &&& r.arguments@.len() == 1
    &&& r.arguments@[0] == (FlatParameter { id: FlatVariable { id: 1 }, private: true })
    &&& r.statements@.len() == width + 3
    &&& (r.statements@[0] matches FlatStatement::Directive(d) && d.solver == Solver::Bits(width)
        && d.inputs@.len() == 1 && d.inputs@[0] == FlatExpression::Identifier(
        FlatVariable { id: 1 },
    ) && d.outputs@.len() == width && (forall|i: int|
        0 <= i < width ==> (#[trigger] d.outputs@[i]).id == 2 + i))
    &&& (forall|i: int|
        0 <= i < width ==> ((#[trigger] r.statements@[1 + i]) matches FlatStatement::Condition(
            lhs,
            rhs,
        ) && lhs == FlatExpression::Identifier(FlatVariable { id: (1 + width - i) as i64 }) && rhs
            == FlatExpression::Mult(
            Box::new(FlatExpression::Identifier(FlatVariable { id: (1 + width - i) as i64 })),
            Box::new(FlatExpression::Identifier(FlatVariable { id: (1 + width - i) as i64 })),
        )))
    &&& r.statements@[width + 1] == FlatStatement::Condition(
        unpack_sum_spec(width, width as int),
        FlatExpression::Mult(
            Box::new(FlatExpression::Identifier(FlatVariable { id: 1 })),
            Box::new(FlatExpression::Number(FieldElem::from_nat(1))),
        ),
    )
    &&& (r.statements@[width + 2] matches FlatStatement::Return(l) && l.expressions@.len() == width
        && (forall|i: int|
        0 <= i < width ==> (#[trigger] l.expressions@[i]) == FlatExpression::Identifier(
            FlatVariable { id: (2 + i) as i64 },
        )))
}

/// A flat function decomposing one field element into the given number of
/// bits, high bit first, provided the width fits the field.
pub fn unpack_to_bitwidth(width: usize) -> (r: FlatFunction)
    requires
        width <= 254,
    ensures
        unpack_shape(r, width),
{
    let mut counter: usize = 0;
    let mut arguments: Vec<FlatParameter> = Vec::new();
    arguments.push(FlatParameter::private(FlatVariable::new(0)));
    let mut directive_inputs: Vec<FlatExpression> = Vec::new();
    directive_inputs.push(FlatExpression::Identifier(use_variable(&mut counter)));
    let mut directive_outputs: Vec<FlatVariable> = Vec::new();
    let mut idx: usize = 0;
    while idx < width
        invariant
            idx <= width,
            width <= 254,
            counter == 1 + idx,
            directive_outputs@.len() == idx,
            forall|i: int| 0 <= i < idx ==> (#[trigger] directive_outputs@[i]).id == 2 + i,
        decreases width - idx,
    {
        directive_outputs.push(use_variable(&mut counter));
        idx = idx + 1;
    }
    let mut statements: Vec<FlatStatement> = Vec::new();
    statements.push(
        FlatStatement::Directive(
            FlatDirective::new(directive_outputs, Solver::Bits(width), directive_inputs),
        ),
    );
    let ghost dstmt = statements@[0];
    let mut index: usize = 0;
    while index < width
        invariant
            index <= width,
            width <= 254,
            statements@.len() == 1 + index,
            forall|i: int|
                1 <= i < 1 + index ==> ((#[trigger] statements@[i])
                    matches FlatStatement::Condition(lhs, rhs) && lhs
                    == FlatExpression::Identifier(FlatVariable { id: (1 + width - (i - 1)) as i64 }) && rhs
                    == FlatExpression::Mult(
                    Box::new(
                        FlatExpression::Identifier(FlatVariable { id: (1 + width - (i - 1)) as i64 }),
                    ),
                    Box::new(
                        FlatExpression::Identifier(FlatVariable { id: (1 + width - (i - 1)) as i64 }),
                    ),
                )),
            statements@[0] == dstmt,
        decreases width - index,
    {
        let bit = FlatExpression::Identifier(FlatVariable::new(width - index));
        statements.push(
            FlatStatement::Condition(
                bit.clone(),
                FlatExpression::Mult(Box::new(bit.clone()), Box::new(bit)),
            ),
        );
        index = index + 1;
    }
    let zero_elem = FieldElem::zero();
    let mut lhs_sum = FlatExpression::Number(zero_elem);
    proof {
        crate::field::lemma_from_nat_val(0);
        crate::field::lemma_val_injective(zero_elem, FieldElem::from_nat(0));
    }
    let mut i: usize = 0;
    while i < width
        invariant
            i <= width,
            width <= 254,
            lhs_sum == unpack_sum_spec(width, i as int),
        decreases width - i,
    {
        let weight = FieldElem::pow2_elem(i);
        proof {
            crate::field::lemma_from_nat_val(vstd::arithmetic::power2::pow2(i as nat));
            crate::field::lemma_val_injective(
                weight,
                FieldElem::from_nat(vstd::arithmetic::power2::pow2(i as nat)),
            );
        }
        lhs_sum = FlatExpression::Add(
            Box::new(lhs_sum),
            Box::new(
                FlatExpression::Mult(
                    Box::new(FlatExpression::Identifier(FlatVariable::new(width - i))),
                    Box::new(FlatExpression::Number(weight)),
                ),
            ),
        );
        i = i + 1;
    }
    let one_elem = FieldElem::from_u64(1);
    proof {
        crate::field::lemma_from_nat_val(1);
        crate::field::lemma_val_injective(one_elem, FieldElem::from_nat(1));
    }
    statements.push(
        FlatStatement::Condition(
            lhs_sum,
            FlatExpression::Mult(
                Box::new(FlatExpression::Identifier(FlatVariable::new(0))),
                Box::new(FlatExpression::Number(one_elem)),
            ),
        ),
    );
    let mut outputs: Vec<FlatExpression> = Vec::new();
    let mut j: usize = 0;
    while j < width
        invariant
            j <= width,
            width <= 254,
            outputs@.len() == j,
            forall|i: int|
                0 <= i < j ==> (#[trigger] outputs@[i]) == FlatExpression::Identifier(
                    FlatVariable { id: (2 + i) as i64 },
                ),
        decreases width - j,
    {
        outputs.push(FlatExpression::Identifier(FlatVariable::new(j + 1)));
        j = j + 1;
    }
    statements.push(FlatStatement::Return(FlatExpressionList { expressions: outputs }));
    FlatFunction { arguments, statements }
}

/// Assembles a flat function around the external SHA-256 round gadget.
///
/// The constraint system's variables take ids `0..aux_count + 1`; the 768
/// private arguments (512 message bits, then 256 current-hash bits) start
/// right after. The first statement is the directive solving the round, then
/// the binding of constraint-system variable `0` to one, one binding of each
/// input variable to its argument, the round constraints, and the
/// return of the output variables.
/// What the assembled SHA-256 round function looks like, statement by
/// statement: the directive over all constraint-system variables, the
/// one-binding, one binding per input and current-hash index, the round
/// constraints in order, and the return of the output-index variables.
pub open spec fn sha256_shape(r: FlatFunction, gadget: Sha256RoundGadget) -> bool {
    let vc = gadget.aux_count + 1;
    &&& r.arguments@.len() == 768
    &&& (forall|i: int|
        0 <= i < 512 ==> (#[trigger] r.arguments@[i]) == (FlatParameter {
            id: FlatVariable { id: (1 + gadget.input_indices@[i] + vc) as i64 },
            private: true,
        }))
    &&& (forall|i: int|
        512 <= i < 768 ==> (#[trigger] r.arguments@[i]) == (FlatParameter {
            id: FlatVariable { id: (1 + gadget.current_hash_indices@[i - 512] + vc) as i64 },
            private: true,
        }))
    &&& r.statements@.len() == gadget.constraints@.len() + 771
    &&& (r.statements@[0] matches FlatStatement::Directive(d) && d.solver == Solver::Sha256Round
        && d.inputs@.len() == 768 && (forall|i: int|
        0 <= i < 768 ==> (#[trigger] d.inputs@[i]) == FlatExpression::Identifier(
            r.arguments@[i].id,
        )) && d.outputs@.len() == vc && (forall|i: int|
        0 <= i < vc ==> (#[trigger] d.outputs@[i]).id == 1 + i))
    &&& r.statements@[1] == FlatStatement::Condition(
        FlatExpression::Identifier(FlatVariable { id: 1 }),
        FlatExpression::Number(FieldElem::from_nat(1)),
    )
    &&& (forall|b: int|
        0 <= b < 512 ==> (#[trigger] r.statements@[2 + b]) == FlatStatement::Condition(
            FlatExpression::Identifier(FlatVariable { id: (1 + gadget.input_indices@[b]) as i64 }),
            FlatExpression::Identifier(
                FlatVariable { id: (1 + gadget.input_indices@[b] + vc) as i64 },
            ),
        ))
    &&& (forall|b: int|
        0 <= b < 256 ==> (#[trigger] r.statements@[514 + b]) == FlatStatement::Condition(
            FlatExpression::Identifier(
                FlatVariable { id: (1 + gadget.current_hash_indices@[b]) as i64 },
            ),
            FlatExpression::Identifier(
                FlatVariable { id: (1 + gadget.current_hash_indices@[b] + vc) as i64 },
            ),
        ))
    &&& (forall|t: int|
        0 <= t < gadget.constraints@.len() ==> (#[trigger] r.statements@[770 + t])
            == FlatStatement::Condition(
            gadget_expr_spec((gadget.constraints@[t]).c@),
            FlatExpression::Mult(
                Box::new(gadget_expr_spec(gadget.constraints@[t].a@)),
                Box::new(gadget_expr_spec(gadget.constraints@[t].b@)),
            ),
        ))
    &&& (r.statements@[gadget.constraints@.len() as int + 770] matches FlatStatement::Return(l)
        && l.expressions@.len() == 256 && (forall|o: int|
        0 <= o < 256 ==> (#[trigger] l.expressions@[o]) == FlatExpression::Identifier(
            FlatVariable { id: (1 + gadget.output_indices@[o]) as i64 },
        )))
}

pub fn sha256_round(gadget: &Sha256RoundGadget) -> (r: FlatFunction)
    requires
        gadget.wf(),
    ensures
        sha256_shape(r, *gadget),
{
    let variable_count = gadget.aux_count + 1;
    let mut arguments: Vec<FlatParameter> = Vec::new();
    let mut i: usize = 0;
    while i < gadget.input_indices.len()
        invariant
            gadget.wf(),
            variable_count == gadget.aux_count + 1,
            i <= 512,
            arguments@.len() == i,
            forall|k: int|
                0 <= k < i ==> (#[trigger] arguments@[k]) == (FlatParameter {
                    id: FlatVariable {
                        id: (1 + gadget.input_indices@[k] + gadget.aux_count + 1) as i64,
                    },
                    private: true,
                }),
        decreases gadget.input_indices@.len() - i,
    {
        arguments.push(
            FlatParameter::private(FlatVariable::new(gadget.input_indices[i] + variable_count)),
        );
        i = i + 1;
    }
    let mut i2: usize = 0;
    while i2 < gadget.current_hash_indices.len()
        invariant
            gadget.wf(),
            variable_count == gadget.aux_count + 1,
            i2 <= 256,
            arguments@.len() == 512 + i2,
            forall|k: int|
                0 <= k < 512 ==> (#[trigger] arguments@[k]) == (FlatParameter {
                    id: FlatVariable {
                        id: (1 + gadget.input_indices@[k] + gadget.aux_count + 1) as i64,
                    },
                    private: true,
                }),
            forall|k: int|
                512 <= k < 512 + i2 ==> (#[trigger] arguments@[k]) == (FlatParameter {
                    id: FlatVariable {
                        id: (1 + gadget.current_hash_indices@[k - 512] + gadget.aux_count
                            + 1) as i64,
                    },
                    private: true,
                }),
        decreases gadget.current_hash_indices@.len() - i2,
    {
        arguments.push(
            FlatParameter::private(
                FlatVariable::new(gadget.current_hash_indices[i2] + variable_count),
            ),
        );
        i2 = i2 + 1;
    }
    // the directive: all arguments in, all constraint-system variables out
    let mut dir_inputs: Vec<FlatExpression> = Vec::new();
    let mut j: usize = 0;
    while j < arguments.len()
        invariant
            j <= arguments@.len(),
            arguments@.len() == 768,
            dir_inputs@.len() == j,
            forall|k: int|
                0 <= k < j ==> (#[trigger] dir_inputs@[k]) == FlatExpression::Identifier(
                    arguments@[k].id,
                ),
        decreases arguments@.len() - j,
    {
        dir_inputs.push(FlatExpression::Identifier(arguments[j].id));
        j = j + 1;
    }
    let mut dir_outputs: Vec<FlatVariable> = Vec::new();
    let mut c: usize = 0;
    while c < variable_count
        invariant
            variable_count <= 0x10000000,
            c <= variable_count,
            dir_outputs@.len() == c,
            forall|k: int| 0 <= k < c ==> (#[trigger] dir_outputs@[k]).id == 1 + k,
        decreases variable_count - c,
    {
        dir_outputs.push(FlatVariable::new(c));
        c = c + 1;
    }
    let mut statements: Vec<FlatStatement> = Vec::new();
    statements.push(
        FlatStatement::Directive(
            FlatDirective::new(dir_outputs, Solver::Sha256Round, dir_inputs),
        ),
    );
    // bind constraint-system variable 0 to the field element one
    let one_elem = FieldElem::from_u64(1);
    proof {
        crate::field::lemma_from_nat_val(1);
        crate::field::lemma_val_injective(one_elem, FieldElem::from_nat(1));
    }
    statements.push(
        FlatStatement::Condition(
            FlatExpression::Identifier(FlatVariable::new(0)),
            FlatExpression::Number(one_elem),
        ),
    );
    let ghost st0 = statements@[0];
    let ghost st1 = statements@[1];
    // bind each constraint-system input variable to its argument
    let mut b: usize = 0;
    while b < gadget.input_indices.len()
        invariant
            gadget.wf(),
            variable_count == gadget.aux_count + 1,
            variable_count <= 0x10000000,
            b <= 512,
            statements@.len() == 2 + b,
            forall|k: int|
                0 <= k < b ==> (#[trigger] statements@[2 + k]) == FlatStatement::Condition(
                    FlatExpression::Identifier(
                        FlatVariable { id: (1 + gadget.input_indices@[k]) as i64 },
                    ),
                    FlatExpression::Identifier(
                        FlatVariable {
                            id: (1 + gadget.input_indices@[k] + gadget.aux_count + 1) as i64,
                        },
                    ),
                ),
            statements@[0] == st0,
            statements@[1] == st1,
        decreases gadget.input_indices@.len() - b,
    {
        statements.push(
            FlatStatement::Condition(
                FlatExpression::Identifier(FlatVariable::new(gadget.input_indices[b])),
                FlatExpression::Identifier(
                    FlatVariable::new(gadget.input_indices[b] + variable_count),
                ),
            ),
        );
        b = b + 1;
    }
    let mut b2: usize = 0;
    while b2 < gadget.current_hash_indices.len()
        invariant
            gadget.wf(),
            variable_count == gadget.aux_count + 1,
            variable_count <= 0x10000000,
            b2 <= 256,
            statements@.len() == 514 + b2,
            forall|k: int|
                0 <= k < 512 ==> (#[trigger] statements@[2 + k]) == FlatStatement::Condition(
                    FlatExpression::Identifier(
                        FlatVariable { id: (1 + gadget.input_indices@[k]) as i64 },
                    ),
                    FlatExpression::Identifier(
                        FlatVariable {
                            id: (1 + gadget.input_indices@[k] + gadget.aux_count + 1) as i64,
                        },
                    ),
                ),
            forall|k: int|
                0 <= k < b2 ==> (#[trigger] statements@[514 + k]) == FlatStatement::Condition(
                    FlatExpression::Identifier(
                        FlatVariable { id: (1 + gadget.current_hash_indices@[k]) as i64 },
                    ),
                    FlatExpression::Identifier(
                        FlatVariable {
                            id: (1 + gadget.current_hash_indices@[k] + gadget.aux_count
                                + 1) as i64,
                        },
                    ),
                ),
            statements@[0] == st0,
            statements@[1] == st1,
        decreases gadget.current_hash_indices@.len() - b2,
    {
        statements.push(
            FlatStatement::Condition(
                FlatExpression::Identifier(FlatVariable::new(gadget.current_hash_indices[b2])),
                FlatExpression::Identifier(
                    FlatVariable::new(gadget.current_hash_indices[b2] + variable_count),
                ),
            ),
        );
        b2 = b2 + 1;
    }
    // the round constraints: c == a * b, serializer-friendly
    let mut t: usize = 0;
    while t < gadget.constraints.len()
        invariant
            gadget.wf(),
            t <= gadget.constraints@.len(),
            statements@.len() == 770 + t,
            statements@[0] == st0,
            statements@[1] == st1,
            forall|k: int|
                0 <= k < 512 ==> (#[trigger] statements@[2 + k]) == FlatStatement::Condition(
                    FlatExpression::Identifier(
                        FlatVariable { id: (1 + gadget.input_indices@[k]) as i64 },
                    ),
                    FlatExpression::Identifier(
                        FlatVariable {
                            id: (1 + gadget.input_indices@[k] + gadget.aux_count + 1) as i64,
                        },
                    ),
                ),
            forall|k: int|
                0 <= k < 256 ==> (#[trigger] statements@[514 + k]) == FlatStatement::Condition(
                    FlatExpression::Identifier(
                        FlatVariable { id: (1 + gadget.current_hash_indices@[k]) as i64 },
                    ),
                    FlatExpression::Identifier(
                        FlatVariable {
                            id: (1 + gadget.current_hash_indices@[k] + gadget.aux_count
                                + 1) as i64,
                        },
                    ),
                ),
            forall|k: int|
                0 <= k < t ==> (#[trigger] statements@[770 + k]) == FlatStatement::Condition(
                    gadget_expr_spec((gadget.constraints@[k]).c@),
                    FlatExpression::Mult(
                        Box::new(gadget_expr_spec(gadget.constraints@[k].a@)),
                        Box::new(gadget_expr_spec(gadget.constraints@[k].b@)),
                    ),
                ),
        decreases gadget.constraints@.len() - t,
    {
        let rhs_a = flat_expression_from_vec(&gadget.constraints[t].a);
        let rhs_b = flat_expression_from_vec(&gadget.constraints[t].b);
        let lhs = flat_expression_from_vec(&gadget.constraints[t].c);
        statements.push(
            FlatStatement::Condition(
                lhs,
                FlatExpression::Mult(Box::new(rhs_a), Box::new(rhs_b)),
            ),
        );
        t = t + 1;
    }
    // return the output subset of the witness
    let mut outputs: Vec<FlatExpression> = Vec::new();
    let mut o: usize = 0;
    while o < gadget.output_indices.len()
        invariant
            gadget.wf(),
            o <= 256,
            outputs@.len() == o,
            forall|k: int|
                0 <= k < o ==> (#[trigger] outputs@[k]) == FlatExpression::Identifier(
                    FlatVariable { id: (1 + gadget.output_indices@[k]) as i64 },
                ),
        decreases gadget.output_indices@.len() - o,
    {
        outputs.push(FlatExpression::Identifier(FlatVariable::new(gadget.output_indices[o])));
        o = o + 1;
    }
    statements.push(FlatStatement::Return(FlatExpressionList { expressions: outputs }));
    FlatFunction { arguments, statements }
}

} // verus!
