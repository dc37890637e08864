use zkir::embed::{
    sha256_round, unpack_to_host_bitwidth, FlatEmbed, GadgetConstraint, Sha256RoundGadget,
};
use zkir::field::FieldElem;
use zkir::flat::{
    FlatDirective, FlatExpression, FlatExpressionList, FlatParameter, FlatStatement, FlatVariable,
};
use zkir::solvers::Solver;

#[test]
fn split254() {
    let unpack = unpack_to_host_bitwidth();
    let required_bits = FieldElem::required_bits();

    assert_eq!(
        unpack.arguments,
        vec![FlatParameter::private(FlatVariable::new(0))]
    );
    // one bit check per bit, 1 directive, 1 sum check, 1 return
    assert_eq!(unpack.statements.len(), required_bits + 1 + 1 + 1);
    assert_eq!(
        unpack.statements[0],
        FlatStatement::Directive(FlatDirective::new(
            (0..required_bits)
                .map(|i| FlatVariable::new(i + 1))
                .collect(),
            Solver::Bits(required_bits),
            vec![FlatExpression::Identifier(FlatVariable::new(0))]
        ))
    );
    assert_eq!(
        *unpack.statements.last().unwrap(),
        FlatStatement::Return(FlatExpressionList {
            expressions: (0..required_bits)
                .map(|i| FlatExpression::Identifier(FlatVariable::new(i + 1)))
                .collect()
        })
    );
}

/// A stand-in for the external gadget generator's output, with the variable
/// counts the real SHA-256 round produces but only a few sample constraints:
/// the generator itself lives in an external library.
fn sample_gadget() -> Sha256RoundGadget {
    let one = FieldElem::from_u64(1);
    Sha256RoundGadget {
        aux_count: 26934,
        constraints: vec![
            GadgetConstraint {
                a: vec![(1, one)],
                b: vec![(2, one)],
                c: vec![(3, one)],
            },
            GadgetConstraint {
                a: vec![(3, one), (4, one)],
                b: vec![(0, one)],
                c: vec![(5, one)],
            },
        ],
        input_indices: (1..513).collect(),
        current_hash_indices: (513..769).collect(),
        output_indices: (1..257).collect(),
    }
}

#[test]
fn generate_sha256_constraints() {
    let compiled = sha256_round(&sample_gadget());

    // function should have 768 inputs
    assert_eq!(compiled.arguments.len(), 768);

    // function should return 256 values
    assert_eq!(
        compiled
            .statements
            .iter()
            .filter_map(|s| match s {
                FlatStatement::Return(v) => Some(v),
                _ => None,
            })
            .next()
            .unwrap()
            .expressions
            .len(),
        256,
    );

    // directive should take 768 inputs and return n_var outputs
    let directive = compiled
        .statements
        .iter()
        .filter_map(|s| match s {
            FlatStatement::Directive(d) => Some(d.clone()),
            _ => None,
        })
        .next()
        .unwrap();
    assert_eq!(directive.inputs.len(), 768);
    assert_eq!(directive.outputs.len(), 26935);
    // function input should be offset by variable_count
    assert_eq!(
        compiled.arguments[0].id,
        FlatVariable::new(directive.outputs.len() + 1)
    );

    // constraint-system variable #0: index 0 should equal 1
    assert_eq!(
        compiled.statements[1],
        FlatStatement::Condition(
            FlatExpression::Identifier(FlatVariable::new(0)),
            FlatExpression::Number(FieldElem::from_u64(1))
        )
    );

    // cs input #0: index 1 should equal function input #0: index v_count
    assert_eq!(
        compiled.statements[2],
        FlatStatement::Condition(
            FlatExpression::Identifier(FlatVariable::new(1)),
            FlatExpression::Identifier(FlatVariable::new(26936))
        )
    );
}

#[test]
fn unpack_zero_width() {
    // the degenerate width is accepted: a directive binding no bits, the
    // sum check forcing the argument to zero, and an empty return
    let unpack = zkir::embed::unpack_to_bitwidth(0);
    assert_eq!(unpack.statements.len(), 3);
    match &unpack.statements[2] {
        FlatStatement::Return(l) => assert_eq!(l.expressions.len(), 0),
        other => panic!("expected a return, got {:?}", other),
    }
}

#[test]
fn embed_ids() {
    assert_eq!(FlatEmbed::Sha256Round.id(), "_SHA256_ROUND");
    assert_eq!(FlatEmbed::Unpack.id(), "_UNPACK");
    assert_eq!(FlatEmbed::CheckU8.id(), "_CHECK_U8");
    assert_eq!(FlatEmbed::CheckU16.id(), "_CHECK_U16");
    assert_eq!(FlatEmbed::CheckU32.id(), "_CHECK_U32");
    assert_eq!(FlatEmbed::U8ToBits.id(), "_U8_TO_BITS");
    assert_eq!(FlatEmbed::U16ToBits.id(), "_U16_TO_BITS");
    assert_eq!(FlatEmbed::U32ToBits.id(), "_U32_TO_BITS");
    assert_eq!(FlatEmbed::U32FromBits.id(), "_U32_FROM_BITS");
    assert_eq!(FlatEmbed::Unpack.key().id, "_UNPACK");
}

#[test]
fn unpack_booleanity_and_sum() {
    // for a small width, check the booleanity constraints and the sum check
    let unpack = FlatEmbed::CheckU8.synthetize(&sample_gadget());
    assert_eq!(unpack.statements.len(), 8 + 3);
    // bit constraints run over o8 .. o1, high bit first
    for index in 0..8usize {
        let bit = FlatExpression::Identifier(FlatVariable::new(8 - index));
        assert_eq!(
            unpack.statements[1 + index],
            FlatStatement::Condition(
                bit.clone(),
                FlatExpression::Mult(Box::new(bit.clone()), Box::new(bit)),
            )
        );
    }
    // the sum check multiplies the argument by one
    match &unpack.statements[9] {
        FlatStatement::Condition(_lhs, rhs) => {
            assert_eq!(
                *rhs,
                FlatExpression::Mult(
                    Box::new(FlatExpression::Identifier(FlatVariable::new(0))),
                    Box::new(FlatExpression::Number(FieldElem::from_u64(1))),
                )
            );
        }
        other => panic!("expected a condition, got {:?}", other),
    }
}
