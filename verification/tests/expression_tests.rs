use ability_script::game_zones::types::{DamageType, Dice};
use ability_script::parsing::expressions::{
    add_results, apply_unary, AdditiveExpression, BinaryOperation, EvaluationError, Expression,
    ExpressionNode, ExpressionResult, ExpressionType, ParseExpressionError, UnaryExpression,
    UnaryOperation,
};
use ability_script::parsing::symbol_table::{NameNotFound, SymbolTable};
use ability_script::parsing::tokens::{IntToken, StringToken, Tokens};

fn list_of(inner: ExpressionType) -> ExpressionType {
    ExpressionType::List(Box::new(inner))
}

fn integer(n: i32) -> ExpressionNode {
    ExpressionNode::Constant {
        value: ExpressionResult::Integer(n),
        value_type: ExpressionType::Integer,
    }
}

fn boolean(b: bool) -> ExpressionNode {
    ExpressionNode::Constant {
        value: ExpressionResult::Boolean(b),
        value_type: ExpressionType::Boolean,
    }
}

fn integers(items: &[i32]) -> ExpressionNode {
    ExpressionNode::Constant {
        value: ExpressionResult::List(
            items.iter().map(|n| ExpressionResult::Integer(*n)).collect(),
        ),
        value_type: list_of(ExpressionType::Integer),
    }
}

fn booleans(items: &[bool]) -> ExpressionNode {
    ExpressionNode::Constant {
        value: ExpressionResult::List(
            items.iter().map(|b| ExpressionResult::Boolean(*b)).collect(),
        ),
        value_type: list_of(ExpressionType::Boolean),
    }
}

fn symbol(text: &str) -> Tokens {
    Tokens::Symbol(StringToken::from(text))
}

fn binary(left: ExpressionNode, operator: &str, right: ExpressionNode) -> BinaryOperation {
    BinaryOperation { left: Box::new(left), operator: symbol(operator), right: Box::new(right) }
}

fn unary(operator: &str, right: ExpressionNode) -> UnaryOperation {
    UnaryOperation { operator: symbol(operator), right: Box::new(right) }
}

fn additive_error(op: BinaryOperation) -> Option<ParseExpressionError> {
    AdditiveExpression::try_from(op).err()
}

fn unary_error(op: UnaryOperation) -> Option<ParseExpressionError> {
    UnaryExpression::try_from(op).err()
}

#[test]
fn additive_integer_and_integer() {
    assert_eq!(additive_error(binary(integer(1), "+", integer(2))), None);
    assert_eq!(additive_error(binary(integer(1), "-", integer(2))), None);
    assert_eq!(
        additive_error(binary(integer(1), "+!", integer(2))),
        Some(ParseExpressionError::OperandTypesNotSupported)
    );
}

#[test]
fn additive_list_and_scalar() {
    assert_eq!(additive_error(binary(integers(&[1]), "+", integer(2))), None);
    assert_eq!(additive_error(binary(integers(&[1]), "+!", integer(2))), None);
    assert_eq!(additive_error(binary(integers(&[1]), "-", integer(2))), None);
    assert_eq!(additive_error(binary(booleans(&[true]), "+", boolean(false))), None);
}

#[test]
fn additive_scalar_and_list() {
    for operator in ["+", "+!", "-"] {
        assert_eq!(
            additive_error(binary(integer(7), operator, integers(&[7]))),
            Some(ParseExpressionError::MismatchedOperands)
        );
    }
}

#[test]
fn additive_list_and_list() {
    for operator in ["+", "+!", "-"] {
        assert_eq!(additive_error(binary(integers(&[1]), operator, integers(&[2]))), None);
        assert_eq!(
            additive_error(binary(integers(&[1]), operator, booleans(&[true]))),
            Some(ParseExpressionError::MismatchedOperands)
        );
    }
}

#[test]
fn additive_list_and_scalar_of_another_type() {
    assert_eq!(
        additive_error(binary(integers(&[1]), "+", boolean(true))),
        Some(ParseExpressionError::MismatchedOperands)
    );
}

#[test]
fn additive_scalars_that_are_no_integers() {
    assert_eq!(
        additive_error(binary(boolean(true), "+", boolean(false))),
        Some(ParseExpressionError::OperandTypesNotSupported)
    );
    assert_eq!(
        additive_error(binary(boolean(true), "+", integer(1))),
        Some(ParseExpressionError::MismatchedOperands)
    );
    // `+!` is turned down before the types are compared.
    assert_eq!(
        additive_error(binary(boolean(true), "+!", integer(1))),
        Some(ParseExpressionError::OperandTypesNotSupported)
    );
}

fn nested() -> ExpressionNode {
    ExpressionNode::Constant {
        value: ExpressionResult::List(vec![ExpressionResult::List(vec![])]),
        value_type: list_of(list_of(ExpressionType::Integer)),
    }
}

#[test]
fn additive_only_one_list_level_is_unwrapped() {
    assert_eq!(additive_error(binary(nested(), "+", nested())), None);
    // A list on the right is unwrapped too, so it cannot be added as one item.
    assert_eq!(
        additive_error(binary(nested(), "+", integers(&[1]))),
        Some(ParseExpressionError::MismatchedOperands)
    );
    assert_eq!(
        additive_error(binary(nested(), "+", integer(1))),
        Some(ParseExpressionError::MismatchedOperands)
    );
}

#[test]
fn additive_invalid_operator() {
    assert_eq!(
        additive_error(binary(integer(1), "*", integer(2))),
        Some(ParseExpressionError::InvalidOperator)
    );
    assert_eq!(
        additive_error(binary(integer(1), "++", integer(2))),
        Some(ParseExpressionError::InvalidOperator)
    );
    let wrong_kind = BinaryOperation {
        left: Box::new(integer(1)),
        operator: Tokens::Identifier(StringToken::from("+")),
        right: Box::new(integer(2)),
    };
    assert_eq!(additive_error(wrong_kind), Some(ParseExpressionError::InvalidOperator));
    let wrong_kind = BinaryOperation {
        left: Box::new(integer(1)),
        operator: Tokens::Numeric(IntToken::try_from("1").unwrap()),
        right: Box::new(integer(2)),
    };
    assert_eq!(additive_error(wrong_kind), Some(ParseExpressionError::InvalidOperator));
    // The operator is looked at before the operands.
    assert_eq!(
        additive_error(binary(integer(7), "*", integers(&[7]))),
        Some(ParseExpressionError::InvalidOperator)
    );
}

#[test]
fn additive_type_is_integer() {
    let sum = AdditiveExpression::try_from(binary(integer(1), "+", integer(2))).unwrap();
    assert_eq!(sum.get_type(), ExpressionType::Integer);
    let joined = AdditiveExpression::try_from(binary(integers(&[1]), "+", integer(2))).unwrap();
    assert_eq!(joined.get_type(), ExpressionType::Integer);
}

#[test]
fn evaluate_sum() {
    let table = SymbolTable::new();
    let sum = AdditiveExpression::try_from(binary(integer(2), "+", integer(3))).unwrap();
    assert_eq!(sum.evaluate(&table), Ok(ExpressionResult::Integer(5)));
    // A validated expression can be evaluated again.
    assert_eq!(sum.evaluate(&table), Ok(ExpressionResult::Integer(5)));
}

#[test]
fn evaluate_list_and_scalar() {
    let table = SymbolTable::new();
    let joined = AdditiveExpression::try_from(binary(integers(&[1]), "+", integer(2))).unwrap();
    assert_eq!(
        joined.evaluate(&table),
        Ok(ExpressionResult::List(vec![
            ExpressionResult::Integer(1),
            ExpressionResult::Integer(2)
        ]))
    );
}

#[test]
fn evaluate_list_and_list() {
    let table = SymbolTable::new();
    let joined =
        AdditiveExpression::try_from(binary(integers(&[1]), "+", integers(&[2]))).unwrap();
    assert_eq!(
        joined.evaluate(&table),
        Ok(ExpressionResult::List(vec![
            ExpressionResult::Integer(1),
            ExpressionResult::Integer(2)
        ]))
    );
    let joined =
        AdditiveExpression::try_from(binary(integers(&[3, 1]), "+", integers(&[2, 3]))).unwrap();
    assert_eq!(
        joined.evaluate(&table),
        Ok(ExpressionResult::List(vec![
            ExpressionResult::Integer(3),
            ExpressionResult::Integer(1),
            ExpressionResult::Integer(2),
            ExpressionResult::Integer(3)
        ]))
    );
    let joined = AdditiveExpression::try_from(binary(integers(&[]), "+", integers(&[]))).unwrap();
    assert_eq!(joined.evaluate(&table), Ok(ExpressionResult::List(vec![])));
}

#[test]
fn evaluate_does_not_look_at_the_operator() {
    let table = SymbolTable::new();
    let minus = AdditiveExpression::try_from(binary(integer(5), "-", integer(3))).unwrap();
    assert_eq!(minus.evaluate(&table), Ok(ExpressionResult::Integer(8)));
    for operator in ["+!", "-"] {
        let joined =
            AdditiveExpression::try_from(binary(integers(&[1]), operator, integers(&[1])))
                .unwrap();
        assert_eq!(
            joined.evaluate(&table),
            Ok(ExpressionResult::List(vec![
                ExpressionResult::Integer(1),
                ExpressionResult::Integer(1)
            ]))
        );
    }
}

#[test]
fn evaluate_overflow() {
    let table = SymbolTable::new();
    let sum = AdditiveExpression::try_from(binary(integer(i32::MAX), "+", integer(1))).unwrap();
    assert_eq!(sum.evaluate(&table), Err(EvaluationError::Overflow));
    let sum = AdditiveExpression::try_from(binary(integer(i32::MIN), "+", integer(-1))).unwrap();
    assert_eq!(sum.evaluate(&table), Err(EvaluationError::Overflow));
    let sum = AdditiveExpression::try_from(binary(integer(i32::MAX), "+", integer(0))).unwrap();
    assert_eq!(sum.evaluate(&table), Ok(ExpressionResult::Integer(i32::MAX)));
    let sum = AdditiveExpression::try_from(binary(integer(i32::MIN), "+", integer(i32::MAX)))
        .unwrap();
    assert_eq!(sum.evaluate(&table), Ok(ExpressionResult::Integer(-1)));
}

#[test]
fn evaluate_nested() {
    let table = SymbolTable::new();
    let inner = AdditiveExpression::try_from(binary(integer(1), "+", integer(2))).unwrap();
    let outer =
        AdditiveExpression::try_from(binary(ExpressionNode::Additive(inner), "+", integer(3)))
            .unwrap();
    assert_eq!(outer.evaluate(&table), Ok(ExpressionResult::Integer(6)));
}

#[test]
fn evaluate_variable() {
    let table = SymbolTable::new()
        .bind(String::from("x"), ExpressionResult::Integer(40))
        .bind(String::from("hits"), ExpressionResult::List(vec![ExpressionResult::Integer(1)]));
    let x = ExpressionNode::Variable {
        name: String::from("x"),
        value_type: ExpressionType::Integer,
    };
    assert_eq!(x.get_type(), ExpressionType::Integer);
    assert_eq!(x.evaluate(&table), Ok(ExpressionResult::Integer(40)));
    let sum = AdditiveExpression::try_from(binary(x, "+", integer(2))).unwrap();
    assert_eq!(sum.evaluate(&table), Ok(ExpressionResult::Integer(42)));
    let hits = ExpressionNode::Variable {
        name: String::from("hits"),
        value_type: list_of(ExpressionType::Integer),
    };
    let more = AdditiveExpression::try_from(binary(hits, "+", integer(2))).unwrap();
    assert_eq!(
        more.evaluate(&table),
        Ok(ExpressionResult::List(vec![
            ExpressionResult::Integer(1),
            ExpressionResult::Integer(2)
        ]))
    );
    // The table is only read.
    assert_eq!(table.lookup("x"), Ok(ExpressionResult::Integer(40)));
}

#[test]
fn evaluate_unbound_variable() {
    let table = SymbolTable::new().bind(String::from("x"), ExpressionResult::Integer(40));
    let y = ExpressionNode::Variable {
        name: String::from("y"),
        value_type: ExpressionType::Integer,
    };
    assert_eq!(y.evaluate(&table), Err(EvaluationError::NameNotFound));
    let y = ExpressionNode::Variable {
        name: String::from("y"),
        value_type: ExpressionType::Integer,
    };
    let sum = AdditiveExpression::try_from(binary(integer(1), "+", y)).unwrap();
    assert_eq!(sum.evaluate(&table), Err(EvaluationError::NameNotFound));
}

#[test]
fn evaluate_left_operand_fails_first() {
    let table = SymbolTable::new();
    let y = ExpressionNode::Variable {
        name: String::from("y"),
        value_type: ExpressionType::Integer,
    };
    let overflow =
        AdditiveExpression::try_from(binary(integer(i32::MAX), "+", integer(1))).unwrap();
    let both =
        AdditiveExpression::try_from(binary(ExpressionNode::Additive(overflow), "+", y)).unwrap();
    assert_eq!(both.evaluate(&table), Err(EvaluationError::Overflow));
}

#[test]
fn evaluate_value_of_another_type_is_an_internal_fault() {
    let table = SymbolTable::new();
    // The name is declared as an integer but bound to a boolean.
    let table = table.bind(String::from("x"), ExpressionResult::Boolean(true));
    let x = ExpressionNode::Variable {
        name: String::from("x"),
        value_type: ExpressionType::Integer,
    };
    let sum = AdditiveExpression::try_from(binary(x, "+", integer(1))).unwrap();
    assert_eq!(sum.evaluate(&table), Err(EvaluationError::InternalFault));
    let x = ExpressionNode::Variable {
        name: String::from("x"),
        value_type: ExpressionType::Integer,
    };
    let sum = AdditiveExpression::try_from(binary(integer(1), "+", x)).unwrap();
    assert_eq!(sum.evaluate(&table), Err(EvaluationError::InternalFault));
}

#[test]
fn evaluate_list_behind_the_integer_type_of_an_addition() {
    let table = SymbolTable::new();
    // An additive expression reports the integer type also where it joins
    // lists, so negating it passes validation and fails when evaluated.
    let joined = AdditiveExpression::try_from(binary(integers(&[1]), "+", integer(2))).unwrap();
    let negated = UnaryExpression::try_from(unary("-", ExpressionNode::Additive(joined))).unwrap();
    assert_eq!(negated.evaluate(&table), Err(EvaluationError::InternalFault));
}

#[test]
fn unary_validation() {
    assert_eq!(unary_error(unary("-", integer(1))), None);
    assert_eq!(unary_error(unary("^", integer(1))), None);
    assert_eq!(unary_error(unary("~", boolean(true))), None);
    assert_eq!(
        unary_error(unary("-", boolean(true))),
        Some(ParseExpressionError::OperandTypesNotSupported)
    );
    assert_eq!(
        unary_error(unary("^", boolean(true))),
        Some(ParseExpressionError::OperandTypesNotSupported)
    );
    assert_eq!(
        unary_error(unary("~", integer(1))),
        Some(ParseExpressionError::OperandTypesNotSupported)
    );
    assert_eq!(
        unary_error(unary("-", integers(&[1]))),
        Some(ParseExpressionError::OperandTypesNotSupported)
    );
    assert_eq!(
        unary_error(unary("!", boolean(true))),
        Some(ParseExpressionError::InvalidOperator)
    );
    assert_eq!(
        unary_error(unary("+", integer(1))),
        Some(ParseExpressionError::InvalidOperator)
    );
    let wrong_kind = UnaryOperation {
        operator: Tokens::Identifier(StringToken::from("-")),
        right: Box::new(integer(1)),
    };
    assert_eq!(unary_error(wrong_kind), Some(ParseExpressionError::InvalidOperator));
    let wrong_kind = UnaryOperation { operator: Tokens::EOF, right: Box::new(integer(1)) };
    assert_eq!(unary_error(wrong_kind), Some(ParseExpressionError::InvalidOperator));
}

#[test]
fn unary_type_is_that_of_the_operand() {
    let negated = UnaryExpression::try_from(unary("-", integer(1))).unwrap();
    assert_eq!(negated.get_type(), ExpressionType::Integer);
    let inverted = UnaryExpression::try_from(unary("~", boolean(true))).unwrap();
    assert_eq!(inverted.get_type(), ExpressionType::Boolean);
    assert_eq!(ExpressionNode::Unary(inverted).get_type(), ExpressionType::Boolean);
}

#[test]
fn unary_evaluation() {
    let table = SymbolTable::new();
    let negated = UnaryExpression::try_from(unary("-", integer(5))).unwrap();
    assert_eq!(negated.evaluate(&table), Ok(ExpressionResult::Integer(-5)));
    let negated = UnaryExpression::try_from(unary("-", integer(i32::MAX))).unwrap();
    assert_eq!(negated.evaluate(&table), Ok(ExpressionResult::Integer(-i32::MAX)));
    let negated = UnaryExpression::try_from(unary("-", integer(i32::MIN))).unwrap();
    assert_eq!(negated.evaluate(&table), Err(EvaluationError::Overflow));
    let inverted = UnaryExpression::try_from(unary("~", boolean(true))).unwrap();
    assert_eq!(inverted.evaluate(&table), Ok(ExpressionResult::Boolean(false)));
    let inverted = UnaryExpression::try_from(unary("~", boolean(false))).unwrap();
    assert_eq!(inverted.evaluate(&table), Ok(ExpressionResult::Boolean(true)));
    let twice =
        UnaryExpression::try_from(unary("~", ExpressionNode::Unary(inverted))).unwrap();
    assert_eq!(twice.evaluate(&table), Ok(ExpressionResult::Boolean(false)));
    let raised = UnaryExpression::try_from(unary("^", integer(5))).unwrap();
    assert_eq!(raised.evaluate(&table), Err(EvaluationError::UnspecifiedOperator));
}

#[test]
fn add_results_on_values() {
    assert_eq!(
        add_results(ExpressionResult::Integer(2), ExpressionResult::Integer(3)),
        Ok(ExpressionResult::Integer(5))
    );
    assert_eq!(
        add_results(ExpressionResult::Integer(2), ExpressionResult::Boolean(true)),
        Err(EvaluationError::InternalFault)
    );
    assert_eq!(
        add_results(ExpressionResult::Boolean(true), ExpressionResult::Integer(3)),
        Err(EvaluationError::InternalFault)
    );
    assert_eq!(
        add_results(
            ExpressionResult::Dice(Dice::try_from("d4").unwrap()),
            ExpressionResult::Integer(3)
        ),
        Err(EvaluationError::InternalFault)
    );
    assert_eq!(
        add_results(
            ExpressionResult::List(vec![ExpressionResult::DamageType(DamageType::Fire)]),
            ExpressionResult::DamageType(DamageType::Ice)
        ),
        Ok(ExpressionResult::List(vec![
            ExpressionResult::DamageType(DamageType::Fire),
            ExpressionResult::DamageType(DamageType::Ice)
        ]))
    );
}

#[test]
fn apply_unary_on_values() {
    assert_eq!(apply_unary("-", ExpressionResult::Integer(0)), Ok(ExpressionResult::Integer(0)));
    assert_eq!(
        apply_unary("-", ExpressionResult::Boolean(true)),
        Err(EvaluationError::InternalFault)
    );
    assert_eq!(
        apply_unary("~", ExpressionResult::Integer(1)),
        Err(EvaluationError::InternalFault)
    );
    assert_eq!(
        apply_unary("^", ExpressionResult::Integer(1)),
        Err(EvaluationError::UnspecifiedOperator)
    );
}

#[test]
fn expression_type_equality_and_clone() {
    let a = list_of(list_of(ExpressionType::Dice));
    assert_eq!(a.clone(), a);
    assert!(a.same_as(&list_of(list_of(ExpressionType::Dice))));
    assert!(!a.same_as(&list_of(ExpressionType::Dice)));
    assert_ne!(a, list_of(list_of(ExpressionType::DamageType)));
    assert_ne!(ExpressionType::Integer, ExpressionType::Boolean);
    assert_eq!(ExpressionType::DamageType, ExpressionType::DamageType);
}

#[test]
fn expression_result_clone_is_deep() {
    let a = ExpressionResult::List(vec![
        ExpressionResult::List(vec![ExpressionResult::Integer(1)]),
        ExpressionResult::Boolean(true),
    ]);
    assert_eq!(a.clone(), a);
}

#[test]
fn symbol_table_lookup() {
    let table = SymbolTable::new();
    assert_eq!(table.lookup("x"), Err(NameNotFound));
    let table = table
        .bind(String::from("x"), ExpressionResult::Integer(1))
        .bind(String::from("y"), ExpressionResult::Integer(2));
    assert_eq!(table.lookup("x"), Ok(ExpressionResult::Integer(1)));
    assert_eq!(table.lookup("y"), Ok(ExpressionResult::Integer(2)));
    assert_eq!(table.lookup("z"), Err(NameNotFound));
    assert_eq!(table.lookup(""), Err(NameNotFound));
    // A later binding replaces an earlier one.
    let table = table.bind(String::from("x"), ExpressionResult::Integer(3));
    assert_eq!(table.lookup("x"), Ok(ExpressionResult::Integer(3)));
    assert_eq!(table.lookup("y"), Ok(ExpressionResult::Integer(2)));
}
