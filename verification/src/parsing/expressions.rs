//! Expressions: their static types, the rules that a raw operation must meet
//! to become an expression, and their evaluation.

use crate::game_zones::types::{DamageType, Dice};
use crate::parsing::symbol_table::SymbolTable;
use crate::parsing::tokens::{Lexeme, Token, Tokens};
use crate::text::same_text;
use vstd::prelude::*;
use vstd::std_specs::cmp::PartialEqSpecImpl;
use vstd::std_specs::convert::TryFromSpecImpl;

verus! {

/// The static type of an expression. It is used to check operations before
/// anything is evaluated, and never stored with a value.
#[derive(Debug, Eq)]
pub enum ExpressionType {
    Integer,
    Boolean,
    DamageType,
    Dice,
    List(Box<ExpressionType>),
}

impl ExpressionType {
    fn duplicate(&self) -> (copy: Self)
        ensures
            copy == *self,
        decreases self,
    {
        match self {
            ExpressionType::Integer => ExpressionType::Integer,
            ExpressionType::Boolean => ExpressionType::Boolean,
            ExpressionType::DamageType => ExpressionType::DamageType,
            ExpressionType::Dice => ExpressionType::Dice,
            ExpressionType::List(inner) => ExpressionType::List(Box::new(inner.duplicate())),
        }
    }

    /// Whether `self` and `other` are the same type.
    pub fn same_as(&self, other: &Self) -> (same: bool)
        ensures
            same == (*self == *other),
        decreases self,
    {
        match (self, other) {
            (ExpressionType::Integer, ExpressionType::Integer) => true,
            (ExpressionType::Boolean, ExpressionType::Boolean) => true,
            (ExpressionType::DamageType, ExpressionType::DamageType) => true,
            (ExpressionType::Dice, ExpressionType::Dice) => true,
            (ExpressionType::List(a), ExpressionType::List(b)) => a.same_as(b),
            _ => false,
        }
    }
}

impl Clone for ExpressionType {
    fn clone(&self) -> (copy: Self)
        ensures
            copy == *self,
    {
        self.duplicate()
    }
}

impl PartialEq for ExpressionType {
    fn eq(&self, other: &Self) -> (same: bool) {
        self.same_as(other)
    }
}

impl PartialEqSpecImpl for ExpressionType {
    open spec fn obeys_eq_spec() -> bool {
        true
    }

    open spec fn eq_spec(&self, other: &Self) -> bool {
        *self == *other
    }
}

/// The value of an expression.
#[derive(Debug, PartialEq, Eq)]
pub enum ExpressionResult {
    Integer(i32),
    Boolean(bool),
    DamageType(DamageType),
    Dice(Dice),
    List(Vec<ExpressionResult>),
}

/// What a value is, apart from how it is stored.
pub enum Value {
    Integer(i32),
    Boolean(bool),
    DamageType(DamageType),
    Dice(Dice),
    List(Seq<Value>),
}

/// What the stored value `result` is: a list is the sequence of what its
/// items are.
pub open spec fn value_of(result: ExpressionResult) -> Value
    decreases result,
{
    match result {
        ExpressionResult::Integer(n) => Value::Integer(n),
        ExpressionResult::Boolean(b) => Value::Boolean(b),
        ExpressionResult::DamageType(d) => Value::DamageType(d),
        ExpressionResult::Dice(d) => Value::Dice(d),
        ExpressionResult::List(items) => Value::List(
            Seq::new(
                items@.len(),
                |i: int|
                    if 0 <= i < items@.len() {
                        value_of(items@[i])
                    } else {
                        Value::List(Seq::empty())
                    },
            ),
        ),
    }
}

impl View for ExpressionResult {
    type V = Value;

    open spec fn view(&self) -> Value {
        value_of(*self)
    }
}

/// What each value of a sequence is, in order.
pub open spec fn values_of(items: Seq<ExpressionResult>) -> Seq<Value> {
    Seq::new(items.len(), |i: int| items[i]@)
}

/// A stored list is the list of what its items are.
pub proof fn lemma_list_view(items: Vec<ExpressionResult>)
    ensures
        ExpressionResult::List(items)@ == Value::List(values_of(items@)),
{
    let v = value_of(ExpressionResult::List(items));
    assert(v is List);
    assert(v->List_0.len() == items@.len());
    assert(v->List_0 =~= values_of(items@));
}

impl ExpressionResult {
    fn duplicate(&self) -> (copy: Self)
        ensures
            copy@ == self@,
        decreases self,
    {
        match self {
            ExpressionResult::Integer(n) => ExpressionResult::Integer(*n),
            ExpressionResult::Boolean(b) => ExpressionResult::Boolean(*b),
            ExpressionResult::DamageType(d) => ExpressionResult::DamageType(*d),
            ExpressionResult::Dice(d) => ExpressionResult::Dice(*d),
            ExpressionResult::List(items) => {
                let copies = Self::duplicate_all(items);
                proof {
                    lemma_list_view(*items);
                    lemma_list_view(copies);
                }
                ExpressionResult::List(copies)
            },
        }
    }

    fn duplicate_all(items: &Vec<ExpressionResult>) -> (copies: Vec<ExpressionResult>)
        ensures
            values_of(copies@) == values_of(items@),
        decreases items,
    {
        let mut copies: Vec<ExpressionResult> = Vec::new();
        let mut i: usize = 0;
        while i < items.len()
            invariant
                0 <= i <= items.len(),
                copies.len() == i,
                forall|j: int| 0 <= j < i ==> (#[trigger] copies@[j])@ == items@[j]@,
            decreases items.len() - i,
        {
            proof {
                vstd::std_specs::vec::axiom_vec_index_decreases(*items, i as int);
            }
            let copy = items[i].duplicate();
            copies.push(copy);
            i = i + 1;
        }
        assert(values_of(copies@) =~= values_of(items@));
        copies
    }
}

impl Clone for ExpressionResult {
    fn clone(&self) -> (copy: Self)
        ensures
            copy@ == self@,
    {
        self.duplicate()
    }
}

/// Why a raw operation is no expression.
#[derive(Debug, Clone, Copy, PartialEq, Eq, Structural)]
pub enum ParseExpressionError {
    /// The two operands have element types that do not go together.
    MismatchedOperands,
    /// The operator is no symbol, or not one that the operation knows.
    InvalidOperator,
    /// The operand types go together, but the operator does not take them.
    OperandTypesNotSupported,
}

/// Why an expression has no value.
#[derive(Debug, Clone, Copy, PartialEq, Eq, Structural)]
pub enum EvaluationError {
    /// The result does not fit into a 32-bit signed integer.
    Overflow,
    /// A name is bound to no value.
    NameNotFound,
    /// The operator passes validation, but what it computes has not been laid
    /// down.
    UnspecifiedOperator,
    /// An operand has a value that its static type rules out: a fault of the
    /// evaluator or of whoever built the expression, not of the script.
    InternalFault,
}

/// What can be asked of every expression: its static type and its value.
pub trait Expression {
    /// The static type of the expression.
    spec fn static_type(&self) -> ExpressionType;

    /// The value of the expression under the bindings `table`.
    spec fn outcome(&self, table: Map<Seq<char>, Value>) -> Result<Value, EvaluationError>;

    /// The static type of the expression.
    fn get_type(&self) -> (t: ExpressionType)
        ensures
            t == self.static_type(),
    ;

    /// Evaluates the expression. Nothing is changed, and the value is newly
    /// made.
    fn evaluate(&self, symbol_table: &SymbolTable) -> (r: Result<ExpressionResult, EvaluationError>)
        ensures
            match r {
                Ok(value) => self.outcome(symbol_table@) == Ok::<Value, EvaluationError>(value@),
                Err(e) => self.outcome(symbol_table@) == Err::<Value, EvaluationError>(e),
            },
    ;
}

/// An expression: a constant, a name, or a validated operation on
/// expressions.
#[derive(Debug)]
pub enum ExpressionNode {
    /// A value that is written out, with the type it was written as.
    Constant { value: ExpressionResult, value_type: ExpressionType },
    /// A name, with the type of what it is declared to stand for.
    Variable { name: String, value_type: ExpressionType },
    /// An addition, concatenation or removal.
    Additive(AdditiveExpression),
    /// A negation or inversion.
    Unary(UnaryExpression),
}

/// Two operands and an operator between them, as the statement parser found
/// them: nothing has been checked yet.
#[derive(Debug)]
pub struct BinaryOperation {
    pub left: Box<ExpressionNode>,
    pub operator: Tokens,
    pub right: Box<ExpressionNode>,
}

/// An operator and its operand, as the statement parser found them: nothing
/// has been checked yet.
#[derive(Debug)]
pub struct UnaryOperation {
    pub operator: Tokens,
    pub right: Box<ExpressionNode>,
}

/// A binary operation by `+`, `+!` or `-` whose operand types go together.
#[derive(Debug)]
pub struct AdditiveExpression {
    op: BinaryOperation,
}

/// A unary operation by `-`, `~` or `^` whose operand type fits the operator.
#[derive(Debug)]
pub struct UnaryExpression {
    op: UnaryOperation,
}

/// The type of what a list of type `t` holds; a type that is no list stands
/// for itself. Only one level is unwrapped.
pub open spec fn element_type(t: ExpressionType) -> ExpressionType {
    match t {
        ExpressionType::List(inner) => *inner,
        other => other,
    }
}

/// The text of `operator`, if it is a symbol.
pub open spec fn symbol_text(operator: Lexeme) -> Option<Seq<char>> {
    match operator {
        Lexeme::Symbol { text } => Some(text),
        _ => None,
    }
}

/// Whether `operator` is one of the symbols `+`, `+!` and `-`.
pub open spec fn is_additive_operator(operator: Lexeme) -> bool {
    match symbol_text(operator) {
        Some(text) => text == "+"@ || text == "+!"@ || text == "-"@,
        None => false,
    }
}

/// Whether `operator` is one of the symbols `-`, `~` and `^`.
pub open spec fn is_unary_operator(operator: Lexeme) -> bool {
    match symbol_text(operator) {
        Some(text) => text == "-"@ || text == "~"@ || text == "^"@,
        None => false,
    }
}

/// Whether operands of the types `left` and `right` can be joined by
/// `operator`, and otherwise the first reason why they cannot.
pub open spec fn additive_rule(
    left: ExpressionType,
    operator: Lexeme,
    right: ExpressionType,
) -> Result<(), ParseExpressionError> {
    let any_list = left is List || right is List;
    if !is_additive_operator(operator) {
        Err(ParseExpressionError::InvalidOperator)
    } else if !(left is List) && right is List {
        Err(ParseExpressionError::MismatchedOperands)
    } else if !any_list && symbol_text(operator) == Some("+!"@) {
        Err(ParseExpressionError::OperandTypesNotSupported)
    } else if element_type(left) == ExpressionType::Integer && element_type(right)
        == ExpressionType::Integer {
        Ok(())
    } else if any_list && element_type(left) == element_type(right) {
        Ok(())
    } else if element_type(left) != element_type(right) {
        Err(ParseExpressionError::MismatchedOperands)
    } else {
        Err(ParseExpressionError::OperandTypesNotSupported)
    }
}

/// Whether `operator` can be applied to an operand of the type `operand`, and
/// otherwise the reason why it cannot: `-` and `^` take an integer, `~` takes
/// a boolean.
pub open spec fn unary_rule(operator: Lexeme, operand: ExpressionType) -> Result<
    (),
    ParseExpressionError,
> {
    if !is_unary_operator(operator) {
        Err(ParseExpressionError::InvalidOperator)
    } else if (symbol_text(operator) == Some("-"@) || symbol_text(operator) == Some("^"@))
        && operand != ExpressionType::Integer {
        Err(ParseExpressionError::OperandTypesNotSupported)
    } else if symbol_text(operator) == Some("~"@) && operand != ExpressionType::Boolean {
        Err(ParseExpressionError::OperandTypesNotSupported)
    } else {
        Ok(())
    }
}

/// Whether the value `v` is one of the type `t`. Every item of a list has the
/// list's element type.
pub open spec fn has_type(v: Value, t: ExpressionType) -> bool
    decreases v,
{
    match v {
        Value::Integer(_) => t == ExpressionType::Integer,
        Value::Boolean(_) => t == ExpressionType::Boolean,
        Value::DamageType(_) => t == ExpressionType::DamageType,
        Value::Dice(_) => t == ExpressionType::Dice,
        Value::List(items) => match t {
            ExpressionType::List(inner) => forall|i: int|
                0 <= i < items.len() ==> has_type(#[trigger] items[i], *inner),
            _ => false,
        },
    }
}

/// What adding gives for two values: two integers are summed, and to a list
/// the items of a second list, or else the one second value, are appended.
/// The operator has no part in it.
pub open spec fn added(left: Value, right: Value) -> Result<Value, EvaluationError> {
    match left {
        Value::Integer(a) => match right {
            Value::Integer(b) => if i32::MIN <= a + b <= i32::MAX {
                Ok(Value::Integer((a + b) as i32))
            } else {
                Err(EvaluationError::Overflow)
            },
            _ => Err(EvaluationError::InternalFault),
        },
        Value::List(items) => match right {
            Value::List(more) => Ok(Value::List(items + more)),
            single => Ok(Value::List(items.push(single))),
        },
        _ => Err(EvaluationError::InternalFault),
    }
}

/// What an additive operation gives for the outcomes of its operands, the
/// left one first.
pub open spec fn additive_outcome(
    left: Result<Value, EvaluationError>,
    right: Result<Value, EvaluationError>,
) -> Result<Value, EvaluationError> {
    match left {
        Err(e) => Err(e),
        Ok(l) => match right {
            Err(e) => Err(e),
            Ok(r) => added(l, r),
        },
    }
}

/// What the unary operator written `operator` gives for a value: `-` negates
/// an integer and `~` inverts a boolean. What `^` computes has not been laid
/// down, so it gives no value.
pub open spec fn applied(operator: Seq<char>, operand: Value) -> Result<Value, EvaluationError> {
    if operator == "-"@ {
        match operand {
            Value::Integer(a) => if a == i32::MIN {
                Err(EvaluationError::Overflow)
            } else {
                Ok(Value::Integer((-a) as i32))
            },
            _ => Err(EvaluationError::InternalFault),
        }
    } else if operator == "~"@ {
        match operand {
            Value::Boolean(b) => Ok(Value::Boolean(!b)),
            _ => Err(EvaluationError::InternalFault),
        }
    } else {
        Err(EvaluationError::UnspecifiedOperator)
    }
}

/// What a unary operation gives for the outcome of its operand.
pub open spec fn unary_outcome(operator: Lexeme, operand: Result<Value, EvaluationError>) -> Result<
    Value,
    EvaluationError,
> {
    match operand {
        Err(e) => Err(e),
        Ok(v) => applied(operator.text(), v),
    }
}

/// Where the operand types have passed the additive rule and the operands
/// have values of those types, adding them is no internal fault.
pub proof fn lemma_validated_addition_is_sound(
    left: ExpressionType,
    operator: Lexeme,
    right: ExpressionType,
    l: Value,
    r: Value,
)
    requires
        additive_rule(left, operator, right) is Ok,
        has_type(l, left),
        has_type(r, right),
    ensures
        added(l, r) != Err::<Value, EvaluationError>(EvaluationError::InternalFault),
{
}

/// Where the operand type has passed the unary rule and the operand has a
/// value of that type, applying the operator is no internal fault.
pub proof fn lemma_validated_unary_is_sound(operator: Lexeme, operand: ExpressionType, v: Value)
    requires
        unary_rule(operator, operand) is Ok,
        has_type(v, operand),
    ensures
        applied(operator.text(), v) != Err::<Value, EvaluationError>(
            EvaluationError::InternalFault,
        ),
{
}

/// The additive rule accepts exactly these operations: the operator is one of
/// the three, no list stands to the right of a value that is none, `+!` has a
/// list among its operands, and the element types are both integer, or equal
/// with a list among the operands.
pub proof fn lemma_additive_rule_accepts(
    left: ExpressionType,
    operator: Lexeme,
    right: ExpressionType,
)
    ensures
        additive_rule(left, operator, right) is Ok <==> {
            &&& is_additive_operator(operator)
            &&& right is List ==> left is List
            &&& symbol_text(operator) == Some("+!"@) ==> left is List || right is List
            &&& {
                ||| element_type(left) == ExpressionType::Integer && element_type(right)
                    == ExpressionType::Integer
                ||| (left is List || right is List) && element_type(left) == element_type(right)
            }
        },
{
}

impl AdditiveExpression {
    /// The operation that was validated.
    pub closed spec fn operation(&self) -> BinaryOperation {
        self.op
    }

    /// The operand types and the operator have passed the additive rule.
    #[verifier::type_invariant]
    closed spec fn validated(self) -> bool {
        additive_rule(self.op.left.static_type(), self.op.operator@, self.op.right.static_type())
            is Ok
    }
}

impl UnaryExpression {
    /// The operation that was validated.
    pub closed spec fn operation(&self) -> UnaryOperation {
        self.op
    }

    /// The operator and the operand type have passed the unary rule.
    #[verifier::type_invariant]
    closed spec fn validated(self) -> bool {
        unary_rule(self.op.operator@, self.op.right.static_type()) is Ok
    }
}

/// Whether `operator` is the symbol written `text`.
fn is_symbol(operator: &Tokens, text: &str) -> (same: bool)
    ensures
        same == (symbol_text(operator@) == Some(text@)),
{
    match operator {
        Tokens::Symbol(symbol) => same_text(symbol.as_str(), text),
        _ => false,
    }
}

impl TryFrom<BinaryOperation> for AdditiveExpression {
    type Error = ParseExpressionError;

    /// Checks a raw binary operation against the additive rule.
    fn try_from(value: BinaryOperation) -> (r: Result<Self, ParseExpressionError>)
        ensures
            match r {
                Ok(expression) => expression.operation() == value && additive_rule(
                    value.left.static_type(),
                    value.operator@,
                    value.right.static_type(),
                ) is Ok,
                Err(e) => additive_rule(
                    value.left.static_type(),
                    value.operator@,
                    value.right.static_type(),
                ) == Err::<(), ParseExpressionError>(e),
            },
    {
        let concatenates = is_symbol(&value.operator, "+!");
        if !(is_symbol(&value.operator, "+") || concatenates || is_symbol(&value.operator, "-")) {
            return Err(ParseExpressionError::InvalidOperator);
        }
        let left_type = value.left.get_type();
        let right_type = value.right.get_type();
        let (lhs, lh_is_list) = match left_type {
            ExpressionType::List(inner) => (*inner, true),
            other => (other, false),
        };
        let (rhs, rh_is_list) = match right_type {
            ExpressionType::List(inner) => (*inner, true),
            other => (other, false),
        };
        let is_list = lh_is_list || rh_is_list;

        if !lh_is_list && rh_is_list {
            // a list cannot be joined to a value that is none, as in `7 - [7]`
            return Err(ParseExpressionError::MismatchedOperands);
        }
        if !is_list && concatenates {
            // `+!` works on lists only
            return Err(ParseExpressionError::OperandTypesNotSupported);
        }
        let same = lhs == rhs;
        if lhs == ExpressionType::Integer && rhs == ExpressionType::Integer {
        } else if is_list && same {
            // two lists are joined, or one item is added to a list
        } else {
            if !same {
                return Err(ParseExpressionError::MismatchedOperands);
            }
            return Err(ParseExpressionError::OperandTypesNotSupported);
        }
        Ok(AdditiveExpression { op: value })
    }
}

impl TryFromSpecImpl<BinaryOperation> for AdditiveExpression {
    open spec fn obeys_try_from_spec() -> bool {
        true
    }

    closed spec fn try_from_spec(value: BinaryOperation) -> Result<Self, ParseExpressionError> {
        match additive_rule(value.left.static_type(), value.operator@, value.right.static_type()) {
            Ok(_) => Ok(AdditiveExpression { op: value }),
            Err(e) => Err(e),
        }
    }
}

impl TryFrom<UnaryOperation> for UnaryExpression {
    type Error = ParseExpressionError;

    /// Checks a raw unary operation against the unary rule.
    fn try_from(value: UnaryOperation) -> (r: Result<Self, ParseExpressionError>)
        ensures
            match r {
                Ok(expression) => expression.operation() == value && unary_rule(
                    value.operator@,
                    value.right.static_type(),
                ) is Ok,
                Err(e) => unary_rule(value.operator@, value.right.static_type()) == Err::<
                    (),
                    ParseExpressionError,
                >(e),
            },
    {
        let negates = is_symbol(&value.operator, "-");
        let inverts = is_symbol(&value.operator, "~");
        let raises = is_symbol(&value.operator, "^");
        if !(negates || inverts || raises) {
            return Err(ParseExpressionError::InvalidOperator);
        }
        let operand = value.right.get_type();
        if (negates || raises) && operand != ExpressionType::Integer {
            return Err(ParseExpressionError::OperandTypesNotSupported);
        }
        if inverts && operand != ExpressionType::Boolean {
            return Err(ParseExpressionError::OperandTypesNotSupported);
        }
        Ok(UnaryExpression { op: value })
    }
}

impl TryFromSpecImpl<UnaryOperation> for UnaryExpression {
    open spec fn obeys_try_from_spec() -> bool {
        true
    }

    closed spec fn try_from_spec(value: UnaryOperation) -> Result<Self, ParseExpressionError> {
        match unary_rule(value.operator@, value.right.static_type()) {
            Ok(_) => Ok(UnaryExpression { op: value }),
            Err(e) => Err(e),
        }
    }
}

impl Expression for ExpressionNode {
    open spec fn static_type(&self) -> ExpressionType
        decreases self,
    {
        match self {
            ExpressionNode::Constant { value_type, .. } => *value_type,
            ExpressionNode::Variable { value_type, .. } => *value_type,
            ExpressionNode::Additive(e) => e.static_type(),
            ExpressionNode::Unary(e) => e.static_type(),
        }
    }

    open spec fn outcome(&self, table: Map<Seq<char>, Value>) -> Result<Value, EvaluationError>
        decreases self,
    {
        match self {
            ExpressionNode::Constant { value, .. } => Ok(value@),
            ExpressionNode::Variable { name, .. } => if table.contains_key(name@) {
                Ok(table[name@])
            } else {
                Err(EvaluationError::NameNotFound)
            },
            ExpressionNode::Additive(e) => e.outcome(table),
            ExpressionNode::Unary(e) => e.outcome(table),
        }
    }

    fn get_type(&self) -> (t: ExpressionType)
        decreases self,
    {
        match self {
            ExpressionNode::Constant { value_type, .. } => value_type.clone(),
            ExpressionNode::Variable { value_type, .. } => value_type.clone(),
            ExpressionNode::Additive(e) => e.get_type(),
            ExpressionNode::Unary(e) => e.get_type(),
        }
    }

    fn evaluate(&self, symbol_table: &SymbolTable) -> (r: Result<ExpressionResult, EvaluationError>)
        decreases self,
    {
        match self {
            ExpressionNode::Constant { value, .. } => Ok(value.clone()),
            ExpressionNode::Variable { name, .. } => match symbol_table.lookup(name.as_str()) {
                Ok(value) => Ok(value),
                Err(_) => Err(EvaluationError::NameNotFound),
            },
            ExpressionNode::Additive(e) => e.evaluate(symbol_table),
            ExpressionNode::Unary(e) => e.evaluate(symbol_table),
        }
    }
}

/// Adds two values: two integers are summed, and to a list the items of a
/// second list, or else the one second value, are appended.
pub fn add_results(lhs: ExpressionResult, rhs: ExpressionResult) -> (r: Result<
    ExpressionResult,
    EvaluationError,
>)
    ensures
        match r {
            Ok(value) => added(lhs@, rhs@) == Ok::<Value, EvaluationError>(value@),
            Err(e) => added(lhs@, rhs@) == Err::<Value, EvaluationError>(e),
        },
{
    match lhs {
        ExpressionResult::Integer(l) => match rhs {
            ExpressionResult::Integer(r) => match l.checked_add(r) {
                Some(sum) => Ok(ExpressionResult::Integer(sum)),
                None => Err(EvaluationError::Overflow),
            },
            _ => Err(EvaluationError::InternalFault),
        },
        ExpressionResult::List(list) => {
            let mut list = list;
            let ghost before = list;
            proof {
                lemma_list_view(before);
            }
            match rhs {
                ExpressionResult::List(other) => {
                    let mut other = other;
                    proof {
                        lemma_list_view(other);
                    }
                    let ghost more = other@;
                    list.append(&mut other);
                    proof {
                        lemma_list_view(list);
                        assert(values_of(list@) =~= values_of(before@) + values_of(more));
                    }
                },
                single => {
                    let ghost item = single@;
                    list.push(single);
                    proof {
                        lemma_list_view(list);
                        assert(values_of(list@) =~= values_of(before@).push(item));
                    }
                },
            }
            Ok(ExpressionResult::List(list))
        },
        _ => Err(EvaluationError::InternalFault),
    }
}

/// Applies the unary operator written `operator` to a value: `-` negates an
/// integer and `~` inverts a boolean; any other operator gives no value.
pub fn apply_unary(operator: &str, operand: ExpressionResult) -> (r: Result<
    ExpressionResult,
    EvaluationError,
>)
    ensures
        match r {
            Ok(value) => applied(operator@, operand@) == Ok::<Value, EvaluationError>(value@),
            Err(e) => applied(operator@, operand@) == Err::<Value, EvaluationError>(e),
        },
{
    if same_text(operator, "-") {
        match operand {
            ExpressionResult::Integer(n) => if n == i32::MIN {
                Err(EvaluationError::Overflow)
            } else {
                Ok(ExpressionResult::Integer(-n))
            },
            _ => Err(EvaluationError::InternalFault),
        }
    } else if same_text(operator, "~") {
        match operand {
            ExpressionResult::Boolean(b) => Ok(ExpressionResult::Boolean(!b)),
            _ => Err(EvaluationError::InternalFault),
        }
    } else {
        Err(EvaluationError::UnspecifiedOperator)
    }
}

impl Expression for AdditiveExpression {
    open spec fn static_type(&self) -> ExpressionType {
        ExpressionType::Integer
    }

    open spec fn outcome(&self, table: Map<Seq<char>, Value>) -> Result<Value, EvaluationError>
        decreases self,
    {
        additive_outcome(
            self.operation().left.outcome(table),
            self.operation().right.outcome(table),
        )
    }

    fn get_type(&self) -> (t: ExpressionType) {
        ExpressionType::Integer
    }

    fn evaluate(&self, symbol_table: &SymbolTable) -> (r: Result<ExpressionResult, EvaluationError>)
        ensures
            ({
                let left = self.operation().left;
                let right = self.operation().right;
                &&& left.outcome(symbol_table@) matches Ok(l)
                &&& right.outcome(symbol_table@) matches Ok(r)
                &&& has_type(l, left.static_type())
                &&& has_type(r, right.static_type())
            }) ==> r != Err::<ExpressionResult, EvaluationError>(EvaluationError::InternalFault),
        decreases self,
    {
        proof {
            use_type_invariant(self);
        }
        let lhs = match self.op.left.evaluate(symbol_table) {
            Ok(value) => value,
            Err(e) => {
                return Err(e);
            },
        };
        let rhs = match self.op.right.evaluate(symbol_table) {
            Ok(value) => value,
            Err(e) => {
                return Err(e);
            },
        };
        proof {
            if has_type(lhs@, self.op.left.static_type()) && has_type(
                rhs@,
                self.op.right.static_type(),
            ) {
                lemma_validated_addition_is_sound(
                    self.op.left.static_type(),
                    self.op.operator@,
                    self.op.right.static_type(),
                    lhs@,
                    rhs@,
                );
            }
        }
        add_results(lhs, rhs)
    }
}

impl Expression for UnaryExpression {
    open spec fn static_type(&self) -> ExpressionType
        decreases self,
    {
        self.operation().right.static_type()
    }

    open spec fn outcome(&self, table: Map<Seq<char>, Value>) -> Result<Value, EvaluationError>
        decreases self,
    {
        unary_outcome(self.operation().operator@, self.operation().right.outcome(table))
    }

    fn get_type(&self) -> (t: ExpressionType)
        decreases self,
    {
        self.op.right.get_type()
    }

    fn evaluate(&self, symbol_table: &SymbolTable) -> (r: Result<ExpressionResult, EvaluationError>)
        ensures
            ({
                let operand = self.operation().right;
                &&& operand.outcome(symbol_table@) matches Ok(v)
                &&& has_type(v, operand.static_type())
            }) ==> r != Err::<ExpressionResult, EvaluationError>(EvaluationError::InternalFault),
        decreases self,
    {
        proof {
            use_type_invariant(self);
        }
        let operand = match self.op.right.evaluate(symbol_table) {
            Ok(value) => value,
            Err(e) => {
                return Err(e);
            },
        };
        proof {
            if has_type(operand@, self.op.right.static_type()) {
                lemma_validated_unary_is_sound(
                    self.op.operator@,
                    self.op.right.static_type(),
                    operand@,
                );
            }
        }
        match &self.op.operator {
            Tokens::Symbol(symbol) => apply_unary(symbol.as_str(), operand),
            _ => Err(EvaluationError::InternalFault),
        }
    }
}

} // verus!
