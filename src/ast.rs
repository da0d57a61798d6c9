use vstd::prelude::*;

verus! {

/// An operand: a variable to look up, or a constant.
#[derive(Debug, Clone, PartialEq, Eq)]
pub enum Value {
    Variable(String),
    Literal(String),
}

/// A comparison of two operands as plain strings.
#[derive(Debug, Clone, PartialEq, Eq)]
pub enum Condition {
    IsEqual(Value, Value),
    IsNotEqual(Value, Value),
}

/// The expression that one line holds.
#[derive(Debug, PartialEq, Eq)]
pub enum Expression {
    VariableAssignment(String, Value),
    VariableValue(String),
    StringLiteral(String),
    /// The nested expression is evaluated only when the condition holds.
    IfStatement(Condition, Box<Expression>),
    Comment,
}

/// The mathematical value of a [`Value`].
pub enum SpecValue {
    Variable(Seq<char>),
    Literal(Seq<char>),
}

/// The mathematical value of a [`Condition`].
pub enum SpecCondition {
    IsEqual(SpecValue, SpecValue),
    IsNotEqual(SpecValue, SpecValue),
}

/// The mathematical value of an [`Expression`].
pub enum SpecExpr {
    VariableAssignment(Seq<char>, SpecValue),
    VariableValue(Seq<char>),
    StringLiteral(Seq<char>),
    IfStatement(SpecCondition, Box<SpecExpr>),
    Comment,
}

impl View for Value {
    type V = SpecValue;

    open spec fn view(&self) -> SpecValue {
        match self {
            Value::Variable(n) => SpecValue::Variable(n@),
            Value::Literal(s) => SpecValue::Literal(s@),
        }
    }
}

impl View for Condition {
    type V = SpecCondition;

    open spec fn view(&self) -> SpecCondition {
        match self {
            Condition::IsEqual(a, b) => SpecCondition::IsEqual(a@, b@),
            Condition::IsNotEqual(a, b) => SpecCondition::IsNotEqual(a@, b@),
        }
    }
}

/// The mathematical value of an expression tree.
pub open spec fn expr_view(e: Expression) -> SpecExpr
    decreases e,
{
    match e {
        Expression::VariableAssignment(n, v) => SpecExpr::VariableAssignment(n@, v@),
        Expression::VariableValue(n) => SpecExpr::VariableValue(n@),
        Expression::StringLiteral(s) => SpecExpr::StringLiteral(s@),
        Expression::IfStatement(c, inner) => SpecExpr::IfStatement(
            c@,
            Box::new(expr_view(*inner)),
        ),
        Expression::Comment => SpecExpr::Comment,
    }
}

impl View for Expression {
    type V = SpecExpr;

    open spec fn view(&self) -> SpecExpr {
        expr_view(*self)
    }
}

} // verus!
