//! Concrete types and operator signatures.
use vstd::prelude::*;

verus! {

/// A fully resolved type.
#[derive(Debug, Clone, Copy, PartialEq, Eq, Structural, Hash)]
pub enum ConcreteType {
    Float,
    Bool,
    Unit,
}

/// Standard set of operators plus custom ones.
#[derive(Debug, Clone, Copy, PartialEq, Eq, Structural, Hash)]
pub enum Operator {
    /// Addition
    Addition,
    /// Subtraction and negation
    Subtraction,
    /// Multiplication
    Multiplication,
    /// Division
    Division,
    /// Modulus
    Modulus,
    /// Equality
    Equality,
    /// Less than
    LessThan,
    /// Less than or equal
    LessThanEquals,
    /// Greater than
    GreaterThan,
    /// Greater than or equal
    GreaterThanEquals,
    /// Custom operator
    Custom,
}

/// The type of each operand of a binary operator, where the table fixes one.
pub open spec fn binary_operand_type(op: Operator) -> Option<ConcreteType> {
    match op {
        Operator::Custom => None,
        _ => Some(ConcreteType::Float),
    }
}

/// The type of a binary operation's result, where the table fixes one.
pub open spec fn binary_result_type(op: Operator) -> Option<ConcreteType> {
    match op {
        Operator::Addition | Operator::Subtraction | Operator::Multiplication
        | Operator::Division | Operator::Modulus => Some(ConcreteType::Float),
        Operator::Equality | Operator::LessThan | Operator::LessThanEquals
        | Operator::GreaterThan | Operator::GreaterThanEquals => Some(ConcreteType::Bool),
        Operator::Custom => None,
    }
}

/// The operand and result type of a unary operator, where the table fixes one.
pub open spec fn unary_type(op: Operator) -> Option<ConcreteType> {
    match op {
        Operator::Subtraction => Some(ConcreteType::Float),
        _ => None,
    }
}

impl Operator {
    /// Operand type of this operator used as a binary operator.
    pub fn binary_operand(&self) -> (r: Option<ConcreteType>)
        ensures
            r == binary_operand_type(*self),
    {
        match self {
            Operator::Custom => None,
            _ => Some(ConcreteType::Float),
        }
    }

    /// Result type of this operator used as a binary operator.
    pub fn binary_result(&self) -> (r: Option<ConcreteType>)
        ensures
            r == binary_result_type(*self),
    {
        match self {
            Operator::Addition | Operator::Subtraction | Operator::Multiplication
            | Operator::Division | Operator::Modulus => Some(ConcreteType::Float),
            Operator::Equality | Operator::LessThan | Operator::LessThanEquals
            | Operator::GreaterThan | Operator::GreaterThanEquals => Some(ConcreteType::Bool),
            Operator::Custom => None,
        }
    }

    /// Operand and result type of this operator used as a unary operator.
    pub fn unary(&self) -> (r: Option<ConcreteType>)
        ensures
            r == unary_type(*self),
    {
        match self {
            Operator::Subtraction => Some(ConcreteType::Float),
            _ => None,
        }
    }
}

} // verus!
