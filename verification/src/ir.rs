use vstd::prelude::*;

verus! {

/// The largest integer a contract can hold exactly.
pub const MAX_INT: i64 = 9_007_199_254_740_991;

/// The type of a contract value.
#[derive(Debug)]
pub enum Type {
    Bool,
    Int,
    Float,
    String,
    Null,
    Optional(Box<Type>),
    List(Box<Type>),
    Record(Vec<Field>),
}

/// A named, typed field.
#[derive(Debug)]
pub struct Field {
    pub name: String,
    pub ty: Type,
}

/// Whether an action is the application's own or the verifier's restart.
#[derive(Clone, Copy, Debug, PartialEq, Eq, Structural)]
pub enum ActionKind {
    Application,
    Restart,
}

pub open spec fn scalar(t: Type) -> bool {
    t is Bool || t is Int || t is Float || t is String
}

impl Type {
    /// Whether the type is a boolean, an integer, a number or a string.
    pub fn is_scalar(&self) -> (b: bool)
        ensures
            b == scalar(*self),
    {
        match self {
            Type::Bool | Type::Int | Type::Float | Type::String => true,
            _ => false,
        }
    }

    /// Whether an action may take a parameter of this type: a scalar, or an optional scalar.
    pub fn is_action_parameter(&self) -> (b: bool)
        ensures
            b == (scalar(*self) || (self matches Type::Optional(inner) && scalar(**inner))),
    {
        match self {
            Type::Optional(inner) => inner.is_scalar(),
            _ => self.is_scalar(),
        }
    }
}

/// A unary operator of the contract language.
#[derive(Clone, Copy, Debug, PartialEq, Eq, Structural)]
pub enum UnaryOp {
    Not,
    Negate,
}

/// A binary operator of the contract language.
#[derive(Clone, Copy, Debug, PartialEq, Eq, Structural)]
pub enum BinaryOp {
    Equal,
    NotEqual,
    Less,
    LessEqual,
    Greater,
    GreaterEqual,
    Add,
    Subtract,
    And,
    Or,
}

/// A query over a list.
#[derive(Clone, Copy, Debug, PartialEq, Eq, Structural)]
pub enum QueryOp {
    Any,
    All,
    Unique,
}

} // verus!
