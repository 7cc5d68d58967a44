//! The types of the source language.
use vstd::prelude::*;

verus! {

/// A source-level type. `Unknown` marks a type that could not be inferred;
/// it never causes further errors.
#[derive(Debug, Clone, Copy, PartialEq, Eq, Structural)]
pub enum Type {
    Int,
    Float,
    Bool,
    String,
    Void,
    Unknown,
}

/// The name of a type, as diagnostics print it.
pub open spec fn type_label(t: Type) -> Seq<char> {
    match t {
        Type::Int => "Int"@,
        Type::Float => "Float"@,
        Type::Bool => "Bool"@,
        Type::String => "String"@,
        Type::Void => "Void"@,
        Type::Unknown => "Unknown"@,
    }
}

impl Type {
    /// The name of the type.
    pub fn to_string(&self) -> (r: String)
        ensures
            r@ == type_label(*self),
    {
        match self {
            Type::Int => String::from_str("Int"),
            Type::Float => String::from_str("Float"),
            Type::Bool => String::from_str("Bool"),
            Type::String => String::from_str("String"),
            Type::Void => String::from_str("Void"),
            Type::Unknown => String::from_str("Unknown"),
        }
    }
}

} // verus!
