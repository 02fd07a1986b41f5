//! Runtime value kinds.
use vstd::prelude::*;

verus! {

/// The kind of a runtime value.
#[derive(Debug, Clone, Copy, PartialEq, Eq, Structural)]
pub enum ValueKind {
    Int,
    Float,
    Bool,
    String,
    Array,
    Nil,
}

/// The type name of a value kind, as error messages show it.
pub open spec fn value_kind_name(k: ValueKind) -> Seq<char> {
    match k {
        ValueKind::Int => "int"@,
        ValueKind::Float => "float"@,
        ValueKind::Bool => "bool"@,
        ValueKind::String => "string"@,
        ValueKind::Array => "array"@,
        ValueKind::Nil => "nil"@,
    }
}

impl ValueKind {
    /// Type name (for error messages).
    pub fn as_str(&self) -> (r: &'static str)
        ensures
            r@ == value_kind_name(*self),
    {
        match self {
            ValueKind::Int => "int",
            ValueKind::Float => "float",
            ValueKind::Bool => "bool",
            ValueKind::String => "string",
            ValueKind::Array => "array",
            ValueKind::Nil => "nil",
        }
    }
}

} // verus!
