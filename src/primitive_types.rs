//! The seven primitive types of the `type` keyword.
use vstd::prelude::*;

use crate::value::str_eq;

verus! {

#[derive(Clone, Copy, Debug, PartialEq, Eq, Structural)]
pub enum PrimitiveType {
    Array,
    Boolean,
    Integer,
    Number,
    Null,
    Object,
    String,
}

/// The name a type is written with in a schema.
pub open spec fn primitive_name(t: PrimitiveType) -> Seq<char> {
    match t {
        PrimitiveType::Array => "array"@,
        PrimitiveType::Boolean => "boolean"@,
        PrimitiveType::Integer => "integer"@,
        PrimitiveType::Number => "number"@,
        PrimitiveType::Null => "null"@,
        PrimitiveType::Object => "object"@,
        PrimitiveType::String => "string"@,
    }
}

/// The type named by `s`, if any.
pub open spec fn parse_primitive(s: Seq<char>) -> Option<PrimitiveType> {
    if s == "array"@ {
        Some(PrimitiveType::Array)
    } else if s == "boolean"@ {
        Some(PrimitiveType::Boolean)
    } else if s == "integer"@ {
        Some(PrimitiveType::Integer)
    } else if s == "number"@ {
        Some(PrimitiveType::Number)
    } else if s == "null"@ {
        Some(PrimitiveType::Null)
    } else if s == "object"@ {
        Some(PrimitiveType::Object)
    } else if s == "string"@ {
        Some(PrimitiveType::String)
    } else {
        None
    }
}

impl PrimitiveType {
    /// The type written as `s`, if `s` names one.
    pub fn parse(s: &str) -> (r: Option<PrimitiveType>)
        ensures
            r == parse_primitive(s@),
            r matches Some(t) ==> s@ == primitive_name(t),
            r is None ==> forall|t: PrimitiveType| s@ != primitive_name(t),
    {
        if str_eq(s, "array") {
            Some(PrimitiveType::Array)
        } else if str_eq(s, "boolean") {
            Some(PrimitiveType::Boolean)
        } else if str_eq(s, "integer") {
            Some(PrimitiveType::Integer)
        } else if str_eq(s, "number") {
            Some(PrimitiveType::Number)
        } else if str_eq(s, "null") {
            Some(PrimitiveType::Null)
        } else if str_eq(s, "object") {
            Some(PrimitiveType::Object)
        } else if str_eq(s, "string") {
            Some(PrimitiveType::String)
        } else {
            proof {
                assert forall|t: PrimitiveType| s@ != primitive_name(t) by {
                    match t {
                        PrimitiveType::Array => {},
                        PrimitiveType::Boolean => {},
                        PrimitiveType::Integer => {},
                        PrimitiveType::Number => {},
                        PrimitiveType::Null => {},
                        PrimitiveType::Object => {},
                        PrimitiveType::String => {},
                    }
                }
            }
            None
        }
    }

    /// The name the type is written with.
    pub fn name(&self) -> (r: String)
        ensures
            r@ == primitive_name(*self),
    {
        match self {
            PrimitiveType::Array => "array".to_string(),
            PrimitiveType::Boolean => "boolean".to_string(),
            PrimitiveType::Integer => "integer".to_string(),
            PrimitiveType::Number => "number".to_string(),
            PrimitiveType::Null => "null".to_string(),
            PrimitiveType::Object => "object".to_string(),
            PrimitiveType::String => "string".to_string(),
        }
    }
}

} // verus!
