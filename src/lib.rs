//! Compiles JSON Schema documents into validator trees and checks JSON values
//! against them.
use vstd::prelude::*;

pub mod error;
mod external;
pub mod helpers;
pub mod keywords;
pub mod laws;
pub mod primitive_types;
pub mod schema;
pub mod scope;
pub mod validators;
pub mod value;

pub use error::{ErrorKind, GetTypeId, SchemaError, SimdjsonSchemaError, ValidationState};
pub use primitive_types::PrimitiveType;
pub use schema::{compile, CompilationSettings, Schema};
pub use scope::{Scope, ScopedSchema};
pub use value::{Json, Number};

verus! {

} // verus!
