//! Errors: those that stop a schema from compiling, and those that validation
//! reports about a value.
use vstd::prelude::*;

verus! {

/// The keyword family a validation error belongs to.
#[derive(Clone, Copy, Debug, PartialEq, Eq, Structural)]
pub enum ErrorKind {
    Properties,
    Required,
    Format,
    Pattern,
    WrongType,
    UniqueItems,
    AnyOf,
    OneOf,
    MultipleOf,
    Not,
    Maximum,
    Minimum,
    MaxLength,
    MinLength,
    MaxItems,
    MinItems,
    MaxProperties,
    MinProperties,
    Items,
    Enum,
    Contains,
    Const,
}

/// The stable short code of a family.
pub open spec fn error_code(k: ErrorKind) -> Seq<char> {
    match k {
        ErrorKind::Properties => "properties"@,
        ErrorKind::Required => "required"@,
        ErrorKind::Format => "format"@,
        ErrorKind::Pattern => "pattern"@,
        ErrorKind::WrongType => "wrong_type"@,
        ErrorKind::UniqueItems => "unique_items"@,
        ErrorKind::AnyOf => "any_of"@,
        ErrorKind::OneOf => "one_of"@,
        ErrorKind::MultipleOf => "multiple_of"@,
        ErrorKind::Not => "not"@,
        ErrorKind::Maximum => "maximum"@,
        ErrorKind::Minimum => "minimum"@,
        ErrorKind::MaxLength => "max_length"@,
        ErrorKind::MinLength => "min_length"@,
        ErrorKind::MaxItems => "max_items"@,
        ErrorKind::MinItems => "min_items"@,
        ErrorKind::MaxProperties => "max_properties"@,
        ErrorKind::MinProperties => "min_properties"@,
        ErrorKind::Items => "items"@,
        ErrorKind::Enum => "enum"@,
        ErrorKind::Contains => "contains"@,
        ErrorKind::Const => "const"@,
    }
}

/// The title of a family.
pub open spec fn error_title(k: ErrorKind) -> Seq<char> {
    match k {
        ErrorKind::Properties => "Property conditions are not met"@,
        ErrorKind::Required => "This property is required"@,
        ErrorKind::Format => "Format is wrong"@,
        ErrorKind::Pattern => "Pattern condition is not met"@,
        ErrorKind::WrongType => "Type of the value is wrong"@,
        ErrorKind::UniqueItems => "UniqueItems condition is not met"@,
        ErrorKind::AnyOf => "AnyOf conditions are not met"@,
        ErrorKind::OneOf => "OneOf conditions are not met"@,
        ErrorKind::MultipleOf => "Wrong number of the value"@,
        ErrorKind::Not => "Not condition is not met"@,
        ErrorKind::Maximum => "Maximum condition is not met"@,
        ErrorKind::Minimum => "Minimum condition is not met"@,
        ErrorKind::MaxLength => "MaxLength condition is not met"@,
        ErrorKind::MinLength => "MinLength condition is not met"@,
        ErrorKind::MaxItems => "MaxItems condition is not met"@,
        ErrorKind::MinItems => "MinItems condition is not met"@,
        ErrorKind::MaxProperties => "MaxProperties condition is not met"@,
        ErrorKind::MinProperties => "MinProperties condition is not met"@,
        ErrorKind::Items => "Items condition is not met"@,
        ErrorKind::Enum => "Enum conditions are not met"@,
        ErrorKind::Contains => "Contains condition is not met"@,
        ErrorKind::Const => "Const condition is not met"@,
    }
}

impl ErrorKind {
    /// The stable short code of the family.
    pub fn code(&self) -> (r: &'static str)
        ensures
            r@ == error_code(*self),
    {
        match self {
            ErrorKind::Properties => "properties",
            ErrorKind::Required => "required",
            ErrorKind::Format => "format",
            ErrorKind::Pattern => "pattern",
            ErrorKind::WrongType => "wrong_type",
            ErrorKind::UniqueItems => "unique_items",
            ErrorKind::AnyOf => "any_of",
            ErrorKind::OneOf => "one_of",
            ErrorKind::MultipleOf => "multiple_of",
            ErrorKind::Not => "not",
            ErrorKind::Maximum => "maximum",
            ErrorKind::Minimum => "minimum",
            ErrorKind::MaxLength => "max_length",
            ErrorKind::MinLength => "min_length",
            ErrorKind::MaxItems => "max_items",
            ErrorKind::MinItems => "min_items",
            ErrorKind::MaxProperties => "max_properties",
            ErrorKind::MinProperties => "min_properties",
            ErrorKind::Items => "items",
            ErrorKind::Enum => "enum",
            ErrorKind::Contains => "contains",
            ErrorKind::Const => "const",
        }
    }

    /// A human-readable title of the family.
    pub fn title(&self) -> (r: &'static str)
        ensures
            r@ == error_title(*self),
    {
        match self {
            ErrorKind::Properties => "Property conditions are not met",
            ErrorKind::Required => "This property is required",
            ErrorKind::Format => "Format is wrong",
            ErrorKind::Pattern => "Pattern condition is not met",
            ErrorKind::WrongType => "Type of the value is wrong",
            ErrorKind::UniqueItems => "UniqueItems condition is not met",
            ErrorKind::AnyOf => "AnyOf conditions are not met",
            ErrorKind::OneOf => "OneOf conditions are not met",
            ErrorKind::MultipleOf => "Wrong number of the value",
            ErrorKind::Not => "Not condition is not met",
            ErrorKind::Maximum => "Maximum condition is not met",
            ErrorKind::Minimum => "Minimum condition is not met",
            ErrorKind::MaxLength => "MaxLength condition is not met",
            ErrorKind::MinLength => "MinLength condition is not met",
            ErrorKind::MaxItems => "MaxItems condition is not met",
            ErrorKind::MinItems => "MinItems condition is not met",
            ErrorKind::MaxProperties => "MaxProperties condition is not met",
            ErrorKind::MinProperties => "MinProperties condition is not met",
            ErrorKind::Items => "Items condition is not met",
            ErrorKind::Enum => "Enum conditions are not met",
            ErrorKind::Contains => "Contains condition is not met",
            ErrorKind::Const => "Const condition is not met",
        }
    }
}

/// One validation error: its family, the path of the offending value in the
/// data, an optional detail, and, for `anyOf` and `oneOf`, the states of the
/// branches that failed.
#[derive(Debug)]
pub struct SimdjsonSchemaError {
    pub kind: ErrorKind,
    pub path: String,
    pub detail: Option<String>,
    pub states: Vec<ValidationState>,
}

/// An error of family `kind` at `path`, without detail or branch states.
pub open spec fn is_plain_error(e: SimdjsonSchemaError, kind: ErrorKind, path: Seq<char>) -> bool {
    e.kind == kind && e.path@ == path && e.detail is None && e.states@.len() == 0
}

impl SimdjsonSchemaError {
    /// An error of family `kind` at `path`.
    pub fn new(kind: ErrorKind, path: String) -> (r: SimdjsonSchemaError)
        ensures
            is_plain_error(r, kind, path@),
    {
        SimdjsonSchemaError { kind, path, detail: None, states: Vec::new() }
    }

    /// An error of family `kind` at `path`, with a detail.
    pub fn with_detail(kind: ErrorKind, path: String, detail: String) -> (r: SimdjsonSchemaError)
        ensures
            r.kind == kind,
            r.path@ == path@,
            r.detail matches Some(d) && d@ == detail@,
            r.states@.len() == 0,
    {
        SimdjsonSchemaError { kind, path, detail: Some(detail), states: Vec::new() }
    }

    /// Whether the error belongs to family `kind`.
    pub fn is(&self, kind: ErrorKind) -> (r: bool)
        ensures
            r == (self.kind == kind),
    {
        self.typeid() == kind
    }

    /// The stable short code of the error's family.
    pub fn get_code(&self) -> (r: &'static str)
        ensures
            r@ == error_code(self.kind),
    {
        self.kind.code()
    }

    /// The title of the error's family.
    pub fn get_title(&self) -> (r: &'static str)
        ensures
            r@ == error_title(self.kind),
    {
        self.kind.title()
    }

    pub fn get_path(&self) -> (r: &str)
        ensures
            r@ == self.path@,
    {
        self.path.as_str()
    }

    pub fn get_detail(&self) -> (r: Option<&str>)
        ensures
            r is Some <==> self.detail is Some,
            r matches Some(d) ==> d@ == self.detail->0@,
    {
        match &self.detail {
            Some(d) => Some(d.as_str()),
            None => None,
        }
    }
}

/// The tag by which the family of an error is told apart.
pub trait GetTypeId {
    spec fn spec_typeid(&self) -> ErrorKind;

    fn typeid(&self) -> (r: ErrorKind)
        ensures
            r == self.spec_typeid(),
    ;
}

impl GetTypeId for SimdjsonSchemaError {
    open spec fn spec_typeid(&self) -> ErrorKind {
        self.kind
    }

    fn typeid(&self) -> (r: ErrorKind) {
        self.kind
    }
}

/// What validating a value produced: errors about the value, and the URLs of
/// schemas that could not be resolved.
#[derive(Debug)]
pub struct ValidationState {
    pub errors: Vec<SimdjsonSchemaError>,
    pub missing: Vec<String>,
}

impl ValidationState {
    /// A state with no errors and no missing references.
    pub fn new() -> (r: ValidationState)
        ensures
            r.errors@.len() == 0,
            r.missing@.len() == 0,
    {
        ValidationState { errors: Vec::new(), missing: Vec::new() }
    }

    /// A state holding the single error `e`.
    pub fn from_error(e: SimdjsonSchemaError) -> (r: ValidationState)
        ensures
            r.errors@ == seq![e],
            r.missing@.len() == 0,
    {
        ValidationState { errors: vec![e], missing: Vec::new() }
    }

    pub open spec fn spec_is_valid(&self) -> bool {
        self.errors@.len() == 0
    }

    /// Whether no error was found (missing references do not count).
    pub fn is_valid(&self) -> (r: bool)
        ensures
            r == self.spec_is_valid(),
    {
        self.errors.len() == 0
    }

    /// Adds the errors and missing references of `second` after those of `self`.
    pub fn append(&mut self, second: ValidationState)
        ensures
            final(self).errors@ == old(self).errors@ + second.errors@,
            final(self).missing@ == old(self).missing@ + second.missing@,
    {
        let mut second = second;
        self.errors.append(&mut second.errors);
        self.missing.append(&mut second.missing);
    }
}

/// Why a schema could not be compiled or registered.
#[derive(Debug)]
pub enum SchemaError {
    /// The identifier a root schema was registered under has a fragment.
    WrongId,
    /// A schema is registered under that identifier already.
    IdConflicts,
    /// The document is neither an object nor a boolean.
    NotAnObject,
    /// The text of an `$id`, `$ref` or `$schema` is not a URL.
    UrlParseError(String),
    /// A key that no keyword claims, under strict compilation.
    UnknownKey(String),
    /// A keyword's value breaks the keyword's rules.
    Malformed { path: String, detail: String },
}

} // verus!
