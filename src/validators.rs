//! Compiled validators, the checks that need no other schema, and the rules
//! that combine the outcomes of sub-schemas.
use vstd::prelude::*;

use crate::error::{ErrorKind, SimdjsonSchemaError, ValidationState};
use crate::external::{regex_compiles, regex_is_match, regex_matches, regex_valid};
use crate::helpers::child_path;
use crate::primitive_types::{primitive_name, PrimitiveType};
use crate::value::{
    byte_len, json_eq, json_equal, num_is_integer, num_is_multiple, num_le, num_lt, utf8_len,
    Json, Number,
};

verus! {

/// The types a `type` keyword admits.
pub enum TypeKind {
    Single(PrimitiveType),
    Any(Vec<PrimitiveType>),
}

/// What `items` holds: one schema for every element, or one per position.
pub enum ItemsKind {
    Schema(String),
    Array(Vec<String>),
}

/// What `additionalItems` or `additionalProperties` holds.
pub enum AdditionalKind {
    Boolean(bool),
    Schema(String),
}

/// What a key of `dependencies` asks for when present.
pub enum DepKind {
    Schema(String),
    Property(Vec<String>),
}

/// A compiled keyword. Sub-schemas are held by URL and resolved through the
/// scope when a value is checked.
pub enum Validator {
    Type(TypeKind),
    Enum(Vec<Json>),
    Const(Json),
    Required(Vec<String>),
    Maximum(Number),
    ExclusiveMaximum(Number),
    Minimum(Number),
    ExclusiveMinimum(Number),
    MultipleOf(Number),
    MaxLength(u64),
    MinLength(u64),
    MaxItems(u64),
    MinItems(u64),
    MaxProperties(u64),
    MinProperties(u64),
    Pattern(String),
    UniqueItems,
    Ref(String),
    AllOf(Vec<String>),
    AnyOf(Vec<String>),
    OneOf(Vec<String>),
    Not(String),
    Contains(String),
    PropertyNames(String),
    Items { items: Option<ItemsKind>, additional_items: Option<AdditionalKind> },
    Properties {
        properties: Vec<(String, String)>,
        additional: AdditionalKind,
        patterns: Vec<(String, String)>,
    },
    Dependencies(Vec<(String, DepKind)>),
}

/// Whether `val` is of type `t`; an integer may be written as a number with
/// a zero fractional part.
pub open spec fn type_matches(val: Json, t: PrimitiveType) -> bool {
    match t {
        PrimitiveType::Array => val is Array,
        PrimitiveType::Boolean => val is Bool,
        PrimitiveType::Integer => match val {
            Json::Number(n) => num_is_integer(n),
            _ => false,
        },
        PrimitiveType::Number => val is Number,
        PrimitiveType::Null => val is Null,
        PrimitiveType::Object => val is Object,
        PrimitiveType::String => val is Str,
    }
}

pub open spec fn type_kind_matches(k: TypeKind, val: Json) -> bool {
    match k {
        TypeKind::Single(t) => type_matches(val, t),
        TypeKind::Any(ts) => exists|i: int| 0 <= i < ts.len() && type_matches(val, #[trigger] ts@[i]),
    }
}

/// Whether `val` is deeply equal to one of `items`.
pub open spec fn enum_contains(items: Seq<Json>, val: Json) -> bool {
    exists|i: int| 0 <= i < items.len() && json_equal(val, #[trigger] items[i])
}

/// Whether two positions of `items` hold deeply equal values.
pub open spec fn has_duplicates(items: Seq<Json>) -> bool {
    exists|i: int, j: int| 0 <= i < j < items.len() && json_equal(#[trigger] items[i], #[trigger] items[j])
}

/// One `Required` error for each key of `keys` that the object `val` lacks,
/// at the path of that key; none when `val` is not an object.
pub open spec fn required_errors(keys: Seq<String>, val: Json, path: Seq<char>) -> Seq<Site>
    decreases keys.len(),
{
    if keys.len() == 0 || !(val is Object) {
        Seq::empty()
    } else {
        let rest = required_errors(keys.drop_last(), val, path);
        if val.spec_get(keys.last()@) is None {
            rest.push(site(ErrorKind::Required, path + seq!['/'] + keys.last()@, None))
        } else {
            rest
        }
    }
}

/// The errors, by family and path, that a validator which needs no other
/// schema reports about `val` at `path`.
pub open spec fn leaf_errors(v: Validator, val: Json, path: Seq<char>) -> Seq<Site> {
    let one = |k: ErrorKind| seq![site(k, path, None)];
    let none = Seq::<Site>::empty();
    match v {
        Validator::Type(k) => if type_kind_matches(k, val) {
            none
        } else {
            seq![site(ErrorKind::WrongType, path, Some(type_detail_text(k)))]
        },
        Validator::Enum(items) => if enum_contains(items@, val) { none } else { one(ErrorKind::Enum) },
        Validator::Const(c) => if json_equal(val, c) { none } else { one(ErrorKind::Const) },
        Validator::Required(keys) => required_errors(keys@, val, path),
        Validator::Maximum(b) => match val {
            Json::Number(n) => if num_le(n, b) { none } else { one(ErrorKind::Maximum) },
            _ => none,
        },
        Validator::ExclusiveMaximum(b) => match val {
            Json::Number(n) => if num_lt(n, b) { none } else { one(ErrorKind::Maximum) },
            _ => none,
        },
        Validator::Minimum(b) => match val {
            Json::Number(n) => if num_le(b, n) { none } else { one(ErrorKind::Minimum) },
            _ => none,
        },
        Validator::ExclusiveMinimum(b) => match val {
            Json::Number(n) => if num_lt(b, n) { none } else { one(ErrorKind::Minimum) },
            _ => none,
        },
        Validator::MultipleOf(d) => match val {
            Json::Number(n) => if d.spec_mantissa() <= 0 || num_is_multiple(n, d) {
                none
            } else {
                one(ErrorKind::MultipleOf)
            },
            _ => seq![site(ErrorKind::WrongType, path, Some(MULTIPLE_OF_WRONG_TYPE@))],
        },
        Validator::MaxLength(m) => match val {
            Json::Str(s) => if utf8_len(s@) <= m { none } else { one(ErrorKind::MaxLength) },
            _ => none,
        },
        Validator::MinLength(m) => match val {
            Json::Str(s) => if utf8_len(s@) >= m { none } else { one(ErrorKind::MinLength) },
            _ => none,
        },
        Validator::MaxItems(m) => match val {
            Json::Array(a) => if a.len() <= m { none } else { one(ErrorKind::MaxItems) },
            _ => none,
        },
        Validator::MinItems(m) => match val {
            Json::Array(a) => if a.len() >= m { none } else { one(ErrorKind::MinItems) },
            _ => none,
        },
        Validator::MaxProperties(m) => match val {
            Json::Object(o) => if o.len() <= m { none } else { one(ErrorKind::MaxProperties) },
            _ => none,
        },
        Validator::MinProperties(m) => match val {
            Json::Object(o) => if o.len() >= m { none } else { one(ErrorKind::MinProperties) },
            _ => none,
        },
        Validator::Pattern(p) => match val {
            Json::Str(s) => if regex_valid(p@) && regex_matches(p@, s@) {
                none
            } else {
                one(ErrorKind::Pattern)
            },
            _ => none,
        },
        Validator::UniqueItems => match val {
            Json::Array(a) => if has_duplicates(a@) { one(ErrorKind::UniqueItems) } else { none },
            _ => none,
        },
        _ => none,
    }
}

/// Whether a validator needs no other schema.
pub open spec fn is_leaf(v: Validator) -> bool {
    match v {
        Validator::Ref(_) | Validator::AllOf(_) | Validator::AnyOf(_) | Validator::OneOf(_)
        | Validator::Not(_) | Validator::Contains(_) | Validator::PropertyNames(_)
        | Validator::Items { .. } | Validator::Properties { .. } | Validator::Dependencies(_) => false,
        _ => true,
    }
}

/// An error as a value: its family, its path and its detail.
pub type Site = (ErrorKind, Seq<char>, Option<Seq<char>>, Seq<Brief>);

/// An error without the branch states it carries: its family, path and
/// detail.
pub type Mark = (ErrorKind, Seq<char>, Option<Seq<char>>);

/// A branch state as an error carries it: its errors without their own
/// branch states, and its missing references.
pub type Brief = (Seq<Mark>, Seq<Seq<char>>);

/// An error of family `k` at `path` with detail `d` and no branch states.
pub open spec fn site(k: ErrorKind, path: Seq<char>, d: Option<Seq<char>>) -> Site {
    (k, path, d, Seq::empty())
}

/// An error with no branch states carries none in its site.
pub open spec fn e_states_empty(e: SimdjsonSchemaError) -> bool {
    e.states@.len() == 0 ==> e.states@.map_values(|st: ValidationState| brief_of(st)) =~= Seq::<
        Brief,
    >::empty()
}

/// What a state reports, one level deep.
pub open spec fn brief_of(st: ValidationState) -> Brief {
    (
        st.errors@.map_values(|e: SimdjsonSchemaError| (e.kind, e.path@, detail_text(e.detail))),
        texts(st.missing@),
    )
}

/// An outcome, one level deep.
pub open spec fn brief(o: Outcome) -> Brief {
    (o.0.map_values(|x: Site| (x.0, x.1, x.2)), o.1)
}

pub proof fn lemma_brief_of(st: ValidationState)
    ensures
        brief_of(st) == brief(outcome(st)),
{
    assert(brief_of(st).0 =~= brief(outcome(st)).0);
}

/// The text of a detail.
pub open spec fn detail_text(d: Option<String>) -> Option<Seq<char>> {
    match d {
        Some(t) => Some(t@),
        None => None,
    }
}

/// The detail of a `multipleOf` error about a value that is not a number.
pub const MULTIPLE_OF_WRONG_TYPE: &'static str = "Number must be a JSON number to be compared as multiple of";

/// The names of `ts`, separated by `, `.
pub open spec fn names_joined(ts: Seq<PrimitiveType>) -> Seq<char>
    decreases ts.len(),
{
    if ts.len() == 0 {
        Seq::empty()
    } else if ts.len() == 1 {
        primitive_name(ts[0])
    } else {
        names_joined(ts.drop_last()) + ", "@ + primitive_name(ts.last())
    }
}

/// The detail of a `type` error.
pub open spec fn type_detail_text(k: TypeKind) -> Seq<char> {
    match k {
        TypeKind::Single(t) => "The value must be "@ + primitive_name(t),
        TypeKind::Any(ts) => "The value must be any of: "@ + names_joined(ts@),
    }
}

/// The errors of `st`, by family, path and detail.
pub open spec fn error_sites(errors: Seq<SimdjsonSchemaError>) -> Seq<Site> {
    errors.map_values(
        |e: SimdjsonSchemaError|
            (e.kind, e.path@, detail_text(e.detail), e.states@.map_values(|st: ValidationState| brief_of(st))),
    )
}

/// `st` holds exactly the errors `sites`, none with branch states, and no
/// missing reference.
pub open spec fn state_reports(st: ValidationState, sites: Seq<Site>) -> bool {
    &&& error_sites(st.errors@) == sites
    &&& forall|i: int| 0 <= i < st.errors@.len() ==> (#[trigger] st.errors@[i]).states@.len() == 0
    &&& st.missing@.len() == 0
}

/// Whether `val` is of type `t`.
pub fn check_type(val: &Json, t: PrimitiveType) -> (r: bool)
    ensures
        r == type_matches(*val, t),
{
    match t {
        PrimitiveType::Array => val.is_array(),
        PrimitiveType::Boolean => val.is_bool(),
        PrimitiveType::Integer => match val {
            Json::Number(n) => n.is_integer(),
            _ => false,
        },
        PrimitiveType::Number => match val {
            Json::Number(_) => true,
            _ => false,
        },
        PrimitiveType::Null => match val {
            Json::Null => true,
            _ => false,
        },
        PrimitiveType::Object => val.is_object(),
        PrimitiveType::String => match val {
            Json::Str(_) => true,
            _ => false,
        },
    }
}

fn any_type_check(ts: &Vec<PrimitiveType>, val: &Json) -> (r: bool)
    ensures
        r == exists|j: int| 0 <= j < ts.len() && type_matches(*val, #[trigger] ts@[j]),
{
    let mut i: usize = 0;
    while i < ts.len()
        invariant
            i <= ts.len(),
            forall|j: int| 0 <= j < i ==> !type_matches(*val, #[trigger] ts@[j]),
        decreases ts.len() - i,
    {
        if check_type(val, ts[i]) {
            assert(type_matches(*val, ts@[i as int]));
            return true;
        }
        i = i + 1;
    }
    false
}

fn type_kind_check(k: &TypeKind, val: &Json) -> (r: bool)
    ensures
        r == type_kind_matches(*k, *val),
{
    match k {
        TypeKind::Single(t) => check_type(val, *t),
        TypeKind::Any(ts) => any_type_check(ts, val),
    }
}

fn type_detail(k: &TypeKind) -> (r: String)
    ensures
        r@ == type_detail_text(*k),
{
    match k {
        TypeKind::Single(t) => {
            let mut s = "The value must be ".to_string();
            s.append(t.name().as_str());
            s
        },
        TypeKind::Any(ts) => {
            let mut s = "The value must be any of: ".to_string();
            let mut i: usize = 0;
            while i < ts.len()
                invariant
                    i <= ts.len(),
                    s@ == "The value must be any of: "@ + names_joined(ts@.subrange(0, i as int)),
                decreases ts.len() - i,
            {
                let ghost prev = s@;
                proof {
                    let next = ts@.subrange(0, i + 1);
                    assert(next.drop_last() =~= ts@.subrange(0, i as int));
                    assert(next.last() == ts@[i as int]);
                    if i == 0 {
                        assert(ts@.subrange(0, 0) =~= Seq::<PrimitiveType>::empty());
                    }
                }
                if i > 0 {
                    s.append(", ");
                }
                s.append(ts[i].name().as_str());
                proof {
                    assert(s@ =~= "The value must be any of: "@ + names_joined(ts@.subrange(0, i + 1)));
                }
                i = i + 1;
            }
            assert(ts@.subrange(0, ts@.len() as int) =~= ts@);
            s
        },
    }
}

fn enum_check(items: &Vec<Json>, val: &Json) -> (r: bool)
    ensures
        r == enum_contains(items@, *val),
{
    let mut i: usize = 0;
    while i < items.len()
        invariant
            i <= items.len(),
            forall|j: int| 0 <= j < i ==> !json_equal(*val, #[trigger] items@[j]),
        decreases items.len() - i,
    {
        if json_eq(val, &items[i]) {
            assert(json_equal(*val, items@[i as int]));
            return true;
        }
        i = i + 1;
    }
    false
}

fn duplicates_check(items: &Vec<Json>) -> (r: bool)
    ensures
        r == has_duplicates(items@),
{
    let mut i: usize = 0;
    while i < items.len()
        invariant
            i <= items.len(),
            forall|a: int, b: int|
                0 <= a < i && a < b < items.len() ==> !json_equal(
                    #[trigger] items@[a],
                    #[trigger] items@[b],
                ),
        decreases items.len() - i,
    {
        let mut j: usize = i + 1;
        while j < items.len()
            invariant
                i < items.len(),
                i + 1 <= j <= items.len(),
                forall|a: int, b: int|
                    0 <= a < i && a < b < items.len() ==> !json_equal(
                        #[trigger] items@[a],
                        #[trigger] items@[b],
                    ),
                forall|b: int| i < b < j ==> !json_equal(items@[i as int], #[trigger] items@[b]),
            decreases items.len() - j,
        {
            if json_eq(&items[i], &items[j]) {
                assert(json_equal(items@[i as int], items@[j as int]));
                return true;
            }
            j = j + 1;
        }
        i = i + 1;
    }
    false
}

fn single_error(kind: ErrorKind, path: &str) -> (r: ValidationState)
    ensures
        state_reports(r, seq![site(kind, path@, None)]),
{
    let r = ValidationState::from_error(SimdjsonSchemaError::new(kind, path.to_string()));
    assert(r.errors@[0].states@.map_values(|st: ValidationState| brief_of(st)) =~= Seq::<Brief>::empty());
    assert(error_sites(r.errors@) =~= seq![site(kind, path@, None)]);
    r
}

fn no_error() -> (r: ValidationState)
    ensures
        state_reports(r, Seq::empty()),
{
    let r = ValidationState::new();
    assert(error_sites(r.errors@) =~= Seq::empty());
    r
}

/// Reports a `required` key that the object lacks, one error per key.
pub fn validate_required(keys: &Vec<String>, val: &Json, path: &str) -> (r: ValidationState)
    ensures
        state_reports(r, required_errors(keys@, *val, path@)),
{
    let mut st = no_error();
    if !val.is_object() {
        return st;
    }
    let mut i: usize = 0;
    while i < keys.len()
        invariant
            i <= keys.len(),
            val is Object,
            state_reports(st, required_errors(keys@.subrange(0, i as int), *val, path@)),
        decreases keys.len() - i,
    {
        let ghost before = st.errors@;
        proof {
            assert(keys@.subrange(0, i + 1).drop_last() =~= keys@.subrange(0, i as int));
            assert(keys@.subrange(0, i + 1).last() == keys@[i as int]);
        }
        if val.get(keys[i].as_str()).is_none() {
            let e = SimdjsonSchemaError::new(ErrorKind::Required, child_path(path, keys[i].as_str()));
            st.errors.push(e);
            assert(e_states_empty(st.errors@.last()));
            assert(error_sites(st.errors@) =~= error_sites(before).push(
                site(ErrorKind::Required, path@ + seq!['/'] + keys@[i as int]@, None),
            ));
        }
        i = i + 1;
    }
    assert(keys@.subrange(0, keys.len() as int) =~= keys@);
    st
}

/// Checks `val` against a validator that needs no other schema.
pub fn validate_leaf(v: &Validator, val: &Json, path: &str) -> (r: ValidationState)
    requires
        is_leaf(*v),
    ensures
        state_reports(r, leaf_errors(*v, *val, path@)),
{
    match v {
        Validator::Type(k) => {
            if type_kind_check(k, val) {
                no_error()
            } else {
                let e = SimdjsonSchemaError::with_detail(
                    ErrorKind::WrongType,
                    path.to_string(),
                    type_detail(k),
                );
                let r = ValidationState::from_error(e);
                assert(e_states_empty(r.errors@[0]));
                assert(error_sites(r.errors@) =~= seq![
                    site(ErrorKind::WrongType, path@, Some(type_detail_text(*k))),
                ]);
                r
            }
        },
        Validator::Enum(items) => {
            if enum_check(items, val) {
                no_error()
            } else {
                single_error(ErrorKind::Enum, path)
            }
        },
        Validator::Const(c) => {
            if json_eq(val, c) {
                no_error()
            } else {
                single_error(ErrorKind::Const, path)
            }
        },
        Validator::Required(keys) => validate_required(keys, val, path),
        Validator::Maximum(b) => match val {
            Json::Number(n) => if n.le(b) {
                no_error()
            } else {
                single_error(ErrorKind::Maximum, path)
            },
            _ => no_error(),
        },
        Validator::ExclusiveMaximum(b) => match val {
            Json::Number(n) => if n.lt(b) {
                no_error()
            } else {
                single_error(ErrorKind::Maximum, path)
            },
            _ => no_error(),
        },
        Validator::Minimum(b) => match val {
            Json::Number(n) => if b.le(n) {
                no_error()
            } else {
                single_error(ErrorKind::Minimum, path)
            },
            _ => no_error(),
        },
        Validator::ExclusiveMinimum(b) => match val {
            Json::Number(n) => if b.lt(n) {
                no_error()
            } else {
                single_error(ErrorKind::Minimum, path)
            },
            _ => no_error(),
        },
        Validator::MultipleOf(d) => match val {
            Json::Number(n) => if !d.is_positive() || n.is_multiple_of(d) {
                no_error()
            } else {
                single_error(ErrorKind::MultipleOf, path)
            },
            _ => {
                let e = SimdjsonSchemaError::with_detail(
                    ErrorKind::WrongType,
                    path.to_string(),
                    MULTIPLE_OF_WRONG_TYPE.to_string(),
                );
                let r = ValidationState::from_error(e);
                assert(e_states_empty(r.errors@[0]));
                assert(error_sites(r.errors@) =~= seq![
                    site(ErrorKind::WrongType, path@, Some(MULTIPLE_OF_WRONG_TYPE@)),
                ]);
                r
            },
        },
        Validator::MaxLength(m) => match val {
            Json::Str(s) => if byte_len(s.as_str()) <= *m as u128 {
                no_error()
            } else {
                single_error(ErrorKind::MaxLength, path)
            },
            _ => no_error(),
        },
        Validator::MinLength(m) => match val {
            Json::Str(s) => if byte_len(s.as_str()) >= *m as u128 {
                no_error()
            } else {
                single_error(ErrorKind::MinLength, path)
            },
            _ => no_error(),
        },
        Validator::MaxItems(m) => match val {
            Json::Array(a) => if a.len() as u64 <= *m {
                no_error()
            } else {
                single_error(ErrorKind::MaxItems, path)
            },
            _ => no_error(),
        },
        Validator::MinItems(m) => match val {
            Json::Array(a) => if a.len() as u64 >= *m {
                no_error()
            } else {
                single_error(ErrorKind::MinItems, path)
            },
            _ => no_error(),
        },
        Validator::MaxProperties(m) => match val {
            Json::Object(o) => if o.len() as u64 <= *m {
                no_error()
            } else {
                single_error(ErrorKind::MaxProperties, path)
            },
            _ => no_error(),
        },
        Validator::MinProperties(m) => match val {
            Json::Object(o) => if o.len() as u64 >= *m {
                no_error()
            } else {
                single_error(ErrorKind::MinProperties, path)
            },
            _ => no_error(),
        },
        Validator::Pattern(p) => match val {
            Json::Str(s) => if regex_compiles(p.as_str()) && regex_is_match(p.as_str(), s.as_str()) {
                no_error()
            } else {
                single_error(ErrorKind::Pattern, path)
            },
            _ => no_error(),
        },
        Validator::UniqueItems => match val {
            Json::Array(a) => if duplicates_check(a) {
                single_error(ErrorKind::UniqueItems, path)
            } else {
                no_error()
            },
            _ => no_error(),
        },
        _ => no_error(),
    }
}

/// What a validation reports, as a value: its errors by family and path,
/// and the texts of its missing references.
pub type Outcome = (Seq<Site>, Seq<Seq<char>>);

/// Only an error of family `k` at `path` with the detail `d`.
pub open spec fn error_with(k: ErrorKind, path: Seq<char>, d: Seq<char>) -> Outcome {
    (seq![site(k, path, Some(d))], Seq::empty())
}

/// The texts of `s`.
pub open spec fn texts(s: Seq<String>) -> Seq<Seq<char>> {
    s.map_values(|x: String| x@)
}

/// What `st` reports.
pub open spec fn outcome(st: ValidationState) -> Outcome {
    (error_sites(st.errors@), texts(st.missing@))
}

/// `a` followed by `b`.
pub open spec fn join(a: Outcome, b: Outcome) -> Outcome {
    (a.0 + b.0, a.1 + b.1)
}

pub open spec fn no_outcome() -> Outcome {
    (Seq::empty(), Seq::empty())
}

/// Only the missing reference `u`.
pub open spec fn missing_only(u: Seq<char>) -> Outcome {
    (Seq::empty(), seq![u])
}

/// Adds what `other` reports after what `state` reports.
pub fn absorb(state: &mut ValidationState, other: ValidationState)
    ensures
        outcome(*final(state)) == join(outcome(*old(state)), outcome(other)),
{
    let ghost a = *state;
    state.append(other);
    assert(error_sites(state.errors@) =~= error_sites(a.errors@) + error_sites(other.errors@));
    assert(texts(state.missing@) =~= texts(a.missing@) + texts(other.missing@));
}

/// Adds an error of family `kind` at `path`.
pub fn push_error(state: &mut ValidationState, kind: ErrorKind, path: String, detail: Option<String>)
    ensures
        outcome(*final(state)) == join(
            outcome(*old(state)),
            (seq![site(kind, path@, detail_text(detail))], Seq::empty()),
        ),
{
    let ghost a = *state;
    let ghost p = path@;
    let ghost d = detail_text(detail);
    state.errors.push(SimdjsonSchemaError { kind, path, detail, states: Vec::new() });
    assert(state.errors@.last().states@.map_values(|st: ValidationState| brief_of(st)) =~= Seq::<
        Brief,
    >::empty());
    assert(error_sites(state.errors@) =~= error_sites(a.errors@) + seq![site(kind, p, d)]);
    assert(texts(state.missing@) =~= texts(a.missing@) + Seq::<Seq<char>>::empty());
}

/// Adds the missing reference `u`.
pub fn push_missing(state: &mut ValidationState, u: String)
    ensures
        outcome(*final(state)) == join(outcome(*old(state)), missing_only(u@)),
{
    let ghost a = *state;
    let ghost t = u@;
    state.missing.push(u);
    assert(error_sites(state.errors@) =~= error_sites(a.errors@) + Seq::<Site>::empty());
    assert(texts(state.missing@) =~= texts(a.missing@) + seq![t]);
}

/// A state that reports nothing.
pub fn empty_state() -> (r: ValidationState)
    ensures
        outcome(r) == no_outcome(),
{
    let r = ValidationState::new();
    assert(error_sites(r.errors@) =~= Seq::empty());
    assert(texts(r.missing@) =~= Seq::empty());
    r
}

pub(crate) fn clone_strings(v: &Vec<String>) -> (r: Vec<String>)
    ensures
        r@ == v@,
{
    let mut out: Vec<String> = Vec::new();
    let mut i: usize = 0;
    while i < v.len()
        invariant
            i <= v.len(),
            out@ == v@.subrange(0, i as int),
        decreases v.len() - i,
    {
        out.push(v[i].clone());
        i = i + 1;
    }
    assert(v@.subrange(0, v.len() as int) =~= v@);
    out
}

} // verus!
