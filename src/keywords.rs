//! The keyword registry and the compilers that turn a keyword's JSON value
//! into a validator.
use vstd::prelude::*;

use crate::error::SchemaError;
use crate::external::{join_url, joined_url, regex_compiles, regex_valid};
use crate::helpers::{
    alter_fragment_path, altered_url, connect, decimal, encode, encoded_parts, encoded_segment,
    index_string, join_slash,
};
use crate::primitive_types::PrimitiveType;
use crate::validators::{texts, AdditionalKind, DepKind, ItemsKind, TypeKind, Validator};
use crate::value::{json_clone, json_copy, num_is_integer, num_whole, Json, Number};

verus! {

/// The keyword compilers this library knows.
#[derive(Clone, Copy, Debug, PartialEq, Eq, Structural)]
pub enum Keyword {
    AllOf,
    AnyOf,
    OneOf,
    Const,
    Contains,
    Dependencies,
    Enum,
    Not,
    Items,
    Ref,
    Required,
    Type,
    Maximum,
    ExclusiveMaximum,
    Minimum,
    ExclusiveMinimum,
    MultipleOf,
    MaxItems,
    MinItems,
    MaxLength,
    MinLength,
    MaxProperties,
    MinProperties,
    Pattern,
    Properties,
    PropertyNames,
    UniqueItems,
}

/// A keyword compiler and every schema key it claims.
pub struct KeywordConsumer {
    pub keys: Vec<String>,
    pub keyword: Keyword,
}

/// The raw keys of a path, joined with `/`.
pub open spec fn raw_path(fragment: Seq<String>) -> Seq<char> {
    join_slash(fragment.map_values(|p: String| p@))
}

/// The URL of the sub-schema at `tail` below the node at `fragment`.
pub open spec fn sub_url(url: Seq<char>, fragment: Seq<Seq<char>>, tail: Seq<char>) -> Seq<char> {
    altered_url(url, join_slash(fragment.map_values(|p: Seq<char>| encoded_segment(p))) + seq!['/'] + tail)
}

/// Whether a JSON value may stand as a schema (an object or a boolean).
pub open spec fn schema_like(v: Json) -> bool {
    v is Object || v is Bool
}

/// The raw keys of a path, joined with `/`.
pub fn fragment_path(fragment: &Vec<String>) -> (r: String)
    ensures
        r@ == raw_path(fragment@),
{
    let ghost all = fragment@.map_values(|p: String| p@);
    let mut out = String::new();
    let mut i: usize = 0;
    while i < fragment.len()
        invariant
            i <= fragment.len(),
            all == fragment@.map_values(|p: String| p@),
            out@ == join_slash(all.subrange(0, i as int)),
        decreases fragment.len() - i,
    {
        let ghost prev = out@;
        proof {
            reveal_strlit("/");
            assert(all.subrange(0, i + 1).drop_last() =~= all.subrange(0, i as int));
        }
        assert("/"@ =~= seq!['/']);
        if i > 0 {
            out.append("/");
        }
        out.append(fragment[i].as_str());
        proof {
            if i == 0 {
                assert(out@ =~= all.subrange(0, 1)[0]);
            } else {
                assert(out@ =~= prev + seq!['/'] + all.subrange(0, i + 1).last());
            }
        }
        i = i + 1;
    }
    assert(all.subrange(0, fragment.len() as int) =~= all);
    out
}

fn malformed(fragment: &Vec<String>, detail: &str) -> (r: SchemaError)
    ensures
        r matches SchemaError::Malformed { path, .. } && path@ == raw_path(fragment@),
{
    SchemaError::Malformed { path: fragment_path(fragment), detail: detail.to_string() }
}

/// The URL of the sub-schema at `tail` below the node at `fragment`.
pub fn make_sub_url(url: &str, fragment: &Vec<String>, tail: &str) -> (r: String)
    ensures
        r@ == sub_url(url@, texts(fragment@), tail@),
{
    let mut f = connect(fragment);
    assert(encoded_parts(fragment@) =~= texts(fragment@).map_values(|p: Seq<char>| encoded_segment(p)));
    proof {
        reveal_strlit("/");
    }
    assert("/"@ =~= seq!['/']);
    f.append("/");
    f.append(tail);
    alter_fragment_path(url, f.as_str())
}

/// `name/segment`: the tail of a sub-schema's URL.
fn tail_of(name: &str, segment: &str) -> (r: String)
    ensures
        r@ == name@ + seq!['/'] + segment@,
{
    proof {
        reveal_strlit("/");
    }
    assert("/"@ =~= seq!['/']);
    let mut t = name.to_string();
    t.append("/");
    t.append(segment);
    t
}

fn is_schema_like(v: &Json) -> (r: bool)
    ensures
        r == schema_like(*v),
{
    v.is_object() || v.is_bool()
}

/// Compiles `allOf`, `anyOf` or `oneOf` (named `name`): a non-empty array of
/// schemas, held as the URLs of its elements.
pub fn compile_of(name: &str, def: &Json, url: &str, fragment: &Vec<String>) -> (r: Result<
    Option<Vec<String>>,
    SchemaError,
>)
    ensures
        def.spec_get(name@) is None ==> r matches Ok(None),
        def.spec_get(name@) matches Some(v) ==> match v {
            Json::Array(items) => if items@.len() > 0 && forall|i: int|
                0 <= i < items@.len() ==> schema_like(#[trigger] items@[i]) {
                r matches Ok(Some(urls)) && urls@.len() == items@.len() && forall|i: int|
                    0 <= i < urls@.len() ==> (#[trigger] urls@[i])@ == sub_url(
                        url@,
                        texts(fragment@),
                        name@ + seq!['/'] + decimal(i as nat),
                    )
            } else {
                r matches Err(SchemaError::Malformed { .. })
            },
            _ => r matches Err(SchemaError::Malformed { .. }),
        },
{
    let v = match def.get(name) {
        Some(v) => v,
        None => return Ok(None),
    };
    match v {
        Json::Array(items) => {
            if items.len() == 0 {
                return Err(malformed(fragment, "This array MUST have at least one element."));
            }
            let mut urls: Vec<String> = Vec::new();
            let mut i: usize = 0;
            while i < items.len()
                invariant
                    i <= items.len(),
                    urls@.len() == i,
                    def.spec_get(name@) == Some(Json::Array(*items)),
                    forall|j: int| 0 <= j < i ==> schema_like(#[trigger] items@[j]),
                    forall|j: int|
                        0 <= j < i ==> (#[trigger] urls@[j])@ == sub_url(
                            url@,
                            texts(fragment@),
                            name@ + seq!['/'] + decimal(j as nat),
                        ),
                decreases items.len() - i,
            {
                if !is_schema_like(&items[i]) {
                    assert(!schema_like(items@[i as int]));
                    return Err(malformed(fragment, "Elements of the array MUST be objects or booleans."));
                }
                let tail = tail_of(name, index_string(i).as_str());
                urls.push(make_sub_url(url, fragment, tail.as_str()));
                i = i + 1;
            }
            Ok(Some(urls))
        },
        _ => Err(malformed(fragment, "The value of this keyword MUST be an array.")),
    }
}

/// Compiles a keyword whose value is one schema (`not`, `contains`,
/// `propertyNames`), held as its URL.
pub fn compile_single(name: &str, def: &Json, url: &str, fragment: &Vec<String>) -> (r: Result<
    Option<String>,
    SchemaError,
>)
    ensures
        def.spec_get(name@) is None ==> r matches Ok(None),
        def.spec_get(name@) matches Some(v) ==> if schema_like(v) {
            r matches Ok(Some(u)) && u@ == sub_url(url@, texts(fragment@), name@)
        } else {
            r matches Err(SchemaError::Malformed { .. })
        },
{
    match def.get(name) {
        Some(v) => if is_schema_like(v) {
            Ok(Some(make_sub_url(url, fragment, name)))
        } else {
            Err(malformed(fragment, "The value of this keyword MUST be an object or a boolean"))
        },
        None => Ok(None),
    }
}

/// Compiles a numeric bound (`maximum`, `minimum` and their exclusive forms,
/// `multipleOf`): its value must be a number.
pub fn compile_number(name: &str, def: &Json, fragment: &Vec<String>) -> (r: Result<
    Option<Number>,
    SchemaError,
>)
    ensures
        def.spec_get(name@) is None ==> r matches Ok(None),
        def.spec_get(name@) matches Some(v) ==> match v {
            Json::Number(n) => r matches Ok(Some(m)) && m == n,
            _ => r matches Err(SchemaError::Malformed { .. }),
        },
{
    match def.get(name) {
        Some(Json::Number(n)) => Ok(Some(n.clone())),
        Some(_) => Err(malformed(fragment, "The value must be a number")),
        None => Ok(None),
    }
}

/// Compiles a length or count bound: its value must be a non-negative
/// whole number.
pub fn compile_count(name: &str, def: &Json, fragment: &Vec<String>) -> (r: Result<
    Option<u64>,
    SchemaError,
>)
    ensures
        def.spec_get(name@) is None ==> r matches Ok(None),
        def.spec_get(name@) matches Some(v) ==> match v {
            Json::Number(n) => if num_is_integer(n) && n.spec_mantissa() >= 0 {
                r matches Ok(Some(m)) && m == num_whole(n)
            } else {
                r matches Err(SchemaError::Malformed { .. })
            },
            _ => r matches Err(SchemaError::Malformed { .. }),
        },
{
    match def.get(name) {
        Some(Json::Number(n)) => match n.as_count() {
            Some(c) => Ok(Some(c)),
            None => Err(malformed(fragment, "The value must be a positive integer or zero")),
        },
        Some(_) => Err(malformed(fragment, "The value must be a positive integer or zero")),
        None => Ok(None),
    }
}

/// Whether every element of `items` is a string.
pub open spec fn all_strings(items: Seq<Json>) -> bool {
    forall|i: int| 0 <= i < items.len() ==> (#[trigger] items[i]) is Str
}

/// `names` holds the texts of the strings `items`, in order.
pub open spec fn names_of(names: Seq<String>, items: Seq<Json>) -> bool {
    names.len() == items.len() && forall|i: int|
        0 <= i < items.len() ==> (#[trigger] items[i] matches Json::Str(s) && names[i]@ == s@)
}

/// The texts of an array of strings, or `None` when an element is not a string.
fn string_items(items: &Vec<Json>) -> (r: Option<Vec<String>>)
    ensures
        r is Some <==> all_strings(items@),
        r matches Some(names) ==> names_of(names@, items@),
{
    let mut names: Vec<String> = Vec::new();
    let mut i: usize = 0;
    while i < items.len()
        invariant
            i <= items.len(),
            names@.len() == i,
            forall|j: int| 0 <= j < i ==> (#[trigger] items@[j]) is Str,
            forall|j: int|
                0 <= j < i ==> (#[trigger] items@[j] matches Json::Str(s) && names@[j]@ == s@),
        decreases items.len() - i,
    {
        match &items[i] {
            Json::Str(s) => {
                names.push(s.clone());
            },
            _ => {
                assert(!(items@[i as int] is Str));
                return None;
            },
        }
        i = i + 1;
    }
    Some(names)
}

/// Compiles `required`: an array of strings.
pub fn compile_required(def: &Json, fragment: &Vec<String>) -> (r: Result<
    Option<Vec<String>>,
    SchemaError,
>)
    ensures
        def.spec_get("required"@) is None ==> r matches Ok(None),
        def.spec_get("required"@) matches Some(v) ==> match v {
            Json::Array(items) => if all_strings(items@) {
                r matches Ok(Some(names)) && names_of(names@, items@)
            } else {
                r matches Err(SchemaError::Malformed { .. })
            },
            _ => r matches Err(SchemaError::Malformed { .. }),
        },
{
    match def.get("required") {
        Some(Json::Array(items)) => match string_items(items) {
            Some(names) => Ok(Some(names)),
            None => Err(malformed(fragment, "The values of `required` must be string")),
        },
        Some(_) => Err(malformed(fragment, "The value of this keyword must be an array.")),
        None => Ok(None),
    }
}

/// Whether `t` is the type named by the string `v`.
pub open spec fn names_type(v: Json, t: PrimitiveType) -> bool {
    v matches Json::Str(s) && s@ == crate::primitive_types::primitive_name(t)
}

/// Whether `v` is a string that names a primitive type.
pub open spec fn is_type_name(v: Json) -> bool {
    exists|t: PrimitiveType| names_type(v, t)
}

/// Compiles `type`: one type name, or a non-empty array of type names.
pub fn compile_type(def: &Json, fragment: &Vec<String>) -> (r: Result<Option<TypeKind>, SchemaError>)
    ensures
        def.spec_get("type"@) is None ==> r matches Ok(None),
        def.spec_get("type"@) matches Some(v) ==> match v {
            Json::Str(_) => if is_type_name(v) {
                r matches Ok(Some(TypeKind::Single(t))) && names_type(v, t)
            } else {
                r matches Err(SchemaError::Malformed { .. })
            },
            Json::Array(items) => if items@.len() > 0 && forall|i: int|
                0 <= i < items@.len() ==> is_type_name(#[trigger] items@[i]) {
                r matches Ok(Some(TypeKind::Any(ts))) && ts@.len() == items@.len() && forall|i: int|
                    0 <= i < ts@.len() ==> names_type(items@[i], #[trigger] ts@[i])
            } else {
                r matches Err(SchemaError::Malformed { .. })
            },
            _ => r matches Err(SchemaError::Malformed { .. }),
        },
{
    match def.get("type") {
        Some(Json::Str(s)) => match PrimitiveType::parse(s.as_str()) {
            Some(t) => {
                assert(names_type(Json::Str(*s), t));
                Ok(Some(TypeKind::Single(t)))
            },
            None => {
                assert(!is_type_name(Json::Str(*s)));
                Err(malformed(fragment, "Unknown type"))
            },
        },
        Some(Json::Array(items)) => {
            if items.len() == 0 {
                return Err(malformed(fragment, "This array must have at least one element."));
            }
            let mut ts: Vec<PrimitiveType> = Vec::new();
            let mut i: usize = 0;
            while i < items.len()
                invariant
                    i <= items.len(),
                    ts@.len() == i,
                    def.spec_get("type"@) == Some(Json::Array(*items)),
                    forall|j: int| 0 <= j < i ==> is_type_name(#[trigger] items@[j]),
                    forall|j: int| 0 <= j < i ==> names_type(items@[j], #[trigger] ts@[j]),
                decreases items.len() - i,
            {
                match &items[i] {
                    Json::Str(s) => match PrimitiveType::parse(s.as_str()) {
                        Some(t) => {
                            assert(names_type(items@[i as int], t));
                            ts.push(t);
                        },
                        None => {
                            assert(!is_type_name(items@[i as int]));
                            return Err(malformed(fragment, "Unknown type"));
                        },
                    },
                    _ => {
                        assert(!is_type_name(items@[i as int]));
                        return Err(
                            malformed(
                                fragment,
                                "String values must be one of the seven primitive types defined by the core specification.",
                            ),
                        );
                    },
                }
                i = i + 1;
            }
            Ok(Some(TypeKind::Any(ts)))
        },
        Some(_) => Err(
            malformed(fragment, "The value of this keyword must be either a string or an array."),
        ),
        None => Ok(None),
    }
}

fn copy_items(items: &Vec<Json>) -> (r: Vec<Json>)
    ensures
        r@.len() == items@.len(),
        forall|i: int| 0 <= i < items@.len() ==> json_copy(#[trigger] items@[i], r@[i]),
{
    let mut out: Vec<Json> = Vec::new();
    let mut i: usize = 0;
    while i < items.len()
        invariant
            i <= items.len(),
            out@.len() == i,
            forall|j: int| 0 <= j < i ==> json_copy(#[trigger] items@[j], out@[j]),
        decreases items.len() - i,
    {
        out.push(json_clone(&items[i]));
        i = i + 1;
    }
    out
}

/// Compiles `enum`: a non-empty array, copied.
pub fn compile_enum(def: &Json, fragment: &Vec<String>) -> (r: Result<Option<Vec<Json>>, SchemaError>)
    ensures
        def.spec_get("enum"@) is None ==> r matches Ok(None),
        def.spec_get("enum"@) matches Some(v) ==> match v {
            Json::Array(items) => if items@.len() > 0 {
                r matches Ok(Some(copy)) && copy@.len() == items@.len() && forall|i: int|
                    0 <= i < items@.len() ==> json_copy(#[trigger] items@[i], copy@[i])
            } else {
                r matches Err(SchemaError::Malformed { .. })
            },
            _ => r matches Err(SchemaError::Malformed { .. }),
        },
{
    match def.get("enum") {
        Some(Json::Array(items)) => if items.len() == 0 {
            Err(malformed(fragment, "This array must have at least one element."))
        } else {
            Ok(Some(copy_items(items)))
        },
        Some(_) => Err(malformed(fragment, "The value of this keyword must be an array.")),
        None => Ok(None),
    }
}

/// Compiles `const`: any value, copied.
pub fn compile_const(def: &Json) -> (r: Option<Json>)
    ensures
        def.spec_get("const"@) is None ==> r is None,
        def.spec_get("const"@) matches Some(v) ==> r matches Some(c) && json_copy(v, c),
{
    match def.get("const") {
        Some(v) => Some(json_clone(v)),
        None => None,
    }
}

/// Compiles `pattern`: a string that is a valid regular expression.
pub fn compile_pattern(def: &Json, fragment: &Vec<String>) -> (r: Result<Option<String>, SchemaError>)
    ensures
        def.spec_get("pattern"@) is None ==> r matches Ok(None),
        def.spec_get("pattern"@) matches Some(v) ==> match v {
            Json::Str(p) => if regex_valid(p@) {
                r matches Ok(Some(q)) && q@ == p@
            } else {
                r matches Err(SchemaError::Malformed { .. })
            },
            _ => r matches Err(SchemaError::Malformed { .. }),
        },
{
    match def.get("pattern") {
        Some(Json::Str(p)) => if regex_compiles(p.as_str()) {
            Ok(Some(p.clone()))
        } else {
            Err(malformed(fragment, "The value of pattern must be a valid regular expression"))
        },
        Some(_) => Err(malformed(fragment, "The value of pattern must be a string")),
        None => Ok(None),
    }
}

/// Compiles `uniqueItems`: `true` gives a validator, `false` none.
pub fn compile_unique_items(def: &Json, fragment: &Vec<String>) -> (r: Result<bool, SchemaError>)
    ensures
        def.spec_get("uniqueItems"@) is None ==> r matches Ok(false),
        def.spec_get("uniqueItems"@) matches Some(v) ==> match v {
            Json::Bool(b) => r matches Ok(x) && x == b,
            _ => r matches Err(SchemaError::Malformed { .. }),
        },
{
    match def.get("uniqueItems") {
        Some(Json::Bool(b)) => Ok(*b),
        Some(_) => Err(malformed(fragment, "The value of uniqueItems must be boolean")),
        None => Ok(false),
    }
}

/// Compiles `$ref`: a URL reference, read against the node's URL.
pub fn compile_ref(def: &Json, url: &str, fragment: &Vec<String>) -> (r: Result<
    Option<String>,
    SchemaError,
>)
    ensures
        def.spec_get("$ref"@) is None ==> r matches Ok(None),
        def.spec_get("$ref"@) matches Some(v) ==> match v {
            Json::Str(s) => match joined_url(url@, s@) {
                Some(u) => r matches Ok(Some(t)) && t@ == u,
                None => r matches Err(SchemaError::UrlParseError(_)),
            },
            _ => r matches Err(SchemaError::Malformed { .. }),
        },
{
    match def.get("$ref") {
        Some(Json::Str(s)) => match join_url(url, s.as_str()) {
            Some(u) => Ok(Some(u)),
            None => Err(SchemaError::UrlParseError(s.clone())),
        },
        Some(_) => Err(malformed(fragment, "The value of $ref must be a string")),
        None => Ok(None),
    }
}

/// Whether every element of `items` may stand as a schema.
pub open spec fn all_schema_like(items: Seq<Json>) -> bool {
    forall|i: int| 0 <= i < items.len() ==> schema_like(#[trigger] items[i])
}

/// Whether an `additionalItems` or `additionalProperties` value, if present,
/// is a boolean or an object.
pub open spec fn additional_acceptable(v: Option<Json>) -> bool {
    match v {
        Some(x) => x is Bool || x is Object,
        None => true,
    }
}

/// Whether `items` and `additionalItems` of `def` compile.
pub open spec fn items_acceptable(def: Json) -> bool {
    &&& match def.spec_get("items"@) {
        Some(v) => schema_like(v) || (v matches Json::Array(a) && all_schema_like(a@)),
        None => true,
    }
    &&& additional_acceptable(def.spec_get("additionalItems"@))
}

/// The compiled `additionalItems` or `additionalProperties` for the value `v`.
pub open spec fn additional_matches(
    a: AdditionalKind,
    v: Json,
    url: Seq<char>,
    fragment: Seq<Seq<char>>,
    name: Seq<char>,
) -> bool {
    match v {
        Json::Bool(b) => a == AdditionalKind::Boolean(b),
        Json::Object(_) => a matches AdditionalKind::Schema(u) && u@ == sub_url(url, fragment, name),
        _ => false,
    }
}

/// Whether `properties`, `patternProperties` and `additionalProperties` of
/// `def` compile.
pub open spec fn properties_acceptable(def: Json) -> bool {
    &&& match def.spec_get("properties"@) {
        Some(v) => keyed_acceptable(v, false),
        None => true,
    }
    &&& match def.spec_get("patternProperties"@) {
        Some(v) => keyed_acceptable(v, true),
        None => true,
    }
    &&& additional_acceptable(def.spec_get("additionalProperties"@))
}

/// Whether a value of `dependencies` compiles: a schema, or an array of
/// strings.
pub open spec fn dependency_acceptable(v: Json) -> bool {
    schema_like(v) || (v matches Json::Array(a) && all_strings(a@))
}

/// Whether `dependencies` of `def` compiles.
pub open spec fn dependencies_acceptable(def: Json) -> bool {
    match def.spec_get("dependencies"@) {
        Some(Json::Object(entries)) => forall|i: int|
            0 <= i < entries@.len() ==> dependency_acceptable((#[trigger] entries@[i]).1),
        Some(_) => false,
        None => true,
    }
}

/// Compiles `additionalItems` or `additionalProperties` (named `name`): a
/// boolean, or a schema held by URL.
fn compile_additional(name: &str, v: &Json, url: &str, fragment: &Vec<String>) -> (r: Result<
    AdditionalKind,
    SchemaError,
>)
    ensures
        match *v {
            Json::Bool(b) => r matches Ok(AdditionalKind::Boolean(x)) && x == b,
            Json::Object(_) => r matches Ok(AdditionalKind::Schema(u)) && u@ == sub_url(
                url@,
                texts(fragment@),
                name@,
            ),
            _ => r matches Err(SchemaError::Malformed { .. }),
        },
        r matches Ok(a) ==> additional_matches(a, *v, url@, texts(fragment@), name@),
{
    match v {
        Json::Bool(b) => Ok(AdditionalKind::Boolean(*b)),
        Json::Object(_) => Ok(AdditionalKind::Schema(make_sub_url(url, fragment, name))),
        _ => Err(malformed(fragment, "The value must be a boolean or an object.")),
    }
}

/// Compiles `items` together with `additionalItems`.
pub fn compile_items(def: &Json, url: &str, fragment: &Vec<String>) -> (r: Result<
    Option<(Option<ItemsKind>, Option<AdditionalKind>)>,
    SchemaError,
>)
    ensures
        def.spec_get("items"@) is None && def.spec_get("additionalItems"@) is None ==> r matches Ok(
            None,
        ),
        def.spec_get("items"@) matches Some(v) && schema_like(v) ==> (r is Ok ==> (r matches Ok(
            Some((Some(ItemsKind::Schema(u)), _)),
        ) && u@ == sub_url(url@, texts(fragment@), "items"@))),
        def.spec_get("items"@) matches Some(v) && !(v is Array) && !schema_like(v) ==> r matches Err(
            SchemaError::Malformed { .. },
        ),
        def.spec_get("additionalItems"@) matches Some(v) && !(v is Bool) && !(v is Object)
            ==> r is Err,
        r matches Ok(Some((Some(ItemsKind::Array(urls)), _))) ==> def.spec_get("items"@) matches Some(
            Json::Array(items),
        ) && urls@.len() == items@.len() && forall|i: int|
            0 <= i < urls@.len() ==> (#[trigger] urls@[i])@ == sub_url(
                url@,
                texts(fragment@),
                "items"@ + seq!['/'] + decimal(i as nat),
            ),
        r is Err ==> r matches Err(SchemaError::Malformed { .. }),
        items_acceptable(*def) ==> r is Ok,
        def.spec_get("items"@) matches Some(Json::Array(a)) && !all_schema_like(a@) ==> r is Err,
        r matches Ok(Some((_, a))) ==> match def.spec_get("additionalItems"@) {
            Some(v) => a matches Some(k) && additional_matches(k, v, url@, texts(fragment@), "additionalItems"@),
            None => a is None,
        },
        r matches Ok(None) ==> def.spec_get("items"@) is None && def.spec_get("additionalItems"@) is None,
        r matches Ok(Some((it, a))) ==> items_match(it, a, *def, url@, texts(fragment@)),
{
    let maybe_items = def.get("items");
    let maybe_additional = def.get("additionalItems");
    if maybe_items.is_none() && maybe_additional.is_none() {
        return Ok(None);
    }
    let items = match maybe_items {
        Some(v) => {
            if is_schema_like(v) {
                Some(ItemsKind::Schema(make_sub_url(url, fragment, "items")))
            } else {
                match v {
                    Json::Array(arr) => {
                        let mut urls: Vec<String> = Vec::new();
                        let mut i: usize = 0;
                        while i < arr.len()
                            invariant
                                i <= arr.len(),
                                urls@.len() == i,
                                def.spec_get("items"@) == Some(Json::Array(*arr)),
                                forall|j: int| 0 <= j < i ==> schema_like(#[trigger] arr@[j]),
                                forall|j: int|
                                    0 <= j < i ==> (#[trigger] urls@[j])@ == sub_url(
                                        url@,
                                        texts(fragment@),
                                        "items"@ + seq!['/'] + decimal(j as nat),
                                    ),
                            decreases arr.len() - i,
                        {
                            if !is_schema_like(&arr[i]) {
                                assert(!schema_like(arr@[i as int]));
                                return Err(malformed(fragment, "Items of this array MUST be objects or booleans"));
                            }
                            let tail = tail_of("items", index_string(i).as_str());
                            urls.push(make_sub_url(url, fragment, tail.as_str()));
                            i = i + 1;
                        }
                        Some(ItemsKind::Array(urls))
                    },
                    _ => {
                        return Err(malformed(fragment, "`items` must be an object, an array or a boolean"));
                    },
                }
            }
        },
        None => None,
    };
    let additional = match maybe_additional {
        Some(v) => Some(compile_additional("additionalItems", v, url, fragment)?),
        None => None,
    };
    Ok(Some((items, additional)))
}

/// The pairs of a compiled `properties` or `patternProperties`: each key of
/// the object with the URL of its schema, under `name`.
pub open spec fn keyed_urls(
    pairs: Seq<(String, String)>,
    entries: Seq<(String, Json)>,
    url: Seq<char>,
    fragment: Seq<Seq<char>>,
    name: Seq<char>,
) -> bool {
    pairs.len() == entries.len() && forall|i: int|
        0 <= i < pairs.len() ==> (#[trigger] pairs[i]).0@ == entries[i].0@ && pairs[i].1@
            == sub_url(url, fragment, name + seq!['/'] + encoded_segment(entries[i].0@))
}

/// Whether `v` is an object of schemas, and, with `patterns`, its keys are
/// valid regular expressions.
pub open spec fn keyed_acceptable(v: Json, patterns: bool) -> bool {
    &&& v is Object
    &&& forall|i: int|
        0 <= i < v->Object_0@.len() ==> schema_like((#[trigger] v->Object_0@[i]).1)
    &&& patterns ==> forall|i: int|
        0 <= i < v->Object_0@.len() ==> regex_valid((#[trigger] v->Object_0@[i]).0@)
}

/// Compiles the members of `properties` or `patternProperties` (named
/// `name`): each value must be a schema; with `patterns`, each key must be a
/// valid regular expression.
fn compile_keyed(
    name: &str,
    v: &Json,
    patterns: bool,
    url: &str,
    fragment: &Vec<String>,
) -> (r: Result<Vec<(String, String)>, SchemaError>)
    ensures
        r matches Ok(pairs) ==> v matches Json::Object(entries) && keyed_urls(
            pairs@,
            entries@,
            url@,
            texts(fragment@),
            name@,
        ) && (patterns ==> forall|i: int|
            0 <= i < entries@.len() ==> regex_valid((#[trigger] entries@[i]).0@)),
        r is Err ==> r matches Err(SchemaError::Malformed { .. }),
        keyed_acceptable(*v, patterns) ==> r is Ok,
{
    match v {
        Json::Object(entries) => {
            let mut pairs: Vec<(String, String)> = Vec::new();
            let mut i: usize = 0;
            while i < entries.len()
                invariant
                    i <= entries.len(),
                    *v == Json::Object(*entries),
                    keyed_urls(pairs@, entries@.subrange(0, i as int), url@, texts(fragment@), name@),
                    patterns ==> forall|j: int|
                        0 <= j < i ==> regex_valid((#[trigger] entries@[j]).0@),
                decreases entries.len() - i,
            {
                if !is_schema_like(&entries[i].1) {
                    assert(!schema_like(entries@[i as int].1));
                    assert(v->Object_0 == *entries);
                    assert(v->Object_0@[i as int] == entries@[i as int]);
                    assert(!schema_like(v->Object_0@[i as int].1));
                    assert(!keyed_acceptable(*v, patterns));
                    return Err(malformed(fragment, "Each value of this object must be an object or a boolean"));
                }
                if patterns && !regex_compiles(entries[i].0.as_str()) {
                    assert(v->Object_0 == *entries);
                    assert(v->Object_0@[i as int] == entries@[i as int]);
                    assert(!regex_valid(v->Object_0@[i as int].0@));
                    assert(!keyed_acceptable(*v, patterns));
                    return Err(malformed(fragment, "Each property name of this object SHOULD be a valid regular expression."));
                }
                let tail = tail_of(name, encode(entries[i].0.as_str()).as_str());
                let ghost prev = pairs@;
                pairs.push((entries[i].0.clone(), make_sub_url(url, fragment, tail.as_str())));
                proof {
                    let sub = entries@.subrange(0, i + 1);
                    assert forall|j: int| 0 <= j < pairs@.len() implies (#[trigger] pairs@[j]).0@
                        == sub[j].0@ && pairs@[j].1@ == sub_url(
                        url@,
                        texts(fragment@),
                        name@ + seq!['/'] + encoded_segment(sub[j].0@),
                    ) by {
                        if j < i {
                            assert(sub[j] == entries@.subrange(0, i as int)[j]);
                        }
                    }
                }
                i = i + 1;
            }
            assert(entries@.subrange(0, entries.len() as int) =~= entries@);
            Ok(pairs)
        },
        _ => Err(malformed(fragment, "The value of this keyword must be an object")),
    }
}

/// Compiles `properties` together with `patternProperties` and
/// `additionalProperties` (which allows anything when absent).
pub fn compile_properties(def: &Json, url: &str, fragment: &Vec<String>) -> (r: Result<
    Option<(Vec<(String, String)>, AdditionalKind, Vec<(String, String)>)>,
    SchemaError,
>)
    ensures
        def.spec_get("properties"@) is None && def.spec_get("additionalProperties"@) is None
            && def.spec_get("patternProperties"@) is None ==> r matches Ok(None),
        r matches Ok(Some((props, additional, patterns))) ==> {
            &&& match def.spec_get("properties"@) {
                Some(Json::Object(entries)) => keyed_urls(
                    props@,
                    entries@,
                    url@,
                    texts(fragment@),
                    "properties"@,
                ),
                Some(_) => false,
                None => props@.len() == 0,
            }
            &&& match def.spec_get("patternProperties"@) {
                Some(Json::Object(entries)) => keyed_urls(
                    patterns@,
                    entries@,
                    url@,
                    texts(fragment@),
                    "patternProperties"@,
                ) && forall|i: int|
                    0 <= i < patterns@.len() ==> regex_valid((#[trigger] patterns@[i]).0@),
                Some(_) => false,
                None => patterns@.len() == 0,
            }
            &&& match def.spec_get("additionalProperties"@) {
                Some(Json::Bool(b)) => additional == AdditionalKind::Boolean(b),
                Some(Json::Object(_)) => additional matches AdditionalKind::Schema(u) && u@
                    == sub_url(url@, texts(fragment@), "additionalProperties"@),
                Some(_) => false,
                None => additional == AdditionalKind::Boolean(true),
            }
        },
        r is Err ==> r matches Err(SchemaError::Malformed { .. }),
        properties_acceptable(*def) ==> r is Ok,
        r matches Ok(None) <==> def.spec_get("properties"@) is None && def.spec_get(
            "additionalProperties"@,
        ) is None && def.spec_get("patternProperties"@) is None,
{
    let maybe_properties = def.get("properties");
    let maybe_additional = def.get("additionalProperties");
    let maybe_pattern = def.get("patternProperties");
    if maybe_properties.is_none() && maybe_additional.is_none() && maybe_pattern.is_none() {
        return Ok(None);
    }
    let properties = match maybe_properties {
        Some(v) => compile_keyed("properties", v, false, url, fragment)?,
        None => Vec::new(),
    };
    let additional = match maybe_additional {
        Some(v) => compile_additional("additionalProperties", v, url, fragment)?,
        None => AdditionalKind::Boolean(true),
    };
    let patterns = match maybe_pattern {
        Some(v) => {
            let ps = compile_keyed("patternProperties", v, true, url, fragment)?;
            proof {
                if v is Object {
                    let entries = v->Object_0;
                    assert forall|i: int| 0 <= i < ps@.len() implies regex_valid(
                        (#[trigger] ps@[i]).0@,
                    ) by {
                        assert(regex_valid(entries@[i].0@));
                    }
                }
            }
            ps
        },
        None => Vec::new(),
    };
    Ok(Some((properties, additional, patterns)))
}

/// Compiles `dependencies`: an object whose values are schemas or arrays of
/// property names.
pub fn compile_dependencies(def: &Json, url: &str, fragment: &Vec<String>) -> (r: Result<
    Option<Vec<(String, DepKind)>>,
    SchemaError,
>)
    ensures
        def.spec_get("dependencies"@) is None ==> r matches Ok(None),
        def.spec_get("dependencies"@) matches Some(v) && !(v is Object) ==> r matches Err(
            SchemaError::Malformed { .. },
        ),
        r matches Ok(Some(deps)) ==> def.spec_get("dependencies"@) matches Some(
            Json::Object(entries),
        ) && deps@.len() == entries@.len() && forall|i: int|
            0 <= i < deps@.len() ==> (#[trigger] deps@[i]).0@ == entries@[i].0@ && match deps@[i].1 {
                DepKind::Schema(u) => schema_like(entries@[i].1) && u@ == sub_url(
                    url@,
                    texts(fragment@),
                    "dependencies"@ + seq!['/'] + encoded_segment(entries@[i].0@),
                ),
                DepKind::Property(names) => entries@[i].1 matches Json::Array(items) && names_of(
                    names@,
                    items@,
                ),
            },
        r is Err ==> r matches Err(SchemaError::Malformed { .. }),
        dependencies_acceptable(*def) ==> r is Ok,
        def.spec_get("dependencies"@) is Some ==> !(r matches Ok(None)),
{
    let deps = match def.get("dependencies") {
        Some(v) => v,
        None => return Ok(None),
    };
    match deps {
        Json::Object(entries) => {
            let mut items: Vec<(String, DepKind)> = Vec::new();
            let mut i: usize = 0;
            while i < entries.len()
                invariant
                    i <= entries.len(),
                    def.spec_get("dependencies"@) == Some(Json::Object(*entries)),
                    items@.len() == i,
                    forall|j: int| 0 <= j < i ==> dependency_acceptable((#[trigger] entries@[j]).1),
                    forall|j: int|
                        0 <= j < i ==> (#[trigger] items@[j]).0@ == entries@[j].0@ && match items@[j].1 {
                            DepKind::Schema(u) => schema_like(entries@[j].1) && u@ == sub_url(
                                url@,
                                texts(fragment@),
                                "dependencies"@ + seq!['/'] + encoded_segment(entries@[j].0@),
                            ),
                            DepKind::Property(names) => entries@[j].1 matches Json::Array(arr)
                                && names_of(names@, arr@),
                        },
                decreases entries.len() - i,
            {
                let key = entries[i].0.clone();
                if is_schema_like(&entries[i].1) {
                    let tail = tail_of("dependencies", encode(key.as_str()).as_str());
                    items.push((key, DepKind::Schema(make_sub_url(url, fragment, tail.as_str()))));
                } else {
                    match &entries[i].1 {
                        Json::Array(arr) => match string_items(arr) {
                            Some(names) => {
                                items.push((key, DepKind::Property(names)));
                            },
                            None => {
                                assert(!dependency_acceptable(entries@[i as int].1));
                                return Err(malformed(fragment, "Each element must be a string, and elements in the array must be unique."));
                            },
                        },
                        _ => {
                            assert(!dependency_acceptable(entries@[i as int].1));
                            return Err(malformed(fragment, "Each value of this object must be either an object, an array or a boolean."));
                        },
                    }
                }
                i = i + 1;
            }
            Ok(Some(items))
        },
        _ => Err(malformed(fragment, "The value of this keyword must be an object.")),
    }
}

/// A keyword compiler over several keys, registered under each of them.
pub fn decouple_keyword(keys: Vec<String>, keyword: Keyword, map: &mut Vec<KeywordConsumer>)
    ensures
        final(map)@ == seq![(KeywordConsumer { keys, keyword })] + old(map)@,
{
    map.insert(0, KeywordConsumer { keys, keyword });
    assert(map@ =~= seq![KeywordConsumer { keys, keyword }] + old(map)@);
}

/// The compilers of the default registry, in lookup order.
pub open spec fn default_compilers() -> Seq<Keyword> {
    seq![
            Keyword::UniqueItems,
            Keyword::PropertyNames,
            Keyword::Properties,
            Keyword::Pattern,
            Keyword::MultipleOf,
            Keyword::Minimum,
            Keyword::MinProperties,
            Keyword::MinLength,
            Keyword::MinItems,
            Keyword::Maximum,
            Keyword::MaxProperties,
            Keyword::MaxLength,
            Keyword::MaxItems,
            Keyword::ExclusiveMinimum,
            Keyword::ExclusiveMaximum,
            Keyword::Type,
            Keyword::Required,
            Keyword::Ref,
            Keyword::Items,
            Keyword::Not,
            Keyword::Enum,
            Keyword::Dependencies,
            Keyword::Contains,
            Keyword::Const,
            Keyword::OneOf,
            Keyword::AnyOf,
            Keyword::AllOf,
        ]
}

/// The compilers of a registry, in lookup order.
pub open spec fn compilers_of(map: Seq<KeywordConsumer>) -> Seq<Keyword> {
    map.map_values(|c: KeywordConsumer| c.keyword)
}

/// Every compiler of the registry is registered under exactly the keys it
/// reads.
pub open spec fn registered_under_own_keys(map: Seq<KeywordConsumer>) -> bool {
    forall|i: int|
        0 <= i < map.len() ==> (#[trigger] map[i]).keys@.map_values(|k: String| k@) == keyword_keys(
            map[i].keyword,
        )
}

fn register(names: Vec<String>, keyword: Keyword, map: &mut Vec<KeywordConsumer>)
    requires
        registered_under_own_keys(old(map)@),
        names@.map_values(|k: String| k@) == keyword_keys(keyword),
    ensures
        registered_under_own_keys(final(map)@),
        final(map)@.len() == old(map)@.len() + 1,
        compilers_of(final(map)@) == seq![keyword] + compilers_of(old(map)@),
{
    decouple_keyword(names, keyword, map);
    assert(compilers_of(map@) =~= seq![keyword] + compilers_of(old(map)@));
    assert forall|i: int| 0 <= i < map@.len() implies (#[trigger] map@[i]).keys@.map_values(
        |k: String| k@,
    ) == keyword_keys(map@[i].keyword) by {
        if i > 0 {
            assert(map@[i] == old(map)@[i - 1]);
        }
    }
}

fn names1(a: &str) -> (r: Vec<String>)
    ensures
        r@.map_values(|k: String| k@) == seq![a@],
{
    let mut v: Vec<String> = Vec::new();
    v.push(a.to_string());
    assert(v@.map_values(|k: String| k@) =~= seq![a@]);
    v
}

fn names2(a: &str, b: &str) -> (r: Vec<String>)
    ensures
        r@.map_values(|k: String| k@) == seq![a@, b@],
{
    let mut v: Vec<String> = Vec::new();
    v.push(a.to_string());
    v.push(b.to_string());
    assert(v@.map_values(|k: String| k@) =~= seq![a@, b@]);
    v
}

fn names3(a: &str, b: &str, c: &str) -> (r: Vec<String>)
    ensures
        r@.map_values(|k: String| k@) == seq![a@, b@, c@],
{
    let mut v: Vec<String> = Vec::new();
    v.push(a.to_string());
    v.push(b.to_string());
    v.push(c.to_string());
    assert(v@.map_values(|k: String| k@) =~= seq![a@, b@, c@]);
    v
}

/// The keywords of JSON Schema that this library compiles.
pub fn default() -> (r: Vec<KeywordConsumer>)
    ensures
        r@.len() == 27,
        registered_under_own_keys(r@),
        compilers_of(r@) == default_compilers(),
{
    let mut map: Vec<KeywordConsumer> = Vec::new();
    assert(compilers_of(map@) =~= Seq::<Keyword>::empty());
    register(names1("allOf"), Keyword::AllOf, &mut map);
    register(names1("anyOf"), Keyword::AnyOf, &mut map);
    register(names1("oneOf"), Keyword::OneOf, &mut map);
    register(names1("const"), Keyword::Const, &mut map);
    register(names1("contains"), Keyword::Contains, &mut map);
    register(names1("dependencies"), Keyword::Dependencies, &mut map);
    register(names1("enum"), Keyword::Enum, &mut map);
    register(names1("not"), Keyword::Not, &mut map);
    register(names2("items", "additionalItems"), Keyword::Items, &mut map);
    register(names1("$ref"), Keyword::Ref, &mut map);
    register(names1("required"), Keyword::Required, &mut map);
    register(names1("type"), Keyword::Type, &mut map);
    register(names1("exclusiveMaximum"), Keyword::ExclusiveMaximum, &mut map);
    register(names1("exclusiveMinimum"), Keyword::ExclusiveMinimum, &mut map);
    register(names1("maxItems"), Keyword::MaxItems, &mut map);
    register(names1("maxLength"), Keyword::MaxLength, &mut map);
    register(names1("maxProperties"), Keyword::MaxProperties, &mut map);
    register(names1("maximum"), Keyword::Maximum, &mut map);
    register(names1("minItems"), Keyword::MinItems, &mut map);
    register(names1("minLength"), Keyword::MinLength, &mut map);
    register(names1("minProperties"), Keyword::MinProperties, &mut map);
    register(names1("minimum"), Keyword::Minimum, &mut map);
    register(names1("multipleOf"), Keyword::MultipleOf, &mut map);
    register(names1("pattern"), Keyword::Pattern, &mut map);
    register(
        names3("properties", "additionalProperties", "patternProperties"),
        Keyword::Properties,
        &mut map,
    );
    register(names1("propertyNames"), Keyword::PropertyNames, &mut map);
    register(names1("uniqueItems"), Keyword::UniqueItems, &mut map);
    assert(compilers_of(map@) =~= seq![
        Keyword::UniqueItems,
        Keyword::PropertyNames,
        Keyword::Properties,
        Keyword::Pattern,
        Keyword::MultipleOf,
        Keyword::Minimum,
        Keyword::MinProperties,
        Keyword::MinLength,
        Keyword::MinItems,
        Keyword::Maximum,
        Keyword::MaxProperties,
        Keyword::MaxLength,
        Keyword::MaxItems,
        Keyword::ExclusiveMinimum,
        Keyword::ExclusiveMaximum,
        Keyword::Type,
        Keyword::Required,
        Keyword::Ref,
        Keyword::Items,
        Keyword::Not,
        Keyword::Enum,
        Keyword::Dependencies,
        Keyword::Contains,
        Keyword::Const,
        Keyword::OneOf,
        Keyword::AnyOf,
        Keyword::AllOf,
    ]);
    map
}

/// Whether `keys` holds `k`.
pub open spec fn holds_key(keys: Seq<String>, k: Seq<char>) -> bool {
    exists|i: int| 0 <= i < keys.len() && (#[trigger] keys[i])@ == k
}

/// Whether `keys` holds `k`.
pub fn contains_key(keys: &Vec<String>, k: &str) -> (r: bool)
    ensures
        r == holds_key(keys@, k@),
{
    let mut i: usize = 0;
    while i < keys.len()
        invariant
            i <= keys.len(),
            forall|j: int| 0 <= j < i ==> (#[trigger] keys@[j])@ != k@,
        decreases keys.len() - i,
    {
        if crate::value::str_eq(keys[i].as_str(), k) {
            assert(keys@[i as int]@ == k@);
            return true;
        }
        i = i + 1;
    }
    false
}

/// The position of the first compiler at or after `i` that claims `k`.
pub open spec fn first_claimer_from(map: Seq<KeywordConsumer>, k: Seq<char>, i: int) -> Option<int>
    decreases map.len() - i,
{
    if i < 0 || i >= map.len() {
        None
    } else if holds_key(map[i].keys@, k) {
        Some(i)
    } else {
        first_claimer_from(map, k, i + 1)
    }
}

/// The position of the first compiler that claims `k`.
pub open spec fn first_claimer(map: Seq<KeywordConsumer>, k: Seq<char>) -> Option<int> {
    first_claimer_from(map, k, 0)
}

/// The first keyword compiler of the registry that claims `key`.
pub fn find_keyword(map: &Vec<KeywordConsumer>, key: &str) -> (r: Option<usize>)
    ensures
        r matches Some(p) ==> first_claimer(map@, key@) == Some(p as int),
        r is None ==> first_claimer(map@, key@) is None,
        r matches Some(p) ==> p < map@.len() && holds_key(map@[p as int].keys@, key@) && forall|j: int|
            0 <= j < p ==> !holds_key((#[trigger] map@[j]).keys@, key@),
        r is None ==> forall|j: int|
            0 <= j < map@.len() ==> !holds_key((#[trigger] map@[j]).keys@, key@),
{
    let mut i: usize = 0;
    while i < map.len()
        invariant
            i <= map.len(),
            forall|j: int| 0 <= j < i ==> !holds_key((#[trigger] map@[j]).keys@, key@),
            first_claimer(map@, key@) == first_claimer_from(map@, key@, i as int),
        decreases map.len() - i,
    {
        if contains_key(&map[i].keys, key) {
            return Some(i);
        }
        i = i + 1;
    }
    None
}

impl KeywordConsumer {
    /// Marks every key this compiler claims as consumed.
    pub fn consume(&self, consumed: &mut Vec<String>)
        ensures
            final(consumed)@.len() == old(consumed)@.len() + self.keys@.len(),
            forall|i: int|
                0 <= i < old(consumed)@.len() ==> final(consumed)@[i] == old(consumed)@[i],
            forall|i: int|
                0 <= i < self.keys@.len() ==> final(consumed)@[old(consumed)@.len() + i]
                    == self.keys@[i],
    {
        let mut i: usize = 0;
        while i < self.keys.len()
            invariant
                i <= self.keys.len(),
                consumed@.len() == old(consumed)@.len() + i,
                forall|j: int| 0 <= j < old(consumed)@.len() ==> consumed@[j] == old(consumed)@[j],
                forall|j: int|
                    0 <= j < i ==> consumed@[old(consumed)@.len() + j] == self.keys@[j],
            decreases self.keys.len() - i,
        {
            consumed.push(self.keys[i].clone());
            i = i + 1;
        }
    }

    /// A copy of this registration.
    pub fn copy(&self) -> (r: KeywordConsumer)
        ensures
            r.keys@ == self.keys@,
            r.keyword == self.keyword,
    {
        let mut keys: Vec<String> = Vec::new();
        let mut i: usize = 0;
        while i < self.keys.len()
            invariant
                i <= self.keys.len(),
                keys@ == self.keys@.subrange(0, i as int),
            decreases self.keys.len() - i,
        {
            keys.push(self.keys[i].clone());
            i = i + 1;
        }
        assert(self.keys@.subrange(0, self.keys@.len() as int) =~= self.keys@);
        KeywordConsumer { keys, keyword: self.keyword }
    }
}

/// A copy of a registry.
pub fn copy_keywords(map: &Vec<KeywordConsumer>) -> (r: Vec<KeywordConsumer>)
    ensures
        r@.len() == map@.len(),
        forall|i: int|
            0 <= i < map@.len() ==> (#[trigger] r@[i]).keys@ == map@[i].keys@ && r@[i].keyword
                == map@[i].keyword,
{
    let mut out: Vec<KeywordConsumer> = Vec::new();
    let mut i: usize = 0;
    while i < map.len()
        invariant
            i <= map.len(),
            out@.len() == i,
            forall|j: int|
                0 <= j < i ==> (#[trigger] out@[j]).keys@ == map@[j].keys@ && out@[j].keyword
                    == map@[j].keyword,
        decreases map.len() - i,
    {
        out.push(map[i].copy());
        i = i + 1;
    }
    out
}

/// The schema keys a keyword compiler reads.
pub open spec fn keyword_keys(kw: Keyword) -> Seq<Seq<char>> {
    match kw {
        Keyword::AllOf => seq!["allOf"@],
        Keyword::AnyOf => seq!["anyOf"@],
        Keyword::OneOf => seq!["oneOf"@],
        Keyword::Const => seq!["const"@],
        Keyword::Contains => seq!["contains"@],
        Keyword::Dependencies => seq!["dependencies"@],
        Keyword::Enum => seq!["enum"@],
        Keyword::Not => seq!["not"@],
        Keyword::Items => seq!["items"@, "additionalItems"@],
        Keyword::Ref => seq!["$ref"@],
        Keyword::Required => seq!["required"@],
        Keyword::Type => seq!["type"@],
        Keyword::Maximum => seq!["maximum"@],
        Keyword::ExclusiveMaximum => seq!["exclusiveMaximum"@],
        Keyword::Minimum => seq!["minimum"@],
        Keyword::ExclusiveMinimum => seq!["exclusiveMinimum"@],
        Keyword::MultipleOf => seq!["multipleOf"@],
        Keyword::MaxItems => seq!["maxItems"@],
        Keyword::MinItems => seq!["minItems"@],
        Keyword::MaxLength => seq!["maxLength"@],
        Keyword::MinLength => seq!["minLength"@],
        Keyword::MaxProperties => seq!["maxProperties"@],
        Keyword::MinProperties => seq!["minProperties"@],
        Keyword::Pattern => seq!["pattern"@],
        Keyword::Properties => seq!["properties"@, "additionalProperties"@, "patternProperties"@],
        Keyword::PropertyNames => seq!["propertyNames"@],
        Keyword::UniqueItems => seq!["uniqueItems"@],
    }
}

/// Whether the validator `v` is of the kind the compiler `kw` makes.
pub open spec fn made_by(kw: Keyword, v: Validator) -> bool {
    match kw {
        Keyword::AllOf => v is AllOf,
        Keyword::AnyOf => v is AnyOf,
        Keyword::OneOf => v is OneOf,
        Keyword::Const => v is Const,
        Keyword::Contains => v is Contains,
        Keyword::Dependencies => v is Dependencies,
        Keyword::Enum => v is Enum,
        Keyword::Not => v is Not,
        Keyword::Items => v is Items,
        Keyword::Ref => v is Ref,
        Keyword::Required => v is Required,
        Keyword::Type => v is Type,
        Keyword::Maximum => v is Maximum,
        Keyword::ExclusiveMaximum => v is ExclusiveMaximum,
        Keyword::Minimum => v is Minimum,
        Keyword::ExclusiveMinimum => v is ExclusiveMinimum,
        Keyword::MultipleOf => v is MultipleOf,
        Keyword::MaxItems => v is MaxItems,
        Keyword::MinItems => v is MinItems,
        Keyword::MaxLength => v is MaxLength,
        Keyword::MinLength => v is MinLength,
        Keyword::MaxProperties => v is MaxProperties,
        Keyword::MinProperties => v is MinProperties,
        Keyword::Pattern => v is Pattern,
        Keyword::Properties => v is Properties,
        Keyword::PropertyNames => v is PropertyNames,
        Keyword::UniqueItems => v is UniqueItems,
    }
}

/// `us` are the URLs of the elements of the array under `name`.
pub open spec fn of_urls(us: Seq<String>, def: Json, url: Seq<char>, fragment: Seq<Seq<char>>, name: Seq<char>) -> bool {
    def.spec_get(name) matches Some(Json::Array(items)) && us.len() == items@.len() && forall|i: int|
        0 <= i < us.len() ==> (#[trigger] us[i])@ == sub_url(
            url,
            fragment,
            name + seq!['/'] + decimal(i as nat),
        )
}

/// `deps` is what `dependencies` of `def` compiles to.
pub open spec fn deps_match(deps: Seq<(String, DepKind)>, def: Json, url: Seq<char>, fragment: Seq<Seq<char>>) -> bool {
    def.spec_get("dependencies"@) matches Some(Json::Object(entries)) && deps.len() == entries@.len()
        && forall|i: int|
        0 <= i < deps.len() ==> (#[trigger] deps[i]).0@ == entries@[i].0@ && match deps[i].1 {
            DepKind::Schema(u) => schema_like(entries@[i].1) && u@ == sub_url(
                url,
                fragment,
                "dependencies"@ + seq!['/'] + encoded_segment(entries@[i].0@),
            ),
            DepKind::Property(names) => entries@[i].1 matches Json::Array(items) && names_of(
                names@,
                items@,
            ),
        }
}

/// `items` and `additional` are what `items` and `additionalItems` of
/// `def` compile to.
pub open spec fn items_match(
    items: Option<ItemsKind>,
    additional: Option<AdditionalKind>,
    def: Json,
    url: Seq<char>,
    fragment: Seq<Seq<char>>,
) -> bool {
    &&& match def.spec_get("items"@) {
        Some(v) => if schema_like(v) {
            items matches Some(ItemsKind::Schema(u)) && u@ == sub_url(url, fragment, "items"@)
        } else {
            items matches Some(ItemsKind::Array(us)) && of_urls(us@, def, url, fragment, "items"@)
        },
        None => items is None,
    }
    &&& match def.spec_get("additionalItems"@) {
        Some(v) => additional matches Some(k) && additional_matches(
            k,
            v,
            url,
            fragment,
            "additionalItems"@,
        ),
        None => additional is None,
    }
}

/// The compiled property keywords of `def`.
pub open spec fn properties_match(
    properties: Seq<(String, String)>,
    additional: AdditionalKind,
    patterns: Seq<(String, String)>,
    def: Json,
    url: Seq<char>,
    fragment: Seq<Seq<char>>,
) -> bool {
    &&& match def.spec_get("properties"@) {
        Some(Json::Object(entries)) => keyed_urls(properties, entries@, url, fragment, "properties"@),
        Some(_) => false,
        None => properties.len() == 0,
    }
    &&& match def.spec_get("patternProperties"@) {
        Some(Json::Object(entries)) => keyed_urls(
            patterns,
            entries@,
            url,
            fragment,
            "patternProperties"@,
        ),
        Some(_) => false,
        None => patterns.len() == 0,
    }
    &&& match def.spec_get("additionalProperties"@) {
        Some(v) => additional_matches(additional, v, url, fragment, "additionalProperties"@),
        None => additional == AdditionalKind::Boolean(true),
    }
}

/// `k` is what `type` of `def` compiles to.
pub open spec fn type_match(k: TypeKind, def: Json) -> bool {
    match def.spec_get("type"@) {
        Some(v) => match v {
            Json::Str(_) => k matches TypeKind::Single(t) && names_type(v, t),
            Json::Array(items) => k matches TypeKind::Any(ts) && ts@.len() == items@.len() && forall|i: int|
                0 <= i < ts@.len() ==> names_type(items@[i], #[trigger] ts@[i]),
            _ => false,
        },
        None => false,
    }
}

/// The number under `name` in `def`.
pub open spec fn number_at(def: Json, name: Seq<char>, n: Number) -> bool {
    def.spec_get(name) == Some(Json::Number(n))
}

/// The count under `name` in `def`.
pub open spec fn count_at(def: Json, name: Seq<char>, m: u64) -> bool {
    def.spec_get(name) matches Some(Json::Number(n)) && m == num_whole(n)
}

/// Whether the compiler `kw` makes a validator of `def` (when it accepts
/// it): one of its keys is present, and for `uniqueItems` it is `true`.
pub open spec fn yields(kw: Keyword, def: Json) -> bool {
    match kw {
        Keyword::UniqueItems => def.spec_get("uniqueItems"@) == Some(Json::Bool(true)),
        _ => exists|i: int|
            0 <= i < keyword_keys(kw).len() && def.spec_get(#[trigger] keyword_keys(kw)[i]) is Some,
    }
}

/// `v` is what the compiler `kw` makes of the schema object `def` at
/// `fragment` below `url`.
pub open spec fn compiled_as(kw: Keyword, def: Json, url: Seq<char>, fragment: Seq<Seq<char>>, v: Validator) -> bool {
    match kw {
        Keyword::AllOf => v matches Validator::AllOf(us) && of_urls(us@, def, url, fragment, "allOf"@),
        Keyword::AnyOf => v matches Validator::AnyOf(us) && of_urls(us@, def, url, fragment, "anyOf"@),
        Keyword::OneOf => v matches Validator::OneOf(us) && of_urls(us@, def, url, fragment, "oneOf"@),
        Keyword::Const => v matches Validator::Const(c) && def.spec_get("const"@) matches Some(x)
            && json_copy(x, c),
        Keyword::Contains => v matches Validator::Contains(u) && (def.spec_get("contains"@) matches Some(x) && schema_like(x)) && u@ == sub_url(url, fragment, "contains"@),
        Keyword::Dependencies => v matches Validator::Dependencies(d) && deps_match(d@, def, url, fragment),
        Keyword::Enum => v matches Validator::Enum(c) && def.spec_get("enum"@) matches Some(
            Json::Array(items),
        ) && c@.len() == items@.len() && forall|i: int|
            0 <= i < items@.len() ==> json_copy(#[trigger] items@[i], c@[i]),
        Keyword::Not => v matches Validator::Not(u) && (def.spec_get("not"@) matches Some(x) && schema_like(x)) && u@ == sub_url(url, fragment, "not"@),
        Keyword::Items => v matches Validator::Items { items, additional_items } && items_match(
            items,
            additional_items,
            def,
            url,
            fragment,
        ),
        Keyword::Ref => v matches Validator::Ref(u) && def.spec_get("$ref"@) matches Some(Json::Str(s))
            && joined_url(url, s@) == Some(u@),
        Keyword::Required => v matches Validator::Required(names) && def.spec_get("required"@) matches Some(
            Json::Array(items),
        ) && names_of(names@, items@),
        Keyword::Type => v matches Validator::Type(k) && type_match(k, def),
        Keyword::Maximum => v matches Validator::Maximum(n) && number_at(def, "maximum"@, n),
        Keyword::ExclusiveMaximum => v matches Validator::ExclusiveMaximum(n) && number_at(
            def,
            "exclusiveMaximum"@,
            n,
        ),
        Keyword::Minimum => v matches Validator::Minimum(n) && number_at(def, "minimum"@, n),
        Keyword::ExclusiveMinimum => v matches Validator::ExclusiveMinimum(n) && number_at(
            def,
            "exclusiveMinimum"@,
            n,
        ),
        Keyword::MultipleOf => v matches Validator::MultipleOf(n) && number_at(def, "multipleOf"@, n)
            && n.spec_mantissa() > 0,
        Keyword::MaxItems => v matches Validator::MaxItems(m) && count_at(def, "maxItems"@, m),
        Keyword::MinItems => v matches Validator::MinItems(m) && count_at(def, "minItems"@, m),
        Keyword::MaxLength => v matches Validator::MaxLength(m) && count_at(def, "maxLength"@, m),
        Keyword::MinLength => v matches Validator::MinLength(m) && count_at(def, "minLength"@, m),
        Keyword::MaxProperties => v matches Validator::MaxProperties(m) && count_at(
            def,
            "maxProperties"@,
            m,
        ),
        Keyword::MinProperties => v matches Validator::MinProperties(m) && count_at(
            def,
            "minProperties"@,
            m,
        ),
        Keyword::Pattern => v matches Validator::Pattern(p) && def.spec_get("pattern"@) matches Some(
            Json::Str(q),
        ) && p@ == q@,
        Keyword::Properties => v matches Validator::Properties { properties, additional, patterns }
            && properties_match(properties@, additional, patterns@, def, url, fragment),
        Keyword::PropertyNames => v matches Validator::PropertyNames(u) && (def.spec_get("propertyNames"@) matches Some(x) && schema_like(x)) && u@ == sub_url(
            url,
            fragment,
            "propertyNames"@,
        ),
        Keyword::UniqueItems => v matches Validator::UniqueItems && def.spec_get("uniqueItems"@) == Some(
            Json::Bool(true),
        ),
    }
}

/// Whether the value under `name` in `def`, if present, is a non-empty array of
/// schemas.
pub open spec fn of_acceptable(def: Json, name: Seq<char>) -> bool {
    match def.spec_get(name) {
        Some(Json::Array(items)) => items@.len() > 0 && all_schema_like(items@),
        Some(_) => false,
        None => true,
    }
}

/// Whether the value under `name`, if present, satisfies `p`.
pub open spec fn present_satisfies(def: Json, name: Seq<char>, p: spec_fn(Json) -> bool) -> bool {
    match def.spec_get(name) {
        Some(v) => p(v),
        None => true,
    }
}

/// Whether a value is a non-negative whole number.
pub open spec fn is_count(v: Json) -> bool {
    v matches Json::Number(n) && num_is_integer(n) && n.spec_mantissa() >= 0
}

/// Whether a `type` value names a type or a non-empty list of types.
pub open spec fn type_acceptable(v: Json) -> bool {
    match v {
        Json::Str(_) => is_type_name(v),
        Json::Array(items) => items@.len() > 0 && forall|i: int|
            0 <= i < items@.len() ==> is_type_name(#[trigger] items@[i]),
        _ => false,
    }
}

/// Whether the compiler `kw` accepts the schema object `def` at `url`: what
/// it reads is absent or well formed.
pub open spec fn keyword_acceptable(kw: Keyword, def: Json, url: Seq<char>) -> bool {
    match kw {
        Keyword::AllOf => of_acceptable(def, "allOf"@),
        Keyword::AnyOf => of_acceptable(def, "anyOf"@),
        Keyword::OneOf => of_acceptable(def, "oneOf"@),
        Keyword::Const => true,
        Keyword::Contains => present_satisfies(def, "contains"@, |v: Json| schema_like(v)),
        Keyword::Dependencies => dependencies_acceptable(def),
        Keyword::Enum => present_satisfies(
            def,
            "enum"@,
            |v: Json| v matches Json::Array(a) && a@.len() > 0,
        ),
        Keyword::Not => present_satisfies(def, "not"@, |v: Json| schema_like(v)),
        Keyword::Items => items_acceptable(def),
        Keyword::Ref => present_satisfies(
            def,
            "$ref"@,
            |v: Json| v matches Json::Str(s) && joined_url(url, s@) is Some,
        ),
        Keyword::Required => present_satisfies(
            def,
            "required"@,
            |v: Json| v matches Json::Array(a) && all_strings(a@),
        ),
        Keyword::Type => present_satisfies(def, "type"@, |v: Json| type_acceptable(v)),
        Keyword::Maximum => present_satisfies(def, "maximum"@, |v: Json| v is Number),
        Keyword::ExclusiveMaximum => present_satisfies(def, "exclusiveMaximum"@, |v: Json| v is Number),
        Keyword::Minimum => present_satisfies(def, "minimum"@, |v: Json| v is Number),
        Keyword::ExclusiveMinimum => present_satisfies(def, "exclusiveMinimum"@, |v: Json| v is Number),
        Keyword::MultipleOf => present_satisfies(
            def,
            "multipleOf"@,
            |v: Json| v matches Json::Number(n) && n.spec_mantissa() > 0,
        ),
        Keyword::MaxItems => present_satisfies(def, "maxItems"@, |v: Json| is_count(v)),
        Keyword::MinItems => present_satisfies(def, "minItems"@, |v: Json| is_count(v)),
        Keyword::MaxLength => present_satisfies(def, "maxLength"@, |v: Json| is_count(v)),
        Keyword::MinLength => present_satisfies(def, "minLength"@, |v: Json| is_count(v)),
        Keyword::MaxProperties => present_satisfies(def, "maxProperties"@, |v: Json| is_count(v)),
        Keyword::MinProperties => present_satisfies(def, "minProperties"@, |v: Json| is_count(v)),
        Keyword::Pattern => present_satisfies(
            def,
            "pattern"@,
            |v: Json| v matches Json::Str(p) && regex_valid(p@),
        ),
        Keyword::Properties => properties_acceptable(def),
        Keyword::PropertyNames => present_satisfies(def, "propertyNames"@, |v: Json| schema_like(v)),
        Keyword::UniqueItems => present_satisfies(def, "uniqueItems"@, |v: Json| v is Bool),
    }
}

/// Compiles one keyword of the schema object `def` at `fragment` below `url`.
pub fn compile_keyword(kw: Keyword, def: &Json, url: &str, fragment: &Vec<String>) -> (r: Result<
    Option<Validator>,
    SchemaError,
>)
    ensures
        !(r matches Err(SchemaError::UnknownKey(_))),
        (forall|i: int|
            0 <= i < keyword_keys(kw).len() ==> def.spec_get(#[trigger] keyword_keys(kw)[i]) is None)
            ==> r matches Ok(None),
        r matches Ok(Some(v)) ==> made_by(kw, v) && compiled_as(kw, *def, url@, texts(fragment@), v),
        r matches Ok(None) ==> !yields(kw, *def),
        r matches Ok(Some(_)) ==> yields(kw, *def),
        keyword_acceptable(kw, *def, url@) ==> r is Ok,
        r is Err ==> r matches Err(SchemaError::Malformed { .. }) || (kw == Keyword::Ref && r matches Err(
            SchemaError::UrlParseError(_),
        )),
{
    proof {
        assert(keyword_keys(kw).len() >= 1);
        assert(keyword_keys(kw)[0] == keyword_keys(kw)[0]);
        if keyword_keys(kw).len() >= 2 {
            assert(keyword_keys(kw)[1] == keyword_keys(kw)[1]);
        }
        if keyword_keys(kw).len() >= 3 {
            assert(keyword_keys(kw)[2] == keyword_keys(kw)[2]);
        }
    }
    match kw {
        Keyword::AllOf => match compile_of("allOf", def, url, fragment)? {
            Some(u) => Ok(Some(Validator::AllOf(u))),
            None => Ok(None),
        },
        Keyword::AnyOf => match compile_of("anyOf", def, url, fragment)? {
            Some(u) => Ok(Some(Validator::AnyOf(u))),
            None => Ok(None),
        },
        Keyword::OneOf => match compile_of("oneOf", def, url, fragment)? {
            Some(u) => Ok(Some(Validator::OneOf(u))),
            None => Ok(None),
        },
        Keyword::Const => match compile_const(def) {
            Some(c) => Ok(Some(Validator::Const(c))),
            None => Ok(None),
        },
        Keyword::Contains => match compile_single("contains", def, url, fragment)? {
            Some(u) => Ok(Some(Validator::Contains(u))),
            None => Ok(None),
        },
        Keyword::Dependencies => match compile_dependencies(def, url, fragment)? {
            Some(d) => Ok(Some(Validator::Dependencies(d))),
            None => Ok(None),
        },
        Keyword::Enum => match compile_enum(def, fragment)? {
            Some(e) => Ok(Some(Validator::Enum(e))),
            None => Ok(None),
        },
        Keyword::Not => match compile_single("not", def, url, fragment)? {
            Some(u) => Ok(Some(Validator::Not(u))),
            None => Ok(None),
        },
        Keyword::Items => match compile_items(def, url, fragment)? {
            Some((items, additional_items)) => Ok(Some(Validator::Items { items, additional_items })),
            None => Ok(None),
        },
        Keyword::Ref => match compile_ref(def, url, fragment)? {
            Some(u) => Ok(Some(Validator::Ref(u))),
            None => Ok(None),
        },
        Keyword::Required => match compile_required(def, fragment)? {
            Some(k) => Ok(Some(Validator::Required(k))),
            None => Ok(None),
        },
        Keyword::Type => match compile_type(def, fragment)? {
            Some(t) => Ok(Some(Validator::Type(t))),
            None => Ok(None),
        },
        Keyword::Maximum => match compile_number("maximum", def, fragment)? {
            Some(n) => Ok(Some(Validator::Maximum(n))),
            None => Ok(None),
        },
        Keyword::ExclusiveMaximum => match compile_number("exclusiveMaximum", def, fragment)? {
            Some(n) => Ok(Some(Validator::ExclusiveMaximum(n))),
            None => Ok(None),
        },
        Keyword::Minimum => match compile_number("minimum", def, fragment)? {
            Some(n) => Ok(Some(Validator::Minimum(n))),
            None => Ok(None),
        },
        Keyword::ExclusiveMinimum => match compile_number("exclusiveMinimum", def, fragment)? {
            Some(n) => Ok(Some(Validator::ExclusiveMinimum(n))),
            None => Ok(None),
        },
        Keyword::MultipleOf => match compile_number("multipleOf", def, fragment)? {
            Some(n) => if n.is_positive() {
                Ok(Some(Validator::MultipleOf(n)))
            } else {
                Err(malformed(fragment, "The value of multipleOf must be strictly greater than 0"))
            },
            None => Ok(None),
        },
        Keyword::MaxItems => match compile_count("maxItems", def, fragment)? {
            Some(n) => Ok(Some(Validator::MaxItems(n))),
            None => Ok(None),
        },
        Keyword::MinItems => match compile_count("minItems", def, fragment)? {
            Some(n) => Ok(Some(Validator::MinItems(n))),
            None => Ok(None),
        },
        Keyword::MaxLength => match compile_count("maxLength", def, fragment)? {
            Some(n) => Ok(Some(Validator::MaxLength(n))),
            None => Ok(None),
        },
        Keyword::MinLength => match compile_count("minLength", def, fragment)? {
            Some(n) => Ok(Some(Validator::MinLength(n))),
            None => Ok(None),
        },
        Keyword::MaxProperties => match compile_count("maxProperties", def, fragment)? {
            Some(n) => Ok(Some(Validator::MaxProperties(n))),
            None => Ok(None),
        },
        Keyword::MinProperties => match compile_count("minProperties", def, fragment)? {
            Some(n) => Ok(Some(Validator::MinProperties(n))),
            None => Ok(None),
        },
        Keyword::Pattern => match compile_pattern(def, fragment)? {
            Some(p) => Ok(Some(Validator::Pattern(p))),
            None => Ok(None),
        },
        Keyword::Properties => match compile_properties(def, url, fragment)? {
            Some((properties, additional, patterns)) => Ok(
                Some(Validator::Properties { properties, additional, patterns }),
            ),
            None => Ok(None),
        },
        Keyword::PropertyNames => match compile_single("propertyNames", def, url, fragment)? {
            Some(u) => Ok(Some(Validator::PropertyNames(u))),
            None => Ok(None),
        },
        Keyword::UniqueItems => if compile_unique_items(def, fragment)? {
            Ok(Some(Validator::UniqueItems))
        } else {
            Ok(None)
        },
    }
}

} // verus!
