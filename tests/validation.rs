use json_schema_core::helpers::encode;
use json_schema_core::keywords::Keyword;
use json_schema_core::{
    ErrorKind, Json, Number, SchemaError, Scope, ValidationState,
};

fn obj(entries: Vec<(&str, Json)>) -> Json {
    Json::Object(entries.into_iter().map(|(k, v)| (k.to_string(), v)).collect())
}

fn arr(items: Vec<Json>) -> Json {
    Json::Array(items)
}

fn st(s: &str) -> Json {
    Json::Str(s.to_string())
}

fn num(i: i64) -> Json {
    Json::Number(Number::from_int(i))
}

fn dec(mantissa: i64, scale: u32) -> Json {
    Json::Number(Number::decimal(mantissa, scale).unwrap())
}

fn check(schema: Json, data: &Json) -> ValidationState {
    let mut scope = Scope::new();
    let compiled = match scope.compile_and_return(schema, false) {
        Ok(s) => s,
        Err(_) => panic!("the schema should compile"),
    };
    compiled.validate(data)
}

fn kinds(state: &ValidationState) -> Vec<(ErrorKind, String)> {
    state.errors.iter().map(|e| (e.kind, e.path.clone())).collect()
}

#[test]
fn required_reports_missing_key() {
    let schema = obj(vec![("required", arr(vec![st("a")]))]);
    let state = check(schema, &obj(vec![]));
    assert_eq!(kinds(&state), vec![(ErrorKind::Required, "/a".to_string())]);
    assert!(state.missing.is_empty());
}

#[test]
fn required_satisfied() {
    let schema = obj(vec![("required", arr(vec![st("a")]))]);
    let state = check(schema, &obj(vec![("a", num(1))]));
    assert!(state.is_valid());
    assert!(state.missing.is_empty());
}

#[test]
fn integer_type_accepts_whole_numbers() {
    let schema = || obj(vec![("type", st("integer"))]);
    assert!(check(schema(), &num(3)).is_valid());
    assert!(check(schema(), &dec(30, 1)).is_valid());
    let half = check(schema(), &dec(35, 1));
    assert_eq!(kinds(&half), vec![(ErrorKind::WrongType, "".to_string())]);
    assert!(!check(schema(), &st("3")).is_valid());
}

#[test]
fn type_list_accepts_any_listed() {
    let schema = || obj(vec![("type", arr(vec![st("string"), st("null")]))]);
    assert!(check(schema(), &st("x")).is_valid());
    assert!(check(schema(), &Json::Null).is_valid());
    let state = check(schema(), &num(1));
    assert_eq!(state.errors.len(), 1);
    assert_eq!(
        state.errors[0].get_detail(),
        Some("The value must be any of: string, null")
    );
}

#[test]
fn multiple_of_decimal_is_exact() {
    let schema = obj(vec![("multipleOf", dec(1, 2))]);
    assert!(check(schema, &dec(3, 1)).is_valid());
}

#[test]
fn multiple_of_integer_mismatch() {
    let schema = obj(vec![("multipleOf", num(3))]);
    let state = check(schema, &num(7));
    assert_eq!(kinds(&state), vec![(ErrorKind::MultipleOf, "".to_string())]);
    let schema = obj(vec![("multipleOf", num(3))]);
    assert!(check(schema, &num(9)).is_valid());
}

#[test]
fn multiple_of_non_number_is_wrong_type() {
    let schema = obj(vec![("multipleOf", num(3))]);
    let state = check(schema, &st("9"));
    assert_eq!(kinds(&state), vec![(ErrorKind::WrongType, "".to_string())]);
}

#[test]
fn additional_properties_false() {
    let schema = obj(vec![
        ("properties", obj(vec![("a", obj(vec![("type", st("string"))]))])),
        ("additionalProperties", Json::Bool(false)),
    ]);
    let state = check(schema, &obj(vec![("a", st("x")), ("b", num(1))]));
    assert_eq!(kinds(&state), vec![(ErrorKind::Properties, "/b".to_string())]);
}

#[test]
fn property_schema_reports_nested_path() {
    let schema = obj(vec![(
        "properties",
        obj(vec![("a", obj(vec![("type", st("string"))]))]),
    )]);
    let state = check(schema, &obj(vec![("a", num(1))]));
    assert_eq!(kinds(&state), vec![(ErrorKind::WrongType, "/a".to_string())]);
}

#[test]
fn pattern_properties_apply_by_regex() {
    let schema = obj(vec![
        (
            "patternProperties",
            obj(vec![("^x", obj(vec![("type", st("integer"))]))]),
        ),
        ("additionalProperties", Json::Bool(false)),
    ]);
    assert!(check(schema, &obj(vec![("xa", num(1))])).is_valid());
    let schema = obj(vec![
        (
            "patternProperties",
            obj(vec![("^x", obj(vec![("type", st("integer"))]))]),
        ),
        ("additionalProperties", Json::Bool(false)),
    ]);
    let state = check(schema, &obj(vec![("xa", st("s")), ("y", num(1))]));
    assert_eq!(
        kinds(&state),
        vec![
            (ErrorKind::WrongType, "/xa".to_string()),
            (ErrorKind::Properties, "/y".to_string())
        ]
    );
}

#[test]
fn one_of_with_two_matches_fails() {
    let schema = obj(vec![(
        "oneOf",
        arr(vec![
            obj(vec![("type", st("string"))]),
            obj(vec![("maxLength", num(3))]),
        ]),
    )]);
    let state = check(schema, &st("ab"));
    assert_eq!(kinds(&state), vec![(ErrorKind::OneOf, "".to_string())]);
}

#[test]
fn one_of_with_one_match_passes() {
    let schema = obj(vec![(
        "oneOf",
        arr(vec![
            obj(vec![("type", st("string"))]),
            obj(vec![("maxLength", num(3))]),
        ]),
    )]);
    assert!(check(schema, &st("abcdef")).is_valid());
}

#[test]
fn any_of_with_missing_reference() {
    let schema = obj(vec![(
        "anyOf",
        arr(vec![obj(vec![("$ref", st("http://example.com/absent.json"))])]),
    )]);
    let state = check(schema, &num(1));
    assert!(state.errors.is_empty());
    assert_eq!(state.missing, vec!["http://example.com/absent.json".to_string()]);
}

#[test]
fn any_of_reports_failed_branches() {
    let schema = obj(vec![(
        "anyOf",
        arr(vec![
            obj(vec![("type", st("string"))]),
            obj(vec![("type", st("boolean"))]),
        ]),
    )]);
    let state = check(schema, &num(1));
    assert_eq!(kinds(&state), vec![(ErrorKind::AnyOf, "".to_string())]);
    assert_eq!(state.errors[0].states.len(), 2);
    let schema = obj(vec![(
        "anyOf",
        arr(vec![
            obj(vec![("type", st("string"))]),
            obj(vec![("type", st("integer"))]),
        ]),
    )]);
    assert!(check(schema, &num(1)).is_valid());
}

#[test]
fn all_of_gathers_every_failure() {
    let schema = obj(vec![(
        "allOf",
        arr(vec![
            obj(vec![("minimum", num(5))]),
            obj(vec![("maximum", num(0))]),
        ]),
    )]);
    let state = check(schema, &num(3));
    assert_eq!(
        kinds(&state),
        vec![
            (ErrorKind::Minimum, "".to_string()),
            (ErrorKind::Maximum, "".to_string())
        ]
    );
}

#[test]
fn resolving_root_id_round_trip() {
    let mut scope = Scope::new();
    let schema = obj(vec![
        ("$id", st("http://example.com/root.json")),
        ("required", arr(vec![st("a")])),
    ]);
    let first = {
        let compiled = scope.compile_and_return(schema, false).ok().unwrap();
        kinds(&compiled.validate(&obj(vec![])))
    };
    let resolved = scope.resolve("http://example.com/root.json").unwrap();
    assert_eq!(kinds(&resolved.validate(&obj(vec![]))), first);
    assert_eq!(first, vec![(ErrorKind::Required, "/a".to_string())]);
}

#[test]
fn enum_never_crosses_types() {
    let schema = || obj(vec![("enum", arr(vec![num(1), st("1"), Json::Bool(true)]))]);
    assert!(check(schema(), &num(1)).is_valid());
    assert!(check(schema(), &st("1")).is_valid());
    assert!(check(schema(), &Json::Bool(true)).is_valid());
    assert_eq!(
        kinds(&check(schema(), &Json::Bool(false))),
        vec![(ErrorKind::Enum, "".to_string())]
    );
    assert!(!check(schema(), &st("true")).is_valid());
    assert!(!check(schema(), &Json::Null).is_valid());
    assert!(check(schema(), &dec(10, 1)).is_valid());
}

#[test]
fn validation_is_repeatable() {
    let mut scope = Scope::new();
    let schema = obj(vec![
        ("required", arr(vec![st("a"), st("b")])),
        ("properties", obj(vec![("c", obj(vec![("minimum", num(2))]))])),
    ]);
    let compiled = scope.compile_and_return(schema, false).ok().unwrap();
    let data = obj(vec![("c", num(1))]);
    let a = kinds(&compiled.validate(&data));
    let b = kinds(&compiled.validate(&data));
    assert_eq!(a, b);
    assert_eq!(a.len(), 3);
}

#[test]
fn const_uses_structural_equality() {
    let schema = || obj(vec![("const", obj(vec![("a", arr(vec![num(1), st("x")]))]))]);
    assert!(check(schema(), &obj(vec![("a", arr(vec![dec(10, 1), st("x")]))])).is_valid());
    assert_eq!(
        kinds(&check(schema(), &obj(vec![("a", arr(vec![num(2), st("x")]))]))),
        vec![(ErrorKind::Const, "".to_string())]
    );
}

#[test]
fn max_length_counts_bytes() {
    let schema = || obj(vec![("maxLength", num(1))]);
    assert!(check(schema(), &st("a")).is_valid());
    assert_eq!(
        kinds(&check(schema(), &st("\u{e9}"))),
        vec![(ErrorKind::MaxLength, "".to_string())]
    );
    assert!(check(schema(), &num(12345)).is_valid());
}

#[test]
fn min_length_and_counts() {
    assert_eq!(
        kinds(&check(obj(vec![("minLength", num(2))]), &st("a"))),
        vec![(ErrorKind::MinLength, "".to_string())]
    );
    assert_eq!(
        kinds(&check(obj(vec![("maxItems", num(1))]), &arr(vec![num(1), num(2)]))),
        vec![(ErrorKind::MaxItems, "".to_string())]
    );
    assert_eq!(
        kinds(&check(obj(vec![("minItems", num(1))]), &arr(vec![]))),
        vec![(ErrorKind::MinItems, "".to_string())]
    );
    assert_eq!(
        kinds(&check(obj(vec![("maxProperties", num(0))]), &obj(vec![("a", Json::Null)]))),
        vec![(ErrorKind::MaxProperties, "".to_string())]
    );
    assert_eq!(
        kinds(&check(obj(vec![("minProperties", num(1))]), &obj(vec![]))),
        vec![(ErrorKind::MinProperties, "".to_string())]
    );
}

#[test]
fn exclusive_bounds() {
    assert_eq!(
        kinds(&check(obj(vec![("exclusiveMaximum", num(3))]), &num(3))),
        vec![(ErrorKind::Maximum, "".to_string())]
    );
    assert!(check(obj(vec![("exclusiveMaximum", num(3))]), &dec(299, 2)).is_valid());
    assert_eq!(
        kinds(&check(obj(vec![("exclusiveMinimum", dec(5, 1))]), &dec(5, 1))),
        vec![(ErrorKind::Minimum, "".to_string())]
    );
    assert!(check(obj(vec![("minimum", dec(5, 1))]), &dec(50, 2)).is_valid());
}

#[test]
fn items_tuple_and_additional_items() {
    let schema = || {
        obj(vec![
            (
                "items",
                arr(vec![obj(vec![("type", st("integer"))]), obj(vec![("type", st("string"))])]),
            ),
            ("additionalItems", Json::Bool(false)),
        ])
    };
    assert!(check(schema(), &arr(vec![num(1), st("a")])).is_valid());
    assert_eq!(
        kinds(&check(schema(), &arr(vec![st("a"), st("a")]))),
        vec![(ErrorKind::WrongType, "/0".to_string())]
    );
    assert_eq!(
        kinds(&check(schema(), &arr(vec![num(1), st("a"), Json::Null]))),
        vec![(ErrorKind::Items, "".to_string())]
    );
}

#[test]
fn items_single_schema() {
    let schema = obj(vec![("items", obj(vec![("type", st("integer"))]))]);
    assert_eq!(
        kinds(&check(schema, &arr(vec![num(1), st("a"), num(2)]))),
        vec![(ErrorKind::WrongType, "/1".to_string())]
    );
}

#[test]
fn ref_to_definitions() {
    let schema = obj(vec![
        ("$id", st("http://example.com/defs.json")),
        ("definitions", obj(vec![("name", obj(vec![("type", st("string"))]))])),
        ("properties", obj(vec![("n", obj(vec![("$ref", st("#/definitions/name"))]))])),
    ]);
    let mut scope = Scope::new();
    let compiled = scope.compile_and_return(schema, false).ok().unwrap();
    assert!(compiled.validate(&obj(vec![("n", st("x"))])).is_valid());
    let state = compiled.validate(&obj(vec![("n", num(1))]));
    assert_eq!(kinds(&state), vec![(ErrorKind::WrongType, "/n".to_string())]);
}

#[test]
fn recursive_ref_terminates() {
    let schema = obj(vec![
        ("$id", st("http://example.com/tree.json")),
        (
            "properties",
            obj(vec![("child", obj(vec![("$ref", st("#"))]))]),
        ),
        ("required", arr(vec![st("v")])),
    ]);
    let mut scope = Scope::new();
    let compiled = scope.compile_and_return(schema, false).ok().unwrap();
    let data = obj(vec![
        ("v", num(1)),
        ("child", obj(vec![("v", num(2)), ("child", obj(vec![]))])),
    ]);
    let state = compiled.validate(&data);
    assert_eq!(kinds(&state), vec![(ErrorKind::Required, "/child/child/v".to_string())]);
}

#[test]
fn dependencies_both_forms() {
    let schema = || {
        obj(vec![(
            "dependencies",
            obj(vec![
                ("a", arr(vec![st("b")])),
                ("c", obj(vec![("required", arr(vec![st("d")]))])),
            ]),
        )])
    };
    assert!(check(schema(), &obj(vec![("b", num(1))])).is_valid());
    assert_eq!(
        kinds(&check(schema(), &obj(vec![("a", num(1))]))),
        vec![(ErrorKind::Required, "/b".to_string())]
    );
    assert_eq!(
        kinds(&check(schema(), &obj(vec![("c", num(1))]))),
        vec![(ErrorKind::Required, "/d".to_string())]
    );
}

#[test]
fn pattern_unique_contains_not() {
    assert_eq!(
        kinds(&check(obj(vec![("pattern", st("^a+$"))]), &st("ab"))),
        vec![(ErrorKind::Pattern, "".to_string())]
    );
    assert!(check(obj(vec![("pattern", st("^a+$"))]), &st("aaa")).is_valid());
    assert_eq!(
        kinds(&check(obj(vec![("uniqueItems", Json::Bool(true))]), &arr(vec![num(1), dec(10, 1)]))),
        vec![(ErrorKind::UniqueItems, "".to_string())]
    );
    assert!(check(obj(vec![("uniqueItems", Json::Bool(false))]), &arr(vec![num(1), num(1)])).is_valid());
    assert!(check(obj(vec![("uniqueItems", Json::Bool(true))]), &arr(vec![num(1), st("1")])).is_valid());
    assert_eq!(
        kinds(&check(obj(vec![("contains", obj(vec![("type", st("string"))]))]), &arr(vec![num(1)]))),
        vec![(ErrorKind::Contains, "".to_string())]
    );
    assert!(check(obj(vec![("contains", obj(vec![("type", st("string"))]))]), &arr(vec![num(1), st("a")])).is_valid());
    assert_eq!(
        kinds(&check(obj(vec![("not", obj(vec![("type", st("string"))]))]), &st("a"))),
        vec![(ErrorKind::Not, "".to_string())]
    );
    assert!(check(obj(vec![("not", obj(vec![("type", st("string"))]))]), &num(1)).is_valid());
}

#[test]
fn property_names_checks_keys() {
    let schema = obj(vec![("propertyNames", obj(vec![("maxLength", num(2))]))]);
    let state = check(schema, &obj(vec![("ab", num(1)), ("abc", num(1))]));
    assert_eq!(kinds(&state), vec![(ErrorKind::MaxLength, "/[abc]".to_string())]);
}

#[test]
fn boolean_schemas() {
    let mut scope = Scope::new();
    let compiled = scope.compile_and_return(Json::Bool(false), false).ok().unwrap();
    assert_eq!(kinds(&compiled.validate(&num(1))), vec![(ErrorKind::Not, "".to_string())]);
    let mut scope = Scope::new();
    let compiled = scope.compile_and_return(Json::Bool(true), false).ok().unwrap();
    assert!(compiled.validate(&num(1)).is_valid());
    let schema = obj(vec![("properties", obj(vec![("a", Json::Bool(false))]))]);
    assert_eq!(
        kinds(&check(schema, &obj(vec![("a", num(1))]))),
        vec![(ErrorKind::Not, "/a".to_string())]
    );
}

fn refused_with(schema: Json, strict: bool) -> SchemaError {
    let mut scope = Scope::new();
    match scope.compile_and_return(schema, strict) {
        Ok(_) => panic!("the schema should not compile"),
        Err(e) => e,
    }
}

#[test]
fn refused_withs() {
    assert!(matches!(refused_with(num(1), false), SchemaError::NotAnObject));
    assert!(matches!(
        refused_with(obj(vec![("enum", num(1))]), false),
        SchemaError::Malformed { .. }
    ));
    assert!(matches!(
        refused_with(obj(vec![("enum", arr(vec![]))]), false),
        SchemaError::Malformed { .. }
    ));
    assert!(matches!(
        refused_with(obj(vec![("pattern", st("("))]), false),
        SchemaError::Malformed { .. }
    ));
    assert!(matches!(
        refused_with(obj(vec![("maxLength", dec(15, 1))]), false),
        SchemaError::Malformed { .. }
    ));
    assert!(matches!(
        refused_with(obj(vec![("multipleOf", num(0))]), false),
        SchemaError::Malformed { .. }
    ));
    assert!(matches!(
        refused_with(obj(vec![("type", st("text"))]), false),
        SchemaError::Malformed { .. }
    ));
    assert!(matches!(
        refused_with(obj(vec![("$id", st("not a url"))]), false),
        SchemaError::UrlParseError(_)
    ));
    match refused_with(obj(vec![("frobnicate", num(1))]), true) {
        SchemaError::UnknownKey(k) => assert_eq!(k, "frobnicate"),
        _ => panic!("expected an unknown key"),
    }
    let mut scope = Scope::new();
    assert!(scope
        .compile_and_return(obj(vec![("title", st("t")), ("frobnicate", num(1))]), false)
        .is_ok());
    let mut scope = Scope::new();
    assert!(scope.compile_and_return(obj(vec![("title", st("t"))]), true).is_ok());
}

#[test]
fn malformed_error_names_the_path() {
    let schema = obj(vec![("properties", obj(vec![("a", obj(vec![("minimum", st("x"))]))]))]);
    match refused_with(schema, false) {
        SchemaError::Malformed { path, .. } => assert_eq!(path, "properties/a"),
        _ => panic!("expected a malformed schema"),
    }
}

#[test]
fn duplicate_id_conflicts() {
    let mut scope = Scope::new();
    let schema = || obj(vec![("$id", st("http://example.com/a.json"))]);
    assert!(scope.compile_and_return(schema(), false).is_ok());
    assert!(matches!(
        scope.compile_and_return(schema(), false).err().unwrap(),
        SchemaError::IdConflicts
    ));
}

#[test]
fn fragment_id_is_wrong() {
    let mut scope = Scope::new();
    let schema = obj(vec![("$id", st("http://example.com/a.json#/x"))]);
    assert!(matches!(
        scope.compile_and_return(schema, false).err().unwrap(),
        SchemaError::WrongId
    ));
}

#[test]
fn nested_id_resolves() {
    let mut scope = Scope::new();
    let schema = obj(vec![
        ("$id", st("http://example.com/root.json")),
        (
            "definitions",
            obj(vec![(
                "item",
                obj(vec![
                    ("$id", st("item.json")),
                    ("type", st("integer")),
                ]),
            )]),
        ),
        ("items", obj(vec![("$ref", st("item.json"))])),
    ]);
    let compiled = scope.compile_and_return(schema, false).ok().unwrap();
    assert!(compiled.validate(&arr(vec![num(1)])).is_valid());
    assert_eq!(
        kinds(&compiled.validate(&arr(vec![st("x")]))),
        vec![(ErrorKind::WrongType, "/0".to_string())]
    );
    assert!(scope.resolve("http://example.com/item.json").is_some());
}

#[test]
fn validate_in_prefixes_paths() {
    let mut scope = Scope::new();
    let compiled = scope
        .compile_and_return(obj(vec![("required", arr(vec![st("a")]))]), false)
        .ok()
        .unwrap();
    let state = compiled.validate_in(&obj(vec![]), "/doc");
    assert_eq!(kinds(&state), vec![(ErrorKind::Required, "/doc/a".to_string())]);
}

#[test]
fn custom_keyword_registration() {
    let mut scope = Scope::new();
    scope.add_keyword(vec!["maximum".to_string()], Keyword::Minimum);
    let compiled = scope
        .compile_and_return(obj(vec![("maximum", num(0))]), false)
        .ok()
        .unwrap();
    assert!(compiled.validate(&num(5)).is_valid());
}

#[test]
fn encode_escapes_pointer_and_percent() {
    assert_eq!(encode("a/b"), "a%7E1b");
    assert_eq!(encode("x~y"), "x%7E0y");
    assert_eq!(encode("abc"), "abc");
}

#[test]
fn error_codes_and_titles() {
    let state = check(obj(vec![("required", arr(vec![st("a")]))]), &obj(vec![]));
    let e = &state.errors[0];
    assert!(e.is(ErrorKind::Required));
    assert!(!e.is(ErrorKind::Enum));
    assert_eq!(e.get_code(), "required");
    assert_eq!(e.get_title(), "This property is required");
    assert_eq!(e.get_path(), "/a");
    assert_eq!(e.get_detail(), None);
}

#[test]
fn any_of_collects_missing_from_every_branch() {
    let schema = obj(vec![(
        "anyOf",
        arr(vec![
            obj(vec![("type", st("integer"))]),
            obj(vec![("$ref", st("http://example.com/absent.json"))]),
        ]),
    )]);
    let state = check(schema, &num(1));
    assert!(state.errors.is_empty());
    assert_eq!(state.missing, vec!["http://example.com/absent.json".to_string()]);
}

#[test]
fn one_of_reports_failing_branch_states() {
    let schema = obj(vec![(
        "oneOf",
        arr(vec![
            obj(vec![("type", st("string"))]),
            obj(vec![("type", st("boolean"))]),
        ]),
    )]);
    let state = check(schema, &num(1));
    assert_eq!(kinds(&state), vec![(ErrorKind::OneOf, "".to_string())]);
    assert_eq!(state.errors[0].states.len(), 2);
    let schema = obj(vec![(
        "oneOf",
        arr(vec![
            obj(vec![("type", st("string"))]),
            obj(vec![("maxLength", num(3))]),
        ]),
    )]);
    let state = check(schema, &st("ab"));
    assert!(state.errors[0].states.is_empty());
}

#[test]
fn named_fragment_root_id_is_wrong() {
    let mut scope = Scope::new();
    let schema = obj(vec![("$id", st("http://example.com/a.json#item"))]);
    assert!(matches!(
        scope.compile_and_return(schema, false).err().unwrap(),
        SchemaError::WrongId
    ));
}

#[test]
fn additional_items_detail() {
    let schema = obj(vec![
        ("items", arr(vec![obj(vec![])])),
        ("additionalItems", Json::Bool(false)),
    ]);
    let state = check(schema, &arr(vec![num(1), num(2)]));
    assert_eq!(state.errors[0].get_detail(), Some("Additional items are not allowed"));
}
