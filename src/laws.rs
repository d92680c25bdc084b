//! Properties that relate several operations of the library.
use vstd::prelude::*;

use crate::helpers::schema_path;
use crate::schema::{assoc, assoc_pos_from, Schema};
use crate::scope::{
    resolve_in, spec_branch_scan, spec_check, spec_member, spec_patterns, spec_ref, spec_with,
    sub_path, ScopedSchema,
};
use crate::validators::{
    error_with, join, no_outcome, outcome, texts, AdditionalKind, Brief, Site, Validator,
};
use crate::error::{ErrorKind, ValidationState};
use crate::value::{json_equal, Json};

verus! {

/// Validation is a function of the schema, its scope, the value and the
/// path: two validations of the same value report the same errors (family,
/// path and detail), in the same order, and the same missing references.
pub proof fn lemma_validation_is_deterministic(
    ss: ScopedSchema,
    data: Json,
    path: Seq<char>,
    a: ValidationState,
    b: ValidationState,
)
    requires
        outcome(a) == ss.spec_validate(data, path),
        outcome(b) == ss.spec_validate(data, path),
    ensures
        outcome(a) == outcome(b),
{
}

/// Values of different JSON types are never equal: `1`, `"1"` and `true`
/// match only themselves in an `enum` or `const`.
pub proof fn lemma_equal_values_share_type(a: Json, b: Json)
    requires
        json_equal(a, b),
    ensures
        a is Null <==> b is Null,
        a is Bool <==> b is Bool,
        a is Number <==> b is Number,
        a is Str <==> b is Str,
        a is Array <==> b is Array,
        a is Object <==> b is Object,
{
}

proof fn lemma_branch_scan_counts(
    sc: Seq<(String, Schema)>,
    us: Seq<String>,
    data: Json,
    path: Seq<char>,
    depth: nat,
)
    ensures
        spec_branch_scan(sc, us, data, path, depth).0 <= spec_branch_scan(sc, us, data, path, depth).1,
        (forall|i: int| 0 <= i < us.len() ==> spec_check(sc, (#[trigger] us[i])@, data, path, depth)
            is None) ==> spec_branch_scan(sc, us, data, path, depth) == (0nat, 0nat, texts(us), Seq::<Brief>::empty()),
    decreases us.len(),
{
    if us.len() > 0 {
        let init = us.drop_last();
        lemma_branch_scan_counts(sc, init, data, path, depth);
        if forall|i: int| 0 <= i < us.len() ==> spec_check(sc, (#[trigger] us[i])@, data, path, depth)
            is None {
            assert forall|i: int| 0 <= i < init.len() implies spec_check(
                sc,
                (#[trigger] init[i])@,
                data,
                path,
                depth,
            ) is None by {
                assert(init[i] == us[i]);
            }
            assert(spec_check(sc, us.last()@, data, path, depth) is None);
            assert(texts(init).push(us.last()@) =~= texts(us));
        }
    } else {
        assert(texts(us) =~= Seq::empty());
    }
}

/// `anyOf` whose branches can none be followed (their schemas are not in
/// the scope) reports no error, and every branch's URL as missing, in order.
pub proof fn lemma_any_of_unresolved(
    sc: Seq<(String, Schema)>,
    us: Vec<String>,
    data: Json,
    path: Seq<char>,
    depth: nat,
)
    requires
        forall|i: int|
            0 <= i < us@.len() ==> spec_check(sc, (#[trigger] us@[i])@, data, path, depth) is None,
    ensures
        spec_with(sc, Validator::AnyOf(us), data, path, depth) == (
            Seq::<Site>::empty(),
            texts(us@),
        ),
{
    lemma_branch_scan_counts(sc, us@, data, path, depth);
}

proof fn lemma_branch_scan_passes(
    sc: Seq<(String, Schema)>,
    us: Seq<String>,
    data: Json,
    path: Seq<char>,
    depth: nat,
    i: int,
    j: int,
)
    requires
        0 <= i < us.len(),
        spec_check(sc, us[i]@, data, path, depth) matches Some(o) && o.0.len() == 0,
        i < j < us.len() ==> (spec_check(sc, us[j]@, data, path, depth) matches Some(o) && o.0.len()
            == 0),
    ensures
        spec_branch_scan(sc, us, data, path, depth).0 >= if i < j < us.len() {
            2nat
        } else {
            1nat
        },
    decreases us.len(),
{
    let init = us.drop_last();
    if i < j < us.len() {
        if j < us.len() - 1 {
            assert(init[i] == us[i] && init[j] == us[j]);
            lemma_branch_scan_passes(sc, init, data, path, depth, i, j);
        } else {
            assert(init[i] == us[i]);
            lemma_branch_scan_passes(sc, init, data, path, depth, i, -1);
        }
    } else if i < us.len() - 1 {
        assert(init[i] == us[i]);
        lemma_branch_scan_passes(sc, init, data, path, depth, i, -1);
    }
}

/// `oneOf` fails whenever two of its branches pass.
pub proof fn lemma_one_of_two_passes(
    sc: Seq<(String, Schema)>,
    us: Vec<String>,
    data: Json,
    path: Seq<char>,
    depth: nat,
    i: int,
    j: int,
)
    requires
        0 <= i < j < us@.len(),
        spec_check(sc, us@[i]@, data, path, depth) matches Some(o) && o.0.len() == 0,
        spec_check(sc, us@[j]@, data, path, depth) matches Some(o) && o.0.len() == 0,
    ensures
        spec_with(sc, Validator::OneOf(us), data, path, depth).0 == seq![
            (ErrorKind::OneOf, path, None::<Seq<char>>, spec_branch_scan(sc, us@, data, path, depth).3),
        ],
{
    lemma_branch_scan_passes(sc, us@, data, path, depth, i, j);
}

/// `anyOf` passes as soon as one of its branches passes.
pub proof fn lemma_any_of_one_passes(
    sc: Seq<(String, Schema)>,
    us: Vec<String>,
    data: Json,
    path: Seq<char>,
    depth: nat,
    i: int,
)
    requires
        0 <= i < us@.len(),
        spec_check(sc, us@[i]@, data, path, depth) matches Some(o) && o.0.len() == 0,
    ensures
        spec_with(sc, Validator::AnyOf(us), data, path, depth).0.len() == 0,
{
    lemma_branch_scan_passes(sc, us@, data, path, depth, i, -1);
}

/// A member matched by a named property is checked against that property's
/// schema only (and matching patterns); `additionalProperties` adds nothing.
pub proof fn lemma_named_member_skips_additional(
    sc: Seq<(String, Schema)>,
    properties: Seq<(String, String)>,
    additional: AdditionalKind,
    patterns: Seq<(String, String)>,
    key: Seq<char>,
    value: Json,
    path: Seq<char>,
    depth: nat,
)
    requires
        assoc(properties, key) is Some,
    ensures
        spec_member(sc, properties, additional, patterns, key, value, path, depth) == join(
            spec_ref(sc, assoc(properties, key)->0@, value, sub_path(path, key), depth),
            spec_patterns(sc, patterns, key, value, sub_path(path, key), depth).1,
        ),
{
    let o = join(
        spec_ref(sc, assoc(properties, key)->0@, value, sub_path(path, key), depth),
        spec_patterns(sc, patterns, key, value, sub_path(path, key), depth).1,
    );
    assert(join(o, no_outcome()).0 =~= o.0);
    assert(join(o, no_outcome()).1 =~= o.1);
}

/// A member matched by no named property and no pattern, under
/// `additionalProperties: false`, gets exactly one `properties` error, at the
/// member's path.
pub proof fn lemma_unmatched_member_refused(
    sc: Seq<(String, Schema)>,
    properties: Seq<(String, String)>,
    patterns: Seq<(String, String)>,
    key: Seq<char>,
    value: Json,
    path: Seq<char>,
    depth: nat,
)
    requires
        assoc(properties, key) is None,
        !spec_patterns(sc, patterns, key, value, sub_path(path, key), depth).0,
    ensures
        spec_member(
            sc,
            properties,
            AdditionalKind::Boolean(false),
            patterns,
            key,
            value,
            path,
            depth,
        ) == join(
            spec_patterns(sc, patterns, key, value, sub_path(path, key), depth).1,
            error_with(
                ErrorKind::Properties,
                sub_path(path, key),
                crate::scope::ADDITIONAL_PROPERTIES_REFUSED@,
            ),
        ),
{
    let p = spec_patterns(sc, patterns, key, value, sub_path(path, key), depth).1;
    assert(join(no_outcome(), p).0 =~= p.0);
    assert(join(no_outcome(), p).1 =~= p.1);
}

proof fn lemma_pushed_is_found(old: Seq<(String, Schema)>, e: (String, Schema), k: Seq<char>, i: int)
    requires
        0 <= i <= old.len(),
        assoc_pos_from(old, k, i) is None,
        e.0@ == k,
    ensures
        assoc_pos_from(old.push(e), k, i) == Some(old.len() as int),
    decreases old.len() - i,
{
    if i < old.len() {
        lemma_pushed_is_found(old, e, k, i + 1);
    }
}

/// A schema registered under the key of its identifier is what resolving
/// that identifier finds afterwards, so the handle `compile_and_return`
/// gives and the one `resolve` gives hold the same node and validate alike.
pub proof fn lemma_registered_root_resolves(
    before: Seq<(String, Schema)>,
    key: String,
    schema: Schema,
    id: Seq<char>,
)
    requires
        key@ == schema_path(id).0,
        schema_path(id).1 is None,
        assoc(before, schema_path(id).0) is None,
    ensures
        resolve_in(before.push((key, schema)), id) == Some(schema),
{
    lemma_pushed_is_found(before, (key, schema), key@, 0);
}

} // verus!
