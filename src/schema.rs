//! Compiled schema nodes and the paths through their trees.
use vstd::prelude::*;

use crate::error::SchemaError;
use crate::external::{join_url, joined_url, parse_url, parsed_url, random_uuid};
use crate::helpers::decimal;
use crate::helpers::{
    encode, encoded_parts, encoded_segment, index_string, split_on_slash, split_slash,
};
use crate::keywords::{
    compile_keyword, compiled_as, contains_key, find_keyword, first_claimer, holds_key,
    keyword_acceptable, make_sub_url, sub_url, yields, Keyword, KeywordConsumer,
};
use crate::validators::texts;
use crate::validators::Validator;
use crate::value::{json_clone, json_copy, str_eq, Json};

verus! {

/// A compiled schema node: its identifier, its `$schema` dialect, the JSON it
/// was compiled from, its sub-schemas keyed by encoded path segment, its
/// validators in the order they were compiled, and, at a document root, the
/// path from the root to each `$id` declared inside.
pub struct Schema {
    pub id: Option<String>,
    pub schema: Option<String>,
    pub source: Json,
    pub tree: Vec<(String, Schema)>,
    pub validators: Vec<Validator>,
    pub scopes: Vec<(String, Vec<String>)>,
}

/// The position of the first entry at or after `i` keyed `k`.
pub open spec fn assoc_pos_from<T>(entries: Seq<(String, T)>, k: Seq<char>, i: int) -> Option<int>
    decreases entries.len() - i,
{
    if i < 0 || i >= entries.len() {
        None
    } else if entries[i].0@ == k {
        Some(i)
    } else {
        assoc_pos_from(entries, k, i + 1)
    }
}

/// The value of the first entry keyed `k`.
pub open spec fn assoc<T>(entries: Seq<(String, T)>, k: Seq<char>) -> Option<T> {
    match assoc_pos_from(entries, k, 0) {
        Some(p) => Some(entries[p].1),
        None => None,
    }
}

pub proof fn lemma_assoc_pos_from<T>(entries: Seq<(String, T)>, k: Seq<char>, i: int)
    requires
        0 <= i,
    ensures
        assoc_pos_from(entries, k, i) matches Some(p) ==> i <= p < entries.len()
            && entries[p].0@ == k && forall|j: int| i <= j < p ==> entries[j].0@ != k,
        assoc_pos_from(entries, k, i) is None ==> forall|j: int|
            i <= j < entries.len() ==> entries[j].0@ != k,
    decreases entries.len() - i,
{
    if i < entries.len() && entries[i].0@ != k {
        lemma_assoc_pos_from(entries, k, i + 1);
    }
}

/// The position of the first entry keyed `k`.
pub fn find_entry<T>(entries: &Vec<(String, T)>, k: &str) -> (r: Option<usize>)
    ensures
        r matches Some(p) ==> assoc_pos_from(entries@, k@, 0) == Some(p as int) && p
            < entries@.len() && entries@[p as int].0@ == k@,
        r is None ==> assoc_pos_from(entries@, k@, 0) is None,
{
    let mut i: usize = 0;
    while i < entries.len()
        invariant
            i <= entries.len(),
            assoc_pos_from(entries@, k@, 0) == assoc_pos_from(entries@, k@, i as int),
        decreases entries.len() - i,
    {
        if str_eq(entries[i].0.as_str(), k) {
            return Some(i);
        }
        i = i + 1;
    }
    None
}

/// The node reached from `s` by following the tree keys `segs`.
pub open spec fn follow(s: Schema, segs: Seq<Seq<char>>) -> Option<Schema>
    decreases segs.len(),
{
    if segs.len() == 0 {
        Some(s)
    } else {
        match assoc(s.tree@, segs[0]) {
            Some(c) => follow(c, segs.drop_first()),
            None => None,
        }
    }
}

/// The path recorded at the root for the identifier `id`.
pub open spec fn scope_path(s: Schema, id: Seq<char>) -> Option<Seq<Seq<char>>> {
    match assoc(s.scopes@, id) {
        Some(p) => Some(p@.map_values(|x: String| x@)),
        None => None,
    }
}

/// The sub-schema a root schema records for an identifier declared inside it.
pub open spec fn resolve_id(s: Schema, id: Seq<char>) -> Option<Schema> {
    match scope_path(s, id) {
        Some(p) => follow(s, p),
        None => None,
    }
}

/// The sub-schema a JSON pointer (`/a/b`) leads to.
pub open spec fn resolve_pointer(s: Schema, fragment: Seq<char>) -> Option<Schema> {
    follow(s, split_slash(fragment.drop_first()))
}

impl Schema {
    /// The node reached by following the tree keys `segs`.
    pub fn resolve_path(&self, segs: &Vec<String>) -> (r: Option<&Schema>)
        ensures
            r matches Some(x) ==> follow(*self, segs@.map_values(|p: String| p@)) == Some(*x),
            r is None ==> follow(*self, segs@.map_values(|p: String| p@)) is None,
    {
        let ghost all = segs@.map_values(|p: String| p@);
        let mut cur: &Schema = self;
        let mut i: usize = 0;
        assert(all.subrange(0, all.len() as int) =~= all);
        while i < segs.len()
            invariant
                i <= segs.len(),
                all == segs@.map_values(|p: String| p@),
                follow(*self, all) == follow(*cur, all.subrange(i as int, all.len() as int)),
            decreases segs.len() - i,
        {
            let ghost rest = all.subrange(i as int, all.len() as int);
            assert(rest[0] == segs@[i as int]@);
            assert(rest.drop_first() =~= all.subrange(i + 1, all.len() as int));
            match find_entry(&cur.tree, segs[i].as_str()) {
                Some(p) => {
                    cur = &cur.tree[p].1;
                },
                None => {
                    return None;
                },
            }
            i = i + 1;
        }
        assert(all.subrange(segs.len() as int, all.len() as int) =~= Seq::<Seq<char>>::empty());
        Some(cur)
    }

    /// The sub-schema recorded for an identifier declared inside this root.
    pub fn resolve(&self, id: &str) -> (r: Option<&Schema>)
        ensures
            r matches Some(x) ==> resolve_id(*self, id@) == Some(*x),
            r is None ==> resolve_id(*self, id@) is None,
    {
        match find_entry(&self.scopes, id) {
            Some(p) => self.resolve_path(&self.scopes[p].1),
            None => None,
        }
    }

    /// The sub-schema the JSON pointer `fragment` leads to.
    pub fn resolve_fragment(&self, fragment: &str) -> (r: Option<&Schema>)
        requires
            fragment@.len() > 0 && fragment@[0] == '/',
        ensures
            r matches Some(x) ==> resolve_pointer(*self, fragment@) == Some(*x),
            r is None ==> resolve_pointer(*self, fragment@) is None,
    {
        let n = fragment.unicode_len();
        let rest = fragment.substring_char(1, n);
        assert(rest@ =~= fragment@.drop_first());
        let segs = split_on_slash(rest);
        self.resolve_path(&segs)
    }
}

/// How a schema is compiled: the keyword registry, and whether keys that no
/// keyword claims are refused.
pub struct CompilationSettings {
    pub keywords: Vec<KeywordConsumer>,
    pub ban_unknown_keywords: bool,
}

impl CompilationSettings {
    pub fn new(keywords: Vec<KeywordConsumer>, ban_unknown_keywords: bool) -> (r: CompilationSettings)
        ensures
            r.keywords@ == keywords@,
            r.ban_unknown_keywords == ban_unknown_keywords,
    {
        CompilationSettings { keywords, ban_unknown_keywords }
    }
}

/// Keys whose values are never walked as sub-schemas.
pub open spec fn final_key(k: Seq<char>) -> bool {
    k == "enum"@ || k == "const"@ || k == "required"@ || k == "type"@ || k == "default"@ || k
        == "examples"@
}

/// Keys whose value is not a schema itself, though it holds schemas.
pub open spec fn non_schema_key(k: Seq<char>) -> bool {
    k == "properties"@ || k == "patternProperties"@ || k == "dependencies"@ || k
        == "definitions"@ || k == "allOf"@ || k == "anyOf"@ || k == "oneOf"@
}

/// Keys whose members are named by the schema's author.
pub open spec fn property_key(k: Seq<char>) -> bool {
    k == "properties"@ || k == "patternProperties"@ || k == "dependencies"@ || k
        == "definitions"@
}

/// Keys whose arrays hold schemas, booleans included.
pub open spec fn boolean_schema_array_key(k: Seq<char>) -> bool {
    k == "allOf"@ || k == "anyOf"@ || k == "oneOf"@ || k == "items"@
}

/// Keys that strict compilation lets stand unclaimed.
pub open spec fn allowed_unclaimed_key(k: Seq<char>) -> bool {
    k == "definitions"@ || k == "$schema"@ || k == "$id"@ || k == "default"@ || k
        == "description"@ || k == "format"@ || k == "title"@ || k == "$comment"@ || k
        == "examples"@
}

fn is_final_key(k: &str) -> (r: bool)
    ensures
        r == final_key(k@),
{
    str_eq(k, "enum") || str_eq(k, "const") || str_eq(k, "required") || str_eq(k, "type")
        || str_eq(k, "default") || str_eq(k, "examples")
}

fn is_non_schema_key(k: &str) -> (r: bool)
    ensures
        r == non_schema_key(k@),
{
    str_eq(k, "properties") || str_eq(k, "patternProperties") || str_eq(k, "dependencies")
        || str_eq(k, "definitions") || str_eq(k, "allOf") || str_eq(k, "anyOf") || str_eq(
        k,
        "oneOf",
    )
}

fn is_property_key(k: &str) -> (r: bool)
    ensures
        r == property_key(k@),
{
    str_eq(k, "properties") || str_eq(k, "patternProperties") || str_eq(k, "dependencies")
        || str_eq(k, "definitions")
}

fn is_boolean_schema_array_key(k: &str) -> (r: bool)
    ensures
        r == boolean_schema_array_key(k@),
{
    str_eq(k, "allOf") || str_eq(k, "anyOf") || str_eq(k, "oneOf") || str_eq(k, "items")
}

fn is_allowed_unclaimed_key(k: &str) -> (r: bool)
    ensures
        r == allowed_unclaimed_key(k@),
{
    str_eq(k, "definitions") || str_eq(k, "$schema") || str_eq(k, "$id") || str_eq(k, "default")
        || str_eq(k, "description") || str_eq(k, "format") || str_eq(k, "title") || str_eq(
        k,
        "$comment",
    ) || str_eq(k, "examples")
}

/// The schema object a boolean schema stands for: `{}` for `true`,
/// `{"not": {}}` for `false`; `None` for any other value.
pub fn convert_boolean_schema(v: &Json) -> (r: Option<Json>)
    ensures
        !(v is Bool) ==> r is None,
        *v == Json::Bool(true) ==> (r matches Some(Json::Object(e)) && e@.len() == 0),
        *v == Json::Bool(false) ==> (r matches Some(Json::Object(e)) && e@.len() == 1 && e@[0].0@
            == "not"@ && (e@[0].1 matches Json::Object(f) && f@.len() == 0)),
{
    match v {
        Json::Bool(true) => Some(Json::Object(Vec::new())),
        Json::Bool(false) => {
            let mut e: Vec<(String, Json)> = Vec::new();
            e.push(("not".to_string(), Json::Object(Vec::new())));
            Some(Json::Object(e))
        },
        _ => None,
    }
}

/// The URL under key `key` of the object `v`, read against `base` when
/// given; `None` when absent or not a string.
fn parse_url_key(key: &str, v: &Json, base: Option<&str>) -> (r: Result<Option<String>, SchemaError>)
    ensures
        v.spec_get(key@) matches Some(Json::Str(s)) ==> match base {
            Some(b) => match joined_url(b@, s@) {
                Some(u) => r matches Ok(Some(x)) && x@ == u,
                None => r matches Err(SchemaError::UrlParseError(_)),
            },
            None => match parsed_url(s@) {
                Some(u) => r matches Ok(Some(x)) && x@ == u,
                None => r matches Err(SchemaError::UrlParseError(_)),
            },
        },
        !(v.spec_get(key@) matches Some(Json::Str(_))) ==> r matches Ok(None),
{
    match v.get(key) {
        Some(Json::Str(s)) => {
            let parsed = match base {
                Some(b) => join_url(b, s.as_str()),
                None => parse_url(s.as_str()),
            };
            match parsed {
                Some(u) => Ok(Some(u)),
                None => Err(SchemaError::UrlParseError(s.clone())),
            }
        },
        _ => Ok(None),
    }
}

/// A fresh identifier for a document that declares none.
pub fn generate_id() -> (r: String)
    ensures
        "json-schema://"@.is_prefix_of(r@),
        forall|i: int| 0 <= i < r@.len() ==> (#[trigger] r@[i]) != '#',
{
    let mut id = "json-schema://".to_string();
    let ghost head = id@;
    proof {
        reveal_strlit("json-schema://");
    }
    let u = random_uuid();
    id.append(u.as_str());
    assert(id@.subrange(0, head.len() as int) =~= head);
    assert forall|i: int| 0 <= i < id@.len() implies (#[trigger] id@[i]) != '#' by {
        if i >= head.len() {
            assert(id@[i] == u@[i - head.len()]);
            assert(crate::external::uuid_char(u@[i - head.len()]));
        }
    }
    id
}

/// Records that the identifier `id` names the node at `path` from the root;
/// a later record of the same identifier replaces an earlier one.
/// `b` keeps every key of `a`, at the same positions.
pub open spec fn keys_kept<T>(a: Seq<(String, T)>, b: Seq<(String, T)>) -> bool {
    a.len() <= b.len() && forall|j: int| 0 <= j < a.len() ==> (#[trigger] b[j]).0@ == a[j].0@
}

proof fn lemma_keys_kept_trans<T>(a: Seq<(String, T)>, b: Seq<(String, T)>, c: Seq<(String, T)>)
    requires
        keys_kept(a, b),
        keys_kept(b, c),
    ensures
        keys_kept(a, c),
{
    assert forall|j: int| 0 <= j < a.len() implies (#[trigger] c[j]).0@ == a[j].0@ by {
        assert(c[j].0@ == b[j].0@);
    }
}

proof fn lemma_keys_kept_from<T>(a: Seq<(String, T)>, b: Seq<(String, T)>, k: Seq<char>, i: int)
    requires
        keys_kept(a, b),
        0 <= i,
    ensures
        assoc_pos_from(a, k, i) is Some ==> assoc_pos_from(b, k, i) == assoc_pos_from(a, k, i),
    decreases a.len() - i,
{
    if i < a.len() {
        assert(b[i].0@ == a[i].0@);
        lemma_keys_kept_from(a, b, k, i + 1);
    }
}

/// A key found in `a` is found in `b` when `b` keeps the keys of `a`.
pub proof fn lemma_keys_kept<T>(a: Seq<(String, T)>, b: Seq<(String, T)>, k: Seq<char>)
    requires
        keys_kept(a, b),
    ensures
        assoc(a, k) is Some ==> assoc(b, k) is Some,
{
    lemma_keys_kept_from(a, b, k, 0);
}

/// Whether every node of the tree of `s` that declares an identifier is
/// recorded in `scopes`.
pub open spec fn ids_recorded(s: Schema, scopes: Seq<(String, Vec<String>)>) -> bool
    decreases s,
{
    (s.id matches Some(i) ==> assoc(scopes, i@) is Some) && forall|t: int|
        0 <= t < s.tree@.len() ==> ids_recorded((#[trigger] s.tree@[t]).1, scopes)
}

pub proof fn lemma_ids_recorded_kept(
    s: Schema,
    a: Seq<(String, Vec<String>)>,
    b: Seq<(String, Vec<String>)>,
)
    requires
        ids_recorded(s, a),
        keys_kept(a, b),
    ensures
        ids_recorded(s, b),
    decreases s,
{
    if s.id is Some {
        lemma_keys_kept(a, b, s.id->0@);
    }
    assert forall|t: int| 0 <= t < s.tree@.len() implies ids_recorded((#[trigger] s.tree@[t]).1, b) by {
        broadcast use vstd::std_specs::vec::axiom_vec_index_decreases;

        assert(decreases_to!(s.tree => s.tree[t]));
        assert(decreases_to!(s => s.tree));
        assert(decreases_to!(s.tree[t] => s.tree[t].1));
        lemma_ids_recorded_kept(s.tree@[t].1, a, b);
    }
}

fn record_scope(scopes: &mut Vec<(String, Vec<String>)>, id: String, path: Vec<String>)
    ensures
        assoc(final(scopes)@, id@) == Some(path),
        keys_kept(old(scopes)@, final(scopes)@),
{
    match find_entry(scopes, id.as_str()) {
        Some(p) => {
            proof {
                lemma_assoc_pos_from(scopes@, id@, 0);
            }
            scopes.set(p, (id, path));
            assert(assoc_pos_from(scopes@, id@, 0) == Some(p as int)) by {
                assert forall|j: int| 0 <= j < p implies scopes@[j] == old(scopes)@[j] by {}
                lemma_assoc_prefix(old(scopes)@, scopes@, id@, 0, p as int);
            }
        },
        None => {
            proof {
                lemma_assoc_pos_from(scopes@, id@, 0);
            }
            scopes.push((id, path));
            let ghost n = old(scopes)@.len() as int;
            assert(assoc_pos_from(scopes@, id@, 0) == Some(n)) by {
                lemma_assoc_prefix(old(scopes)@, scopes@, id@, 0, n);
            }
        },
    }
}

proof fn lemma_assoc_prefix<T>(a: Seq<(String, T)>, b: Seq<(String, T)>, k: Seq<char>, i: int, p: int)
    requires
        0 <= i <= p < b.len(),
        p <= a.len(),
        forall|j: int| i <= j < p ==> b[j] == a[j],
        forall|j: int| i <= j < p ==> a[j].0@ != k,
        b[p].0@ == k,
    ensures
        assoc_pos_from(b, k, i) == Some(p),
    decreases p - i,
{
    if i < p {
        lemma_assoc_prefix(a, b, k, i + 1, p);
    }
}

fn copy_strings(v: &Vec<String>) -> (r: Vec<String>)
    ensures
        r@ == v@,
{
    let mut out: Vec<String> = Vec::new();
    let mut i: usize = 0;
    while i < v.len()
        invariant
            i <= v.len(),
            out@ == v@.subrange(0, i as int),
        decreases v.len() - i,
    {
        out.push(v[i].clone());
        i = i + 1;
    }
    assert(v@.subrange(0, v.len() as int) =~= v@);
    out
}

/// Each segment of a path, encoded as tree keys are.
fn encode_all(v: &Vec<String>) -> (r: Vec<String>)
    ensures
        r@.len() == v@.len(),
        forall|i: int| 0 <= i < v@.len() ==> (#[trigger] r@[i])@ == encoded_segment(v@[i]@),
{
    let mut out: Vec<String> = Vec::new();
    let mut i: usize = 0;
    while i < v.len()
        invariant
            i <= v.len(),
            out@.len() == i,
            forall|j: int| 0 <= j < i ==> (#[trigger] out@[j])@ == encoded_segment(v@[j]@),
        decreases v.len() - i,
    {
        out.push(encode(v[i].as_str()));
        i = i + 1;
    }
    out
}

fn extended(v: &Vec<String>, s: String) -> (r: Vec<String>)
    ensures
        r@ == v@.push(s),
{
    let mut out = copy_strings(v);
    out.push(s);
    out
}

/// The first key of `keys` that is neither claimed nor allowed to stand
/// unclaimed.
fn first_unknown(keys: &Vec<String>) -> (r: Option<usize>)
    ensures
        r matches Some(p) ==> p < keys@.len() && !allowed_unclaimed_key(keys@[p as int]@),
        r is None ==> forall|j: int|
            0 <= j < keys@.len() ==> allowed_unclaimed_key((#[trigger] keys@[j])@),
{
    let mut i: usize = 0;
    while i < keys.len()
        invariant
            i <= keys.len(),
            forall|j: int| 0 <= j < i ==> allowed_unclaimed_key((#[trigger] keys@[j])@),
        decreases keys.len() - i,
    {
        if !is_allowed_unclaimed_key(keys[i].as_str()) {
            return Some(i);
        }
        i = i + 1;
    }
    None
}

/// Whether no compiler of the registry claims the key `k`.
pub open spec fn unclaimed(keywords: Seq<KeywordConsumer>, k: Seq<char>) -> bool {
    forall|c: int| 0 <= c < keywords.len() ==> !holds_key((#[trigger] keywords[c]).keys@, k)
}

/// The keys of an object's entries, in order.
pub open spec fn entry_keys(entries: Seq<(String, Json)>) -> Seq<Seq<char>> {
    entries.map_values(|e: (String, Json)| e.0@)
}

/// Walking the keys `ks` of the schema object `source` in order: the keys
/// consumed so far, and the compilers that made a validator. A key already
/// consumed is skipped; otherwise the first compiler that claims it consumes
/// all its keys and compiles, and a key that none claims is consumed alone.
pub open spec fn claim_keys(
    keywords: Seq<KeywordConsumer>,
    source: Json,
    ks: Seq<Seq<char>>,
) -> (Seq<Seq<char>>, Seq<Keyword>)
    decreases ks.len(),
{
    if ks.len() == 0 {
        (Seq::empty(), Seq::empty())
    } else {
        let prev = claim_keys(keywords, source, ks.drop_last());
        let k = ks.last();
        if prev.0.contains(k) {
            prev
        } else {
            match first_claimer(keywords, k) {
                Some(p) => (
                    prev.0 + texts(keywords[p].keys@),
                    if yields(keywords[p].keyword, source) {
                        prev.1.push(keywords[p].keyword)
                    } else {
                        prev.1
                    },
                ),
                None => (prev.0.push(k), prev.1),
            }
        }
    }
}

/// The compilers that make the validators of the schema object `source`,
/// in the order of its keys.
pub open spec fn compilers_used(keywords: Seq<KeywordConsumer>, source: Json) -> Seq<Keyword> {
    match source {
        Json::Object(entries) => claim_keys(keywords, source, entry_keys(entries@)).1,
        _ => Seq::empty(),
    }
}

/// Whether the object `v` has a key that no compiler claims and that is not
/// an allowed metadata key.
pub open spec fn has_unknown_key(v: Json, keywords: Seq<KeywordConsumer>) -> bool {
    match v {
        Json::Object(entries) => exists|j: int|
            0 <= j < entries@.len() && unclaimed(keywords, (#[trigger] entries@[j]).0@)
                && !allowed_unclaimed_key(entries@[j].0@),
        _ => false,
    }
}

/// The URL of a node: its `$id` read against `url` where it declares one
/// and stands where a schema stands, else `url`.
pub open spec fn url_of_node(source: Json, url: Seq<char>, is_schema: bool) -> Seq<char> {
    if is_schema {
        match source.spec_get("$id"@) {
            Some(Json::Str(t)) => match joined_url(url, t@) {
                Some(u) => u,
                None => url,
            },
            _ => url,
        }
    } else {
        url
    }
}

/// Whether the `$id` and `$schema` of a node, where read, are URLs.
pub open spec fn ids_ok(source: Json, url: Seq<char>, is_schema: bool) -> bool {
    is_schema ==> (source.spec_get("$id"@) matches Some(Json::Str(t)) ==> joined_url(url, t@) is Some)
        && (source.spec_get("$schema"@) matches Some(Json::Str(t)) ==> parsed_url(t@) is Some)
}

/// Whether the keywords of the schema object `source` compile: every
/// compiler accepts it, and no unknown key stands where they are refused.
pub open spec fn keywords_ok(
    source: Json,
    url: Seq<char>,
    keywords: Seq<KeywordConsumer>,
    ban: bool,
) -> bool {
    (forall|c: int|
        0 <= c < keywords.len() ==> keyword_acceptable((#[trigger] keywords[c]).keyword, source, url))
        && !(ban && has_unknown_key(source, keywords))
}

/// Whether the member `key: v` of an object below the key `parent` is walked
/// as part of the schema tree.
pub open spec fn walked_member(parent: Seq<char>, key: Seq<char>, v: Json) -> bool {
    (v is Object || v is Array || v is Bool) && (property_key(parent) || !final_key(key))
}

/// Whether the element `v` of an array below the key `parent` is walked.
pub open spec fn walked_element(parent: Seq<char>, v: Json) -> bool {
    v is Object || v is Array || (v is Bool && boolean_schema_array_key(parent))
}

/// Whether the value `source`, below the key `parent` and the URL `url`,
/// compiles: its identifiers parse, every walked member compiles, and, where
/// a schema stands, its keywords compile.
pub open spec fn subtree_ok(
    source: Json,
    url: Seq<char>,
    parent: Seq<char>,
    keywords: Seq<KeywordConsumer>,
    ban: bool,
    is_schema: bool,
) -> bool
    decreases source,
{
    match source {
        Json::Bool(_) => true,
        Json::Object(entries) => ids_ok(source, url, is_schema) && (forall|i: int|
            0 <= i < entries@.len() ==> walked_member(parent, (#[trigger] entries@[i]).0@, entries@[i].1)
                ==> subtree_ok(
                entries@[i].1,
                url_of_node(source, url, is_schema),
                entries@[i].0@,
                keywords,
                ban,
                property_key(parent) || !non_schema_key(entries@[i].0@),
            )) && (is_schema ==> keywords_ok(source, url_of_node(source, url, is_schema), keywords, ban)),
        Json::Array(items) => forall|i: int|
            0 <= i < items@.len() ==> walked_element(parent, #[trigger] items@[i]) ==> subtree_ok(
                items@[i],
                url,
                decimal(i as nat),
                keywords,
                ban,
                true,
            ),
        _ => true,
    }
}

/// The positions, among the first `n` members of an object below the key
/// `parent`, of those walked as part of the schema tree.
pub open spec fn walked_members(parent: Seq<char>, entries: Seq<(String, Json)>, n: int) -> Seq<int>
    decreases n,
{
    if n <= 0 {
        Seq::empty()
    } else {
        let prev = walked_members(parent, entries, n - 1);
        if walked_member(parent, entries[n - 1].0@, entries[n - 1].1) {
            prev.push(n - 1)
        } else {
            prev
        }
    }
}

/// The positions, among the first `n` elements of an array below the key
/// `parent`, of those walked as part of the schema tree.
pub open spec fn walked_elements(parent: Seq<char>, items: Seq<Json>, n: int) -> Seq<int>
    decreases n,
{
    if n <= 0 {
        Seq::empty()
    } else {
        let prev = walked_elements(parent, items, n - 1);
        if walked_element(parent, items[n - 1]) {
            prev.push(n - 1)
        } else {
            prev
        }
    }
}

/// The first tree entries of an object's node: one per walked member among
/// the first `n`, each the compiled node of that member.
pub open spec fn members_compiled(
    tree: Seq<(String, Schema)>,
    entries: Seq<(String, Json)>,
    parent: Seq<char>,
    n: int,
    url: Seq<char>,
    base: Seq<Seq<char>>,
    keywords: Seq<KeywordConsumer>,
) -> bool {
    let w = walked_members(parent, entries, n);
    tree.len() == w.len() && forall|t: int|
        0 <= t < tree.len() ==> 0 <= #[trigger] w[t] < n && n <= entries.len() && tree[t].0@
            == encoded_segment(entries[w[t]].0@) && compiled_node(
            tree[t].1,
            entries[w[t]].1,
            url,
            base.push(entries[w[t]].0@),
            entries[w[t]].0@,
            keywords,
            property_key(parent) || !non_schema_key(entries[w[t]].0@),
        )
}

/// The first tree entries of an array's node: one per walked element among
/// the first `n`, each the compiled node of that element.
pub open spec fn elements_compiled(
    tree: Seq<(String, Schema)>,
    items: Seq<Json>,
    parent: Seq<char>,
    n: int,
    url: Seq<char>,
    base: Seq<Seq<char>>,
    keywords: Seq<KeywordConsumer>,
) -> bool {
    let w = walked_elements(parent, items, n);
    tree.len() == w.len() && forall|t: int|
        0 <= t < tree.len() ==> 0 <= #[trigger] w[t] < n && n <= items.len() && tree[t].0@ == decimal(
            w[t] as nat,
        ) && compiled_node(
            tree[t].1,
            items[w[t]],
            url,
            base.push(decimal(w[t] as nat)),
            decimal(w[t] as nat),
            keywords,
            true,
        )
}

/// The identifier a node declares, read against `url`, where it stands as a
/// schema.
pub open spec fn node_id(source: Json, url: Seq<char>, is_schema: bool) -> Option<Seq<char>> {
    if is_schema {
        match source.spec_get("$id"@) {
            Some(Json::Str(t)) => joined_url(url, t@),
            _ => None,
        }
    } else {
        None
    }
}

/// Whether `s` is the compiled node of the value `source` that stands below
/// the key `parent`, at the path `base` from the node that gives it the URL
/// `url`: its identifier, a copy of its JSON, one tree entry per walked
/// member (keyed by its encoded key) or element (keyed by its index), in
/// order, each the compiled node of that member, and, where a schema stands,
/// the validators its keywords compile to.
pub open spec fn compiled_node(
    s: Schema,
    source: Json,
    url: Seq<char>,
    base: Seq<Seq<char>>,
    parent: Seq<char>,
    keywords: Seq<KeywordConsumer>,
    is_schema: bool,
) -> bool
    decreases source,
{
    match source {
        Json::Bool(b) => {
            &&& s.id is None && s.source == Json::Bool(b) && s.scopes@.len() == 0
            &&& b ==> s.tree@.len() == 0 && s.validators@.len() == 0
            &&& !b ==> s.tree@.len() == 1 && s.tree@[0].0@ == "not"@ && s.tree@[0].1.validators@.len() == 0
                && s.tree@[0].1.tree@.len() == 0
            &&& !b && is_schema ==> s.validators@.len() == 1 && (s.validators@[0] matches Validator::Not(u)
                && u@ == sub_url(url, base, "not"@))
            &&& !b && !is_schema ==> s.validators@.len() == 0
        },
        Json::Object(entries) => {
            let nurl = url_of_node(source, url, is_schema);
            let nbase = if node_id(source, url, is_schema) is Some {
                Seq::<Seq<char>>::empty()
            } else {
                base
            };
            let w = walked_members(parent, entries@, entries@.len() as int);
            &&& json_copy(source, s.source) && s.scopes@.len() == 0
            &&& match s.id {
                Some(i) => node_id(source, url, is_schema) == Some(i@),
                None => node_id(source, url, is_schema) is None,
            }
            &&& s.tree@.len() == w.len()
            &&& forall|t: int|
                0 <= t < w.len() ==> 0 <= #[trigger] w[t] < entries@.len() && s.tree@[t].0@
                    == encoded_segment(entries@[w[t]].0@) && compiled_node(
                    s.tree@[t].1,
                    entries@[w[t]].1,
                    nurl,
                    nbase.push(entries@[w[t]].0@),
                    entries@[w[t]].0@,
                    keywords,
                    property_key(parent) || !non_schema_key(entries@[w[t]].0@),
                )
            &&& is_schema ==> s.validators@.len() == compilers_used(keywords, source).len()
                && forall|i: int|
                0 <= i < s.validators@.len() ==> compiled_as(
                    compilers_used(keywords, source)[i],
                    source,
                    nurl,
                    nbase,
                    #[trigger] s.validators@[i],
                )
            &&& !is_schema ==> s.validators@.len() == 0
        },
        Json::Array(items) => {
            let w = walked_elements(parent, items@, items@.len() as int);
            &&& json_copy(source, s.source) && s.scopes@.len() == 0 && s.id is None
            &&& s.validators@.len() == 0
            &&& s.tree@.len() == w.len()
            &&& forall|t: int|
                0 <= t < w.len() ==> 0 <= #[trigger] w[t] < items@.len() && s.tree@[t].0@ == decimal(
                    w[t] as nat,
                ) && compiled_node(
                    s.tree@[t].1,
                    items@[w[t]],
                    url,
                    base.push(decimal(w[t] as nat)),
                    decimal(w[t] as nat),
                    keywords,
                    true,
                )
        },
        _ => s.id is None && s.tree@.len() == 0 && s.validators@.len() == 0 && s.scopes@.len() == 0
            && json_copy(source, s.source),
    }
}

impl Schema {
    /// Compiles the keywords of the schema object `source`, in the order its
    /// keys stand, each key claimed by the first compiler registered for it.
    /// Under strict settings a key that nothing claims, outside the allowed
    /// metadata keys, is refused.
    pub fn compile_keywords(
        source: &Json,
        url: &str,
        fragment: &Vec<String>,
        settings: &CompilationSettings,
    ) -> (r: Result<Vec<Validator>, SchemaError>)
        ensures
            r matches Err(SchemaError::UnknownKey(k)) ==> settings.ban_unknown_keywords
                && !allowed_unclaimed_key(k@) && (forall|j: int|
                0 <= j < settings.keywords@.len() ==> !holds_key(
                    (#[trigger] settings.keywords@[j]).keys@,
                    k@,
                )),
            !(source is Object) ==> (r matches Ok(v) && v@.len() == 0),
            settings.ban_unknown_keywords && has_unknown_key(*source, settings.keywords@) ==> r is Err,
            (forall|c: int|
                0 <= c < settings.keywords@.len() ==> keyword_acceptable(
                    (#[trigger] settings.keywords@[c]).keyword,
                    *source,
                    url@,
                )) && !(settings.ban_unknown_keywords && has_unknown_key(
                *source,
                settings.keywords@,
            )) ==> r is Ok,
            r matches Ok(vs) ==> vs@.len() == compilers_used(settings.keywords@, *source).len() && forall|i: int|
                0 <= i < vs@.len() ==> compiled_as(
                    compilers_used(settings.keywords@, *source)[i],
                    *source,
                    url@,
                    texts(fragment@),
                    #[trigger] vs@[i],
                ),
            (forall|c: int|
                0 <= c < settings.keywords@.len() ==> keyword_acceptable(
                    (#[trigger] settings.keywords@[c]).keyword,
                    *source,
                    url@,
                )) && settings.ban_unknown_keywords && has_unknown_key(*source, settings.keywords@)
                ==> r matches Err(SchemaError::UnknownKey(_)),
    {
        let ghost kws = settings.keywords@;
        let ghost ban = settings.ban_unknown_keywords;
        let entries = match source {
            Json::Object(e) => e,
            _ => return Ok(Vec::new()),
        };
        assert(source is Object);
        let mut validators: Vec<Validator> = Vec::new();
        let mut consumed: Vec<String> = Vec::new();
        let mut unknown: Vec<String> = Vec::new();
        let mut i: usize = 0;
        while i < entries.len()
            invariant
                i <= entries.len(),
                source is Object,
                *source == Json::Object(*entries),
                kws == settings.keywords@,
                forall|u: int|
                    0 <= u < unknown@.len() ==> exists|j: int|
                        0 <= j < entries@.len() && (#[trigger] entries@[j]).0@ == (#[trigger] unknown@[u])@,
                texts(consumed@) == claim_keys(kws, *source, entry_keys(entries@).subrange(0, i as int)).0,
                validators@.len() == claim_keys(kws, *source, entry_keys(entries@).subrange(0, i as int)).1.len(),
                forall|v: int|
                    0 <= v < validators@.len() ==> compiled_as(
                        claim_keys(kws, *source, entry_keys(entries@).subrange(0, i as int)).1[v],
                        *source,
                        url@,
                        texts(fragment@),
                        #[trigger] validators@[v],
                    ),
                ban == settings.ban_unknown_keywords,
                forall|j: int|
                    0 <= j < unknown@.len() ==> forall|c: int|
                        0 <= c < settings.keywords@.len() ==> !holds_key(
                            (#[trigger] settings.keywords@[c]).keys@,
                            (#[trigger] unknown@[j])@,
                        ),
                forall|m: int|
                    0 <= m < consumed@.len() ==> !unclaimed(kws, (#[trigger] consumed@[m])@) || (ban
                        ==> exists|u: int| 0 <= u < unknown@.len() && (#[trigger] unknown@[u])@ == consumed@[m]@),
                forall|j: int|
                    0 <= j < i ==> unclaimed(kws, (#[trigger] entries@[j]).0@) ==> (ban ==> exists|u: int|
                        0 <= u < unknown@.len() && (#[trigger] unknown@[u])@ == entries@[j].0@),
            decreases entries.len() - i,
        {
            let key = entries[i].0.as_str();
            let ghost old_unknown = unknown@;
            let ghost old_consumed = consumed@;
            let ghost old_validators = validators@;
            let ghost ks = entry_keys(entries@);
            let ghost prev = claim_keys(kws, *source, ks.subrange(0, i as int));
            proof {
                assert(ks.subrange(0, i + 1).drop_last() =~= ks.subrange(0, i as int));
                assert(ks.subrange(0, i + 1).last() == key@);
            }
            if contains_key(&consumed, key) {
                proof {
                    let m = choose|m: int| 0 <= m < consumed@.len() && (#[trigger] consumed@[m])@ == key@;
                    assert(consumed@[m]@ == key@);
                    assert(texts(consumed@)[m] == key@);
                    assert(prev.0.contains(key@));
                }
            } else {
                match find_keyword(&settings.keywords, key) {
                    Some(p) => {
                        settings.keywords[p].consume(&mut consumed);
                        proof {
                            assert(!unclaimed(kws, key@)) by {
                                assert(holds_key(kws[p as int].keys@, key@));
                            }
                            assert forall|m: int| 0 <= m < consumed@.len() implies !unclaimed(
                                kws,
                                (#[trigger] consumed@[m])@,
                            ) || (ban ==> exists|u: int|
                                0 <= u < unknown@.len() && (#[trigger] unknown@[u])@ == consumed@[m]@) by {
                                if m >= old_consumed.len() {
                                    let q = m - old_consumed.len();
                                    assert(consumed@[m] == kws[p as int].keys@[q]);
                                    assert(holds_key(kws[p as int].keys@, consumed@[m]@));
                                } else {
                                    assert(consumed@[m] == old_consumed[m]);
                                }
                            }
                        }
                        proof {
                            assert(!prev.0.contains(key@)) by {
                                if prev.0.contains(key@) {
                                    let m = choose|m: int| 0 <= m < prev.0.len() && prev.0[m] == key@;
                                    assert(old_consumed[m]@ == key@);
                                }
                            }
                            assert(texts(consumed@) =~= texts(old_consumed) + texts(kws[p as int].keys@));
                        }
                        let compiled = compile_keyword(settings.keywords[p].keyword, source, url, fragment)?;
                        match compiled {
                            Some(v) => {
                                validators.push(v);
                                proof {
                                    let next = claim_keys(kws, *source, ks.subrange(0, i + 1));
                                    assert(next.1 == prev.1.push(kws[p as int].keyword));
                                    assert forall|w: int| 0 <= w < validators@.len() implies compiled_as(
                                        next.1[w],
                                        *source,
                                        url@,
                                        texts(fragment@),
                                        #[trigger] validators@[w],
                                    ) by {
                                        if w < old_validators.len() {
                                            assert(validators@[w] == old_validators[w]);
                                        }
                                    }
                                }
                            },
                            None => {},
                        }
                    },
                    None => {
                        consumed.push(key.to_string());
                        proof {
                            assert(!prev.0.contains(key@)) by {
                                if prev.0.contains(key@) {
                                    let m = choose|m: int| 0 <= m < prev.0.len() && prev.0[m] == key@;
                                    assert(old_consumed[m]@ == key@);
                                }
                            }
                            assert(texts(consumed@) =~= texts(old_consumed).push(key@));
                        }
                        if settings.ban_unknown_keywords {
                            unknown.push(key.to_string());
                            proof {
                                assert(unknown@[unknown@.len() - 1]@ == key@);
                                assert forall|u: int| 0 <= u < unknown@.len() implies exists|j: int|
                                    0 <= j < entries@.len() && (#[trigger] entries@[j]).0@ == (
                                    #[trigger] unknown@[u])@ by {
                                    if u < old_unknown.len() {
                                        assert(unknown@[u] == old_unknown[u]);
                                    } else {
                                        assert(entries@[i as int].0@ == unknown@[u]@);
                                    }
                                }
                            }
                        }
                        proof {
                            assert forall|m: int| 0 <= m < consumed@.len() implies !unclaimed(
                                kws,
                                (#[trigger] consumed@[m])@,
                            ) || (ban ==> exists|u: int|
                                0 <= u < unknown@.len() && (#[trigger] unknown@[u])@ == consumed@[m]@) by {
                                if m < old_consumed.len() {
                                    assert(consumed@[m] == old_consumed[m]);
                                    if ban && unclaimed(kws, consumed@[m]@) {
                                        let u = choose|u: int|
                                            0 <= u < old_unknown.len() && (#[trigger] old_unknown[u])@
                                                == old_consumed[m]@;
                                        assert(unknown@[u] == old_unknown[u]);
                                    }
                                } else if ban {
                                    assert(unknown@[unknown@.len() - 1]@ == consumed@[m]@);
                                }
                            }
                        }
                    },
                }
            }
            proof {
                assert forall|j: int| 0 <= j < i + 1 implies unclaimed(kws, (#[trigger] entries@[j]).0@)
                    ==> (ban ==> exists|u: int|
                    0 <= u < unknown@.len() && (#[trigger] unknown@[u])@ == entries@[j].0@) by {
                    if j < i && ban && unclaimed(kws, entries@[j].0@) {
                        let u = choose|u: int|
                            0 <= u < old_unknown.len() && (#[trigger] old_unknown[u])@ == entries@[j].0@;
                        assert(unknown@[u] == old_unknown[u]);
                    }
                }
            }
            i = i + 1;
        }
        if settings.ban_unknown_keywords {
            match first_unknown(&unknown) {
                Some(p) => {
                    proof {
                        let j = choose|j: int|
                            0 <= j < entries@.len() && (#[trigger] entries@[j]).0@ == unknown@[p as int]@;
                        assert(unclaimed(kws, entries@[j].0@));
                    }
                    return Err(SchemaError::UnknownKey(unknown[p].clone()));
                },
                None => {
                    proof {
                        if has_unknown_key(*source, kws) {
                            let j = choose|j: int|
                                0 <= j < entries@.len() && unclaimed(kws, (#[trigger] entries@[j]).0@)
                                    && !allowed_unclaimed_key(entries@[j].0@);
                            let u = choose|u: int|
                                0 <= u < unknown@.len() && (#[trigger] unknown@[u])@ == entries@[j].0@;
                            assert(allowed_unclaimed_key(unknown@[u]@));
                        }
                    }
                },
            }
        }
        proof {
            assert(entry_keys(entries@).subrange(0, entries@.len() as int) =~= entry_keys(entries@));
        }
        Ok(validators)
    }

    /// The node of a boolean schema at `base_fragment` below `url`: `true`
    /// has no validator; `false` holds an empty schema under `not` and, where
    /// a schema stands, a `not` validator that refers to it.
    fn compile_boolean(b: bool, url: &str, base_fragment: &Vec<String>, is_schema: bool) -> (r:
        Schema)
        ensures
            r.scopes@.len() == 0 && r.id is None && r.source == Json::Bool(b),
            b || !is_schema ==> r.validators@.len() == 0,
            !b && is_schema ==> r.validators@.len() == 1 && (r.validators@[0] matches Validator::Not(u)
                && u@ == sub_url(url@, texts(base_fragment@), "not"@)),
            b ==> r.tree@.len() == 0,
            !b ==> r.tree@.len() == 1 && r.tree@[0].0@ == "not"@ && r.tree@[0].1.validators@.len() == 0
                && r.tree@[0].1.tree@.len() == 0 && r.tree@[0].1.id is None,
    {
        let source = Json::Bool(b);
        if b {
            Schema {
                id: None,
                schema: None,
                source,
                tree: Vec::new(),
                validators: Vec::new(),
                scopes: Vec::new(),
            }
        } else {
            let mut tree: Vec<(String, Schema)> = Vec::new();
            tree.push(
                (
                    "not".to_string(),
                    Schema {
                        id: None,
                        schema: None,
                        source: Json::Object(Vec::new()),
                        tree: Vec::new(),
                        validators: Vec::new(),
                        scopes: Vec::new(),
                    },
                ),
            );
            let mut validators: Vec<Validator> = Vec::new();
            if is_schema {
                validators.push(Validator::Not(make_sub_url(url, base_fragment, "not")));
            }
            Schema { id: None, schema: None, source, tree, validators, scopes: Vec::new() }
        }
    }

    /// Compiles the value at `root_fragment` (never empty): its sub-tree
    /// first, recording each `$id` met on the way in `scopes`, then its own
    /// keywords when it stands where a schema stands. `base_fragment` is the
    /// path from the nearest node that declared an `$id`, and `url` that
    /// node's URL.
    pub fn compile_sub(
        source: &Json,
        url: &str,
        base_fragment: &Vec<String>,
        root_fragment: &Vec<String>,
        scopes: &mut Vec<(String, Vec<String>)>,
        settings: &CompilationSettings,
        is_schema: bool,
    ) -> (r: Result<Schema, SchemaError>)
        requires
            root_fragment@.len() > 0,
        ensures
            r matches Ok(s) ==> s.scopes@.len() == 0,
            r matches Ok(s) ==> (!is_schema ==> s.validators@.len() == 0),
            r matches Ok(s) ==> (!is_schema ==> s.id is None),
            r matches Ok(s) ==> (s.id matches Some(i) ==> (assoc(final(scopes)@, i@) matches Some(p)
                && p@.map_values(|x: String| x@) == encoded_parts(root_fragment@))),
            is_schema ==> (source.spec_get("$id"@) matches Some(Json::Str(t)) ==> (r matches Ok(s)
                ==> (s.id matches Some(i) && Some(i@) == joined_url(url@, t@)))),
            subtree_ok(
                *source,
                url@,
                root_fragment@.last()@,
                settings.keywords@,
                settings.ban_unknown_keywords,
                is_schema,
            ) ==> r is Ok,
            r matches Ok(s) ==> compiled_node(
                s,
                *source,
                url@,
                texts(base_fragment@),
                root_fragment@.last()@,
                settings.keywords@,
                is_schema,
            ),
            keys_kept(old(scopes)@, final(scopes)@),
            r matches Ok(s) ==> ids_recorded(s, final(scopes)@),
        decreases source,
    {
        let ghost kws = settings.keywords@;
        let ghost scopes0 = scopes@;
        let ghost ok = subtree_ok(
            *source,
            url@,
            root_fragment@.last()@,
            settings.keywords@,
            settings.ban_unknown_keywords,
            is_schema,
        );
        if let Json::Bool(b) = source {
            let node = Schema::compile_boolean(*b, url, base_fragment, is_schema);
            proof {
                assert(keys_kept(scopes0, scopes@));
                if !*b {
                    assert(ids_recorded(node.tree@[0].1, scopes@));
                }
                assert(ids_recorded(node, scopes@));
            }
            return Ok(node);
        }
        let id = if is_schema {
            parse_url_key("$id", source, Some(url))?
        } else {
            None
        };
        let schema = if is_schema {
            parse_url_key("$schema", source, None)?
        } else {
            None
        };
        let (node_url, node_base): (String, Vec<String>) = match &id {
            Some(i) => (i.clone(), Vec::new()),
            None => (url.to_string(), copy_strings(base_fragment)),
        };
        assert(node_url@ == url_of_node(*source, url@, is_schema));
        let ghost nbase = if node_id(*source, url@, is_schema) is Some {
            Seq::<Seq<char>>::empty()
        } else {
            texts(base_fragment@)
        };
        proof {
            assert(id is Some <==> node_id(*source, url@, is_schema) is Some);
            assert(texts(node_base@) =~= nbase);
        }
        let parent_key = root_fragment[root_fragment.len() - 1].as_str();
        let in_properties = is_property_key(parent_key);
        let mut tree: Vec<(String, Schema)> = Vec::new();
        match source {
            Json::Object(obj) => {
                let mut i: usize = 0;
                while i < obj.len()
                    invariant
                        i <= obj.len(),
                        *source == Json::Object(*obj),
                        ok == subtree_ok(
                            *source,
                            url@,
                            root_fragment@.last()@,
                            settings.keywords@,
                            settings.ban_unknown_keywords,
                            is_schema,
                        ),
                        node_url@ == url_of_node(*source, url@, is_schema),
                        parent_key@ == root_fragment@.last()@,
                        in_properties == property_key(parent_key@),
                        kws == settings.keywords@,
                        root_fragment@.len() > 0,
                        scopes0 == old(scopes)@,
                        keys_kept(scopes0, scopes@),
                        forall|t: int| 0 <= t < tree@.len() ==> ids_recorded((#[trigger] tree@[t]).1, scopes@),
                        texts(node_base@) == nbase,
                        members_compiled(tree@, obj@, parent_key@, i as int, node_url@, nbase, kws),
                    decreases obj.len() - i,
                {
                    let ghost old_tree = tree@;
                    let ghost wi = walked_members(parent_key@, obj@, i as int);
                    let key = obj[i].0.as_str();
                    let val = &obj[i].1;
                    let walk = match val {
                        Json::Object(_) | Json::Array(_) | Json::Bool(_) => true,
                        _ => false,
                    };
                    if walk && (in_properties || !is_final_key(key)) {
                        let child_is_schema = in_properties || !is_non_schema_key(key);
                        let child_base = extended(&node_base, key.to_string());
                        let child_root = extended(root_fragment, key.to_string());
                        proof {
                            broadcast use vstd::std_specs::vec::axiom_vec_index_decreases;

                            assert(decreases_to!(*obj => obj[i as int]));
                            assert(decreases_to!(obj[i as int] => obj[i as int].1));
                            assert(decreases_to!(*source => source->Object_0));
                            assert(decreases_to!(*source => obj[i as int].1));
                            assert(walked_member(parent_key@, obj@[i as int].0@, obj@[i as int].1));
                            assert(child_root@.last()@ == key@);
                            assert(ok ==> subtree_ok(
                                *val,
                                node_url@,
                                child_root@.last()@,
                                settings.keywords@,
                                settings.ban_unknown_keywords,
                                child_is_schema,
                            ));
                        }
                        let ghost sc_before = scopes@;
                        let child = Schema::compile_sub(
                            val,
                            node_url.as_str(),
                            &child_base,
                            &child_root,
                            scopes,
                            settings,
                            child_is_schema,
                        )?;
                        proof {
                            lemma_keys_kept_trans(scopes0, sc_before, scopes@);
                            assert forall|t: int| 0 <= t < tree@.len() implies ids_recorded(
                                (#[trigger] tree@[t]).1,
                                scopes@,
                            ) by {
                                lemma_ids_recorded_kept(tree@[t].1, sc_before, scopes@);
                            }
                        }
                        proof {
                            assert(texts(child_base@) =~= nbase.push(key@));
                        }
                        let ghost child_v = child;
                        let ek = encode(key);
                        assert(ek@ == encoded_segment(obj@[i as int].0@));
                        assert(compiled_node(
                            child_v,
                            obj@[i as int].1,
                            node_url@,
                            nbase.push(obj@[i as int].0@),
                            obj@[i as int].0@,
                            kws,
                            property_key(parent_key@) || !non_schema_key(obj@[i as int].0@),
                        ));
                        tree.push((ek, child));
                        proof {
                            assert forall|t: int| 0 <= t < tree@.len() implies ids_recorded(
                                (#[trigger] tree@[t]).1,
                                scopes@,
                            ) by {
                                if t < old_tree.len() {
                                    assert(tree@[t] == old_tree[t]);
                                }
                            }
                            let w2 = walked_members(parent_key@, obj@, i + 1);
                            assert(w2 == wi.push(i as int));
                            assert(tree@[old_tree.len() as int].1 == child_v);
                            assert forall|t: int| 0 <= t < tree@.len() implies 0 <= #[trigger] w2[t] < i + 1
                                && i + 1 <= obj@.len() && tree@[t].0@ == encoded_segment(obj@[w2[t]].0@)
                                && compiled_node(
                                tree@[t].1,
                                obj@[w2[t]].1,
                                node_url@,
                                nbase.push(obj@[w2[t]].0@),
                                obj@[w2[t]].0@,
                                kws,
                                property_key(parent_key@) || !non_schema_key(obj@[w2[t]].0@),
                            ) by {
                                if t < old_tree.len() {
                                    assert(tree@[t] == old_tree[t]);
                                    assert(w2[t] == wi[t]);
                                }
                            }
                            assert(members_compiled(tree@, obj@, parent_key@, i + 1, node_url@, nbase, kws));
                        }
                    } else {
                        proof {
                            assert(walked_members(parent_key@, obj@, i + 1) == wi);
                            assert(members_compiled(tree@, obj@, parent_key@, i + 1, node_url@, nbase, kws));
                        }
                    }
                    i = i + 1;
                }
            },
            Json::Array(arr) => {
                let bool_items = is_boolean_schema_array_key(parent_key);
                let mut i: usize = 0;
                while i < arr.len()
                    invariant
                        i <= arr.len(),
                        *source == Json::Array(*arr),
                        ok == subtree_ok(
                            *source,
                            url@,
                            root_fragment@.last()@,
                            settings.keywords@,
                            settings.ban_unknown_keywords,
                            is_schema,
                        ),
                        node_url@ == url_of_node(*source, url@, is_schema),
                        bool_items == boolean_schema_array_key(root_fragment@.last()@),
                        kws == settings.keywords@,
                        root_fragment@.len() > 0,
                        scopes0 == old(scopes)@,
                        keys_kept(scopes0, scopes@),
                        forall|t: int| 0 <= t < tree@.len() ==> ids_recorded((#[trigger] tree@[t]).1, scopes@),
                        texts(node_base@) == texts(base_fragment@),
                        node_url@ == url@,
                        elements_compiled(tree@, arr@, root_fragment@.last()@, i as int, url@, texts(base_fragment@), kws),
                    decreases arr.len() - i,
                {
                    let ghost old_tree = tree@;
                    let ghost wi = walked_elements(root_fragment@.last()@, arr@, i as int);
                    let val = &arr[i];
                    let walk = match val {
                        Json::Object(_) | Json::Array(_) => true,
                        Json::Bool(_) => bool_items,
                        _ => false,
                    };
                    if walk {
                        let idx = index_string(i);
                        let child_base = extended(&node_base, idx.clone());
                        let child_root = extended(root_fragment, idx.clone());
                        proof {
                            broadcast use vstd::std_specs::vec::axiom_vec_index_decreases;

                            assert(decreases_to!(*arr => arr[i as int]));
                            assert(decreases_to!(*source => source->Array_0));
                            assert(decreases_to!(*source => arr[i as int]));
                            assert(walked_element(root_fragment@.last()@, arr@[i as int]));
                            assert(child_root@.last()@ == decimal(i as nat));
                            assert(node_url@ == url@);
                            assert(ok ==> subtree_ok(
                                *val,
                                node_url@,
                                child_root@.last()@,
                                settings.keywords@,
                                settings.ban_unknown_keywords,
                                true,
                            ));
                        }
                        let ghost sc_before = scopes@;
                        let child = Schema::compile_sub(
                            val,
                            node_url.as_str(),
                            &child_base,
                            &child_root,
                            scopes,
                            settings,
                            true,
                        )?;
                        proof {
                            lemma_keys_kept_trans(scopes0, sc_before, scopes@);
                            assert forall|t: int| 0 <= t < tree@.len() implies ids_recorded(
                                (#[trigger] tree@[t]).1,
                                scopes@,
                            ) by {
                                lemma_ids_recorded_kept(tree@[t].1, sc_before, scopes@);
                            }
                        }
                        proof {
                            assert(texts(child_base@) =~= texts(base_fragment@).push(decimal(i as nat)));
                        }
                        let ghost child_v = child;
                        assert(compiled_node(
                            child_v,
                            arr@[i as int],
                            url@,
                            texts(base_fragment@).push(decimal(i as nat)),
                            decimal(i as nat),
                            kws,
                            true,
                        ));
                        tree.push((idx, child));
                        proof {
                            assert forall|t: int| 0 <= t < tree@.len() implies ids_recorded(
                                (#[trigger] tree@[t]).1,
                                scopes@,
                            ) by {
                                if t < old_tree.len() {
                                    assert(tree@[t] == old_tree[t]);
                                }
                            }
                            let w2 = walked_elements(root_fragment@.last()@, arr@, i + 1);
                            assert(w2 == wi.push(i as int));
                            assert(tree@[old_tree.len() as int].1 == child_v);
                            assert forall|t: int| 0 <= t < tree@.len() implies 0 <= #[trigger] w2[t] < i + 1
                                && i + 1 <= arr@.len() && tree@[t].0@ == decimal(w2[t] as nat) && compiled_node(
                                tree@[t].1,
                                arr@[w2[t]],
                                url@,
                                texts(base_fragment@).push(decimal(w2[t] as nat)),
                                decimal(w2[t] as nat),
                                kws,
                                true,
                            ) by {
                                if t < old_tree.len() {
                                    assert(tree@[t] == old_tree[t]);
                                    assert(w2[t] == wi[t]);
                                }
                            }
                            assert(elements_compiled(
                                tree@,
                                arr@,
                                root_fragment@.last()@,
                                i + 1,
                                url@,
                                texts(base_fragment@),
                                kws,
                            ));
                        }
                    } else {
                        proof {
                            assert(walked_elements(root_fragment@.last()@, arr@, i + 1) == wi);
                            assert(elements_compiled(
                                tree@,
                                arr@,
                                root_fragment@.last()@,
                                i + 1,
                                url@,
                                texts(base_fragment@),
                                kws,
                            ));
                        }
                    }
                    i = i + 1;
                }
            },
            _ => {},
        }
        match &id {
            Some(i) => {
                let path = encode_all(root_fragment);
                assert(path@.map_values(|x: String| x@) =~= encoded_parts(root_fragment@));
                let ghost sc_before = scopes@;
                record_scope(scopes, i.clone(), path);
                proof {
                    lemma_keys_kept_trans(scopes0, sc_before, scopes@);
                    assert forall|t: int| 0 <= t < tree@.len() implies ids_recorded(
                        (#[trigger] tree@[t]).1,
                        scopes@,
                    ) by {
                        lemma_ids_recorded_kept(tree@[t].1, sc_before, scopes@);
                    }
                }
            },
            None => {},
        }
        let validators = if is_schema && source.is_object() {
            Schema::compile_keywords(source, node_url.as_str(), &node_base, settings)?
        } else {
            Vec::new()
        };
        let result = Schema { id, schema, source: json_clone(source), tree, validators, scopes: Vec::new() };
        proof {
            assert(forall|t: int| 0 <= t < result.tree@.len() ==> ids_recorded(
                (#[trigger] result.tree@[t]).1,
                scopes@,
            ));
            assert(ids_recorded(result, scopes@));
        }
        Ok(result)
    }

    /// Compiles a whole document. Its identifier is `external_id` when
    /// given, else its `$id`, else a fresh one.
    pub fn compile(
        document: &Json,
        external_id: Option<String>,
        settings: &CompilationSettings,
    ) -> (r: Result<Schema, SchemaError>)
        ensures
            !(document is Object) && !(document is Bool) ==> r matches Err(SchemaError::NotAnObject),
            r matches Ok(s) ==> s.id is Some,
            r matches Ok(s) ==> (external_id is Some ==> s.id == external_id),
            external_id is None ==> (document.spec_get("$id"@) matches Some(Json::Str(t)) ==> (r matches Ok(
                s,
            ) ==> (s.id matches Some(i) && Some(i@) == parsed_url(t@)))),
            document_compiles(
                *document,
                external_id,
                settings.keywords@,
                settings.ban_unknown_keywords,
            ) ==> r is Ok,
            *document is Bool ==> r is Ok,
            document_refused_under(
                *document,
                external_id,
                settings.keywords@,
                settings.ban_unknown_keywords,
            ) ==> r matches Err(SchemaError::UnknownKey(_)),
            external_id is None && !(document.spec_get("$id"@) matches Some(Json::Str(_))) ==> (r matches Ok(
                s,
            ) ==> (s.id matches Some(i) && forall|k: int| 0 <= k < i@.len() ==> (#[trigger] i@[k]) != '#')),
            r matches Ok(s) ==> (*document is Object ==> json_copy(*document, s.source)),
            r matches Ok(s) ==> (*document matches Json::Object(entries) ==> (s.id matches Some(id)
                && (s.validators@.len() == compilers_used(settings.keywords@, *document).len()
                && forall|i: int|
                0 <= i < s.validators@.len() ==> compiled_as(
                    compilers_used(settings.keywords@, *document)[i],
                    *document,
                    id@,
                    Seq::empty(),
                    #[trigger] s.validators@[i],
                )))),
            r matches Ok(s) ==> (*document matches Json::Bool(b) ==> s.source == Json::Bool(b)
                && s.scopes@.len() == 0 && boolean_root(s, b)),
            r matches Ok(s) ==> forall|t: int|
                0 <= t < s.tree@.len() ==> ids_recorded((#[trigger] s.tree@[t]).1, s.scopes@),
            r matches Ok(s) ==> (*document matches Json::Object(entries) ==> (s.id matches Some(id)
                && members_compiled(
                s.tree@,
                entries@,
                ""@,
                entries@.len() as int,
                id@,
                Seq::empty(),
                settings.keywords@,
            ))),
    {
        let ghost kws = settings.keywords@;
        let ghost ban = settings.ban_unknown_keywords;
        if let Json::Bool(b) = document {
            proof {
                assert(!document_refused(*document, Seq::empty(), kws, ban));
                if external_id is Some {
                    assert(!document_refused(*document, external_id->0@, kws, ban));
                }
            }
            let id = match external_id {
                Some(i) => i,
                None => generate_id(),
            };
            let no_fragment: Vec<String> = Vec::new();
            assert(texts(no_fragment@) =~= Seq::<Seq<char>>::empty());
            let node = Schema::compile_boolean(*b, id.as_str(), &no_fragment, true);
            proof {
                if !*b {
                    assert(ids_recorded(node.tree@[0].1, Seq::<(String, Vec<String>)>::empty()));
                }
            }
            return Ok(
                Schema {
                    id: Some(id),
                    schema: None,
                    source: Json::Bool(*b),
                    tree: node.tree,
                    validators: node.validators,
                    scopes: Vec::new(),
                },
            );
        }
        let entries = match document {
            Json::Object(e) => e,
            _ => {
                proof {
                    assert(!document_ok(*document, Seq::empty(), kws, ban));
                    assert(!document_refused(*document, Seq::empty(), kws, ban));
                    if external_id is Some {
                        let e = external_id->0;
                        assert(!document_refused(*document, e@, kws, ban));
                        assert(!document_ok(*document, e@, kws, ban));
                    }
                }
                return Err(SchemaError::NotAnObject);
            },
        };
        let ghost doc = *document;
        let id = match external_id {
            Some(i) => i,
            None => match parse_url_key("$id", document, None)? {
                Some(i) => i,
                None => generate_id(),
            },
        };
        proof {
            if document_compiles(doc, external_id, kws, ban) {
                assert(document_ok(doc, id@, kws, ban));
            }
            if document_refused_under(doc, external_id, kws, ban) {
                assert(document_refused(doc, id@, kws, ban));
            }
        }
        let schema = parse_url_key("$schema", document, None)?;
        let mut scopes: Vec<(String, Vec<String>)> = Vec::new();
        let mut tree: Vec<(String, Schema)> = Vec::new();
        let mut i: usize = 0;
        proof {
            reveal_strlit("");
            reveal_strlit("properties");
            reveal_strlit("patternProperties");
            reveal_strlit("dependencies");
            reveal_strlit("definitions");
            assert(""@.len() == 0);
            assert("properties"@.len() > 0);
            assert("patternProperties"@.len() > 0);
            assert("dependencies"@.len() > 0);
            assert("definitions"@.len() > 0);
            assert(!property_key(""@));
        }
        while i < entries.len()
            invariant
                i <= entries.len(),
                *document == Json::Object(*entries),
                doc == *document,
                kws == settings.keywords@,
                ban == settings.ban_unknown_keywords,
                document_compiles(doc, external_id, kws, ban) ==> document_ok(doc, id@, kws, ban),
                document_refused_under(doc, external_id, kws, ban) ==> document_refused(doc, id@, kws, ban),
                !property_key(""@),
                members_compiled(tree@, entries@, ""@, i as int, id@, Seq::empty(), kws),
                forall|t: int| 0 <= t < tree@.len() ==> ids_recorded((#[trigger] tree@[t]).1, scopes@),
            decreases entries.len() - i,
        {
            let ghost old_tree = tree@;
            let ghost wi = walked_members(""@, entries@, i as int);
            let key = entries[i].0.as_str();
            let val = &entries[i].1;
            let walk = match val {
                Json::Object(_) | Json::Array(_) | Json::Bool(_) => true,
                _ => false,
            };
            if walk && !is_final_key(key) {
                let mut fragment: Vec<String> = Vec::new();
                fragment.push(key.to_string());
                proof {
                    assert(fragment@.last()@ == key@);
                    assert(document_refused(doc, id@, kws, ban) ==> subtree_ok(
                        entries@[i as int].1,
                        id@,
                        key@,
                        kws,
                        ban,
                        !non_schema_key(key@),
                    ));
                    assert(document_ok(doc, id@, kws, ban) ==> subtree_ok(
                        entries@[i as int].1,
                        id@,
                        key@,
                        kws,
                        ban,
                        !non_schema_key(key@),
                    ));
                }
                let ghost sc_before = scopes@;
                let child = Schema::compile_sub(
                    val,
                    id.as_str(),
                    &fragment,
                    &fragment,
                    &mut scopes,
                    settings,
                    !is_non_schema_key(key),
                )?;
                proof {
                    assert forall|t: int| 0 <= t < tree@.len() implies ids_recorded(
                        (#[trigger] tree@[t]).1,
                        scopes@,
                    ) by {
                        lemma_ids_recorded_kept(tree@[t].1, sc_before, scopes@);
                    }
                }
                let ghost child_v = child;
                proof {
                    assert(texts(fragment@) =~= Seq::<Seq<char>>::empty().push(key@));
                }
                let ek = encode(key);
                tree.push((ek, child));
                proof {
                    assert forall|t: int| 0 <= t < tree@.len() implies ids_recorded(
                        (#[trigger] tree@[t]).1,
                        scopes@,
                    ) by {
                        if t < old_tree.len() {
                            assert(tree@[t] == old_tree[t]);
                        }
                    }
                    let w2 = walked_members(""@, entries@, i + 1);
                    assert(walked_member(""@, key@, entries@[i as int].1));
                    assert(w2 == wi.push(i as int));
                    assert(tree@[old_tree.len() as int].1 == child_v);
                    assert forall|t: int| 0 <= t < tree@.len() implies 0 <= #[trigger] w2[t] < i + 1
                        && i + 1 <= entries@.len() && tree@[t].0@ == encoded_segment(entries@[w2[t]].0@)
                        && compiled_node(
                        tree@[t].1,
                        entries@[w2[t]].1,
                        id@,
                        Seq::<Seq<char>>::empty().push(entries@[w2[t]].0@),
                        entries@[w2[t]].0@,
                        kws,
                        property_key(""@) || !non_schema_key(entries@[w2[t]].0@),
                    ) by {
                        if t < old_tree.len() {
                            assert(tree@[t] == old_tree[t]);
                            assert(w2[t] == wi[t]);
                        }
                    }
                    assert(members_compiled(tree@, entries@, ""@, i + 1, id@, Seq::empty(), kws));
                }
            } else {
                proof {
                    assert(!walked_member(""@, key@, entries@[i as int].1));
                    assert(walked_members(""@, entries@, i + 1) == wi);
                    assert(members_compiled(tree@, entries@, ""@, i + 1, id@, Seq::empty(), kws));
                }
            }
            i = i + 1;
        }
        let no_fragment: Vec<String> = Vec::new();
        assert(no_fragment@ =~= Seq::<String>::empty());
        let validators = match Schema::compile_keywords(document, id.as_str(), &no_fragment, settings) {
            Ok(v) => v,
            Err(e) => {
                return Err(e);
            },
        };
        let source_copy = json_clone(document);
        Ok(Schema { id: Some(id), schema, source: source_copy, tree, validators, scopes })
    }
}

/// The node of a boolean document: `true` has no validator and no tree;
/// `false` holds an empty schema under `not` and a `not` validator that
/// refers to it.
pub open spec fn boolean_root(s: Schema, b: bool) -> bool {
    &&& b ==> s.tree@.len() == 0 && s.validators@.len() == 0
    &&& !b ==> s.tree@.len() == 1 && s.tree@[0].0@ == "not"@ && s.tree@[0].1.validators@.len() == 0
        && s.tree@[0].1.tree@.len() == 0 && s.validators@.len() == 1 && (s.id matches Some(id)
        && s.validators@[0] matches Validator::Not(u) && u@ == sub_url(id@, Seq::empty(), "not"@))
}

/// Whether the object `doc` compiles with `url` as its identifier in every
/// respect but one: under strict compilation it has a key that no compiler
/// claims and that is not an allowed metadata key.
pub open spec fn document_refused(
    doc: Json,
    url: Seq<char>,
    keywords: Seq<KeywordConsumer>,
    ban: bool,
) -> bool {
    &&& ban && has_unknown_key(doc, keywords)
    &&& match doc {
        Json::Object(entries) => (doc.spec_get("$schema"@) matches Some(Json::Str(t)) ==> parsed_url(
            t@,
        ) is Some) && (forall|i: int|
            0 <= i < entries@.len() ==> walked_member(""@, (#[trigger] entries@[i]).0@, entries@[i].1)
                ==> subtree_ok(
                entries@[i].1,
                url,
                entries@[i].0@,
                keywords,
                ban,
                !non_schema_key(entries@[i].0@),
            )) && (forall|c: int|
            0 <= c < keywords.len() ==> keyword_acceptable(
                (#[trigger] keywords[c]).keyword,
                doc,
                url,
            )),
        _ => false,
    }
}

/// `document_refused` under the identifier `doc` gets: `external_id` when
/// given, else its `$id`, else any identifier at all.
pub open spec fn document_refused_under(
    doc: Json,
    external_id: Option<String>,
    keywords: Seq<KeywordConsumer>,
    ban: bool,
) -> bool {
    match external_id {
        Some(e) => document_refused(doc, e@, keywords, ban),
        None => match doc.spec_get("$id"@) {
            Some(Json::Str(t)) => match parsed_url(t@) {
                Some(u) => document_refused(doc, u, keywords, ban),
                None => false,
            },
            _ => forall|u: Seq<char>| #[trigger] document_refused(doc, u, keywords, ban),
        },
    }
}

/// Whether the object or boolean `doc` compiles with `url` as its
/// identifier: its `$schema` is a URL, every walked member compiles, and its
/// keywords compile.
pub open spec fn document_ok(
    doc: Json,
    url: Seq<char>,
    keywords: Seq<KeywordConsumer>,
    ban: bool,
) -> bool {
    match doc {
        Json::Bool(_) => true,
        Json::Object(entries) => (doc.spec_get("$schema"@) matches Some(Json::Str(t)) ==> parsed_url(
            t@,
        ) is Some) && (forall|i: int|
            0 <= i < entries@.len() ==> walked_member(""@, (#[trigger] entries@[i]).0@, entries@[i].1)
                ==> subtree_ok(
                entries@[i].1,
                url,
                entries@[i].0@,
                keywords,
                ban,
                !non_schema_key(entries@[i].0@),
            )) && keywords_ok(doc, url, keywords, ban),
        _ => false,
    }
}

/// Whether `doc` compiles under the identifier it gets: `external_id` when
/// given, else its `$id` (which must be a URL), else any identifier at all.
pub open spec fn document_compiles(
    doc: Json,
    external_id: Option<String>,
    keywords: Seq<KeywordConsumer>,
    ban: bool,
) -> bool {
    match external_id {
        Some(e) => document_ok(doc, e@, keywords, ban),
        None => match doc.spec_get("$id"@) {
            Some(Json::Str(t)) => match parsed_url(t@) {
                Some(u) => document_ok(doc, u, keywords, ban),
                None => false,
            },
            _ => forall|u: Seq<char>| #[trigger] document_ok(doc, u, keywords, ban),
        },
    }
}

/// Compiles a standalone document.
pub fn compile(source: Json, external_id: Option<String>, settings: CompilationSettings) -> (r: Result<
    Schema,
    SchemaError,
>)
    ensures
        !(source is Object) && !(source is Bool) ==> r matches Err(SchemaError::NotAnObject),
        r matches Ok(s) ==> s.id is Some,
        r matches Ok(s) ==> (external_id is Some ==> s.id == external_id),
        document_compiles(source, external_id, settings.keywords@, settings.ban_unknown_keywords)
            ==> r is Ok,
        document_refused_under(source, external_id, settings.keywords@, settings.ban_unknown_keywords)
            ==> r matches Err(SchemaError::UnknownKey(_)),
        source is Bool ==> r is Ok,
        external_id is None ==> (source.spec_get("$id"@) matches Some(Json::Str(t)) ==> (r matches Ok(
            s,
        ) ==> (s.id matches Some(i) && Some(i@) == parsed_url(t@)))),
        r matches Ok(s) ==> (source is Object ==> json_copy(source, s.source)),
        r matches Ok(s) ==> (source matches Json::Bool(b) ==> s.source == Json::Bool(b)
            && s.scopes@.len() == 0 && boolean_root(s, b)),
        r matches Ok(s) ==> (source matches Json::Object(entries) ==> (s.id matches Some(id)
            && members_compiled(
            s.tree@,
            entries@,
            ""@,
            entries@.len() as int,
            id@,
            Seq::empty(),
            settings.keywords@,
        ) && s.validators@.len() == compilers_used(settings.keywords@, source).len()
            && forall|i: int|
            0 <= i < s.validators@.len() ==> compiled_as(
                compilers_used(settings.keywords@, source)[i],
                source,
                id@,
                Seq::empty(),
                #[trigger] s.validators@[i],
            ))),
        r matches Ok(s) ==> forall|t: int|
            0 <= t < s.tree@.len() ==> ids_recorded((#[trigger] s.tree@[t]).1, s.scopes@),
{
    Schema::compile(&source, external_id, &settings)
}

} // verus!
