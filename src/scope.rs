//! The registry of compiled schemas, reference resolution, and the
//! validation engine that walks a value through the compiled tree.
use vstd::prelude::*;

use crate::error::{ErrorKind, SchemaError, SimdjsonSchemaError, ValidationState};
use crate::external::{regex_compiles, regex_is_match};
use crate::helpers::{
    child_path, index_string, lemma_char_pos_from, schema_path, serialize_schema_path,
    split_fragment, url_fragment,
};
use crate::external::parsed_url;
use crate::schema::{
    boolean_root, compilers_used, document_compiles, document_ok, document_refused_under,
    ids_recorded, members_compiled,
};
use crate::keywords::compiled_as;
use crate::keywords::{copy_keywords, decouple_keyword, Keyword, KeywordConsumer};
use crate::schema::{
    assoc, find_entry, lemma_assoc_pos_from, resolve_id, resolve_pointer,
    CompilationSettings, Schema,
};
use crate::validators::{
    brief, brief_of, lemma_brief_of, site, Brief, error_with, Site, absorb, clone_strings, empty_state, is_leaf, join, leaf_errors, missing_only,
    no_outcome, outcome, push_error, push_missing, required_errors, state_reports, texts,
    validate_leaf, validate_required, AdditionalKind, DepKind, ItemsKind, Outcome, Validator,
};
use crate::external::{regex_matches, regex_valid};
use crate::helpers::decimal;
use crate::value::Json;

verus! {

/// How many references one validation may follow in a chain before it stops
/// and reports the next one as missing.
pub const MAX_DEPTH: u32 = 128;

/// The detail of an error about array items beyond those allowed.
pub const ADDITIONAL_ITEMS_REFUSED: &'static str = "Additional items are not allowed";

/// The detail of an error about an object member that is not allowed.
pub const ADDITIONAL_PROPERTIES_REFUSED: &'static str = "Additional properties are not allowed";

/// A registry of compiled root schemas, keyed by URL without fragment, and
/// the keyword compilers new schemas are compiled with.
pub struct Scope {
    keywords: Vec<KeywordConsumer>,
    schemes: Vec<(String, Schema)>,
}

/// No two entries share a key.
pub open spec fn keys_distinct(schemes: Seq<(String, Schema)>) -> bool {
    forall|i: int, j: int|
        0 <= i < schemes.len() && 0 <= j < schemes.len() && i != j ==> (#[trigger] schemes[i]).0@
            != (#[trigger] schemes[j]).0@
}

/// The first root, in registration order, that records `id` for a node
/// inside it, and that node.
pub open spec fn internal_lookup(schemes: Seq<(String, Schema)>, id: Seq<char>, i: int) -> Option<
    Schema,
>
    decreases schemes.len() - i,
{
    if i < 0 || i >= schemes.len() {
        None
    } else {
        match resolve_id(schemes[i].1, id) {
            Some(s) => Some(s),
            None => internal_lookup(schemes, id, i + 1),
        }
    }
}

/// The schema registered under `key`, or else the node some root records
/// under that identifier.
pub open spec fn lookup_key(schemes: Seq<(String, Schema)>, key: Seq<char>) -> Option<Schema> {
    match assoc(schemes, key) {
        Some(s) => Some(s),
        None => internal_lookup(schemes, key, 0),
    }
}

/// The schema a URL names in a registry: the document or anchor its key
/// names, followed along its JSON pointer if it has one.
pub open spec fn resolve_in(schemes: Seq<(String, Schema)>, url: Seq<char>) -> Option<Schema> {
    match lookup_key(schemes, schema_path(url).0) {
        Some(s) => match schema_path(url).1 {
            Some(f) => resolve_pointer(s, f),
            None => Some(s),
        },
        None => None,
    }
}

/// The pointer part of a URL, when it has one, starts with `/`.
pub proof fn lemma_pointer_starts_with_slash(url: Seq<char>)
    ensures
        schema_path(url).1 matches Some(f) ==> f.len() > 0 && f[0] == '/',
{
    let f = crate::helpers::url_fragment(url);
    if let Some(g) = f {
        lemma_char_pos_from(g, '/', 0);
    }
}

/// Whether a URL has no fragment, or an empty one.
pub open spec fn fragment_free(u: Seq<char>) -> bool {
    match url_fragment(u) {
        Some(f) => f.len() == 0,
        None => true,
    }
}

/// The identifier a document declares, where its `$id` is a URL.
pub open spec fn declared_id(doc: Json) -> Option<Seq<char>> {
    match doc.spec_get("$id"@) {
        Some(Json::Str(t)) => parsed_url(t@),
        _ => None,
    }
}

/// A schema of a scope, ready to validate values.
pub struct ScopedSchema<'a> {
    pub scope: &'a Scope,
    pub schema: &'a Schema,
}

impl Scope {
    /// At most one schema is registered under a key.
    pub closed spec fn wf(self) -> bool {
        keys_distinct(self.schemes@)
    }

    /// The registered root schemas with their keys.
    pub closed spec fn spec_schemes(self) -> Seq<(String, Schema)> {
        self.schemes@
    }

    /// The registered keyword compilers.
    pub closed spec fn spec_keywords(self) -> Seq<KeywordConsumer> {
        self.keywords@
    }

    /// An empty scope with the default keywords.
    pub fn new() -> (r: Scope)
        ensures
            r.spec_schemes().len() == 0,
            r.wf(),
            crate::keywords::registered_under_own_keys(r.spec_keywords()),
            crate::keywords::compilers_of(r.spec_keywords()) == crate::keywords::default_compilers(),
    {
        Scope { keywords: crate::keywords::default(), schemes: Vec::new() }
    }

    /// Registers `keyword` under `keys`, ahead of the compilers registered
    /// before it.
    pub fn add_keyword(&mut self, keys: Vec<String>, keyword: Keyword)
        ensures
            final(self).spec_keywords().len() == old(self).spec_keywords().len() + 1,
            final(self).spec_keywords()[0] == (KeywordConsumer { keys, keyword }),
            final(self).spec_schemes() == old(self).spec_schemes(),
            final(self).wf() == old(self).wf(),
    {
        let mut map = copy_keywords(&self.keywords);
        decouple_keyword(keys, keyword, &mut map);
        self.keywords = map;
    }

    /// The schema `url` names: by its key among the registered documents,
    /// else among the identifiers recorded inside them, then along its JSON
    /// pointer.
    pub fn resolve(&self, url: &str) -> (r: Option<ScopedSchema<'_>>)
        ensures
            r matches Some(ss) ==> resolve_in(self.spec_schemes(), url@) == Some(*ss.schema)
                && ss.scope == self,
            r is None ==> resolve_in(self.spec_schemes(), url@) is None,
    {
        let (key, fragment) = serialize_schema_path(url);
        let root: Option<&Schema> = match find_entry(&self.schemes, key.as_str()) {
            Some(p) => {
                proof {
                    lemma_assoc_pos_from(self.schemes@, key@, 0);
                }
                Some(&self.schemes[p].1)
            },
            None => self.resolve_internal(key.as_str()),
        };
        match root {
            Some(s) => match fragment {
                Some(f) => {
                    proof {
                        lemma_pointer_starts_with_slash(url@);
                    }
                    match s.resolve_fragment(f.as_str()) {
                        Some(x) => Some(ScopedSchema { scope: self, schema: x }),
                        None => None,
                    }
                },
                None => Some(ScopedSchema { scope: self, schema: s }),
            },
            None => None,
        }
    }

    fn resolve_internal(&self, id: &str) -> (r: Option<&Schema>)
        ensures
            r matches Some(x) ==> internal_lookup(self.schemes@, id@, 0) == Some(*x),
            r is None ==> internal_lookup(self.schemes@, id@, 0) is None,
    {
        let mut i: usize = 0;
        while i < self.schemes.len()
            invariant
                i <= self.schemes.len(),
                internal_lookup(self.schemes@, id@, 0) == internal_lookup(
                    self.schemes@,
                    id@,
                    i as int,
                ),
            decreases self.schemes.len() - i,
        {
            match self.schemes[i].1.resolve(id) {
                Some(x) => {
                    return Some(x);
                },
                None => {},
            }
            i = i + 1;
        }
        None
    }

    /// Registers `schema` under the key of `id`, which must carry no JSON
    /// pointer and must not be taken.
    fn add_and_return(&mut self, id: &str, schema: Schema) -> (r: Result<usize, SchemaError>)
        requires
            old(self).wf(),
        ensures
            final(self).wf(),
            !fragment_free(id@) ==> r matches Err(SchemaError::WrongId),
            fragment_free(id@) && assoc(old(self).spec_schemes(), schema_path(id@).0)
                is Some ==> r matches Err(SchemaError::IdConflicts),
            fragment_free(id@) && assoc(old(self).spec_schemes(), schema_path(id@).0)
                is None ==> r is Ok,
            r is Ok ==> fragment_free(id@) && schema_path(id@).1 is None,
            r is Err ==> final(self).spec_schemes() == old(self).spec_schemes(),
            r matches Ok(p) ==> final(self).spec_schemes() == old(self).spec_schemes().push(
                (final(self).spec_schemes()[p as int].0, schema),
            ) && p == old(self).spec_schemes().len() && final(self).spec_schemes()[p as int].0@
                == schema_path(id@).0,
            final(self).spec_keywords() == old(self).spec_keywords(),
    {
        let (key, _) = serialize_schema_path(id);
        let (_, raw) = split_fragment(id);
        match raw {
            Some(f) => if f.unicode_len() > 0 {
                return Err(SchemaError::WrongId);
            },
            None => {},
        }
        match find_entry(&self.schemes, key.as_str()) {
            Some(_) => Err(SchemaError::IdConflicts),
            None => {
                proof {
                    lemma_assoc_pos_from(self.schemes@, key@, 0);
                }
                let n = self.schemes.len();
                self.schemes.push((key, schema));
                Ok(n)
            },
        }
    }

    /// Compiles `def` and registers it under its identifier, returning it
    /// ready to validate. The identifier must have no fragment and must not
    /// be registered yet.
    pub fn compile_and_return(&mut self, def: Json, ban_unknown: bool) -> (r: Result<
        ScopedSchema<'_>,
        SchemaError,
    >)
        requires
            old(self).wf(),
        ensures
            final(self).wf(),
            r is Err ==> final(self).spec_schemes() == old(self).spec_schemes(),
            r matches Ok(ss) ==> *ss.scope == *final(self) && final(self).spec_schemes()
                == old(self).spec_schemes().push((final(self).spec_schemes().last().0, *ss.schema))
                && (ss.schema.id matches Some(id) && final(self).spec_schemes().last().0@
                == schema_path(id@).0 && schema_path(id@).1 is None && assoc(
                old(self).spec_schemes(),
                schema_path(id@).0,
            ) is None),
            final(self).spec_keywords() == old(self).spec_keywords(),
            r matches Ok(ss) ==> (def matches Json::Object(entries) ==> (ss.schema.id matches Some(id)
                && (ss.schema.validators@.len() == compilers_used(old(self).spec_keywords(), def).len()
                && forall|i: int|
                0 <= i < ss.schema.validators@.len() ==> compiled_as(
                    compilers_used(old(self).spec_keywords(), def)[i],
                    def,
                    id@,
                    Seq::empty(),
                    #[trigger] ss.schema.validators@[i],
                )))),
            declared_id(def) matches Some(u) ==> (document_ok(
                def,
                u,
                old(self).spec_keywords(),
                ban_unknown,
            ) ==> if !fragment_free(u) {
                r matches Err(SchemaError::WrongId)
            } else if assoc(old(self).spec_schemes(), schema_path(u).0) is Some {
                r matches Err(SchemaError::IdConflicts)
            } else {
                r is Ok
            }),
            !(def.spec_get("$id"@) matches Some(Json::Str(_))) && document_compiles(
                def,
                None,
                old(self).spec_keywords(),
                ban_unknown,
            ) ==> r is Ok || r matches Err(SchemaError::IdConflicts),
            def is Bool ==> r is Ok || r matches Err(SchemaError::IdConflicts),
            document_refused_under(def, None, old(self).spec_keywords(), ban_unknown) ==> r matches Err(
                SchemaError::UnknownKey(_),
            ),
            r matches Ok(ss) ==> (def matches Json::Bool(b) ==> boolean_root(*ss.schema, b)),
            r matches Ok(ss) ==> forall|t: int|
                0 <= t < ss.schema.tree@.len() ==> ids_recorded(
                    (#[trigger] ss.schema.tree@[t]).1,
                    ss.schema.scopes@,
                ),
            r matches Ok(ss) ==> (def matches Json::Object(entries) ==> (ss.schema.id matches Some(id)
                && members_compiled(
                ss.schema.tree@,
                entries@,
                ""@,
                entries@.len() as int,
                id@,
                Seq::empty(),
                old(self).spec_keywords(),
            ))),
    {
        let mut kws: Vec<KeywordConsumer> = Vec::new();
        std::mem::swap(&mut kws, &mut self.keywords);
        let settings = CompilationSettings { keywords: kws, ban_unknown_keywords: ban_unknown };
        let compiled = Schema::compile(&def, None, &settings);
        self.keywords = settings.keywords;
        let schema = match compiled {
            Ok(s) => s,
            Err(e) => {
                return Err(e);
            },
        };
        let id = match &schema.id {
            Some(i) => i.clone(),
            None => {
                return Err(SchemaError::WrongId);
            },
        };
        proof {
            if !(def.spec_get("$id"@) matches Some(Json::Str(_))) {
                lemma_char_pos_from(id@, '#', 0);
                assert(fragment_free(id@));
            }
        }
        let p = self.add_and_return(id.as_str(), schema)?;
        let this: &Scope = self;
        Ok(ScopedSchema { scope: this, schema: &this.schemes[p].1 })
    }
}

/// The path of a member below `path`.
pub open spec fn sub_path(path: Seq<char>, segment: Seq<char>) -> Seq<char> {
    path + seq!['/'] + segment
}

/// What checking `data` against the schema `url` names reports, with
/// `depth` more references allowed; `None` when the reference is not
/// followed (it does not resolve, or the depth bound is reached).
pub open spec fn spec_check(
    sc: Seq<(String, Schema)>,
    url: Seq<char>,
    data: Json,
    path: Seq<char>,
    depth: nat,
) -> Option<Outcome>
    decreases depth, 0nat, 0nat,
{
    match resolve_in(sc, url) {
        Some(s) => if depth == 0 {
            None
        } else {
            Some(spec_node(sc, s, data, path, (depth - 1) as nat))
        },
        None => None,
    }
}

/// What a reference reports: what its schema finds, or itself as missing.
pub open spec fn spec_ref(
    sc: Seq<(String, Schema)>,
    url: Seq<char>,
    data: Json,
    path: Seq<char>,
    depth: nat,
) -> Outcome
    decreases depth, 1nat, 0nat,
{
    match spec_check(sc, url, data, path, depth) {
        Some(o) => o,
        None => missing_only(url),
    }
}

/// What the validators of a schema node report, in order.
pub open spec fn spec_node(
    sc: Seq<(String, Schema)>,
    s: Schema,
    data: Json,
    path: Seq<char>,
    depth: nat,
) -> Outcome
    decreases depth, 6nat, 0nat,
{
    spec_validators(sc, s.validators@, data, path, depth)
}

pub open spec fn spec_validators(
    sc: Seq<(String, Schema)>,
    vs: Seq<Validator>,
    data: Json,
    path: Seq<char>,
    depth: nat,
) -> Outcome
    decreases depth, 5nat, vs.len(),
{
    if vs.len() == 0 {
        no_outcome()
    } else {
        join(
            spec_validators(sc, vs.drop_last(), data, path, depth),
            spec_with(sc, vs.last(), data, path, depth),
        )
    }
}

/// `allOf`: what all branches report, in order.
pub open spec fn spec_all_of(
    sc: Seq<(String, Schema)>,
    us: Seq<String>,
    data: Json,
    path: Seq<char>,
    depth: nat,
) -> Outcome
    decreases depth, 3nat, us.len(),
{
    if us.len() == 0 {
        no_outcome()
    } else {
        join(
            spec_all_of(sc, us.drop_last(), data, path, depth),
            spec_ref(sc, us.last()@, data, path, depth),
        )
    }
}

/// The branches `us` of `anyOf` or `oneOf`, every one of them tried: how
/// many passed, how many could be followed, and the missing references met.
pub open spec fn spec_branch_scan(
    sc: Seq<(String, Schema)>,
    us: Seq<String>,
    data: Json,
    path: Seq<char>,
    depth: nat,
) -> (nat, nat, Seq<Seq<char>>, Seq<Brief>)
    decreases depth, 3nat, us.len(),
{
    if us.len() == 0 {
        (0, 0, Seq::empty(), Seq::empty())
    } else {
        let prev = spec_branch_scan(sc, us.drop_last(), data, path, depth);
        match spec_check(sc, us.last()@, data, path, depth) {
            Some(o) => if o.0.len() == 0 {
                (prev.0 + 1, prev.1 + 1, prev.2 + o.1, prev.3)
            } else {
                (prev.0, prev.1 + 1, prev.2 + o.1, prev.3.push(brief(o)))
            },
            None => (prev.0, prev.1, prev.2.push(us.last()@), prev.3),
        }
    }
}

/// `contains` over the first `n` elements: how many passed, and the missing
/// references met.
pub open spec fn spec_contains_scan(
    sc: Seq<(String, Schema)>,
    u: Seq<char>,
    items: Seq<Json>,
    n: nat,
    path: Seq<char>,
    depth: nat,
) -> (nat, Seq<Seq<char>>)
    decreases depth, 3nat, n,
{
    if n == 0 {
        (0, Seq::empty())
    } else {
        let prev = spec_contains_scan(sc, u, items, (n - 1) as nat, path, depth);
        let o = spec_ref(sc, u, items[n - 1], sub_path(path, decimal((n - 1) as nat)), depth);
        (prev.0 + if o.0.len() == 0 {
            1nat
        } else {
            0nat
        }, prev.1 + o.1)
    }
}

/// One schema over the elements `from..to` of an array.
pub open spec fn spec_each(
    sc: Seq<(String, Schema)>,
    u: Seq<char>,
    items: Seq<Json>,
    from: int,
    to: int,
    path: Seq<char>,
    depth: nat,
) -> Outcome
    decreases depth, 3nat, to - from,
{
    if to <= from {
        no_outcome()
    } else {
        join(
            spec_each(sc, u, items, from, to - 1, path, depth),
            spec_ref(sc, u, items[to - 1], sub_path(path, decimal((to - 1) as nat)), depth),
        )
    }
}

/// The schemas `us` over the first `n` elements of an array, position by
/// position.
pub open spec fn spec_tuple(
    sc: Seq<(String, Schema)>,
    us: Seq<String>,
    items: Seq<Json>,
    n: nat,
    path: Seq<char>,
    depth: nat,
) -> Outcome
    decreases depth, 3nat, n,
{
    if n == 0 {
        no_outcome()
    } else {
        join(
            spec_tuple(sc, us, items, (n - 1) as nat, path, depth),
            spec_ref(sc, us[n - 1]@, items[n - 1], sub_path(path, decimal((n - 1) as nat)), depth),
        )
    }
}

/// `items` and `additionalItems` over an array.
pub open spec fn spec_items(
    sc: Seq<(String, Schema)>,
    items: Option<ItemsKind>,
    additional: Option<AdditionalKind>,
    arr: Seq<Json>,
    path: Seq<char>,
    depth: nat,
) -> Outcome
    decreases depth, 4nat, 0nat,
{
    match items {
        Some(ItemsKind::Schema(u)) => if resolve_in(sc, u@) is None {
            missing_only(u@)
        } else {
            spec_each(sc, u@, arr, 0, arr.len() as int, path, depth)
        },
        Some(ItemsKind::Array(us)) => {
            let n: nat = if us@.len() < arr.len() {
                us@.len()
            } else {
                arr.len()
            };
            let head = spec_tuple(sc, us@, arr, n, path, depth);
            if arr.len() > us@.len() {
                match additional {
                    Some(AdditionalKind::Boolean(false)) => join(
                        head,
                        error_with(ErrorKind::Items, path, ADDITIONAL_ITEMS_REFUSED@),
                    ),
                    Some(AdditionalKind::Schema(u)) => join(
                        head,
                        if resolve_in(sc, u@) is None {
                            missing_only(u@)
                        } else {
                            spec_each(sc, u@, arr, us@.len() as int, arr.len() as int, path, depth)
                        },
                    ),
                    _ => head,
                }
            } else {
                head
            }
        },
        None => no_outcome(),
    }
}

/// The pattern schemas of `patterns` whose pattern matches `key`, over the
/// member's value: whether one was followed, and what they report.
pub open spec fn spec_patterns(
    sc: Seq<(String, Schema)>,
    patterns: Seq<(String, String)>,
    key: Seq<char>,
    value: Json,
    path: Seq<char>,
    depth: nat,
) -> (bool, Outcome)
    decreases depth, 2nat, patterns.len(),
{
    if patterns.len() == 0 {
        (false, no_outcome())
    } else {
        let prev = spec_patterns(sc, patterns.drop_last(), key, value, path, depth);
        let p = patterns.last();
        if regex_valid(p.0@) && regex_matches(p.0@, key) {
            (
                prev.0 || spec_check(sc, p.1@, value, path, depth) is Some,
                join(prev.1, spec_ref(sc, p.1@, value, path, depth)),
            )
        } else {
            prev
        }
    }
}

/// `properties`, `patternProperties` and `additionalProperties` over one
/// member `(key, value)` of an object.
pub open spec fn spec_member(
    sc: Seq<(String, Schema)>,
    properties: Seq<(String, String)>,
    additional: AdditionalKind,
    patterns: Seq<(String, String)>,
    key: Seq<char>,
    value: Json,
    path: Seq<char>,
    depth: nat,
) -> Outcome
    decreases depth, 3nat, 0nat,
{
    let vp = sub_path(path, key);
    let named = match assoc(properties, key) {
        Some(u) => spec_ref(sc, u@, value, vp, depth),
        None => no_outcome(),
    };
    let pats = spec_patterns(sc, patterns, key, value, vp, depth);
    let matched = assoc(properties, key) is Some || pats.0;
    let rest = if matched {
        no_outcome()
    } else {
        match additional {
            AdditionalKind::Boolean(false) => error_with(
                ErrorKind::Properties,
                vp,
                ADDITIONAL_PROPERTIES_REFUSED@,
            ),
            AdditionalKind::Schema(u) => spec_ref(sc, u@, value, vp, depth),
            _ => no_outcome(),
        }
    };
    join(join(named, pats.1), rest)
}

/// The property keywords over the first `n` members of an object.
pub open spec fn spec_properties(
    sc: Seq<(String, Schema)>,
    properties: Seq<(String, String)>,
    additional: AdditionalKind,
    patterns: Seq<(String, String)>,
    entries: Seq<(String, Json)>,
    n: nat,
    path: Seq<char>,
    depth: nat,
) -> Outcome
    decreases depth, 4nat, n,
{
    if n == 0 {
        no_outcome()
    } else {
        join(
            spec_properties(sc, properties, additional, patterns, entries, (n - 1) as nat, path, depth),
            spec_member(
                sc,
                properties,
                additional,
                patterns,
                entries[n - 1].0@,
                entries[n - 1].1,
                path,
                depth,
            ),
        )
    }
}

/// `propertyNames` over the first `n` keys of an object.
pub open spec fn spec_names(
    sc: Seq<(String, Schema)>,
    u: Seq<char>,
    entries: Seq<(String, Json)>,
    n: nat,
    path: Seq<char>,
    depth: nat,
) -> Outcome
    decreases depth, 3nat, n,
{
    if n == 0 {
        no_outcome()
    } else {
        join(
            spec_names(sc, u, entries, (n - 1) as nat, path, depth),
            spec_ref(
                sc,
                u,
                Json::Str(entries[n - 1].0),
                sub_path(path, seq!['['] + entries[n - 1].0@ + seq![']']),
                depth,
            ),
        )
    }
}

/// `dependencies` over the first `n` entries, for the object `data`.
pub open spec fn spec_dependencies(
    sc: Seq<(String, Schema)>,
    deps: Seq<(String, DepKind)>,
    n: nat,
    data: Json,
    path: Seq<char>,
    depth: nat,
) -> Outcome
    decreases depth, 3nat, n,
{
    if n == 0 {
        no_outcome()
    } else {
        let prev = spec_dependencies(sc, deps, (n - 1) as nat, data, path, depth);
        let d = deps[n - 1];
        if data.spec_get(d.0@) is Some {
            join(
                prev,
                match d.1 {
                    DepKind::Schema(u) => spec_ref(sc, u@, data, path, depth),
                    DepKind::Property(keys) => (
                        required_errors(keys@, data, path),
                        Seq::<Seq<char>>::empty(),
                    ),
                },
            )
        } else {
            prev
        }
    }
}

/// What one validator reports about `data` at `path`.
pub open spec fn spec_with(
    sc: Seq<(String, Schema)>,
    v: Validator,
    data: Json,
    path: Seq<char>,
    depth: nat,
) -> Outcome
    decreases depth, 5nat, 0nat,
{
    match v {
        Validator::Ref(u) => spec_ref(sc, u@, data, path, depth),
        Validator::AllOf(us) => spec_all_of(sc, us@, data, path, depth),
        Validator::AnyOf(us) => {
            let scan = spec_branch_scan(sc, us@, data, path, depth);
            (
                if scan.0 == 0 && scan.1 > 0 {
                    seq![(ErrorKind::AnyOf, path, None, scan.3)]
                } else {
                    Seq::empty()
                },
                scan.2,
            )
        },
        Validator::OneOf(us) => {
            let scan = spec_branch_scan(sc, us@, data, path, depth);
            (
                if scan.0 != 1 {
                    seq![(ErrorKind::OneOf, path, None, scan.3)]
                } else {
                    Seq::empty()
                },
                scan.2,
            )
        },
        Validator::Not(u) => match spec_check(sc, u@, data, path, depth) {
            Some(o) => (
                if o.0.len() == 0 {
                    seq![site(ErrorKind::Not, path, None)]
                } else {
                    Seq::empty()
                },
                o.1,
            ),
            None => missing_only(u@),
        },
        Validator::Contains(u) => match data {
            Json::Array(items) => if resolve_in(sc, u@) is None {
                missing_only(u@)
            } else {
                let scan = spec_contains_scan(sc, u@, items@, items.len() as nat, path, depth);
                (
                    if scan.0 == 0 {
                        seq![site(ErrorKind::Contains, path, None)]
                    } else {
                        Seq::empty()
                    },
                    scan.1,
                )
            },
            _ => no_outcome(),
        },
        Validator::PropertyNames(u) => match data {
            Json::Object(entries) => if resolve_in(sc, u@) is None {
                missing_only(u@)
            } else {
                spec_names(sc, u@, entries@, entries.len() as nat, path, depth)
            },
            _ => no_outcome(),
        },
        Validator::Items { items, additional_items } => match data {
            Json::Array(arr) => spec_items(sc, items, additional_items, arr@, path, depth),
            _ => no_outcome(),
        },
        Validator::Properties { properties, additional, patterns } => match data {
            Json::Object(entries) => spec_properties(
                sc,
                properties@,
                additional,
                patterns@,
                entries@,
                entries.len() as nat,
                path,
                depth,
            ),
            _ => no_outcome(),
        },
        Validator::Dependencies(deps) => match data {
            Json::Object(_) => spec_dependencies(sc, deps@, deps.len() as nat, data, path, depth),
            _ => no_outcome(),
        },
        _ => (leaf_errors(v, data, path), Seq::empty()),
    }
}

/// Resolves `url` and checks `data` against the schema it names, with
/// `depth` more references allowed; `None` when the reference is not
/// followed.
fn check_ref(scope: &Scope, url: &str, data: &Json, path: &str, depth: u32) -> (r: Option<
    ValidationState,
>)
    ensures
        r is None <==> spec_check(scope.spec_schemes(), url@, *data, path@, depth as nat) is None,
        r matches Some(st) ==> spec_check(scope.spec_schemes(), url@, *data, path@, depth as nat)
            == Some(outcome(st)),
    decreases depth, 0nat,
{
    match scope.resolve(url) {
        Some(ss) => if depth == 0 {
            None
        } else {
            Some(validate_node(scope, ss.schema, data, path, depth - 1))
        },
        None => None,
    }
}

/// The state of checking `data` against the schema `url` names; the
/// reference itself is missing when it is not followed.
fn validate_ref(scope: &Scope, url: &str, data: &Json, path: &str, depth: u32) -> (r:
    ValidationState)
    ensures
        outcome(r) == spec_ref(scope.spec_schemes(), url@, *data, path@, depth as nat),
    decreases depth, 1nat,
{
    match check_ref(scope, url, data, path, depth) {
        Some(st) => st,
        None => {
            let mut st = empty_state();
            push_missing(&mut st, url.to_string());
            assert(join(no_outcome(), missing_only(url@)) =~= missing_only(url@));
            st
        },
    }
}

proof fn lemma_join_empty(o: Outcome)
    ensures
        join(no_outcome(), o) == o,
        join(o, no_outcome()) == o,
{
    assert(join(no_outcome(), o).0 =~= o.0);
    assert(join(no_outcome(), o).1 =~= o.1);
    assert(join(o, no_outcome()).0 =~= o.0);
    assert(join(o, no_outcome()).1 =~= o.1);
}

/// Checks `data` against every validator of `schema`, in order, and
/// gathers what they report.
fn validate_node(scope: &Scope, schema: &Schema, data: &Json, path: &str, depth: u32) -> (r:
    ValidationState)
    ensures
        outcome(r) == spec_node(scope.spec_schemes(), *schema, *data, path@, depth as nat),
    decreases depth, 6nat,
{
    let ghost sc = scope.spec_schemes();
    let ghost vs = schema.validators@;
    let mut state = empty_state();
    let mut i: usize = 0;
    while i < schema.validators.len()
        invariant
            i <= schema.validators.len(),
            vs == schema.validators@,
            sc == scope.spec_schemes(),
            outcome(state) == spec_validators(sc, vs.subrange(0, i as int), *data, path@, depth as nat),
        decreases schema.validators.len() - i,
    {
        let st = validate_with(scope, &schema.validators[i], data, path, depth);
        absorb(&mut state, st);
        proof {
            let next = vs.subrange(0, i + 1);
            assert(next.drop_last() =~= vs.subrange(0, i as int));
            assert(next.last() == vs[i as int]);
        }
        i = i + 1;
    }
    assert(vs.subrange(0, vs.len() as int) =~= vs);
    state
}

/// `allOf`: every branch, all that they report.
fn validate_all_of(scope: &Scope, urls: &Vec<String>, data: &Json, path: &str, depth: u32) -> (r:
    ValidationState)
    ensures
        outcome(r) == spec_all_of(scope.spec_schemes(), urls@, *data, path@, depth as nat),
    decreases depth, 3nat,
{
    let mut state = empty_state();
    let mut i: usize = 0;
    while i < urls.len()
        invariant
            i <= urls.len(),
            outcome(state) == spec_all_of(
                scope.spec_schemes(),
                urls@.subrange(0, i as int),
                *data,
                path@,
                depth as nat,
            ),
        decreases urls.len() - i,
    {
        absorb(&mut state, validate_ref(scope, urls[i].as_str(), data, path, depth));
        proof {
            let next = urls@.subrange(0, i + 1);
            assert(next.drop_last() =~= urls@.subrange(0, i as int));
            assert(next.last() == urls@[i as int]);
        }
        i = i + 1;
    }
    assert(urls@.subrange(0, urls@.len() as int) =~= urls@);
    state
}

/// Adds `st`'s missing references to `missing`.
fn gather_missing(missing: &mut Vec<String>, st: &ValidationState)
    ensures
        texts(final(missing)@) == texts(old(missing)@) + texts(st.missing@),
{
    let ghost a = missing@;
    let mut m = clone_strings(&st.missing);
    missing.append(&mut m);
    assert(texts(missing@) =~= texts(a) + texts(st.missing@));
}

fn push_text(missing: &mut Vec<String>, u: &str)
    ensures
        texts(final(missing)@) == texts(old(missing)@).push(u@),
{
    let ghost a = missing@;
    missing.push(u.to_string());
    assert(texts(missing@) =~= texts(a).push(u@));
}

/// A state of the given missing references and, when `fails`, one error of
/// family `kind` at `path` that carries the failed branches' states.
fn combined(
    missing: Vec<String>,
    fails: bool,
    kind: ErrorKind,
    path: &str,
    failed: Vec<ValidationState>,
) -> (r: ValidationState)
    ensures
        outcome(r) == (if fails {
            seq![(kind, path@, None, failed@.map_values(|st: ValidationState| brief_of(st)))]
        } else {
            Seq::<Site>::empty()
        }, texts(missing@)),
        fails ==> r.errors@.len() == 1 && r.errors@[0].states@ == failed@,
        failed@.len() == 0 ==> outcome(r) == (if fails {
            seq![site(kind, path@, None)]
        } else {
            Seq::<Site>::empty()
        }, texts(missing@)),
{
    assert(failed@.len() == 0 ==> failed@.map_values(|st: ValidationState| brief_of(st)) =~= Seq::<
        Brief,
    >::empty());
    let ghost f = failed@;
    let mut errors: Vec<SimdjsonSchemaError> = Vec::new();
    if fails {
        errors.push(
            SimdjsonSchemaError { kind, path: path.to_string(), detail: None, states: failed },
        );
    }
    let r = ValidationState { errors, missing };
    proof {
        if fails {
            assert(crate::validators::error_sites(r.errors@) =~= seq![
                (kind, path@, None, f.map_values(|st: ValidationState| brief_of(st))),
            ]);
        } else {
            assert(crate::validators::error_sites(r.errors@) =~= Seq::empty());
        }
    }
    r
}

/// Every branch of `anyOf` or `oneOf`: how many passed, how many could be
/// followed, the missing references met, and the states of the branches that
/// were followed and failed.
fn scan_branches(scope: &Scope, urls: &Vec<String>, data: &Json, path: &str, depth: u32) -> (r: (
    usize,
    usize,
    Vec<String>,
    Vec<ValidationState>,
))
    ensures
        (r.0 as nat, r.1 as nat, texts(r.2@), r.3@.map_values(|st: ValidationState| brief_of(st)))
            == spec_branch_scan(scope.spec_schemes(), urls@, *data, path@, depth as nat),
        r.0 <= r.1,
        r.3@.len() == r.1 - r.0,
    decreases depth, 2nat,
{
    let ghost sc = scope.spec_schemes();
    let mut missing: Vec<String> = Vec::new();
    let mut failed: Vec<ValidationState> = Vec::new();
    let mut passed: usize = 0;
    let mut followed: usize = 0;
    let mut i: usize = 0;
    while i < urls.len()
        invariant
            i <= urls.len(),
            sc == scope.spec_schemes(),
            passed <= followed <= i,
            failed@.len() == followed - passed,
            (
                passed as nat,
                followed as nat,
                texts(missing@),
                failed@.map_values(|st: ValidationState| brief_of(st)),
            ) == spec_branch_scan(sc, urls@.subrange(0, i as int), *data, path@, depth as nat),
        decreases urls.len() - i,
    {
        proof {
            let next = urls@.subrange(0, i + 1);
            assert(next.drop_last() =~= urls@.subrange(0, i as int));
            assert(next.last() == urls@[i as int]);
        }
        match check_ref(scope, urls[i].as_str(), data, path, depth) {
            Some(st) => {
                gather_missing(&mut missing, &st);
                followed = followed + 1;
                if st.is_valid() {
                    passed = passed + 1;
                } else {
                    let ghost before = failed@;
                    proof {
                        lemma_brief_of(st);
                    }
                    failed.push(st);
                    assert(failed@.map_values(|x: ValidationState| brief_of(x)) =~= before.map_values(
                        |x: ValidationState| brief_of(x),
                    ).push(brief_of(st)));
                }
            },
            None => {
                push_text(&mut missing, urls[i].as_str());
            },
        }
        i = i + 1;
    }
    assert(urls@.subrange(0, urls@.len() as int) =~= urls@);
    (passed, followed, missing, failed)
}

/// `anyOf`: every branch; it fails when some branch was followed and none
/// passed, and then carries the states of all the branches followed.
fn validate_any_of(scope: &Scope, urls: &Vec<String>, data: &Json, path: &str, depth: u32) -> (r:
    ValidationState)
    ensures
        outcome(r) == spec_with(
            scope.spec_schemes(),
            Validator::AnyOf(*urls),
            *data,
            path@,
            depth as nat,
        ),
        ({
            let scan = spec_branch_scan(scope.spec_schemes(), urls@, *data, path@, depth as nat);
            scan.0 == 0 && scan.1 > 0 ==> r.errors@.len() == 1 && r.errors@[0].states@.len() == scan.1
        }),
    decreases depth, 3nat,
{
    let (passed, followed, missing, failed) = scan_branches(scope, urls, data, path, depth);
    let fails = passed == 0 && followed > 0;
    combined(missing, fails, ErrorKind::AnyOf, path, failed)
}

/// `oneOf`: every branch; it fails unless exactly one passed, and then
/// carries the states of the branches that were followed and failed.
fn validate_one_of(scope: &Scope, urls: &Vec<String>, data: &Json, path: &str, depth: u32) -> (r:
    ValidationState)
    ensures
        outcome(r) == spec_with(
            scope.spec_schemes(),
            Validator::OneOf(*urls),
            *data,
            path@,
            depth as nat,
        ),
        ({
            let scan = spec_branch_scan(scope.spec_schemes(), urls@, *data, path@, depth as nat);
            scan.0 != 1 ==> r.errors@.len() == 1 && r.errors@[0].states@.len() == scan.1 - scan.0
        }),
    decreases depth, 3nat,
{
    let (passed, followed, missing, failed) = scan_branches(scope, urls, data, path, depth);
    let fails = passed != 1;
    combined(missing, fails, ErrorKind::OneOf, path, failed)
}

/// `not`: fails when its schema was followed and reported nothing.
fn validate_not(scope: &Scope, u: &str, data: &Json, path: &str, depth: u32) -> (r:
    ValidationState)
    ensures
        outcome(r) == match spec_check(scope.spec_schemes(), u@, *data, path@, depth as nat) {
            Some(o) => (
                if o.0.len() == 0 {
                    seq![site(ErrorKind::Not, path@, None)]
                } else {
                    Seq::empty()
                },
                o.1,
            ),
            None => missing_only(u@),
        },
    decreases depth, 3nat,
{
    match check_ref(scope, u, data, path, depth) {
        Some(st) => {
            let fails = st.is_valid();
            let missing = st.missing;
            let r = combined(missing, fails, ErrorKind::Not, path, Vec::new());
            r
        },
        None => {
            let mut st = empty_state();
            push_missing(&mut st, u.to_string());
            proof {
                lemma_join_empty(missing_only(u@));
            }
            st
        },
    }
}

/// `contains` over the elements of an array.
fn validate_contains(scope: &Scope, u: &str, items: &Vec<Json>, path: &str, depth: u32) -> (r:
    ValidationState)
    ensures
        resolve_in(scope.spec_schemes(), u@) is None ==> outcome(r) == missing_only(u@),
        resolve_in(scope.spec_schemes(), u@) is Some ==> ({
            let scan = spec_contains_scan(
                scope.spec_schemes(),
                u@,
                items@,
                items@.len() as nat,
                path@,
                depth as nat,
            );
            outcome(r) == (
                if scan.0 == 0 {
                    seq![site(ErrorKind::Contains, path@, None)]
                } else {
                    Seq::<Site>::empty()
                },
                scan.1,
            )
        }),
    decreases depth, 3nat,
{
    let ghost sc = scope.spec_schemes();
    if scope.resolve(u).is_none() {
        let mut st = empty_state();
        push_missing(&mut st, u.to_string());
        proof {
            lemma_join_empty(missing_only(u@));
        }
        return st;
    }
    let mut missing: Vec<String> = Vec::new();
    let mut passed: usize = 0;
    let mut i: usize = 0;
    while i < items.len()
        invariant
            i <= items.len(),
            sc == scope.spec_schemes(),
            passed <= i,
            (passed as nat, texts(missing@)) == spec_contains_scan(
                sc,
                u@,
                items@,
                i as nat,
                path@,
                depth as nat,
            ),
        decreases items.len() - i,
    {
        let item_path = child_path(path, index_string(i).as_str());
        let st = validate_ref(scope, u, &items[i], item_path.as_str(), depth);
        gather_missing(&mut missing, &st);
        if st.is_valid() {
            passed = passed + 1;
        }
        i = i + 1;
    }
    let fails = passed == 0;
    combined(missing, fails, ErrorKind::Contains, path, Vec::new())
}

/// `propertyNames` over the keys of an object, each checked as a string.
fn validate_property_names(
    scope: &Scope,
    u: &str,
    entries: &Vec<(String, Json)>,
    path: &str,
    depth: u32,
) -> (r: ValidationState)
    ensures
        resolve_in(scope.spec_schemes(), u@) is None ==> outcome(r) == missing_only(u@),
        resolve_in(scope.spec_schemes(), u@) is Some ==> outcome(r) == spec_names(
            scope.spec_schemes(),
            u@,
            entries@,
            entries@.len() as nat,
            path@,
            depth as nat,
        ),
    decreases depth, 3nat,
{
    let ghost sc = scope.spec_schemes();
    if scope.resolve(u).is_none() {
        let mut st = empty_state();
        push_missing(&mut st, u.to_string());
        proof {
            lemma_join_empty(missing_only(u@));
        }
        return st;
    }
    let mut state = empty_state();
    let mut i: usize = 0;
    while i < entries.len()
        invariant
            i <= entries.len(),
            sc == scope.spec_schemes(),
            outcome(state) == spec_names(sc, u@, entries@, i as nat, path@, depth as nat),
        decreases entries.len() - i,
    {
        proof {
            reveal_strlit("\u{5b}");
            reveal_strlit("\u{5d}");
        }
        let mut segment = "\u{5b}".to_string();
        segment.append(entries[i].0.as_str());
        segment.append("\u{5d}");
        assert(segment@ =~= seq!['['] + entries@[i as int].0@ + seq![']']);
        let key_path = child_path(path, segment.as_str());
        let key = Json::Str(entries[i].0.clone());
        absorb(&mut state, validate_ref(scope, u, &key, key_path.as_str(), depth));
        i = i + 1;
    }
    state
}

/// Checks `data` against one validator.
fn validate_with(scope: &Scope, v: &Validator, data: &Json, path: &str, depth: u32) -> (r:
    ValidationState)
    ensures
        outcome(r) == spec_with(scope.spec_schemes(), *v, *data, path@, depth as nat),
        is_leaf(*v) ==> state_reports(r, leaf_errors(*v, *data, path@)),
    decreases depth, 5nat,
{
    match v {
        Validator::Ref(u) => validate_ref(scope, u.as_str(), data, path, depth),
        Validator::AllOf(urls) => validate_all_of(scope, urls, data, path, depth),
        Validator::AnyOf(urls) => validate_any_of(scope, urls, data, path, depth),
        Validator::OneOf(urls) => validate_one_of(scope, urls, data, path, depth),
        Validator::Not(u) => validate_not(scope, u.as_str(), data, path, depth),
        Validator::Contains(u) => match data {
            Json::Array(items) => validate_contains(scope, u.as_str(), items, path, depth),
            _ => empty_state(),
        },
        Validator::PropertyNames(u) => match data {
            Json::Object(entries) => validate_property_names(scope, u.as_str(), entries, path, depth),
            _ => empty_state(),
        },
        Validator::Items { items, additional_items } => match data {
            Json::Array(arr) => validate_items(scope, items, additional_items, arr, path, depth),
            _ => empty_state(),
        },
        Validator::Properties { properties, additional, patterns } => match data {
            Json::Object(entries) => validate_properties(
                scope,
                properties,
                additional,
                patterns,
                entries,
                path,
                depth,
            ),
            _ => empty_state(),
        },
        Validator::Dependencies(deps) => match data {
            Json::Object(_) => validate_dependencies(scope, deps, data, path, depth),
            _ => empty_state(),
        },
        _ => {
            let r = validate_leaf(v, data, path);
            assert(texts(r.missing@) =~= Seq::empty());
            r
        },
    }
}

/// One schema over the elements `from..` of an array.
fn validate_each(scope: &Scope, u: &str, arr: &Vec<Json>, from: usize, path: &str, depth: u32) -> (r:
    ValidationState)
    requires
        from <= arr@.len(),
    ensures
        outcome(r) == spec_each(
            scope.spec_schemes(),
            u@,
            arr@,
            from as int,
            arr@.len() as int,
            path@,
            depth as nat,
        ),
    decreases depth, 3nat,
{
    let ghost sc = scope.spec_schemes();
    let mut state = empty_state();
    let mut j: usize = from;
    while j < arr.len()
        invariant
            from <= j <= arr.len(),
            sc == scope.spec_schemes(),
            outcome(state) == spec_each(sc, u@, arr@, from as int, j as int, path@, depth as nat),
        decreases arr.len() - j,
    {
        let item_path = child_path(path, index_string(j).as_str());
        absorb(&mut state, validate_ref(scope, u, &arr[j], item_path.as_str(), depth));
        j = j + 1;
    }
    state
}

/// `items` and `additionalItems` over the elements of an array.
fn validate_items(
    scope: &Scope,
    items: &Option<ItemsKind>,
    additional: &Option<AdditionalKind>,
    arr: &Vec<Json>,
    path: &str,
    depth: u32,
) -> (r: ValidationState)
    ensures
        outcome(r) == spec_items(scope.spec_schemes(), *items, *additional, arr@, path@, depth as nat),
    decreases depth, 4nat,
{
    let ghost sc = scope.spec_schemes();
    match items {
        Some(ItemsKind::Schema(u)) => {
            if scope.resolve(u.as_str()).is_none() {
                let mut st = empty_state();
                push_missing(&mut st, u.clone());
                proof {
                    lemma_join_empty(missing_only(u@));
                }
                return st;
            }
            validate_each(scope, u.as_str(), arr, 0, path, depth)
        },
        Some(ItemsKind::Array(urls)) => {
            let n: usize = if urls.len() < arr.len() {
                urls.len()
            } else {
                arr.len()
            };
            let mut state = empty_state();
            let mut i: usize = 0;
            while i < n
                invariant
                    i <= n,
                    n <= urls.len(),
                    n <= arr.len(),
                    sc == scope.spec_schemes(),
                    outcome(state) == spec_tuple(sc, urls@, arr@, i as nat, path@, depth as nat),
                decreases n - i,
            {
                let item_path = child_path(path, index_string(i).as_str());
                absorb(
                    &mut state,
                    validate_ref(scope, urls[i].as_str(), &arr[i], item_path.as_str(), depth),
                );
                i = i + 1;
            }
            if arr.len() > urls.len() {
                match additional {
                    Some(AdditionalKind::Boolean(false)) => {
                        push_error(
                            &mut state,
                            ErrorKind::Items,
                            path.to_string(),
                            Some(ADDITIONAL_ITEMS_REFUSED.to_string()),
                        );
                    },
                    Some(AdditionalKind::Schema(u)) => {
                        if scope.resolve(u.as_str()).is_none() {
                            push_missing(&mut state, u.clone());
                        } else {
                            let rest = validate_each(scope, u.as_str(), arr, urls.len(), path, depth);
                            absorb(&mut state, rest);
                        }
                    },
                    _ => {},
                }
            }
            state
        },
        None => empty_state(),
    }
}

/// The pattern schemas whose pattern matches `key`, over a member's value.
fn validate_patterns(
    scope: &Scope,
    patterns: &Vec<(String, String)>,
    key: &str,
    value: &Json,
    path: &str,
    depth: u32,
) -> (r: (bool, ValidationState))
    ensures
        (r.0, outcome(r.1)) == spec_patterns(
            scope.spec_schemes(),
            patterns@,
            key@,
            *value,
            path@,
            depth as nat,
        ),
    decreases depth, 2nat,
{
    let ghost sc = scope.spec_schemes();
    let mut state = empty_state();
    let mut matched = false;
    let mut j: usize = 0;
    while j < patterns.len()
        invariant
            j <= patterns.len(),
            sc == scope.spec_schemes(),
            (matched, outcome(state)) == spec_patterns(
                sc,
                patterns@.subrange(0, j as int),
                key@,
                *value,
                path@,
                depth as nat,
            ),
        decreases patterns.len() - j,
    {
        proof {
            let next = patterns@.subrange(0, j + 1);
            assert(next.drop_last() =~= patterns@.subrange(0, j as int));
            assert(next.last() == patterns@[j as int]);
        }
        let ghost prev = spec_patterns(
            sc,
            patterns@.subrange(0, j as int),
            key@,
            *value,
            path@,
            depth as nat,
        );
        let ghost target = patterns@[j as int].1@;
        let pattern = patterns[j].0.as_str();
        if regex_compiles(pattern) && regex_is_match(pattern, key) {
            match check_ref(scope, patterns[j].1.as_str(), value, path, depth) {
                Some(st) => {
                    matched = true;
                    absorb(&mut state, st);
                    assert(spec_ref(sc, target, *value, path@, depth as nat) == outcome(st));
                },
                None => {
                    push_missing(&mut state, patterns[j].1.clone());
                    assert(spec_ref(sc, target, *value, path@, depth as nat) == missing_only(target));
                },
            }
        }
        j = j + 1;
    }
    assert(patterns@.subrange(0, patterns@.len() as int) =~= patterns@);
    (matched, state)
}

/// The property keywords over one member of an object.
fn validate_member(
    scope: &Scope,
    properties: &Vec<(String, String)>,
    additional: &AdditionalKind,
    patterns: &Vec<(String, String)>,
    key: &str,
    value: &Json,
    path: &str,
    depth: u32,
) -> (r: ValidationState)
    ensures
        outcome(r) == spec_member(
            scope.spec_schemes(),
            properties@,
            *additional,
            patterns@,
            key@,
            *value,
            path@,
            depth as nat,
        ),
    decreases depth, 3nat,
{
    let value_path = child_path(path, key);
    let mut state = empty_state();
    let mut named = false;
    match find_entry(properties, key) {
        Some(p) => {
            named = true;
            absorb(
                &mut state,
                validate_ref(scope, properties[p].1.as_str(), value, value_path.as_str(), depth),
            );
        },
        None => {},
    }
    proof {
        lemma_join_empty(outcome(state));
    }
    let (pattern_matched, pattern_state) = validate_patterns(
        scope,
        patterns,
        key,
        value,
        value_path.as_str(),
        depth,
    );
    absorb(&mut state, pattern_state);
    let ghost before_rest = outcome(state);
    if !named && !pattern_matched {
        match additional {
            AdditionalKind::Boolean(false) => {
                push_error(
                    &mut state,
                    ErrorKind::Properties,
                    value_path,
                    Some(ADDITIONAL_PROPERTIES_REFUSED.to_string()),
                );
            },
            AdditionalKind::Schema(u) => {
                absorb(
                    &mut state,
                    validate_ref(scope, u.as_str(), value, value_path.as_str(), depth),
                );
            },
            _ => {
                proof {
                    lemma_join_empty(before_rest);
                }
            },
        }
    } else {
        proof {
            lemma_join_empty(before_rest);
        }
    }
    state
}

/// `properties`, `patternProperties` and `additionalProperties` over the
/// members of an object.
fn validate_properties(
    scope: &Scope,
    properties: &Vec<(String, String)>,
    additional: &AdditionalKind,
    patterns: &Vec<(String, String)>,
    entries: &Vec<(String, Json)>,
    path: &str,
    depth: u32,
) -> (r: ValidationState)
    ensures
        outcome(r) == spec_properties(
            scope.spec_schemes(),
            properties@,
            *additional,
            patterns@,
            entries@,
            entries@.len() as nat,
            path@,
            depth as nat,
        ),
    decreases depth, 4nat,
{
    let ghost sc = scope.spec_schemes();
    let mut state = empty_state();
    let mut i: usize = 0;
    while i < entries.len()
        invariant
            i <= entries.len(),
            sc == scope.spec_schemes(),
            outcome(state) == spec_properties(
                sc,
                properties@,
                *additional,
                patterns@,
                entries@,
                i as nat,
                path@,
                depth as nat,
            ),
        decreases entries.len() - i,
    {
        let st = validate_member(
            scope,
            properties,
            additional,
            patterns,
            entries[i].0.as_str(),
            &entries[i].1,
            path,
            depth,
        );
        absorb(&mut state, st);
        i = i + 1;
    }
    state
}

/// `dependencies` over an object.
fn validate_dependencies(
    scope: &Scope,
    deps: &Vec<(String, DepKind)>,
    object: &Json,
    path: &str,
    depth: u32,
) -> (r: ValidationState)
    requires
        object is Object,
    ensures
        outcome(r) == spec_dependencies(
            scope.spec_schemes(),
            deps@,
            deps@.len() as nat,
            *object,
            path@,
            depth as nat,
        ),
    decreases depth, 3nat,
{
    let ghost sc = scope.spec_schemes();
    let mut state = empty_state();
    let mut i: usize = 0;
    while i < deps.len()
        invariant
            i <= deps.len(),
            sc == scope.spec_schemes(),
            outcome(state) == spec_dependencies(sc, deps@, i as nat, *object, path@, depth as nat),
        decreases deps.len() - i,
    {
        if object.get(deps[i].0.as_str()).is_some() {
            match &deps[i].1 {
                DepKind::Schema(u) => {
                    absorb(&mut state, validate_ref(scope, u.as_str(), object, path, depth));
                },
                DepKind::Property(keys) => {
                    let st = validate_required(keys, object, path);
                    assert(texts(st.missing@) =~= Seq::empty());
                    absorb(&mut state, st);
                },
            }
        }
        i = i + 1;
    }
    state
}

impl<'a> ScopedSchema<'a> {
    pub fn new(scope: &'a Scope, schema: &'a Schema) -> (r: ScopedSchema<'a>)
        ensures
            r.scope == scope,
            r.schema == schema,
    {
        ScopedSchema { scope, schema }
    }

    /// What checking `data` at `path` against this schema reports.
    pub open spec fn spec_validate(self, data: Json, path: Seq<char>) -> Outcome {
        spec_node(self.scope.spec_schemes(), *self.schema, data, path, MAX_DEPTH as nat)
    }

    /// Checks `data` against the schema, reporting paths from the root of
    /// `data`.
    pub fn validate(&self, data: &Json) -> (r: ValidationState)
        ensures
            outcome(r) == self.spec_validate(*data, Seq::empty()),
    {
        proof {
            reveal_strlit("");
        }
        assert(""@ =~= Seq::<char>::empty());
        validate_node(self.scope, self.schema, data, "", MAX_DEPTH)
    }

    /// Checks `data` against the schema, reporting paths below `path`.
    pub fn validate_in(&self, data: &Json, path: &str) -> (r: ValidationState)
        ensures
            outcome(r) == self.spec_validate(*data, path@),
    {
        validate_node(self.scope, self.schema, data, path, MAX_DEPTH)
    }
}

} // verus!
