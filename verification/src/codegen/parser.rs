//! Reading the schema collection of a document.
//!
//! The schemas whose names start with one of the given prefixes are
//! managed: they are read, strictly ([`shapes`]). Of the others only the
//! names are kept, and only of those that a managed schema refers to.

use vstd::prelude::*;
use crate::codegen::document::{
    distinct_keys,
    has_distinct_keys,
    has_key,
    key_text,
    strs_view,
    Node,
};
use crate::codegen::error::{CodegenError, Failure};
use crate::codegen::parser::shapes::{field, get_field, parse_schema, schema_of};
use crate::codegen::schemas::{put, SchemaMap};
use crate::codegen::{
    properties_view,
    ref_target,
    schemas_view,
    strip_schema_ref_prefix,
    texts_view,
    OpenApiSchema,
    Schema,
};
use crate::util::text::{starts_with, text_eq};

pub mod shapes;

verus! {

/// Whether a schema name is managed: it starts with one of the prefixes.
pub open spec fn is_managed(name: Seq<char>, prefixes: Seq<Seq<char>>) -> bool {
    exists|i: int| 0 <= i < prefixes.len() && (#[trigger] prefixes[i]).is_prefix_of(name)
}

/// Whether a schema holds, at any depth, a reference to the schema called
/// `name`.
pub open spec fn refers_to(s: Schema, name: Seq<char>) -> bool
    decreases s,
{
    match s {
        Schema::Ref { sref, .. } => ref_target(sref) == Some(name),
        Schema::AnyOf { any_of } => exists|i: int|
            0 <= i < any_of.len() && refers_to(#[trigger] any_of[i], name),
        Schema::Object { properties, .. } => exists|i: int|
            0 <= i < properties.len() && refers_to((#[trigger] properties[i]).1, name),
        Schema::ArrayList { items, .. } => refers_to(*items, name),
        Schema::ArrayTuple { prefix_items, .. } => exists|i: int|
            0 <= i < prefix_items.len() && refers_to(#[trigger] prefix_items[i], name),
        _ => false,
    }
}

/// Whether one of the schemas holds a reference to the schema called
/// `name`.
pub open spec fn referenced(m: Seq<(Seq<char>, Schema)>, name: Seq<char>) -> bool {
    exists|i: int| 0 <= i < m.len() && refers_to((#[trigger] m[i]).1, name)
}

/// The value of the field `key` of a mapping whose keys are distinct
/// strings.
pub open spec fn member(node: Node, key: Seq<char>) -> Option<Node> {
    match node {
        Node::Mapping(v) => if distinct_keys(v@) {
            field(v@, key)
        } else {
            None
        },
        _ => None,
    }
}

/// The schema collection of a document: the entries of the mapping
/// `schemas` in the mapping `components`.
pub open spec fn schema_entries(document: Node) -> Option<Seq<(Node, Node)>> {
    match member(document, "components"@) {
        Some(components) => match member(components, "schemas"@) {
            Some(Node::Mapping(entries)) => Some(entries@),
            _ => None,
        },
        None => None,
    }
}

/// The managed schemas among the entries of the schema collection, read
/// in the order of the document. Fails with the name of the first managed
/// entry that is no schema.
pub open spec fn managed_of(e: Seq<(Node, Node)>, prefixes: Seq<Seq<char>>) -> Result<
    Seq<(Seq<char>, Schema)>,
    Failure,
>
    decreases e.len(),
{
    if e.len() == 0 {
        Ok(Seq::empty())
    } else {
        match managed_of(e.drop_last(), prefixes) {
            Err(f) => Err(f),
            Ok(m) => {
                let name = key_text(e.last().0)->0;
                if is_managed(name, prefixes) {
                    match schema_of(e.last().1) {
                        Some(s) => Ok(put(m, name, s)),
                        None => Err(Failure::InvalidSchema(name)),
                    }
                } else {
                    Ok(m)
                }
            },
        }
    }
}

/// The unmanaged schemas among the entries of the schema collection: the
/// names that are not managed and that a managed schema refers to, in the
/// order of the document.
pub open spec fn unmanaged_of(
    e: Seq<(Node, Node)>,
    prefixes: Seq<Seq<char>>,
    managed: Seq<(Seq<char>, Schema)>,
) -> Seq<Seq<char>>
    decreases e.len(),
{
    if e.len() == 0 {
        Seq::empty()
    } else {
        let name = key_text(e.last().0)->0;
        if !is_managed(name, prefixes) && referenced(managed, name) {
            unmanaged_of(e.drop_last(), prefixes, managed).push(name)
        } else {
            unmanaged_of(e.drop_last(), prefixes, managed)
        }
    }
}

/// What a document holds: the managed schemas by name, and the names of
/// the unmanaged schemas that they refer to.
///
/// Fails if the document has no schema collection, if the names in the
/// collection are not distinct strings, or if a managed entry is no schema.
pub open spec fn parsed(document: Node, prefixes: Seq<Seq<char>>) -> Result<
    (Seq<(Seq<char>, Schema)>, Seq<Seq<char>>),
    Failure,
> {
    match schema_entries(document) {
        None => Err(Failure::NoSchemas),
        Some(e) => if !distinct_keys(e) {
            Err(Failure::SchemaName)
        } else {
            match managed_of(e, prefixes) {
                Err(f) => Err(f),
                Ok(m) => Ok((m, unmanaged_of(e, prefixes, m))),
            }
        },
    }
}

/// A failure among the first entries is the failure of all.
pub proof fn lemma_managed_of_fails(e: Seq<(Node, Node)>, prefixes: Seq<Seq<char>>, k: int)
    requires
        0 <= k <= e.len(),
        managed_of(e.take(k), prefixes) is Err,
    ensures
        managed_of(e, prefixes) == managed_of(e.take(k), prefixes),
    decreases e.len(),
{
    if k == e.len() {
        assert(e.take(k) =~= e);
    } else {
        assert(e.drop_last().take(k) =~= e.take(k));
        lemma_managed_of_fails(e.drop_last(), prefixes, k);
    }
}

/// Which names [`unmanaged_of`] keeps: those of the entries that are not
/// managed and that a managed schema refers to, and no others.
pub proof fn lemma_unmanaged_of(
    e: Seq<(Node, Node)>,
    prefixes: Seq<Seq<char>>,
    managed: Seq<(Seq<char>, Schema)>,
    name: Seq<char>,
)
    requires
        distinct_keys(e),
    ensures
        unmanaged_of(e, prefixes, managed).contains(name) <==> has_key(e, name) && !is_managed(
            name,
            prefixes,
        ) && referenced(managed, name),
    decreases e.len(),
{
    if e.len() > 0 {
        let init = e.drop_last();
        let last = key_text(e.last().0)->0;
        assert(distinct_keys(init)) by {
            assert forall|i: int| 0 <= i < init.len() implies key_text(
                #[trigger] init[i].0,
            ) is Some by {
                assert(init[i] == e[i]);
            }
            assert forall|i: int, j: int| 0 <= i < j < init.len() implies key_text(
                #[trigger] init[i].0,
            ) != key_text(#[trigger] init[j].0) by {
                assert(init[i] == e[i] && init[j] == e[j]);
            }
        }
        lemma_unmanaged_of(init, prefixes, managed, name);
        let rest = unmanaged_of(init, prefixes, managed);
        assert(key_text(e[e.len() - 1].0) == Some(last));
        assert(has_key(e, name) <==> has_key(init, name) || name == last) by {
            if has_key(init, name) {
                let i = choose|i: int| 0 <= i < init.len() && key_text(#[trigger] init[i].0) == Some(name);
                assert(key_text(e[i].0) == Some(name));
            }
            if has_key(e, name) {
                let i = choose|i: int| 0 <= i < e.len() && key_text(#[trigger] e[i].0) == Some(name);
                if i < init.len() {
                    assert(key_text(init[i].0) == Some(name));
                }
            }
        }
        if !is_managed(last, prefixes) && referenced(managed, last) {
            assert(rest.push(last).contains(name) <==> rest.contains(name) || name == last) by {
                if rest.contains(name) {
                    let i = choose|i: int| 0 <= i < rest.len() && rest[i] == name;
                    assert(rest.push(last)[i] == name);
                }
                if name == last {
                    assert(rest.push(last)[rest.len() as int] == name);
                }
            }
        }
    } else {
        assert(!unmanaged_of(e, prefixes, managed).contains(name));
    }
}

/// Every unmanaged schema of a parsed document is referred to by a managed
/// one, and every schema of the collection that is not managed and is
/// referred to by a managed one is among the unmanaged: no name that is
/// neither managed nor referred to is kept.
pub proof fn lemma_unmanaged_are_referenced(
    document: Node,
    prefixes: Seq<Seq<char>>,
    name: Seq<char>,
)
    requires
        parsed(document, prefixes) is Ok,
    ensures
        ({
            let (managed, unmanaged) = parsed(document, prefixes)->Ok_0;
            unmanaged.contains(name) <==> has_key(schema_entries(document)->0, name)
                && !is_managed(name, prefixes) && referenced(managed, name)
        }),
{
    let e = schema_entries(document)->0;
    let managed = managed_of(e, prefixes)->Ok_0;
    lemma_unmanaged_of(e, prefixes, managed, name);
}

/// The parsed document.
#[derive(Debug)]
pub struct Spec {
    /// Every schema of the collection whose name starts with one of the
    /// prefixes.
    pub managed_schemas: SchemaMap,
    /// The names of the other schemas of the collection that a managed
    /// schema refers to.
    pub unmanaged_schemas: Vec<String>,
}

/// Whether `name` starts with one of `prefixes`.
fn has_prefix(name: &str, prefixes: &Vec<&str>) -> (r: bool)
    ensures
        r == is_managed(name@, strs_view(prefixes@)),
{
    let mut i: usize = 0;
    while i < prefixes.len()
        invariant
            0 <= i <= prefixes.len(),
            forall|j: int|
                0 <= j < i ==> !(#[trigger] strs_view(prefixes@)[j]).is_prefix_of(name@),
        decreases prefixes.len() - i,
    {
        if starts_with(name, prefixes[i]) {
            assert(strs_view(prefixes@)[i as int].is_prefix_of(name@));
            return true;
        }
        i = i + 1;
    }
    false
}

/// Whether one of the schemas of a list refers to the schema called `name`.
fn any_mentions(items: &Vec<OpenApiSchema>, name: &str) -> (r: bool)
    ensures
        r == exists|i: int|
            0 <= i < items@.len() && refers_to(#[trigger] schemas_view(*items)[i], name@),
    decreases items, 0nat,
{
    let mut i: usize = 0;
    while i < items.len()
        invariant
            0 <= i <= items.len(),
            forall|j: int| 0 <= j < i ==> !refers_to(#[trigger] schemas_view(*items)[j], name@),
        decreases items.len() - i,
    {
        if mentions(&items[i], name) {
            assert(refers_to(schemas_view(*items)[i as int], name@));
            return true;
        }
        i = i + 1;
    }
    false
}

/// Whether the schema of a property refers to the schema called `name`.
fn properties_mention(properties: &Vec<(String, OpenApiSchema)>, name: &str) -> (r: bool)
    ensures
        r == exists|i: int|
            0 <= i < properties@.len() && refers_to(
                (#[trigger] properties_view(*properties)[i]).1,
                name@,
            ),
    decreases properties, 0nat,
{
    let mut i: usize = 0;
    while i < properties.len()
        invariant
            0 <= i <= properties.len(),
            forall|j: int|
                0 <= j < i ==> !refers_to((#[trigger] properties_view(*properties)[j]).1, name@),
        decreases properties.len() - i,
    {
        if mentions(&properties[i].1, name) {
            assert(refers_to(properties_view(*properties)[i as int].1, name@));
            return true;
        }
        i = i + 1;
    }
    false
}

/// Whether a schema holds, at any depth, a reference to the schema called
/// `name`.
fn mentions(schema: &OpenApiSchema, name: &str) -> (r: bool)
    ensures
        r == refers_to(schema@, name@),
    decreases schema, 1nat,
{
    match schema {
        OpenApiSchema::Ref { sref, .. } => match strip_schema_ref_prefix(sref.as_str()) {
            Ok(target) => text_eq(target, name),
            Err(_) => false,
        },
        OpenApiSchema::AnyOf { any_of } => {
            assert(schema@->AnyOf_any_of == schemas_view(*any_of));
            any_mentions(any_of, name)
        },
        OpenApiSchema::Object { properties, .. } => {
            assert(schema@->Object_properties == properties_view(*properties));
            properties_mention(properties, name)
        },
        OpenApiSchema::ArrayList { items, .. } => mentions(items, name),
        OpenApiSchema::ArrayTuple { prefix_items, .. } => {
            assert(schema@->ArrayTuple_prefix_items == schemas_view(*prefix_items));
            any_mentions(prefix_items, name)
        },
        _ => false,
    }
}

/// Whether a schema of the collection refers to the schema called `name`.
fn is_referenced(schemas: &SchemaMap, name: &str) -> (r: bool)
    ensures
        r == referenced(schemas@, name@),
{
    let mut i: usize = 0;
    while i < schemas.len()
        invariant
            0 <= i <= schemas@.len(),
            forall|j: int| 0 <= j < i ==> !refers_to((#[trigger] schemas@[j]).1, name@),
        decreases schemas@.len() - i,
    {
        if mentions(schemas.schema_at(i), name) {
            assert(refers_to(schemas@[i as int].1, name@));
            return true;
        }
        i = i + 1;
    }
    false
}

/// The value of the field `key` of a mapping whose keys are distinct
/// strings.
fn get_member<'a>(node: &'a Node, key: &str) -> (r: Option<&'a Node>)
    ensures
        match member(*node, key@) {
            Some(n) => r matches Some(x) && *x == n,
            None => r is None,
        },
{
    match node {
        Node::Mapping(entries) => {
            if has_distinct_keys(entries) {
                get_field(entries, key)
            } else {
                None
            }
        },
        _ => None,
    }
}

/// Reads the managed schemas of a schema collection.
fn parse_managed(entries: &Vec<(Node, Node)>, prefixes: &Vec<&str>) -> (r: Result<
    SchemaMap,
    CodegenError,
>)
    requires
        distinct_keys(entries@),
    ensures
        match managed_of(entries@, strs_view(prefixes@)) {
            Ok(m) => r matches Ok(x) && x@ == m,
            Err(f) => r matches Err(e) && e@ == f,
        },
{
    let ghost e = entries@;
    let ghost p = strs_view(prefixes@);
    let mut managed = SchemaMap::new();
    let mut i: usize = 0;
    assert(e.take(0) =~= Seq::<(Node, Node)>::empty());
    while i < entries.len()
        invariant
            0 <= i <= entries.len(),
            e == entries@,
            p == strs_view(prefixes@),
            distinct_keys(e),
            managed_of(e.take(i as int), p) == Ok::<Seq<(Seq<char>, Schema)>, Failure>(managed@),
        decreases entries.len() - i,
    {
        proof {
            assert(e.take(i + 1).drop_last() =~= e.take(i as int));
            assert(e.take(i + 1).last() == e[i as int]);
            assert(key_text(e[i as int].0) is Some);
        }
        match &entries[i].0 {
            Node::Str(name) => {
                if has_prefix(name.as_str(), prefixes) {
                    match parse_schema(&entries[i].1) {
                        Some(schema) => {
                            let _ = managed.insert(name.clone(), schema);
                        },
                        None => {
                            proof {
                                lemma_managed_of_fails(e, p, i + 1);
                            }
                            return Err(CodegenError::InvalidSchema(name.clone()));
                        },
                    }
                }
            },
            _ => {},
        }
        i = i + 1;
    }
    assert(e.take(e.len() as int) =~= e);
    Ok(managed)
}

/// Collects the names of the unmanaged schemas that a managed schema
/// refers to.
fn collect_unmanaged(entries: &Vec<(Node, Node)>, prefixes: &Vec<&str>, managed: &SchemaMap) -> (r:
    Vec<String>)
    requires
        distinct_keys(entries@),
    ensures
        texts_view(r) == unmanaged_of(entries@, strs_view(prefixes@), managed@),
{
    let ghost e = entries@;
    let ghost p = strs_view(prefixes@);
    let mut out: Vec<String> = Vec::new();
    let mut i: usize = 0;
    assert(e.take(0) =~= Seq::<(Node, Node)>::empty());
    assert(texts_view(out) =~= Seq::<Seq<char>>::empty());
    while i < entries.len()
        invariant
            0 <= i <= entries.len(),
            e == entries@,
            p == strs_view(prefixes@),
            distinct_keys(e),
            texts_view(out) == unmanaged_of(e.take(i as int), p, managed@),
        decreases entries.len() - i,
    {
        let ghost before = texts_view(out);
        proof {
            assert(e.take(i + 1).drop_last() =~= e.take(i as int));
            assert(e.take(i + 1).last() == e[i as int]);
            assert(key_text(e[i as int].0) is Some);
        }
        match &entries[i].0 {
            Node::Str(name) => {
                if !has_prefix(name.as_str(), prefixes) && is_referenced(managed, name.as_str()) {
                    out.push(name.clone());
                    assert(texts_view(out) =~= before.push(name@));
                }
            },
            _ => {},
        }
        i = i + 1;
    }
    assert(e.take(e.len() as int) =~= e);
    out
}

/// Reads the schemas of a document.
///
/// The schema collection is the mapping `schemas` in the mapping
/// `components` of the document. An entry whose name starts with one of
/// `prefixes` is managed: it must be a schema and is read. Of the other
/// entries only the names are kept, and only of those that a managed schema
/// refers to.
pub fn parse(document: &Node, prefixes: &Vec<&str>) -> (r: Result<Spec, CodegenError>)
    ensures
        match parsed(*document, strs_view(prefixes@)) {
            Ok((managed, unmanaged)) => r matches Ok(spec) && spec.managed_schemas@ == managed
                && texts_view(spec.unmanaged_schemas) == unmanaged,
            Err(f) => r matches Err(e) && e@ == f,
        },
{
    let Some(components) = get_member(document, "components") else {
        return Err(CodegenError::NoSchemas);
    };
    let Some(Node::Mapping(entries)) = get_member(components, "schemas") else {
        return Err(CodegenError::NoSchemas);
    };
    if !has_distinct_keys(entries) {
        return Err(CodegenError::SchemaName);
    }
    let managed_schemas = parse_managed(entries, prefixes)?;
    let unmanaged_schemas = collect_unmanaged(entries, prefixes, &managed_schemas);
    Ok(Spec { managed_schemas, unmanaged_schemas })
}

} // verus!
