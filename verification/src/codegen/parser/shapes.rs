//! The ten shapes of a schema node.
//!
//! The document is taken as a whitelist. A node is a schema only if it has
//! one of the ten permitted shapes exactly: a mapping whose keys are
//! distinct strings, all of them fields of the shape, with every required
//! field present and every value of the type the field asks for.

use vstd::prelude::*;
use crate::codegen::document::{
    distinct_keys,
    find_key,
    has_distinct_keys,
    has_key,
    key_index,
    key_text,
    keys_among,
    lemma_key_index,
    only_keys,
    strs_view,
    Node,
};
use crate::codegen::{
    default_true,
    opt_text,
    properties_view,
    schemas_view,
    texts_view,
    OpenApiSchema,
    Schema,
};
use crate::util::text::text_eq;

verus! {

/// The value of the field `key`, if the entries have it.
pub open spec fn field(e: Seq<(Node, Node)>, key: Seq<char>) -> Option<Node> {
    if has_key(e, key) {
        Some(e[key_index(e, key)].1)
    } else {
        None
    }
}

/// An optional string field: nothing where the field is absent or null,
/// the string where it is a string. No result where it is anything else.
pub open spec fn opt_text_field(e: Seq<(Node, Node)>, key: Seq<char>) -> Option<Option<Seq<char>>> {
    match field(e, key) {
        None => Some(None),
        Some(Node::Null) => Some(None),
        Some(Node::Str(s)) => Some(Some(s@)),
        _ => None,
    }
}

/// A required string field. No result where the field is absent or no
/// string.
pub open spec fn text_field(e: Seq<(Node, Node)>, key: Seq<char>) -> Option<Seq<char>> {
    match field(e, key) {
        Some(Node::Str(s)) => Some(s@),
        _ => None,
    }
}

/// A boolean field with a default for where it is absent. No result where
/// it is no boolean.
pub open spec fn bool_field(e: Seq<(Node, Node)>, key: Seq<char>, default: bool) -> Option<bool> {
    match field(e, key) {
        None => Some(default),
        Some(Node::Bool(b)) => Some(b),
        _ => None,
    }
}

/// An optional width: nothing where the field is absent or null, the
/// number where it is an integer that fits 32 bits. No result otherwise.
pub open spec fn width_field(e: Seq<(Node, Node)>, key: Seq<char>) -> Option<Option<u32>> {
    match field(e, key) {
        None => Some(None),
        Some(Node::Null) => Some(None),
        Some(Node::Number(Some(w))) => if w <= u32::MAX {
            Some(Some(w as u32))
        } else {
            None
        },
        _ => None,
    }
}

/// Whether an optional marker is well formed: absent, null or `true`.
pub open spec fn marker_field(e: Seq<(Node, Node)>, key: Seq<char>) -> bool {
    match field(e, key) {
        None => true,
        Some(Node::Null) => true,
        Some(Node::Bool(b)) => b,
        _ => false,
    }
}

/// Whether the field `type` is the string `tag`.
pub open spec fn tagged(e: Seq<(Node, Node)>, tag: Seq<char>) -> bool {
    text_field(e, "type"@) == Some(tag)
}

/// The strings of a list of names. No result where a node is no string.
pub open spec fn names_of(items: Seq<Node>) -> Option<Seq<Seq<char>>> {
    if forall|i: int| 0 <= i < items.len() ==> #[trigger] items[i] is Str {
        Some(Seq::new(items.len(), |i: int| items[i]->Str_0@))
    } else {
        None
    }
}

/// The list of required names: empty where the field is absent. No result
/// where it is no sequence of strings.
pub open spec fn required_field(e: Seq<(Node, Node)>) -> Option<Seq<Seq<char>>> {
    match field(e, "required"@) {
        None => Some(Seq::empty()),
        Some(Node::Sequence(items)) => names_of(items@),
        _ => None,
    }
}

/// The fields of a union.
pub open spec fn any_of_keys() -> Seq<Seq<char>> {
    seq!["description"@, "anyOf"@]
}

/// The fields of an object.
pub open spec fn object_keys() -> Seq<Seq<char>> {
    seq!["description"@, "type"@, "properties"@, "required"@, "title"@]
}

/// The fields of a list.
pub open spec fn list_keys() -> Seq<Seq<char>> {
    seq!["description"@, "type"@, "items"@, "title"@]
}

/// The fields of a tuple.
pub open spec fn tuple_keys() -> Seq<Seq<char>> {
    seq![
        "description"@,
        "type"@,
        "additionalItems"@,
        "prefixItems"@,
        "x-turbopuffer-variant-name"@,
        "x-turbopuffer-variant-drop-on-conflict"@,
        "x-turbopuffer-flatten"@,
        "title"@,
    ]
}

/// The fields of a string and of a boolean.
pub open spec fn scalar_keys() -> Seq<Seq<char>> {
    seq!["description"@, "type"@, "title"@]
}

/// The fields of a number.
pub open spec fn number_keys() -> Seq<Seq<char>> {
    seq!["description"@, "type"@, "title"@, "x-turbopuffer-width"@]
}

/// The fields of a literal.
pub open spec fn const_keys() -> Seq<Seq<char>> {
    seq!["description"@, "const"@, "title"@]
}

/// The fields of a reference.
pub open spec fn ref_keys() -> Seq<Seq<char>> {
    seq!["$ref"@, "title"@]
}

/// The fields of an untyped value.
pub open spec fn any_keys() -> Seq<Seq<char>> {
    seq!["description"@, "x-stainless-any"@, "title"@]
}

/// Whether the entries hold nothing but the fields `allowed`, and a
/// description and a title that are strings where they are there.
pub open spec fn plain_fields(e: Seq<(Node, Node)>, allowed: Seq<Seq<char>>) -> bool {
    &&& keys_among(e, allowed)
    &&& opt_text_field(e, "description"@) is Some
    &&& opt_text_field(e, "title"@) is Some
}

/// The title among the entries.
pub open spec fn title_of(e: Seq<(Node, Node)>) -> Option<Seq<char>> {
    opt_text_field(e, "title"@)->0
}

/// A union: the fields `description` and `anyOf`, with the alternatives
/// `alts`.
pub open spec fn union_shape(e: Seq<(Node, Node)>, alts: Option<Seq<Schema>>) -> Option<Schema> {
    if keys_among(e, any_of_keys()) && opt_text_field(e, "description"@) is Some {
        match alts {
            Some(any_of) => Some(Schema::AnyOf { any_of }),
            None => None,
        }
    } else {
        None
    }
}

/// A reference: the fields `$ref`, a string, and `title`.
pub open spec fn reference_shape(e: Seq<(Node, Node)>) -> Option<Schema> {
    if keys_among(e, ref_keys()) && opt_text_field(e, "title"@) is Some && text_field(
        e,
        "$ref"@,
    ) is Some {
        Some(Schema::Ref { sref: text_field(e, "$ref"@)->0, title: title_of(e) })
    } else {
        None
    }
}

/// A literal: the field `const`, a string, beside the plain fields.
pub open spec fn literal_shape(e: Seq<(Node, Node)>) -> Option<Schema> {
    if plain_fields(e, const_keys()) && text_field(e, "const"@) is Some {
        Some(Schema::Const { sconst: text_field(e, "const"@)->0, title: title_of(e) })
    } else {
        None
    }
}

/// An object: the field `properties`, here read as `properties`, and the
/// optional list `required`, beside the plain fields.
pub open spec fn object_shape(
    e: Seq<(Node, Node)>,
    properties: Option<Seq<(Seq<char>, Schema)>>,
) -> Option<Schema> {
    if plain_fields(e, object_keys()) && required_field(e) is Some {
        match properties {
            Some(properties) => Some(
                Schema::Object { properties, required: required_field(e)->0, title: title_of(e) },
            ),
            None => None,
        }
    } else {
        None
    }
}

/// A list: the field `items`, here read as `items`, beside the plain
/// fields.
pub open spec fn list_shape(e: Seq<(Node, Node)>, items: Option<Schema>) -> Option<Schema> {
    if plain_fields(e, list_keys()) {
        match items {
            Some(items) => Some(Schema::ArrayList { items: Box::new(items), title: title_of(e) }),
            None => None,
        }
    } else {
        None
    }
}

/// A tuple: the field `prefixItems`, here read as `items`, and the
/// optional fields `additionalItems`, which is `true` where absent, the
/// variant name, and the two flags, which are `false` where absent,
/// beside the plain fields.
pub open spec fn tuple_shape(e: Seq<(Node, Node)>, items: Option<Seq<Schema>>) -> Option<Schema> {
    if plain_fields(e, tuple_keys()) && bool_field(e, "additionalItems"@, true) is Some
        && opt_text_field(e, "x-turbopuffer-variant-name"@) is Some && bool_field(
        e,
        "x-turbopuffer-variant-drop-on-conflict"@,
        false,
    ) is Some && bool_field(e, "x-turbopuffer-flatten"@, false) is Some {
        match items {
            Some(prefix_items) => Some(
                Schema::ArrayTuple {
                    additional_items: bool_field(e, "additionalItems"@, true)->0,
                    prefix_items,
                    variant_name: opt_text_field(e, "x-turbopuffer-variant-name"@)->0,
                    drop_on_conflict: bool_field(
                        e,
                        "x-turbopuffer-variant-drop-on-conflict"@,
                        false,
                    )->0,
                    flatten: bool_field(e, "x-turbopuffer-flatten"@, false)->0,
                    title: title_of(e),
                },
            ),
            None => None,
        }
    } else {
        None
    }
}

/// A string: the plain fields.
pub open spec fn string_shape(e: Seq<(Node, Node)>) -> Option<Schema> {
    if plain_fields(e, scalar_keys()) {
        Some(Schema::String { title: title_of(e) })
    } else {
        None
    }
}

/// A number: the optional width beside the plain fields.
pub open spec fn number_shape(e: Seq<(Node, Node)>) -> Option<Schema> {
    if plain_fields(e, number_keys()) && width_field(e, "x-turbopuffer-width"@) is Some {
        Some(
            Schema::Number { title: title_of(e), width: width_field(e, "x-turbopuffer-width"@)->0 },
        )
    } else {
        None
    }
}

/// A boolean: the plain fields.
pub open spec fn boolean_shape(e: Seq<(Node, Node)>) -> Option<Schema> {
    if plain_fields(e, scalar_keys()) {
        Some(Schema::Boolean { title: title_of(e) })
    } else {
        None
    }
}

/// An untyped value: the optional marker beside the plain fields.
pub open spec fn any_shape(e: Seq<(Node, Node)>) -> Option<Schema> {
    if plain_fields(e, any_keys()) && marker_field(e, "x-stainless-any"@) {
        Some(Schema::Any { title: title_of(e) })
    } else {
        None
    }
}

/// The schema that a node stands for, if it has one of the ten shapes.
///
/// The shapes exclude each other: a union has `anyOf`, a reference `$ref`,
/// a literal `const`; an object, a list, a tuple, a string, a number and a
/// boolean are told apart by `type`, a list from a tuple by `items` and
/// `prefixItems`; what has none of these is an untyped value.
pub open spec fn schema_of(node: Node) -> Option<Schema>
    decreases node, 1nat,
{
    match node {
        Node::Mapping(v) => {
            let e = v@;
            if !distinct_keys(e) {
                None
            } else if has_key(e, "anyOf"@) {
                union_shape(
                    e,
                    match e[key_index(e, "anyOf"@)].1 {
                        Node::Sequence(items) => schemas_of(items),
                        _ => None,
                    },
                )
            } else if has_key(e, "$ref"@) {
                reference_shape(e)
            } else if has_key(e, "const"@) {
                literal_shape(e)
            } else if tagged(e, "object"@) {
                if has_key(e, "properties"@) {
                    object_shape(
                        e,
                        match e[key_index(e, "properties"@)].1 {
                            Node::Mapping(props) => properties_of(props),
                            _ => None,
                        },
                    )
                } else {
                    None
                }
            } else if tagged(e, "array"@) && has_key(e, "items"@) {
                list_shape(e, schema_of(e[key_index(e, "items"@)].1))
            } else if tagged(e, "array"@) && has_key(e, "prefixItems"@) {
                tuple_shape(
                    e,
                    match e[key_index(e, "prefixItems"@)].1 {
                        Node::Sequence(items) => schemas_of(items),
                        _ => None,
                    },
                )
            } else if tagged(e, "string"@) {
                string_shape(e)
            } else if tagged(e, "number"@) {
                number_shape(e)
            } else if tagged(e, "boolean"@) {
                boolean_shape(e)
            } else if has_key(e, "type"@) {
                None
            } else {
                any_shape(e)
            }
        },
        _ => None,
    }
}

/// The schemas that the nodes of a list stand for, if all of them are
/// schemas.
pub open spec fn schemas_of(items: Vec<Node>) -> Option<Seq<Schema>>
    decreases items, 0nat,
{
    if forall|i: int| 0 <= i < items@.len() ==> schema_of(#[trigger] items@[i]) is Some {
        Some(
            Seq::new(
                items@.len(),
                |i: int|
                    if 0 <= i < items@.len() {
                        schema_of(items@[i])->0
                    } else {
                        Schema::Any { title: None }
                    },
            ),
        )
    } else {
        None
    }
}

/// The named schemas that the entries of a mapping stand for, if the keys
/// are distinct strings and all the values are schemas.
pub open spec fn properties_of(entries: Vec<(Node, Node)>) -> Option<Seq<(Seq<char>, Schema)>>
    decreases entries, 0nat,
{
    if distinct_keys(entries@) && forall|i: int|
        0 <= i < entries@.len() ==> schema_of((#[trigger] entries@[i]).1) is Some {
        Some(
            Seq::new(
                entries@.len(),
                |i: int|
                    if 0 <= i < entries@.len() {
                        (key_text(entries@[i].0)->0, schema_of(entries@[i].1)->0)
                    } else {
                        (Seq::empty(), Schema::Any { title: None })
                    },
            ),
        )
    } else {
        None
    }
}

/// The value of the field `key`, if the entries have it.
pub(crate) fn get_field<'a>(entries: &'a Vec<(Node, Node)>, key: &str) -> (r: Option<&'a Node>)
    requires
        distinct_keys(entries@),
    ensures
        match r {
            Some(n) => has_key(entries@, key@) && *n == entries@[key_index(entries@, key@)].1,
            None => !has_key(entries@, key@),
        },
{
    match find_key(entries, key) {
        Some(i) => {
            proof {
                lemma_key_index(entries@, key@, i as int);
            }
            Some(&entries[i].1)
        },
        None => None,
    }
}

/// Reads an optional string field.
fn get_opt_text(entries: &Vec<(Node, Node)>, key: &str) -> (r: Option<Option<String>>)
    requires
        distinct_keys(entries@),
    ensures
        match opt_text_field(entries@, key@) {
            Some(t) => r matches Some(s) && opt_text(s) == t,
            None => r is None,
        },
{
    match get_field(entries, key) {
        None => Some(None),
        Some(Node::Null) => Some(None),
        Some(Node::Str(s)) => Some(Some(s.clone())),
        Some(_) => None,
    }
}

/// Reads a required string field.
fn get_text(entries: &Vec<(Node, Node)>, key: &str) -> (r: Option<String>)
    requires
        distinct_keys(entries@),
    ensures
        match text_field(entries@, key@) {
            Some(t) => r matches Some(s) && s@ == t,
            None => r is None,
        },
{
    match get_field(entries, key) {
        Some(Node::Str(s)) => Some(s.clone()),
        _ => None,
    }
}

/// Reads a boolean field that has a default.
fn get_bool(entries: &Vec<(Node, Node)>, key: &str, default: bool) -> (r: Option<bool>)
    requires
        distinct_keys(entries@),
    ensures
        r == bool_field(entries@, key@, default),
{
    match get_field(entries, key) {
        None => Some(default),
        Some(Node::Bool(b)) => Some(*b),
        Some(_) => None,
    }
}

/// Reads an optional width.
fn get_width(entries: &Vec<(Node, Node)>, key: &str) -> (r: Option<Option<u32>>)
    requires
        distinct_keys(entries@),
    ensures
        r == width_field(entries@, key@),
{
    match get_field(entries, key) {
        None => Some(None),
        Some(Node::Null) => Some(None),
        Some(Node::Number(Some(w))) => {
            if *w <= 0xffff_ffff {
                Some(Some(*w as u32))
            } else {
                None
            }
        },
        Some(_) => None,
    }
}

/// Checks an optional marker.
fn get_marker(entries: &Vec<(Node, Node)>, key: &str) -> (r: bool)
    requires
        distinct_keys(entries@),
    ensures
        r == marker_field(entries@, key@),
{
    match get_field(entries, key) {
        None => true,
        Some(Node::Null) => true,
        Some(Node::Bool(b)) => *b,
        Some(_) => false,
    }
}

/// Whether the field `type` is the string `tag`.
fn has_tag(entries: &Vec<(Node, Node)>, tag: &str) -> (r: bool)
    requires
        distinct_keys(entries@),
    ensures
        r == tagged(entries@, tag@),
{
    match get_field(entries, "type") {
        Some(Node::Str(s)) => text_eq(s.as_str(), tag),
        _ => false,
    }
}

/// Reads a list of names.
fn get_names(items: &Vec<Node>) -> (r: Option<Vec<String>>)
    ensures
        match names_of(items@) {
            Some(t) => r matches Some(v) && texts_view(v) == t,
            None => r is None,
        },
{
    let mut out: Vec<String> = Vec::new();
    let mut i: usize = 0;
    while i < items.len()
        invariant
            0 <= i <= items.len(),
            out.len() == i,
            forall|j: int| 0 <= j < i ==> #[trigger] items@[j] is Str,
            forall|j: int| 0 <= j < i ==> (#[trigger] out@[j])@ == items@[j]->Str_0@,
        decreases items.len() - i,
    {
        match &items[i] {
            Node::Str(s) => {
                out.push(s.clone());
            },
            _ => {
                assert(!(items@[i as int] is Str));
                return None;
            },
        }
        i = i + 1;
    }
    assert(texts_view(out) =~= names_of(items@)->0);
    Some(out)
}

/// Reads the list of required names.
fn get_required(entries: &Vec<(Node, Node)>) -> (r: Option<Vec<String>>)
    requires
        distinct_keys(entries@),
    ensures
        match required_field(entries@) {
            Some(t) => r matches Some(v) && texts_view(v) == t,
            None => r is None,
        },
{
    match get_field(entries, "required") {
        None => {
            let v: Vec<String> = Vec::new();
            assert(texts_view(v) =~= Seq::<Seq<char>>::empty());
            Some(v)
        },
        Some(Node::Sequence(items)) => get_names(items),
        Some(_) => None,
    }
}

/// Whether the entries hold nothing but the fields `allowed`, and a
/// description and a title that are strings where they are there. Gives
/// the title.
fn get_plain(entries: &Vec<(Node, Node)>, allowed: &Vec<&str>) -> (r: Option<Option<String>>)
    requires
        distinct_keys(entries@),
    ensures
        match r {
            Some(t) => plain_fields(entries@, strs_view(allowed@)) && opt_text(t)
                == title_of(entries@),
            None => !plain_fields(entries@, strs_view(allowed@)),
        },
{
    if !only_keys(entries, allowed) {
        return None;
    }
    if get_opt_text(entries, "description").is_none() {
        return None;
    }
    get_opt_text(entries, "title")
}

/// A list of field names.
fn keys(names: &[&'static str]) -> (r: Vec<&'static str>)
    ensures
        strs_view(r@) == strs_view(names@),
{
    let mut out: Vec<&'static str> = Vec::new();
    let mut i: usize = 0;
    while i < names.len()
        invariant
            0 <= i <= names.len(),
            out.len() == i,
            forall|j: int| 0 <= j < i ==> #[trigger] out@[j] == names@[j],
        decreases names.len() - i,
    {
        out.push(names[i]);
        i = i + 1;
    }
    assert(strs_view(out@) =~= strs_view(names@));
    out
}

/// The models of an optional list of schemas.
pub open spec fn opt_schemas_view(items: Option<Vec<OpenApiSchema>>) -> Option<Seq<Schema>> {
    match items {
        Some(v) => Some(schemas_view(v)),
        None => None,
    }
}

/// Reads a union whose alternatives have been read.
fn parse_union(e: &Vec<(Node, Node)>, alts: Option<Vec<OpenApiSchema>>) -> (r: Option<
    OpenApiSchema,
>)
    requires
        distinct_keys(e@),
    ensures
        match union_shape(e@, opt_schemas_view(alts)) {
            Some(s) => r matches Some(x) && x@ == s,
            None => r is None,
        },
{
    let allowed = keys(&["description", "anyOf"]);
    assert(strs_view(allowed@) =~= any_of_keys());
    if !only_keys(e, &allowed) || get_opt_text(e, "description").is_none() {
        return None;
    }
    let any_of = alts?;
    Some(OpenApiSchema::AnyOf { any_of })
}

/// Reads a reference.
fn parse_reference(e: &Vec<(Node, Node)>) -> (r: Option<OpenApiSchema>)
    requires
        distinct_keys(e@),
    ensures
        match reference_shape(e@) {
            Some(s) => r matches Some(x) && x@ == s,
            None => r is None,
        },
{
    let allowed = keys(&["$ref", "title"]);
    assert(strs_view(allowed@) =~= ref_keys());
    if !only_keys(e, &allowed) {
        return None;
    }
    let title = get_opt_text(e, "title")?;
    let sref = get_text(e, "$ref")?;
    Some(OpenApiSchema::Ref { sref, title })
}

/// Reads a literal.
fn parse_literal(e: &Vec<(Node, Node)>) -> (r: Option<OpenApiSchema>)
    requires
        distinct_keys(e@),
    ensures
        match literal_shape(e@) {
            Some(s) => r matches Some(x) && x@ == s,
            None => r is None,
        },
{
    let allowed = keys(&["description", "const", "title"]);
    assert(strs_view(allowed@) =~= const_keys());
    let title = get_plain(e, &allowed)?;
    let sconst = get_text(e, "const")?;
    Some(OpenApiSchema::Const { sconst, title })
}

/// Reads an object whose properties have been read.
fn parse_object(e: &Vec<(Node, Node)>, properties: Option<Vec<(String, OpenApiSchema)>>) -> (r:
    Option<OpenApiSchema>)
    requires
        distinct_keys(e@),
    ensures
        match object_shape(
            e@,
            match properties {
                Some(v) => Some(properties_view(v)),
                None => None,
            },
        ) {
            Some(s) => r matches Some(x) && x@ == s,
            None => r is None,
        },
{
    let allowed = keys(&["description", "type", "properties", "required", "title"]);
    assert(strs_view(allowed@) =~= object_keys());
    let title = get_plain(e, &allowed)?;
    let required = get_required(e)?;
    let properties = properties?;
    Some(OpenApiSchema::Object { properties, required, title })
}

/// Reads a list whose item schema has been read.
fn parse_list(e: &Vec<(Node, Node)>, items: Option<OpenApiSchema>) -> (r: Option<OpenApiSchema>)
    requires
        distinct_keys(e@),
    ensures
        match list_shape(
            e@,
            match items {
                Some(s) => Some(s@),
                None => None,
            },
        ) {
            Some(s) => r matches Some(x) && x@ == s,
            None => r is None,
        },
{
    let allowed = keys(&["description", "type", "items", "title"]);
    assert(strs_view(allowed@) =~= list_keys());
    let title = get_plain(e, &allowed)?;
    let items = items?;
    Some(OpenApiSchema::ArrayList { items: Box::new(items), title })
}

/// Reads a tuple whose prefix items have been read.
fn parse_tuple(e: &Vec<(Node, Node)>, items: Option<Vec<OpenApiSchema>>) -> (r: Option<
    OpenApiSchema,
>)
    requires
        distinct_keys(e@),
    ensures
        match tuple_shape(e@, opt_schemas_view(items)) {
            Some(s) => r matches Some(x) && x@ == s,
            None => r is None,
        },
{
    let allowed = keys(
        &[
            "description",
            "type",
            "additionalItems",
            "prefixItems",
            "x-turbopuffer-variant-name",
            "x-turbopuffer-variant-drop-on-conflict",
            "x-turbopuffer-flatten",
            "title",
        ],
    );
    assert(strs_view(allowed@) =~= tuple_keys());
    let title = get_plain(e, &allowed)?;
    let additional_items = get_bool(e, "additionalItems", default_true())?;
    let x_turbopuffer_variant_name = get_opt_text(e, "x-turbopuffer-variant-name")?;
    let x_turbopuffer_variant_drop_on_conflict = get_bool(
        e,
        "x-turbopuffer-variant-drop-on-conflict",
        false,
    )?;
    let x_turbopuffer_flatten = get_bool(e, "x-turbopuffer-flatten", false)?;
    let prefix_items = items?;
    Some(
        OpenApiSchema::ArrayTuple {
            additional_items,
            prefix_items,
            x_turbopuffer_variant_name,
            x_turbopuffer_variant_drop_on_conflict,
            x_turbopuffer_flatten,
            title,
        },
    )
}

/// Reads a string.
fn parse_string(e: &Vec<(Node, Node)>) -> (r: Option<OpenApiSchema>)
    requires
        distinct_keys(e@),
    ensures
        match string_shape(e@) {
            Some(s) => r matches Some(x) && x@ == s,
            None => r is None,
        },
{
    let allowed = keys(&["description", "type", "title"]);
    assert(strs_view(allowed@) =~= scalar_keys());
    let title = get_plain(e, &allowed)?;
    Some(OpenApiSchema::String { title })
}

/// Reads a number.
fn parse_number(e: &Vec<(Node, Node)>) -> (r: Option<OpenApiSchema>)
    requires
        distinct_keys(e@),
    ensures
        match number_shape(e@) {
            Some(s) => r matches Some(x) && x@ == s,
            None => r is None,
        },
{
    let allowed = keys(&["description", "type", "title", "x-turbopuffer-width"]);
    assert(strs_view(allowed@) =~= number_keys());
    let title = get_plain(e, &allowed)?;
    let x_turbopuffer_width = get_width(e, "x-turbopuffer-width")?;
    Some(OpenApiSchema::Number { title, x_turbopuffer_width })
}

/// Reads a boolean.
fn parse_boolean(e: &Vec<(Node, Node)>) -> (r: Option<OpenApiSchema>)
    requires
        distinct_keys(e@),
    ensures
        match boolean_shape(e@) {
            Some(s) => r matches Some(x) && x@ == s,
            None => r is None,
        },
{
    let allowed = keys(&["description", "type", "title"]);
    assert(strs_view(allowed@) =~= scalar_keys());
    let title = get_plain(e, &allowed)?;
    Some(OpenApiSchema::Boolean { title })
}

/// Reads an untyped value.
fn parse_any(e: &Vec<(Node, Node)>) -> (r: Option<OpenApiSchema>)
    requires
        distinct_keys(e@),
    ensures
        match any_shape(e@) {
            Some(s) => r matches Some(x) && x@ == s,
            None => r is None,
        },
{
    let allowed = keys(&["description", "x-stainless-any", "title"]);
    assert(strs_view(allowed@) =~= any_keys());
    let title = get_plain(e, &allowed)?;
    if !get_marker(e, "x-stainless-any") {
        return None;
    }
    Some(OpenApiSchema::Any { title })
}

/// Reads the schema that a node stands for. Gives nothing if the node has
/// none of the ten shapes.
pub fn parse_schema(node: &Node) -> (r: Option<OpenApiSchema>)
    ensures
        match schema_of(*node) {
            Some(s) => r matches Some(x) && x@ == s,
            None => r is None,
        },
    decreases node, 1nat,
{
    let Node::Mapping(e) = node else {
        return None;
    };
    if !has_distinct_keys(e) {
        return None;
    }
    if let Some(alts) = get_field(e, "anyOf") {
        let alts = match alts {
            Node::Sequence(items) => parse_schemas(items),
            _ => None,
        };
        return parse_union(e, alts);
    }
    if get_field(e, "$ref").is_some() {
        return parse_reference(e);
    }
    if get_field(e, "const").is_some() {
        return parse_literal(e);
    }
    if has_tag(e, "object") {
        let Some(props) = get_field(e, "properties") else {
            return None;
        };
        let properties = match props {
            Node::Mapping(props) => parse_properties(props),
            _ => None,
        };
        return parse_object(e, properties);
    }
    if has_tag(e, "array") {
        if let Some(item) = get_field(e, "items") {
            let items = parse_schema(item);
            return parse_list(e, items);
        }
        if let Some(prefix) = get_field(e, "prefixItems") {
            let items = match prefix {
                Node::Sequence(items) => parse_schemas(items),
                _ => None,
            };
            return parse_tuple(e, items);
        }
    }
    if has_tag(e, "string") {
        return parse_string(e);
    }
    if has_tag(e, "number") {
        return parse_number(e);
    }
    if has_tag(e, "boolean") {
        return parse_boolean(e);
    }
    if get_field(e, "type").is_some() {
        return None;
    }
    parse_any(e)
}

/// Reads the schemas that the nodes of a list stand for. Gives nothing if
/// one of them is no schema.
pub fn parse_schemas(items: &Vec<Node>) -> (r: Option<Vec<OpenApiSchema>>)
    ensures
        match schemas_of(*items) {
            Some(s) => r matches Some(v) && schemas_view(v) == s,
            None => r is None,
        },
    decreases items, 0nat,
{
    let mut out: Vec<OpenApiSchema> = Vec::new();
    let mut i: usize = 0;
    while i < items.len()
        invariant
            0 <= i <= items.len(),
            out.len() == i,
            forall|j: int| 0 <= j < i ==> schema_of(#[trigger] items@[j]) is Some,
            forall|j: int| 0 <= j < i ==> (#[trigger] out@[j])@ == schema_of(items@[j])->0,
        decreases items.len() - i,
    {
        match parse_schema(&items[i]) {
            Some(s) => {
                out.push(s);
            },
            None => {
                assert(schema_of(items@[i as int]) is None);
                return None;
            },
        }
        i = i + 1;
    }
    assert(schemas_view(out) =~= schemas_of(*items)->0);
    Some(out)
}

/// Reads the named schemas that the entries of a mapping stand for. Gives
/// nothing if the keys are not distinct strings or a value is no schema.
pub fn parse_properties(entries: &Vec<(Node, Node)>) -> (r: Option<Vec<(String, OpenApiSchema)>>)
    ensures
        match properties_of(*entries) {
            Some(s) => r matches Some(v) && properties_view(v) == s,
            None => r is None,
        },
    decreases entries, 0nat,
{
    if !has_distinct_keys(entries) {
        return None;
    }
    let mut out: Vec<(String, OpenApiSchema)> = Vec::new();
    let mut i: usize = 0;
    while i < entries.len()
        invariant
            0 <= i <= entries.len(),
            out.len() == i,
            distinct_keys(entries@),
            forall|j: int| 0 <= j < i ==> schema_of((#[trigger] entries@[j]).1) is Some,
            forall|j: int|
                0 <= j < i ==> (#[trigger] out@[j]).0@ == key_text(entries@[j].0)->0 && out@[j].1@
                    == schema_of(entries@[j].1)->0,
        decreases entries.len() - i,
    {
        let Node::Str(name) = &entries[i].0 else {
            assert(key_text(entries@[i as int].0) is Some);
            return None;
        };
        match parse_schema(&entries[i].1) {
            Some(s) => {
                out.push((name.clone(), s));
            },
            None => {
                assert(schema_of(entries@[i as int].1) is None);
                return None;
            },
        }
        i = i + 1;
    }
    assert(properties_view(out) =~= properties_of(*entries)->0);
    Some(out)
}

} // verus!
