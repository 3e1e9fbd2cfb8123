//! The schema algebra: a closed union over the ten shapes a schema node may
//! take, and its mathematical model.

use vstd::prelude::*;
use vstd::string::StrSliceExecFns;
use crate::codegen::error::{CodegenError, Failure};
use crate::util::text::starts_with;

pub mod document;
pub mod error;
pub mod go;
pub mod java;
pub mod lift;
pub mod parser;
pub mod schemas;
pub mod shared;
pub mod yaml;

verus! {

/// The prefix every supported `$ref` carries in front of the schema name.
pub const SCHEMA_REF_PREFIX: &'static str = "#/components/schemas/";

/// The model of an optional string: its characters, if it is there.
pub open spec fn opt_text(s: Option<String>) -> Option<Seq<char>> {
    match s {
        Some(t) => Some(t@),
        None => None,
    }
}

/// The mathematical model of a schema: the value an [`OpenApiSchema`]
/// stands for, with strings as character sequences and lists as sequences.
pub enum Schema {
    AnyOf { any_of: Seq<Schema> },
    Object {
        properties: Seq<(Seq<char>, Schema)>,
        required: Seq<Seq<char>>,
        title: Option<Seq<char>>,
    },
    ArrayList { items: Box<Schema>, title: Option<Seq<char>> },
    ArrayTuple {
        additional_items: bool,
        prefix_items: Seq<Schema>,
        variant_name: Option<Seq<char>>,
        drop_on_conflict: bool,
        flatten: bool,
        title: Option<Seq<char>>,
    },
    String { title: Option<Seq<char>> },
    Number { title: Option<Seq<char>>, width: Option<u32> },
    Boolean { title: Option<Seq<char>> },
    Const { sconst: Seq<char>, title: Option<Seq<char>> },
    Ref { sref: Seq<char>, title: Option<Seq<char>> },
    Any { title: Option<Seq<char>> },
}

impl Schema {
    /// The title of the node. A union carries none.
    pub open spec fn title(self) -> Option<Seq<char>> {
        match self {
            Schema::AnyOf { .. } => None,
            Schema::Object { title, .. } => title,
            Schema::ArrayList { title, .. } => title,
            Schema::ArrayTuple { title, .. } => title,
            Schema::String { title } => title,
            Schema::Number { title, .. } => title,
            Schema::Boolean { title } => title,
            Schema::Const { title, .. } => title,
            Schema::Ref { title, .. } => title,
            Schema::Any { title } => title,
        }
    }

    /// The same node with its title replaced. A union is left as it is.
    pub open spec fn with_title(self, t: Option<Seq<char>>) -> Schema {
        match self {
            Schema::AnyOf { any_of } => Schema::AnyOf { any_of },
            Schema::Object { properties, required, title } => Schema::Object {
                properties,
                required,
                title: t,
            },
            Schema::ArrayList { items, title } => Schema::ArrayList { items, title: t },
            Schema::ArrayTuple {
                additional_items,
                prefix_items,
                variant_name,
                drop_on_conflict,
                flatten,
                title,
            } => Schema::ArrayTuple {
                additional_items,
                prefix_items,
                variant_name,
                drop_on_conflict,
                flatten,
                title: t,
            },
            Schema::String { title } => Schema::String { title: t },
            Schema::Number { title, width } => Schema::Number { title: t, width },
            Schema::Boolean { title } => Schema::Boolean { title: t },
            Schema::Const { sconst, title } => Schema::Const { sconst, title: t },
            Schema::Ref { sref, title } => Schema::Ref { sref, title: t },
            Schema::Any { title } => Schema::Any { title: t },
        }
    }
}

/// A schema node.
///
/// Each variant but `AnyOf` optionally carries a `title`, a name hint that
/// is used where no name can be derived from the structure.
#[derive(Debug)]
pub enum OpenApiSchema {
    /// A union of alternatives.
    AnyOf { any_of: Vec<OpenApiSchema> },
    /// A record. Only a record with exactly one property, which is
    /// required, can be rendered.
    Object {
        properties: Vec<(String, OpenApiSchema)>,
        required: Vec<String>,
        title: Option<String>,
    },
    /// A homogeneous sequence of any length.
    ArrayList { items: Box<OpenApiSchema>, title: Option<String> },
    /// A fixed-length heterogeneous sequence.
    ArrayTuple {
        /// Whether further items may follow the prefix items. Only `false`
        /// can be rendered.
        additional_items: bool,
        prefix_items: Vec<OpenApiSchema>,
        /// When used in a union, the name to use for the variant. If
        /// omitted, the name is derived from the single literal in the
        /// tuple.
        x_turbopuffer_variant_name: Option<String>,
        /// When used in a union, whether to drop the variant for targets
        /// that cannot tell it from another one.
        x_turbopuffer_variant_drop_on_conflict: bool,
        /// When nested in another tuple, whether the items are spliced into
        /// the field list of the enclosing tuple.
        x_turbopuffer_flatten: bool,
        title: Option<String>,
    },
    String { title: Option<String> },
    Number { title: Option<String>, x_turbopuffer_width: Option<u32> },
    Boolean { title: Option<String> },
    /// A single literal string. Valid only inside a union or a tuple.
    Const { sconst: String, title: Option<String> },
    /// A reference to another schema.
    Ref { sref: String, title: Option<String> },
    /// An untyped value.
    Any { title: Option<String> },
}

/// The models of a list of schemas.
pub open spec fn schemas_view(items: Vec<OpenApiSchema>) -> Seq<Schema>
    decreases items, 0nat,
{
    Seq::new(
        items@.len(),
        |i: int|
            if 0 <= i < items@.len() {
                schema_model(items@[i])
            } else {
                Schema::Any { title: None }
            },
    )
}

/// The models of a list of named schemas.
pub open spec fn properties_view(items: Vec<(String, OpenApiSchema)>) -> Seq<(Seq<char>, Schema)>
    decreases items, 0nat,
{
    Seq::new(
        items@.len(),
        |i: int|
            if 0 <= i < items@.len() {
                (items@[i].0@, schema_model(items@[i].1))
            } else {
                (Seq::empty(), Schema::Any { title: None })
            },
    )
}

/// The models of a list of strings.
pub open spec fn texts_view(items: Vec<String>) -> Seq<Seq<char>> {
    Seq::new(items@.len(), |i: int| items@[i]@)
}

/// The model of a schema node.
pub open spec fn schema_model(s: OpenApiSchema) -> Schema
    decreases s, 1nat,
{
    match s {
            OpenApiSchema::AnyOf { any_of } => Schema::AnyOf { any_of: schemas_view(any_of) },
            OpenApiSchema::Object { properties, required, title } => Schema::Object {
                properties: properties_view(properties),
                required: texts_view(required),
                title: opt_text(title),
            },
            OpenApiSchema::ArrayList { items, title } => Schema::ArrayList {
                items: Box::new(schema_model(*items)),
                title: opt_text(title),
            },
            OpenApiSchema::ArrayTuple {
                additional_items,
                prefix_items,
                x_turbopuffer_variant_name,
                x_turbopuffer_variant_drop_on_conflict,
                x_turbopuffer_flatten,
                title,
            } => Schema::ArrayTuple {
                additional_items,
                prefix_items: schemas_view(prefix_items),
                variant_name: opt_text(x_turbopuffer_variant_name),
                drop_on_conflict: x_turbopuffer_variant_drop_on_conflict,
                flatten: x_turbopuffer_flatten,
                title: opt_text(title),
            },
            OpenApiSchema::String { title } => Schema::String { title: opt_text(title) },
            OpenApiSchema::Number { title, x_turbopuffer_width } => Schema::Number {
                title: opt_text(title),
                width: x_turbopuffer_width,
            },
            OpenApiSchema::Boolean { title } => Schema::Boolean { title: opt_text(title) },
            OpenApiSchema::Const { sconst, title } => Schema::Const {
                sconst: sconst@,
                title: opt_text(title),
            },
            OpenApiSchema::Ref { sref, title } => Schema::Ref {
                sref: sref@,
                title: opt_text(title),
            },
        OpenApiSchema::Any { title } => Schema::Any { title: opt_text(title) },
    }
}

impl View for OpenApiSchema {
    type V = Schema;

    open spec fn view(&self) -> Schema {
        schema_model(*self)
    }
}

/// A copy of an optional string.
pub fn clone_opt_text(t: &Option<String>) -> (r: Option<String>)
    ensures
        opt_text(r) == opt_text(*t),
{
    match t {
        Some(s) => Some(s.clone()),
        None => None,
    }
}

/// A copy of a list of strings.
pub fn clone_texts(items: &Vec<String>) -> (r: Vec<String>)
    ensures
        texts_view(r) == texts_view(*items),
{
    let mut out: Vec<String> = Vec::new();
    let mut i: usize = 0;
    while i < items.len()
        invariant
            0 <= i <= items.len(),
            out.len() == i,
            forall|j: int| 0 <= j < i ==> out@[j]@ == items@[j]@,
        decreases items.len() - i,
    {
        out.push(items[i].clone());
        i = i + 1;
    }
    assert(texts_view(out) =~= texts_view(*items));
    out
}

/// A copy of a list of schemas.
pub fn clone_schemas(items: &Vec<OpenApiSchema>) -> (r: Vec<OpenApiSchema>)
    ensures
        schemas_view(r) == schemas_view(*items),
    decreases items, 0nat,
{
    let mut out: Vec<OpenApiSchema> = Vec::new();
    let mut i: usize = 0;
    while i < items.len()
        invariant
            0 <= i <= items.len(),
            out.len() == i,
            forall|j: int| 0 <= j < i ==> out@[j]@ == items@[j]@,
        decreases items.len() - i,
    {
        out.push(items[i].clone());
        i = i + 1;
    }
    assert(schemas_view(out) =~= schemas_view(*items));
    out
}

/// A copy of a list of named schemas.
pub fn clone_properties(items: &Vec<(String, OpenApiSchema)>) -> (r: Vec<(String, OpenApiSchema)>)
    ensures
        properties_view(r) == properties_view(*items),
    decreases items, 0nat,
{
    let mut out: Vec<(String, OpenApiSchema)> = Vec::new();
    let mut i: usize = 0;
    while i < items.len()
        invariant
            0 <= i <= items.len(),
            out.len() == i,
            forall|j: int| 0 <= j < i ==> out@[j].0@ == items@[j].0@ && out@[j].1@ == items@[j].1@,
        decreases items.len() - i,
    {
        out.push((items[i].0.clone(), items[i].1.clone()));
        i = i + 1;
    }
    assert(properties_view(out) =~= properties_view(*items));
    out
}

impl Clone for OpenApiSchema {
    /// A deep copy: the copy has the same model.
    fn clone(&self) -> (r: OpenApiSchema)
        ensures
            r@ == self@,
        decreases self, 1nat,
    {
        match self {
            OpenApiSchema::AnyOf { any_of } => OpenApiSchema::AnyOf { any_of: clone_schemas(any_of) },
            OpenApiSchema::Object { properties, required, title } => OpenApiSchema::Object {
                properties: clone_properties(properties),
                required: clone_texts(required),
                title: clone_opt_text(title),
            },
            OpenApiSchema::ArrayList { items, title } => OpenApiSchema::ArrayList {
                items: Box::new((**items).clone()),
                title: clone_opt_text(title),
            },
            OpenApiSchema::ArrayTuple {
                additional_items,
                prefix_items,
                x_turbopuffer_variant_name,
                x_turbopuffer_variant_drop_on_conflict,
                x_turbopuffer_flatten,
                title,
            } => OpenApiSchema::ArrayTuple {
                additional_items: *additional_items,
                prefix_items: clone_schemas(prefix_items),
                x_turbopuffer_variant_name: clone_opt_text(x_turbopuffer_variant_name),
                x_turbopuffer_variant_drop_on_conflict: *x_turbopuffer_variant_drop_on_conflict,
                x_turbopuffer_flatten: *x_turbopuffer_flatten,
                title: clone_opt_text(title),
            },
            OpenApiSchema::String { title } => OpenApiSchema::String { title: clone_opt_text(title) },
            OpenApiSchema::Number { title, x_turbopuffer_width } => OpenApiSchema::Number {
                title: clone_opt_text(title),
                x_turbopuffer_width: *x_turbopuffer_width,
            },
            OpenApiSchema::Boolean { title } => OpenApiSchema::Boolean {
                title: clone_opt_text(title),
            },
            OpenApiSchema::Const { sconst, title } => OpenApiSchema::Const {
                sconst: sconst.clone(),
                title: clone_opt_text(title),
            },
            OpenApiSchema::Ref { sref, title } => OpenApiSchema::Ref {
                sref: sref.clone(),
                title: clone_opt_text(title),
            },
            OpenApiSchema::Any { title } => OpenApiSchema::Any { title: clone_opt_text(title) },
        }
    }
}

impl OpenApiSchema {
    /// The title of the node, if it has one. A union has none.
    pub fn title(&self) -> (r: Option<&str>)
        ensures
            match r {
                Some(t) => self@.title() == Some(t@),
                None => self@.title() is None,
            },
    {
        match self {
            OpenApiSchema::AnyOf { .. } => None,
            OpenApiSchema::String { title, .. }
            | OpenApiSchema::Boolean { title, .. }
            | OpenApiSchema::Number { title, .. }
            | OpenApiSchema::Const { title, .. }
            | OpenApiSchema::Ref { title, .. }
            | OpenApiSchema::Any { title, .. }
            | OpenApiSchema::ArrayTuple { title, .. }
            | OpenApiSchema::Object { title, .. }
            | OpenApiSchema::ArrayList { title, .. } => match title {
                Some(t) => Some(t.as_str()),
                None => None,
            },
        }
    }

    /// The place of the title, for every node that can carry one. Whatever
    /// is stored there becomes the node's title; nothing else changes.
    pub fn title_mut(&mut self) -> (r: Option<&mut Option<String>>)
        ensures
            match r {
                Some(t) => {
                    &&& !(old(self)@ is AnyOf)
                    &&& opt_text(*t) == old(self)@.title()
                    &&& final(self)@ == old(self)@.with_title(opt_text(*final(t)))
                },
                None => old(self)@ is AnyOf && *final(self) == *old(self),
            },
    {
        match self {
            OpenApiSchema::AnyOf { .. } => None,
            OpenApiSchema::String { title, .. } => Some(title),
            OpenApiSchema::Boolean { title, .. } => Some(title),
            OpenApiSchema::Number { title, .. } => Some(title),
            OpenApiSchema::Const { title, .. } => Some(title),
            OpenApiSchema::Ref { title, .. } => Some(title),
            OpenApiSchema::Any { title, .. } => Some(title),
            OpenApiSchema::ArrayTuple { title, .. } => Some(title),
            OpenApiSchema::Object { title, .. } => Some(title),
            OpenApiSchema::ArrayList { title, .. } => Some(title),
        }
    }
}

/// The value of `additionalItems` where a tuple does not say.
pub fn default_true() -> (r: bool)
    ensures
        r,
{
    true
}

/// The schema name that a reference points to: what follows the prefix of
/// the schema collection. A reference without that prefix has no target.
pub open spec fn ref_target(sref: Seq<char>) -> Option<Seq<char>> {
    if SCHEMA_REF_PREFIX@.is_prefix_of(sref) {
        Some(sref.skip(SCHEMA_REF_PREFIX@.len() as int))
    } else {
        None
    }
}

/// The reference that points to the schema called `name`.
pub open spec fn ref_to(name: Seq<char>) -> Seq<char> {
    SCHEMA_REF_PREFIX@ + name
}

/// A reference made by [`ref_to`] points back to the name it was made from.
pub proof fn lemma_ref_target_of_ref_to(name: Seq<char>)
    ensures
        ref_target(ref_to(name)) == Some(name),
{
    let p = SCHEMA_REF_PREFIX@;
    assert((p + name).subrange(0, p.len() as int) =~= p);
    assert((p + name).skip(p.len() as int) =~= name);
}

/// Takes the prefix of the schema collection off a reference, leaving the
/// name of the schema it points to.
pub fn strip_schema_ref_prefix(sref: &str) -> (r: Result<&str, CodegenError>)
    ensures
        match r {
            Ok(name) => ref_target(sref@) == Some(name@),
            Err(e) => ref_target(sref@) is None && e@ == Failure::UnsupportedReference(sref@),
        },
{
    if starts_with(sref, SCHEMA_REF_PREFIX) {
        let from: usize = SCHEMA_REF_PREFIX.unicode_len();
        let to: usize = sref.unicode_len();
        Ok(sref.substring_char(from, to))
    } else {
        Err(CodegenError::UnsupportedReference(sref.to_owned()))
    }
}

} // verus!
