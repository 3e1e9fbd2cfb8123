//! The failures of the pipeline. Every failure is fatal to the run.

use vstd::prelude::*;
use vstd::string::StringExecFns;
use crate::util::text::{decimal, push_decimal};

verus! {

/// The four families of failure.
#[derive(Debug, Clone, Copy, PartialEq, Eq, Structural)]
pub enum ErrorKind {
    /// The document does not have the expected structure.
    Structure,
    /// A reference cannot be followed.
    Reference,
    /// Two schemas would get the same name.
    Naming,
    /// A shape that the renderer does not handle.
    Unsupported,
}

/// The model of a [`CodegenError`]: the same failure, with its text as a
/// character sequence.
pub enum Failure {
    InvalidYaml,
    NoSchemas,
    SchemaName,
    InvalidSchema(Seq<char>),
    UnsupportedReference(Seq<char>),
    UnknownReference(Seq<char>),
    NestedTooDeep(Seq<char>),
    DuplicateSchemaName(Seq<char>),
    UnsupportedAnyOf,
    ObjectPosition,
    ObjectProperties,
    ObjectRequired,
    TupleItems,
    TuplePosition,
    NumberWidth(u32),
    ConstPosition,
    ConstEnumPosition,
    AnyOfRefsPosition,
    Unimplemented,
}

/// A failure of parsing, lifting or rendering.
#[derive(Debug)]
pub enum CodegenError {
    /// The text is not a YAML document.
    InvalidYaml,
    /// The document has no mapping of schemas under `components`.
    NoSchemas,
    /// The name of a schema is not a string.
    SchemaName,
    /// The schema of this name has none of the permitted shapes.
    InvalidSchema(String),
    /// This reference does not point into the schema collection.
    UnsupportedReference(String),
    /// No schema of this name is known.
    UnknownReference(String),
    /// The unions that this schema refers to are nested deeper than there
    /// are schemas: they refer to themselves.
    NestedTooDeep(String),
    /// Lifting would give this name to two schemas.
    DuplicateSchemaName(String),
    /// A union that is neither all literals nor all references.
    UnsupportedAnyOf,
    /// An object where no declaration can stand.
    ObjectPosition,
    /// An object that does not have one property and one required name.
    ObjectProperties,
    /// An object whose property is not the required one.
    ObjectRequired,
    /// A tuple that admits additional items.
    TupleItems,
    /// A tuple where no declaration can stand.
    TuplePosition,
    /// A number of a width other than 32 or 64.
    NumberWidth(u32),
    /// A literal outside a union or a tuple.
    ConstPosition,
    /// A union of literals where no declaration can stand.
    ConstEnumPosition,
    /// A union of references where no declaration can stand.
    AnyOfRefsPosition,
    /// The target language has no renderer.
    Unimplemented,
}

impl View for CodegenError {
    type V = Failure;

    open spec fn view(&self) -> Failure {
        match self {
            CodegenError::InvalidYaml => Failure::InvalidYaml,
            CodegenError::NoSchemas => Failure::NoSchemas,
            CodegenError::SchemaName => Failure::SchemaName,
            CodegenError::InvalidSchema(s) => Failure::InvalidSchema(s@),
            CodegenError::UnsupportedReference(s) => Failure::UnsupportedReference(s@),
            CodegenError::UnknownReference(s) => Failure::UnknownReference(s@),
            CodegenError::NestedTooDeep(s) => Failure::NestedTooDeep(s@),
            CodegenError::DuplicateSchemaName(s) => Failure::DuplicateSchemaName(s@),
            CodegenError::UnsupportedAnyOf => Failure::UnsupportedAnyOf,
            CodegenError::ObjectPosition => Failure::ObjectPosition,
            CodegenError::ObjectProperties => Failure::ObjectProperties,
            CodegenError::ObjectRequired => Failure::ObjectRequired,
            CodegenError::TupleItems => Failure::TupleItems,
            CodegenError::TuplePosition => Failure::TuplePosition,
            CodegenError::NumberWidth(w) => Failure::NumberWidth(*w),
            CodegenError::ConstPosition => Failure::ConstPosition,
            CodegenError::ConstEnumPosition => Failure::ConstEnumPosition,
            CodegenError::AnyOfRefsPosition => Failure::AnyOfRefsPosition,
            CodegenError::Unimplemented => Failure::Unimplemented,
        }
    }
}

impl Failure {
    /// The family a failure belongs to.
    pub open spec fn kind(self) -> ErrorKind {
        match self {
            Failure::InvalidYaml
            | Failure::NoSchemas
            | Failure::SchemaName
            | Failure::InvalidSchema(_) => ErrorKind::Structure,
            Failure::UnsupportedReference(_)
            | Failure::UnknownReference(_)
            | Failure::NestedTooDeep(_) => ErrorKind::Reference,
            Failure::DuplicateSchemaName(_) => ErrorKind::Naming,
            _ => ErrorKind::Unsupported,
        }
    }

    /// The text that describes a failure.
    pub open spec fn message(self) -> Seq<char> {
        match self {
            Failure::InvalidYaml => "the document is not valid YAML"@,
            Failure::NoSchemas => "no schemas found in OpenAPI spec"@,
            Failure::SchemaName => "schema name is not a string"@,
            Failure::InvalidSchema(s) => "schema matches none of the supported shapes: "@ + s,
            Failure::UnsupportedReference(s) => "unsupported reference: "@ + s,
            Failure::UnknownReference(s) => "reference to unknown schema: "@ + s,
            Failure::NestedTooDeep(s) => "anyOf refers to itself: "@ + s,
            Failure::DuplicateSchemaName(s) =>
                "extraction on array tuples from anyOf failed: duplicate schema name: "@ + s,
            Failure::UnsupportedAnyOf => "unsupported anyOf"@,
            Failure::ObjectPosition => "object schema in unsupported position"@,
            Failure::ObjectProperties => "object schemas only supported with a required property"@,
            Failure::ObjectRequired =>
                "object schemas only supported with a single required property"@,
            Failure::TupleItems => "tuple-type arrays with `items: true` unsupported"@,
            Failure::TuplePosition => "tuple-type arrays in unsupported position"@,
            Failure::NumberWidth(w) => "unsupported number width: "@ + decimal(w as nat),
            Failure::ConstPosition => "const in unsupported position"@,
            Failure::ConstEnumPosition => "const enum in unsupported position"@,
            Failure::AnyOfRefsPosition => "anyOf with refs in unsupported position"@,
            Failure::Unimplemented => "unimplemented"@,
        }
    }
}

impl CodegenError {
    /// The family this failure belongs to.
    pub fn kind(&self) -> (k: ErrorKind)
        ensures
            k == self@.kind(),
    {
        match self {
            CodegenError::InvalidYaml
            | CodegenError::NoSchemas
            | CodegenError::SchemaName
            | CodegenError::InvalidSchema(_) => ErrorKind::Structure,
            CodegenError::UnsupportedReference(_)
            | CodegenError::UnknownReference(_)
            | CodegenError::NestedTooDeep(_) => ErrorKind::Reference,
            CodegenError::DuplicateSchemaName(_) => ErrorKind::Naming,
            _ => ErrorKind::Unsupported,
        }
    }

    /// The text that describes this failure.
    pub fn message(&self) -> (s: String)
        ensures
            s@ == self@.message(),
    {
        match self {
            CodegenError::InvalidYaml => "the document is not valid YAML".to_owned(),
            CodegenError::NoSchemas => "no schemas found in OpenAPI spec".to_owned(),
            CodegenError::SchemaName => "schema name is not a string".to_owned(),
            CodegenError::InvalidSchema(s) => "schema matches none of the supported shapes: ".to_owned().concat(
                s.as_str(),
            ),
            CodegenError::UnsupportedReference(s) => "unsupported reference: ".to_owned().concat(
                s.as_str(),
            ),
            CodegenError::UnknownReference(s) => "reference to unknown schema: ".to_owned().concat(
                s.as_str(),
            ),
            CodegenError::NestedTooDeep(s) => "anyOf refers to itself: ".to_owned().concat(
                s.as_str(),
            ),
            CodegenError::DuplicateSchemaName(s) =>
                "extraction on array tuples from anyOf failed: duplicate schema name: ".to_owned().concat(
                s.as_str(),
            ),
            CodegenError::UnsupportedAnyOf => "unsupported anyOf".to_owned(),
            CodegenError::ObjectPosition => "object schema in unsupported position".to_owned(),
            CodegenError::ObjectProperties => "object schemas only supported with a required property".to_owned(),
            CodegenError::ObjectRequired => "object schemas only supported with a single required property".to_owned(),
            CodegenError::TupleItems => "tuple-type arrays with `items: true` unsupported".to_owned(),
            CodegenError::TuplePosition => "tuple-type arrays in unsupported position".to_owned(),
            CodegenError::NumberWidth(w) => {
                let mut s = "unsupported number width: ".to_owned();
                push_decimal(&mut s, *w as u64);
                s
            },
            CodegenError::ConstPosition => "const in unsupported position".to_owned(),
            CodegenError::ConstEnumPosition => "const enum in unsupported position".to_owned(),
            CodegenError::AnyOfRefsPosition => "anyOf with refs in unsupported position".to_owned(),
            CodegenError::Unimplemented => "unimplemented".to_owned(),
        }
    }
}

} // verus!
