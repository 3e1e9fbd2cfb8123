//! Generates statically typed data-model source text from a constrained
//! subset of an OpenAPI document.
//!
//! The pipeline has three stages. The schema collection of a document is
//! read into a closed schema algebra ([`codegen::parser`]). The tuple-shaped
//! alternatives of unions are lifted into named schemas of their own
//! ([`codegen::lift`]). The resulting collection is rendered for a target
//! language ([`codegen::go`]).

use vstd::prelude::*;
use crate::codegen::document::{strs_view, Node};
use crate::codegen::error::{CodegenError, Failure};
use crate::codegen::parser::{parse, parsed};
use crate::codegen::yaml::{read_document, yaml_document};

pub mod codegen;
pub mod util;

verus! {

/// The languages that code can be asked for.
#[derive(Copy, Clone, Debug, PartialEq, Eq, PartialOrd, Ord, Structural)]
pub enum Language {
    Python,
    Go,
    Typescript,
    Java,
}

impl Language {
    /// The name of the language, in lower case.
    pub open spec fn spec_name(self) -> Seq<char> {
        match self {
            Language::Python => "python"@,
            Language::Go => "go"@,
            Language::Typescript => "typescript"@,
            Language::Java => "java"@,
        }
    }

    /// The name of the language, in lower case.
    pub fn name(&self) -> (s: String)
        ensures
            s@ == self.spec_name(),
    {
        match self {
            Language::Python => "python".to_owned(),
            Language::Go => "go".to_owned(),
            Language::Typescript => "typescript".to_owned(),
            Language::Java => "java".to_owned(),
        }
    }
}

/// The prefixes of the names of the schemas that code is generated for.
pub open spec fn type_prefixes() -> Seq<Seq<char>> {
    seq!["Aggregate"@, "Expr"@, "Filter"@, "RankBy"@]
}

/// The source text for the managed schemas of a document in a language.
/// Only Go has a renderer.
pub open spec fn generated(language: Language, document: Node) -> Result<Seq<char>, Failure> {
    match parsed(document, type_prefixes()) {
        Err(f) => Err(f),
        Ok((managed, _)) => match language {
            Language::Go => codegen::go::rendered(managed),
            _ => Err(Failure::Unimplemented),
        },
    }
}

/// Generates the source text for the managed schemas of `document`.
pub fn generate_from(language: Language, document: &Node) -> (r: Result<String, CodegenError>)
    ensures
        match generated(language, *document) {
            Ok(t) => r matches Ok(s) && s@ == t,
            Err(f) => r matches Err(e) && e@ == f,
        },
{
    let mut prefixes: Vec<&str> = Vec::new();
    prefixes.push("Aggregate");
    prefixes.push("Expr");
    prefixes.push("Filter");
    prefixes.push("RankBy");
    assert(strs_view(prefixes@) =~= type_prefixes());
    let spec = parse(document, &prefixes)?;
    let content = match language {
        Language::Go => codegen::go::render(spec.managed_schemas)?,
        Language::Java => codegen::java::render(spec.managed_schemas)?,
        Language::Python => {
            return Err(CodegenError::Unimplemented);
        },
        Language::Typescript => {
            return Err(CodegenError::Unimplemented);
        },
    };
    Ok(content.into_string())
}

/// Generates the source text for the managed schemas of the OpenAPI
/// document that the YAML text `openapi_yaml` holds.
pub fn generate(language: Language, openapi_yaml: &str) -> (r: Result<String, CodegenError>)
    ensures
        match yaml_document(openapi_yaml@) {
            None => r matches Err(e) && e@ == Failure::InvalidYaml,
            Some(document) => match generated(language, document) {
                Ok(t) => r matches Ok(s) && s@ == t,
                Err(f) => r matches Err(e) && e@ == f,
            },
        },
{
    let document = read_document(openapi_yaml)?;
    generate_from(language, &document)
}

} // verus!
