//! The renderer for Go.
//!
//! Go has neither sum types nor tuples. A union of literals becomes a
//! string type with one constant per literal. A union of references
//! becomes a sealed interface that every type referred to implements
//! ([`unions`]). An object and a tuple become a struct with a constructor,
//! and a serializer that writes the value they stand for ([`records`]).

use vstd::prelude::*;
use vstd::string::StringExecFns;
use crate::codegen::error::{CodegenError, Failure};
use crate::codegen::go::records::{object_result, render_object, render_tuple, tuple_result};
use crate::codegen::go::unions::{
    const_enum_result,
    opt_name,
    render_any_of_const_enum,
    render_any_of_refs,
    union_result,
};
use crate::codegen::lift::{extract_any_of_tuples, lifted_schemas, ConflictBehavior};
use crate::codegen::schemas::SchemaMap;
use crate::codegen::{ref_target, schemas_view, strip_schema_ref_prefix, OpenApiSchema, Schema};
use crate::util::codegen_buf::{
    indentation,
    lemma_written_2,
    lemma_written_3,
    lemma_written_4,
    line,
    CodegenBuf,
};

pub mod records;
pub mod unions;

verus! {

/// Whether every alternative is a literal.
pub open spec fn all_consts(alts: Seq<Schema>) -> bool {
    forall|i: int| 0 <= i < alts.len() ==> #[trigger] alts[i] is Const
}

/// Whether every alternative is a reference.
pub open spec fn all_refs(alts: Seq<Schema>) -> bool {
    forall|i: int| 0 <= i < alts.len() ==> #[trigger] alts[i] is Ref
}

/// The Go type expression for a schema in a position where no declaration
/// can stand: the type of a member, a parameter or an element.
pub open spec fn type_text(s: Schema) -> Result<Seq<char>, Failure>
    decreases s,
{
    match s {
        Schema::AnyOf { any_of } => if all_consts(any_of) {
            Err(Failure::ConstEnumPosition)
        } else if all_refs(any_of) {
            Err(Failure::AnyOfRefsPosition)
        } else {
            Err(Failure::UnsupportedAnyOf)
        },
        Schema::Object { .. } => Err(Failure::ObjectPosition),
        Schema::ArrayList { items, .. } => match type_text(*items) {
            Ok(t) => Ok("[]"@ + t),
            Err(e) => Err(e),
        },
        Schema::ArrayTuple { additional_items, .. } => if additional_items {
            Err(Failure::TupleItems)
        } else {
            Err(Failure::TuplePosition)
        },
        Schema::String { .. } => Ok("string"@),
        Schema::Number { width, .. } => match width {
            None => Ok("float64"@),
            Some(w) => if w == 32 {
                Ok("float32"@)
            } else if w == 64 {
                Ok("float64"@)
            } else {
                Err(Failure::NumberWidth(w))
            },
        },
        Schema::Boolean { .. } => Ok("bool"@),
        Schema::Const { .. } => Err(Failure::ConstPosition),
        Schema::Ref { sref, .. } => match ref_target(sref) {
            Some(name) => Ok(name),
            None => Err(Failure::UnsupportedReference(sref)),
        },
        Schema::Any { .. } => Ok("any"@),
    }
}

/// Whether every schema of the list is a literal.
pub(crate) fn is_all_consts(alts: &Vec<OpenApiSchema>) -> (r: bool)
    ensures
        r == all_consts(schemas_view(*alts)),
{
    let mut i: usize = 0;
    while i < alts.len()
        invariant
            0 <= i <= alts.len(),
            forall|j: int| 0 <= j < i ==> #[trigger] schemas_view(*alts)[j] is Const,
        decreases alts.len() - i,
    {
        match &alts[i] {
            OpenApiSchema::Const { .. } => {},
            _ => {
                assert(!(schemas_view(*alts)[i as int] is Const));
                return false;
            },
        }
        i = i + 1;
    }
    true
}

/// Whether every schema of the list is a reference.
pub(crate) fn is_all_refs(alts: &Vec<OpenApiSchema>) -> (r: bool)
    ensures
        r == all_refs(schemas_view(*alts)),
{
    let mut i: usize = 0;
    while i < alts.len()
        invariant
            0 <= i <= alts.len(),
            forall|j: int| 0 <= j < i ==> #[trigger] schemas_view(*alts)[j] is Ref,
        decreases alts.len() - i,
    {
        match &alts[i] {
            OpenApiSchema::Ref { .. } => {},
            _ => {
                assert(!(schemas_view(*alts)[i as int] is Ref));
                return false;
            },
        }
        i = i + 1;
    }
    true
}

/// The Go type expression for a schema where no declaration can stand.
pub fn go_type(schema: &OpenApiSchema) -> (r: Result<String, CodegenError>)
    ensures
        match type_text(schema@) {
            Ok(t) => r matches Ok(s) && s@ == t,
            Err(f) => r matches Err(e) && e@ == f,
        },
    decreases schema,
{
    match schema {
        OpenApiSchema::AnyOf { any_of } => {
            if is_all_consts(any_of) {
                Err(CodegenError::ConstEnumPosition)
            } else if is_all_refs(any_of) {
                Err(CodegenError::AnyOfRefsPosition)
            } else {
                Err(CodegenError::UnsupportedAnyOf)
            }
        },
        OpenApiSchema::Object { .. } => Err(CodegenError::ObjectPosition),
        OpenApiSchema::ArrayList { items, .. } => {
            match go_type(items) {
                Ok(t) => Ok("[]".to_owned().concat(t.as_str())),
                Err(e) => Err(e),
            }
        },
        OpenApiSchema::ArrayTuple { additional_items, .. } => {
            if *additional_items {
                Err(CodegenError::TupleItems)
            } else {
                Err(CodegenError::TuplePosition)
            }
        },
        OpenApiSchema::String { .. } => Ok("string".to_owned()),
        OpenApiSchema::Number { x_turbopuffer_width, .. } => match x_turbopuffer_width {
            None => Ok("float64".to_owned()),
            Some(w) => {
                if *w == 32 {
                    Ok("float32".to_owned())
                } else if *w == 64 {
                    Ok("float64".to_owned())
                } else {
                    Err(CodegenError::NumberWidth(*w))
                }
            },
        },
        OpenApiSchema::Boolean { .. } => Ok("bool".to_owned()),
        OpenApiSchema::Const { .. } => Err(CodegenError::ConstPosition),
        OpenApiSchema::Ref { sref, .. } => match strip_schema_ref_prefix(sref.as_str()) {
            Ok(name) => Ok(name.to_owned()),
            Err(e) => Err(e),
        },
        OpenApiSchema::Any { .. } => Ok("any".to_owned()),
    }
}

/// What rendering a schema writes. With a name, the schema is declared,
/// and this is what follows `type Name `: a union of literals, a union of
/// references, an object and a tuple each have a declaration of their own,
/// every other schema is its type expression. Without a name, only a type
/// expression can be written.
pub open spec fn schema_text(
    schemas: Seq<(Seq<char>, Schema)>,
    unit: Seq<char>,
    n: nat,
    name: Option<Seq<char>>,
    s: Schema,
) -> Result<Seq<char>, Failure> {
    match s {
        Schema::AnyOf { any_of } => if all_consts(any_of) {
            const_enum_result(unit, n, name, any_of)
        } else if all_refs(any_of) {
            union_result(schemas, unit, n, name, any_of)
        } else {
            Err(Failure::UnsupportedAnyOf)
        },
        Schema::Object { properties, required, .. } => object_result(
            unit,
            n,
            name,
            properties,
            required,
        ),
        Schema::ArrayTuple { additional_items, prefix_items, .. } => tuple_result(
            unit,
            n,
            name,
            additional_items,
            prefix_items,
        ),
        _ => type_text(s),
    }
}

/// Without a name, rendering a schema writes its type expression, or fails
/// as the type expression does.
pub proof fn lemma_unnamed_schema_text(
    schemas: Seq<(Seq<char>, Schema)>,
    unit: Seq<char>,
    n: nat,
    s: Schema,
)
    ensures
        schema_text(schemas, unit, n, None, s) == type_text(s),
{
}

/// Renders one schema into `buf`: its declaration when it has a name, its
/// type expression when it has none.
pub fn render_schema(
    schemas: &SchemaMap,
    buf: &mut CodegenBuf,
    name: Option<&str>,
    schema: &OpenApiSchema,
) -> (r: Result<(), CodegenError>)
    requires
        old(buf).depth() <= u64::MAX,
    ensures
        final(buf).unit() == old(buf).unit(),
        match schema_text(schemas@, old(buf).unit(), old(buf).depth(), opt_name(name), schema@) {
            Ok(t) => r is Ok && final(buf)@ == old(buf)@ + t && final(buf).depth() == old(
                buf,
            ).depth(),
            Err(f) => r matches Err(e) && e@ == f,
        },
{
    match schema {
        OpenApiSchema::AnyOf { any_of } => {
            if is_all_consts(any_of) {
                render_any_of_const_enum(buf, name, any_of)
            } else if is_all_refs(any_of) {
                render_any_of_refs(schemas, buf, name, any_of)
            } else {
                Err(CodegenError::UnsupportedAnyOf)
            }
        },
        OpenApiSchema::Object { properties, required, .. } => render_object(
            buf,
            name,
            properties,
            required,
        ),
        OpenApiSchema::ArrayTuple { additional_items, prefix_items, .. } => render_tuple(
            buf,
            name,
            *additional_items,
            prefix_items,
        ),
        _ => {
            let ty = go_type(schema)?;
            buf.write(ty.as_str());
            Ok(())
        },
    }
}

/// The declaration of the schema `s` under `name`, with the line that
/// ends it.
pub open spec fn declaration(
    schemas: Seq<(Seq<char>, Schema)>,
    unit: Seq<char>,
    n: nat,
    name: Seq<char>,
    s: Schema,
) -> Result<Seq<char>, Failure> {
    match schema_text(schemas, unit, n, Some(name), s) {
        Err(e) => Err(e),
        Ok(t) => Ok(indentation(unit, n) + ("type "@ + name + " "@) + t + seq!['\n']),
    }
}

/// The declarations of `entries`, in their order. References are followed
/// in `schemas`.
pub open spec fn declarations(
    schemas: Seq<(Seq<char>, Schema)>,
    unit: Seq<char>,
    n: nat,
    entries: Seq<(Seq<char>, Schema)>,
) -> Result<Seq<char>, Failure>
    decreases entries.len(),
{
    if entries.len() == 0 {
        Ok(Seq::empty())
    } else {
        match declarations(schemas, unit, n, entries.drop_last()) {
            Err(e) => Err(e),
            Ok(t) => match declaration(schemas, unit, n, entries.last().0, entries.last().1) {
                Err(e) => Err(e),
                Ok(d) => Ok(t + d),
            },
        }
    }
}

/// A failure among the first declarations is the failure of all.
pub proof fn lemma_declarations_fails(
    schemas: Seq<(Seq<char>, Schema)>,
    unit: Seq<char>,
    n: nat,
    entries: Seq<(Seq<char>, Schema)>,
    k: int,
)
    requires
        0 <= k <= entries.len(),
        declarations(schemas, unit, n, entries.take(k)) is Err,
    ensures
        declarations(schemas, unit, n, entries) == declarations(schemas, unit, n, entries.take(k)),
    decreases entries.len(),
{
    if k == entries.len() {
        assert(entries.take(k) =~= entries);
    } else {
        assert(entries.drop_last().take(k) =~= entries.take(k));
        lemma_declarations_fails(schemas, unit, n, entries.drop_last(), k);
    }
}

/// The lines that every generated file starts with.
pub open spec fn preamble(unit: Seq<char>, n: nat) -> Seq<char> {
    line(unit, n, "// Code generated by turbopuffer-apigen. DO NOT EDIT."@) + line(unit, n, ""@)
        + line(unit, n, "package turbopuffer"@) + line(unit, n, ""@) + line(
        unit,
        n,
        "import shimjson \"github.com/turbopuffer/turbopuffer-go/internal/encoding/json\""@,
    ) + line(unit, n, ""@)
}

/// The Go file for a collection of schemas that has been lifted: the
/// preamble, and the declaration of every schema, in the order of the
/// names. Lines are indented by tabs.
pub open spec fn go_file(schemas: Seq<(Seq<char>, Schema)>) -> Result<Seq<char>, Failure> {
    match declarations(schemas, "\t"@, 0, schemas) {
        Err(e) => Err(e),
        Ok(d) => Ok(preamble("\t"@, 0) + d),
    }
}

/// The Go file for a collection of schemas: its tuple alternatives are
/// lifted, leaving out the droppable ones, and the result is declared.
pub open spec fn rendered(schemas: Seq<(Seq<char>, Schema)>) -> Result<Seq<char>, Failure> {
    match lifted_schemas(schemas, ConflictBehavior::Drop) {
        Err(e) => Err(e),
        Ok(lifted) => go_file(lifted),
    }
}

/// Rendering a collection that has been lifted lifts nothing more: the
/// file is that of the collection as it stands.
pub proof fn lemma_rendered_of_lifted(schemas: Seq<(Seq<char>, Schema)>)
    requires
        crate::codegen::lift::settled(schemas, ConflictBehavior::Drop),
    ensures
        rendered(schemas) == go_file(schemas),
{
    crate::codegen::lift::lemma_lift_settled_is_noop(schemas, ConflictBehavior::Drop);
}

/// Writes the lines that every generated file starts with.
fn write_preamble(buf: &mut CodegenBuf)
    ensures
        final(buf).unit() == old(buf).unit(),
        final(buf).depth() == old(buf).depth(),
        final(buf)@ == old(buf)@ + preamble(old(buf).unit(), old(buf).depth()),
{
    let ghost unit = buf.unit();
    let ghost n = buf.depth();
    buf.writeln("// Code generated by turbopuffer-apigen. DO NOT EDIT.");
    buf.writeln("");
    buf.writeln("package turbopuffer");
    buf.writeln("");
    buf.writeln(
        "import shimjson \"github.com/turbopuffer/turbopuffer-go/internal/encoding/json\"",
    );
    buf.writeln("");
    proof {
        let l1 = line(unit, n, "// Code generated by turbopuffer-apigen. DO NOT EDIT."@);
        let l2 = line(unit, n, ""@);
        let l3 = line(unit, n, "package turbopuffer"@);
        let l5 = line(
            unit,
            n,
            "import shimjson \"github.com/turbopuffer/turbopuffer-go/internal/encoding/json\""@,
        );
        lemma_written_3(old(buf)@, l1, l2, l3);
        lemma_written_4(old(buf)@, l1 + l2 + l3, l2, l5, l2);
    }
}

/// Writes the declaration of `schema` under `name`, with the line that
/// ends it.
fn render_declaration(
    schemas: &SchemaMap,
    buf: &mut CodegenBuf,
    name: &str,
    schema: &OpenApiSchema,
) -> (r: Result<(), CodegenError>)
    requires
        old(buf).depth() <= u64::MAX,
    ensures
        final(buf).unit() == old(buf).unit(),
        match declaration(schemas@, old(buf).unit(), old(buf).depth(), name@, schema@) {
            Ok(t) => r is Ok && final(buf)@ == old(buf)@ + t && final(buf).depth() == old(
                buf,
            ).depth(),
            Err(f) => r matches Err(e) && e@ == f,
        },
{
    let ghost unit = buf.unit();
    let ghost n = buf.depth();
    buf.start_line();
    let mut prefix = "type ".to_owned();
    prefix.append(name);
    prefix.append(" ");
    buf.write(prefix.as_str());
    render_schema(schemas, buf, Some(name), schema)?;
    buf.end_line();
    proof {
        lemma_written_4(
            old(buf)@,
            indentation(unit, n),
            "type "@ + name@ + " "@,
            schema_text(schemas@, unit, n, Some(name@), schema@)->Ok_0,
            seq!['\n'],
        );
    }
    Ok(())
}

/// Writes the declarations of all the schemas of the collection.
fn render_declarations(schemas: &SchemaMap, buf: &mut CodegenBuf) -> (r: Result<(), CodegenError>)
    requires
        old(buf).depth() <= u64::MAX,
    ensures
        final(buf).unit() == old(buf).unit(),
        match declarations(schemas@, old(buf).unit(), old(buf).depth(), schemas@) {
            Ok(t) => r is Ok && final(buf)@ == old(buf)@ + t && final(buf).depth() == old(
                buf,
            ).depth(),
            Err(f) => r matches Err(e) && e@ == f,
        },
{
    let ghost entries = schemas@;
    let ghost unit = buf.unit();
    let ghost n = buf.depth();
    let mut i: usize = 0;
    assert(entries.take(0) =~= Seq::<(Seq<char>, Schema)>::empty());
    assert(buf@ + Seq::<char>::empty() =~= buf@);
    while i < schemas.len()
        invariant
            0 <= i <= schemas@.len(),
            entries == schemas@,
            buf.unit() == unit,
            buf.depth() == n,
            unit == old(buf).unit(),
            n == old(buf).depth(),
            n <= u64::MAX,
            declarations(entries, unit, n, entries.take(i as int)) is Ok,
            buf@ == old(buf)@ + declarations(entries, unit, n, entries.take(i as int))->Ok_0,
        decreases schemas@.len() - i,
    {
        let name = schemas.name_at(i);
        let schema = schemas.schema_at(i);
        let ghost done = declarations(entries, unit, n, entries.take(i as int))->Ok_0;
        let ghost next = declaration(entries, unit, n, name@, schema@);
        proof {
            assert(entries.take(i + 1).drop_last() =~= entries.take(i as int));
            assert(entries.take(i + 1).last() == entries[i as int]);
            assert(declarations(entries, unit, n, entries.take(i + 1)) == match next {
                Err(e) => Err::<Seq<char>, Failure>(e),
                Ok(d) => Ok(done + d),
            });
        }
        match render_declaration(schemas, buf, name, schema) {
            Err(e) => {
                proof {
                    lemma_declarations_fails(entries, unit, n, entries, i + 1);
                }
                return Err(e);
            },
            Ok(()) => {},
        }
        proof {
            lemma_written_2(old(buf)@, done, next->Ok_0);
        }
        i = i + 1;
    }
    assert(entries.take(entries.len() as int) =~= entries);
    Ok(())
}

/// Renders a collection of schemas as a Go file.
///
/// The tuple alternatives of the unions are lifted first, leaving out the
/// droppable ones. Then every schema is declared, in the order of the names.
pub fn render(schemas: SchemaMap) -> (r: Result<CodegenBuf, CodegenError>)
    ensures
        match rendered(schemas@) {
            Ok(t) => r matches Ok(buf) && buf@ == t,
            Err(f) => r matches Err(e) && e@ == f,
        },
{
    let mut schemas = schemas;
    extract_any_of_tuples(&mut schemas, ConflictBehavior::Drop)?;
    let mut buf = CodegenBuf::with_indent("\t");
    write_preamble(&mut buf);
    assert(buf@ =~= preamble("\t"@, 0));
    render_declarations(&schemas, &mut buf)?;
    Ok(buf)
}

} // verus!
