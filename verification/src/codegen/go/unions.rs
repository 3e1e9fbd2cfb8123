//! Unions: a union of literals as a string enumeration, a union of
//! references as a sealed interface.

use vstd::prelude::*;
use vstd::string::StringExecFns;
use crate::codegen::error::{CodegenError, Failure};
use crate::codegen::go::{all_consts, all_refs, is_all_refs};
use crate::codegen::schemas::{lookup, SchemaMap};
use crate::codegen::{ref_target, schemas_view, strip_schema_ref_prefix, OpenApiSchema, Schema};
use crate::util::codegen_buf::{block_head, block_tail, line, CodegenBuf};
use crate::util::text::{char_to_uppercase, chars_of, push_char, push_chars, uppercase_of};

verus! {

/// The text with its first character replaced by its uppercase mapping.
pub open spec fn capitalized(s: Seq<char>) -> Seq<char> {
    if s.len() == 0 {
        s
    } else {
        uppercase_of(s[0]) + s.drop_first()
    }
}

/// The name of the constant for one literal of a union: its title, or the
/// name of the union followed by the capitalized literal.
pub open spec fn member_name(name: Seq<char>, alt: Schema) -> Seq<char> {
    match alt.title() {
        Some(t) => t,
        None => name + capitalized(alt->Const_sconst),
    }
}

/// The declaration of the constant for one literal of a union.
pub open spec fn member_text(name: Seq<char>, alt: Schema) -> Seq<char> {
    member_name(name, alt) + " "@ + name + " = \""@ + alt->Const_sconst + "\""@
}

/// The declarations of the constants for the literals of a union, one to
/// a line.
pub open spec fn member_lines(unit: Seq<char>, n: nat, name: Seq<char>, alts: Seq<Schema>) -> Seq<
    char,
>
    decreases alts.len(),
{
    if alts.len() == 0 {
        Seq::empty()
    } else {
        member_lines(unit, n, name, alts.drop_last()) + line(
            unit,
            n,
            member_text(name, alts.last()),
        )
    }
}

/// What follows `type Name ` for a union of literals: the string type, and
/// a block of constants, one for each literal.
pub open spec fn const_enum_text(unit: Seq<char>, n: nat, name: Seq<char>, alts: Seq<Schema>) -> Seq<
    char,
> {
    "string"@ + seq!['\n'] + line(unit, n, "const ("@) + member_lines(unit, n + 1, name, alts)
        + line(unit, n, ")"@)
}

/// The result of rendering a union of literals, with or without a name.
pub open spec fn const_enum_result(
    unit: Seq<char>,
    n: nat,
    name: Option<Seq<char>>,
    alts: Seq<Schema>,
) -> Result<Seq<char>, Failure> {
    match name {
        Some(name) => Ok(const_enum_text(unit, n, name, alts)),
        None => Err(Failure::ConstEnumPosition),
    }
}

/// The model of an optional name.
pub open spec fn opt_name(name: Option<&str>) -> Option<Seq<char>> {
    match name {
        Some(n) => Some(n@),
        None => None,
    }
}

/// The text with its first character in uppercase.
fn capitalize(s: &str) -> (r: String)
    ensures
        r@ == capitalized(s@),
{
    let x = chars_of(s);
    let mut r = String::new();
    if x.len() > 0 {
        let upper = char_to_uppercase(x[0]);
        push_chars(&mut r, &upper);
        let mut i: usize = 1;
        while i < x.len()
            invariant
                1 <= i <= x.len(),
                r@ == uppercase_of(x@[0]) + x@.subrange(1, i as int),
            decreases x.len() - i,
        {
            push_char(&mut r, x[i]);
            assert(x@.subrange(1, i + 1) =~= x@.subrange(1, i as int).push(x@[i as int]));
            assert(uppercase_of(x@[0]) + x@.subrange(1, i + 1) =~= (uppercase_of(x@[0])
                + x@.subrange(1, i as int)).push(x@[i as int]));
            i = i + 1;
        }
        assert(x@.subrange(1, x@.len() as int) =~= x@.drop_first());
    }
    assert(r@ =~= capitalized(s@));
    r
}

/// Renders a union of literals as a string type with one constant for each
/// literal.
///
/// When all the alternatives of a union are literals, a string enumeration
/// stands for the union.
pub fn render_any_of_const_enum(
    buf: &mut CodegenBuf,
    name: Option<&str>,
    schema: &Vec<OpenApiSchema>,
) -> (r: Result<(), CodegenError>)
    requires
        all_consts(schemas_view(*schema)),
        old(buf).depth() < u128::MAX,
    ensures
        final(buf).unit() == old(buf).unit(),
        final(buf).depth() == old(buf).depth(),
        match const_enum_result(
            old(buf).unit(),
            old(buf).depth(),
            opt_name(name),
            schemas_view(*schema),
        ) {
            Ok(t) => r is Ok && final(buf)@ == old(buf)@ + t,
            Err(f) => r matches Err(e) && e@ == f,
        },
{
    let Some(name) = name else {
        return Err(CodegenError::ConstEnumPosition);
    };
    let ghost unit = buf.unit();
    let ghost n = buf.depth();
    let ghost alts = schemas_view(*schema);

    // Definition of the enum type.
    buf.write("string");
    buf.end_line();

    // Definition of constants for each enum variant.
    buf.writeln("const (");
    buf.indent();
    let ghost start = buf@;
    let mut i: usize = 0;
    assert(alts.take(0) =~= Seq::<Schema>::empty());
    assert(start + Seq::<char>::empty() =~= start);
    while i < schema.len()
        invariant
            0 <= i <= schema.len(),
            alts == schemas_view(*schema),
            all_consts(alts),
            buf.unit() == unit,
            buf.depth() == n + 1,
            buf@ == start + member_lines(unit, n + 1, name@, alts.take(i as int)),
        decreases schema.len() - i,
    {
        proof {
            assert(alts.take(i + 1).drop_last() =~= alts.take(i as int));
            assert(alts.take(i + 1).last() == schema@[i as int]@);
            assert(alts[i as int] is Const);
        }
        match &schema[i] {
            OpenApiSchema::Const { title, sconst } => {
                let mut text = match title {
                    Some(t) => t.clone(),
                    None => {
                        let mut sconst_name = name.to_owned();
                        sconst_name.append(capitalize(sconst.as_str()).as_str());
                        sconst_name
                    },
                };
                assert(text@ == member_name(name@, schema@[i as int]@));
                text.append(" ");
                text.append(name);
                text.append(" = \"");
                text.append(sconst.as_str());
                text.append("\"");
                assert(text@ == member_text(name@, schema@[i as int]@));
                buf.writeln(text.as_str());
                assert(buf@ =~= start + member_lines(unit, n + 1, name@, alts.take(i + 1)));
            },
            _ => {},
        }
        i = i + 1;
    }
    assert(alts.take(alts.len() as int) =~= alts);
    buf.unindent();
    buf.writeln(")");
    assert(buf@ =~= old(buf)@ + const_enum_text(unit, n, name@, alts));
    Ok(())
}

/// The name of the method that seals the interface of the union `name`.
pub open spec fn sealed_name(name: Seq<char>) -> Seq<char> {
    "sealed_"@ + name
}

/// The method by which the type `target` joins a sealed interface.
pub open spec fn impl_text(target: Seq<char>, fn_name: Seq<char>) -> Seq<char> {
    "func (v "@ + target + ") "@ + fn_name + "() {}"@
}

/// Whether a schema is a union of references only: one whose members are
/// taken into the union that refers to it.
pub open spec fn is_ref_union(s: Schema) -> bool {
    s matches Schema::AnyOf { any_of } && all_refs(any_of)
}

/// The methods for one reference of a union: that of the type referred to,
/// or, where that is itself a union of references, those of its members.
/// `fuel` bounds how deep unions may refer to unions.
pub open spec fn member_impls(
    schemas: Seq<(Seq<char>, Schema)>,
    unit: Seq<char>,
    n: nat,
    fn_name: Seq<char>,
    alt: Schema,
    fuel: nat,
) -> Result<Seq<char>, Failure>
    decreases fuel, 0nat,
{
    match alt {
        Schema::Ref { sref, .. } => match ref_target(sref) {
            None => Err(Failure::UnsupportedReference(sref)),
            Some(target) => match lookup(schemas, target) {
                None => Err(Failure::UnknownReference(target)),
                Some(s) => if is_ref_union(s) {
                    if fuel == 0 {
                        Err(Failure::NestedTooDeep(target))
                    } else {
                        union_impls(
                            schemas,
                            unit,
                            n,
                            fn_name,
                            s->AnyOf_any_of,
                            (fuel - 1) as nat,
                        )
                    }
                } else {
                    Ok(line(unit, n, impl_text(target, fn_name)))
                },
            },
        },
        _ => Err(Failure::UnsupportedAnyOf),
    }
}

/// The methods for the references of a union, in their order.
pub open spec fn union_impls(
    schemas: Seq<(Seq<char>, Schema)>,
    unit: Seq<char>,
    n: nat,
    fn_name: Seq<char>,
    alts: Seq<Schema>,
    fuel: nat,
) -> Result<Seq<char>, Failure>
    decreases fuel, alts.len() + 1,
{
    if alts.len() == 0 {
        Ok(Seq::empty())
    } else {
        match union_impls(schemas, unit, n, fn_name, alts.drop_last(), fuel) {
            Err(e) => Err(e),
            Ok(t) => match member_impls(schemas, unit, n, fn_name, alts.last(), fuel) {
                Err(e) => Err(e),
                Ok(u) => Ok(t + u),
            },
        }
    }
}

/// A failure among the first references is the failure of all.
pub proof fn lemma_union_impls_fails(
    schemas: Seq<(Seq<char>, Schema)>,
    unit: Seq<char>,
    n: nat,
    fn_name: Seq<char>,
    alts: Seq<Schema>,
    fuel: nat,
    k: int,
)
    requires
        0 <= k <= alts.len(),
        union_impls(schemas, unit, n, fn_name, alts.take(k), fuel) is Err,
    ensures
        union_impls(schemas, unit, n, fn_name, alts, fuel) == union_impls(
            schemas,
            unit,
            n,
            fn_name,
            alts.take(k),
            fuel,
        ),
    decreases alts.len(),
{
    if k == alts.len() {
        assert(alts.take(k) =~= alts);
    } else {
        assert(alts.drop_last().take(k) =~= alts.take(k));
        lemma_union_impls_fails(schemas, unit, n, fn_name, alts.drop_last(), fuel, k);
    }
}

/// What follows `type Name ` for a union of references: a sealed interface,
/// and the methods by which the types referred to implement it.
pub open spec fn union_text(
    schemas: Seq<(Seq<char>, Schema)>,
    unit: Seq<char>,
    n: nat,
    name: Seq<char>,
    alts: Seq<Schema>,
) -> Result<Seq<char>, Failure> {
    match union_impls(schemas, unit, n, sealed_name(name), alts, schemas.len()) {
        Err(e) => Err(e),
        Ok(impls) => Ok(
            block_head(unit, n, "interface"@) + line(unit, n + 1, sealed_name(name) + "()"@)
                + block_tail(unit, n) + impls,
        ),
    }
}

/// The result of rendering a union of references, with or without a name.
pub open spec fn union_result(
    schemas: Seq<(Seq<char>, Schema)>,
    unit: Seq<char>,
    n: nat,
    name: Option<Seq<char>>,
    alts: Seq<Schema>,
) -> Result<Seq<char>, Failure> {
    match name {
        Some(name) => union_text(schemas, unit, n, name, alts),
        None => Err(Failure::AnyOfRefsPosition),
    }
}

/// Writes the methods by which the types that `schema` refers to join the
/// interface sealed by `fn_name`.
fn render_sealed(
    schemas: &SchemaMap,
    buf: &mut CodegenBuf,
    fn_name: &str,
    schema: &Vec<OpenApiSchema>,
    fuel: usize,
) -> (r: Result<(), CodegenError>)
    ensures
        final(buf).unit() == old(buf).unit(),
        final(buf).depth() == old(buf).depth(),
        match union_impls(
            schemas@,
            old(buf).unit(),
            old(buf).depth(),
            fn_name@,
            schemas_view(*schema),
            fuel as nat,
        ) {
            Ok(t) => r is Ok && final(buf)@ == old(buf)@ + t,
            Err(f) => r matches Err(e) && e@ == f,
        },
    decreases fuel, schema.len(),
{
    let ghost unit = buf.unit();
    let ghost n = buf.depth();
    let ghost alts = schemas_view(*schema);
    let mut i: usize = 0;
    assert(alts.take(0) =~= Seq::<Schema>::empty());
    assert(buf@ + Seq::<char>::empty() =~= buf@);
    while i < schema.len()
        invariant
            0 <= i <= schema.len(),
            alts == schemas_view(*schema),
            buf.unit() == unit,
            buf.depth() == n,
            unit == old(buf).unit(),
            n == old(buf).depth(),
            match union_impls(schemas@, unit, n, fn_name@, alts.take(i as int), fuel as nat) {
                Ok(t) => buf@ == old(buf)@ + t,
                Err(_) => false,
            },
        decreases schema.len() - i,
    {
        let ghost before = buf@;
        let ghost done = union_impls(
            schemas@,
            unit,
            n,
            fn_name@,
            alts.take(i as int),
            fuel as nat,
        )->Ok_0;
        proof {
            assert(alts.take(i + 1).drop_last() =~= alts.take(i as int));
            assert(alts.take(i + 1).last() == schema@[i as int]@);
        }
        let step: Result<(), CodegenError> = match &schema[i] {
            OpenApiSchema::Ref { sref, .. } => {
                match strip_schema_ref_prefix(sref.as_str()) {
                    Err(e) => Err(e),
                    Ok(target) => match schemas.get(target) {
                        None => Err(CodegenError::UnknownReference(target.to_owned())),
                        Some(OpenApiSchema::AnyOf { any_of }) => {
                            if is_all_refs(any_of) {
                                if fuel == 0 {
                                    Err(CodegenError::NestedTooDeep(target.to_owned()))
                                } else {
                                    render_sealed(schemas, buf, fn_name, any_of, fuel - 1)
                                }
                            } else {
                                let mut text = "func (v ".to_owned();
                                text.append(target);
                                text.append(") ");
                                text.append(fn_name);
                                text.append("() {}");
                                buf.writeln(text.as_str());
                                Ok(())
                            }
                        },
                        Some(_) => {
                            let mut text = "func (v ".to_owned();
                            text.append(target);
                            text.append(") ");
                            text.append(fn_name);
                            text.append("() {}");
                            buf.writeln(text.as_str());
                            Ok(())
                        },
                    },
                }
            },
            _ => Err(CodegenError::UnsupportedAnyOf),
        };
        match step {
            Err(e) => {
                proof {
                    lemma_union_impls_fails(schemas@, unit, n, fn_name@, alts, fuel as nat, i + 1);
                }
                return Err(e);
            },
            Ok(()) => {
                let ghost added = member_impls(
                    schemas@,
                    unit,
                    n,
                    fn_name@,
                    schema@[i as int]@,
                    fuel as nat,
                )->Ok_0;
                assert(buf@ =~= old(buf)@ + (done + added));
            },
        }
        i = i + 1;
    }
    assert(alts.take(alts.len() as int) =~= alts);
    Ok(())
}

/// Renders a union of references as a sealed interface that all the types
/// referred to implement.
///
/// When all the alternatives of a union are references, the interface
/// stands for the union. Where a reference leads to another union of
/// references, the members of that union implement the interface in its
/// place.
pub fn render_any_of_refs(
    schemas: &SchemaMap,
    buf: &mut CodegenBuf,
    name: Option<&str>,
    schema: &Vec<OpenApiSchema>,
) -> (r: Result<(), CodegenError>)
    requires
        old(buf).depth() < u128::MAX,
    ensures
        final(buf).unit() == old(buf).unit(),
        final(buf).depth() == old(buf).depth(),
        match union_result(
            schemas@,
            old(buf).unit(),
            old(buf).depth(),
            opt_name(name),
            schemas_view(*schema),
        ) {
            Ok(t) => r is Ok && final(buf)@ == old(buf)@ + t,
            Err(f) => r matches Err(e) && e@ == f,
        },
{
    let Some(name) = name else {
        return Err(CodegenError::AnyOfRefsPosition);
    };
    // The name of the function that seals the interface.
    let fn_name = "sealed_".to_owned().concat(name);

    // Interface declaration.
    buf.open_block("interface");
    let method = fn_name.clone().concat("()");
    buf.writeln(method.as_str());
    buf.close_block();

    // Implementations.
    match render_sealed(schemas, buf, fn_name.as_str(), schema, schemas.len()) {
        Err(e) => Err(e),
        Ok(()) => {
            proof {
                let unit = old(buf).unit();
                let n = old(buf).depth();
                let impls = union_impls(
                    schemas@,
                    unit,
                    n,
                    sealed_name(name@),
                    schemas_view(*schema),
                    schemas@.len(),
                )->Ok_0;
                assert(buf@ =~= old(buf)@ + (block_head(unit, n, "interface"@) + line(
                    unit,
                    n + 1,
                    sealed_name(name@) + "()"@,
                ) + block_tail(unit, n) + impls));
            }
            Ok(())
        },
    }
}

} // verus!
