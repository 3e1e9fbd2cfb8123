//! Records: an object and a tuple as a struct with a constructor and a
//! serializer.

use vstd::prelude::*;
use vstd::string::StringExecFns;
use crate::codegen::error::{CodegenError, Failure};
use crate::codegen::go::unions::opt_name;
use crate::codegen::go::{go_type, type_text};
use crate::codegen::shared::{
    build_tuple_fields,
    fields_view,
    is_flattened,
    item_fields,
    item_wire,
    lemma_nesting_concat,
    lemma_tuple_fields_well_nested,
    nesting,
    placeholder,
    positions,
    snake_to_camel_case,
    tuple_fields,
    tuple_fields_from,
    upper_camel,
    well_nested,
    wire_shape,
    Field,
    TupleField,
    Wire,
};
use crate::codegen::{properties_view, schemas_view, texts_view, OpenApiSchema, Schema};
use crate::util::codegen_buf::{
    block_head,
    block_tail,
    lemma_written_2,
    lemma_written_3,
    lemma_written_5,
    line,
    CodegenBuf,
};
use crate::util::text::text_eq;

verus! {

/// The declaration of a member or a parameter: its name, its type, and
/// what separates it from the next.
pub open spec fn field_text(name: Seq<char>, ty: Seq<char>, sep: Seq<char>) -> Seq<char> {
    name + " "@ + ty + sep
}

/// The first line of the constructor of the type `name`.
pub open spec fn constructor_head(name: Seq<char>) -> Seq<char> {
    "func New"@ + name + "("@
}

/// The line that ends the parameters of the constructor of the type `name`
/// and opens its body.
pub open spec fn constructor_body(name: Seq<char>) -> Seq<char> {
    ") "@ + name
}

/// The head of the value that the constructor of the type `name` returns.
pub open spec fn constructor_value(name: Seq<char>) -> Seq<char> {
    "return "@ + name
}

/// The head of the serializer of the type `name`.
pub open spec fn serializer_head(name: Seq<char>) -> Seq<char> {
    "func (v "@ + name + ") MarshalJSON() ([]byte, error)"@
}

/// The struct for an object: one member.
pub open spec fn object_struct(unit: Seq<char>, n: nat, member: Seq<char>, ty: Seq<char>) -> Seq<
    char,
> {
    block_head(unit, n, "struct"@) + line(unit, n + 1, field_text(member, ty, ""@)) + block_tail(
        unit,
        n,
    )
}

/// The constructor for an object: it takes the member and returns the
/// struct that holds it.
pub open spec fn object_constructor(
    unit: Seq<char>,
    n: nat,
    name: Seq<char>,
    member: Seq<char>,
    ty: Seq<char>,
) -> Seq<char> {
    line(unit, n, constructor_head(name)) + line(unit, n + 1, field_text(member, ty, ","@)) + (
    block_head(unit, n, constructor_body(name)) + block_head(
        unit,
        n + 1,
        constructor_value(name),
    )) + line(unit, n + 2, member + ": "@ + member + ","@) + (block_tail(unit, n + 1)
        + block_tail(unit, n))
}

/// The serializer for an object: it writes an object with the one key.
pub open spec fn object_serializer(
    unit: Seq<char>,
    n: nat,
    name: Seq<char>,
    property: Seq<char>,
    member: Seq<char>,
) -> Seq<char> {
    (block_head(unit, n, serializer_head(name)) + line(
        unit,
        n + 1,
        "return shimjson.Marshal(map[string]any{"@,
    )) + line(unit, n + 2, "\""@ + property + "\": v."@ + member + ","@) + (line(
        unit,
        n + 1,
        "})"@,
    ) + block_tail(unit, n))
}

/// What follows `type Name ` for an object with the single property
/// `property` of Go type `ty`: a struct with one member, named after the
/// property, its constructor and its serializer.
pub open spec fn object_text(
    unit: Seq<char>,
    n: nat,
    name: Seq<char>,
    property: Seq<char>,
    ty: Seq<char>,
) -> Seq<char> {
    let member = upper_camel(property);
    object_struct(unit, n, member, ty) + object_constructor(unit, n, name, member, ty)
        + object_serializer(unit, n, name, property, member)
}

/// The result of rendering an object. Only an object with exactly one
/// property, which is its one required name, can be rendered, and only
/// where a declaration can stand.
pub open spec fn object_result(
    unit: Seq<char>,
    n: nat,
    name: Option<Seq<char>>,
    properties: Seq<(Seq<char>, Schema)>,
    required: Seq<Seq<char>>,
) -> Result<Seq<char>, Failure> {
    match name {
        None => Err(Failure::ObjectPosition),
        Some(name) => if properties.len() != 1 || required.len() != 1 {
            Err(Failure::ObjectProperties)
        } else if required[0] != properties[0].0 {
            Err(Failure::ObjectRequired)
        } else {
            match type_text(properties[0].1) {
                Err(e) => Err(e),
                Ok(ty) => Ok(object_text(unit, n, name, properties[0].0, ty)),
            }
        },
    }
}

/// Writes the line that declares a member or a parameter.
fn write_field(buf: &mut CodegenBuf, name: &str, ty: &str, sep: &str)
    ensures
        final(buf).unit() == old(buf).unit(),
        final(buf).depth() == old(buf).depth(),
        final(buf)@ == old(buf)@ + line(
            old(buf).unit(),
            old(buf).depth(),
            field_text(name@, ty@, sep@),
        ),
{
    let mut text = name.to_owned();
    text.append(" ");
    text.append(ty);
    text.append(sep);
    buf.writeln(text.as_str());
}

/// Writes the first line of the constructor of the type `name`.
fn write_constructor_head(buf: &mut CodegenBuf, name: &str)
    ensures
        final(buf).unit() == old(buf).unit(),
        final(buf).depth() == old(buf).depth(),
        final(buf)@ == old(buf)@ + line(
            old(buf).unit(),
            old(buf).depth(),
            constructor_head(name@),
        ),
{
    let mut text = "func New".to_owned();
    text.append(name);
    text.append("(");
    buf.writeln(text.as_str());
}

/// Opens the body of the constructor of the type `name`, and the value it
/// returns.
fn open_constructor_body(buf: &mut CodegenBuf, name: &str)
    requires
        old(buf).depth() + 2 <= u128::MAX,
    ensures
        final(buf).unit() == old(buf).unit(),
        final(buf).depth() == old(buf).depth() + 2,
        final(buf)@ == old(buf)@ + (block_head(
            old(buf).unit(),
            old(buf).depth(),
            constructor_body(name@),
        ) + block_head(old(buf).unit(), old(buf).depth() + 1, constructor_value(name@))),
{
    let body = ") ".to_owned().concat(name);
    buf.open_block(body.as_str());
    let value = "return ".to_owned().concat(name);
    buf.open_block(value.as_str());
    assert(buf@ =~= old(buf)@ + (block_head(
        old(buf).unit(),
        old(buf).depth(),
        constructor_body(name@),
    ) + block_head(old(buf).unit(), old(buf).depth() + 1, constructor_value(name@))));
}

/// Opens the serializer of the type `name`, up to the call that takes the
/// value to write, which starts with `call`.
fn open_serializer(buf: &mut CodegenBuf, name: &str, call: &str)
    requires
        old(buf).depth() + 2 <= u128::MAX,
    ensures
        final(buf).unit() == old(buf).unit(),
        final(buf).depth() == old(buf).depth() + 2,
        final(buf)@ == old(buf)@ + (block_head(
            old(buf).unit(),
            old(buf).depth(),
            serializer_head(name@),
        ) + line(old(buf).unit(), old(buf).depth() + 1, call@)),
{
    let mut head = "func (v ".to_owned();
    head.append(name);
    head.append(") MarshalJSON() ([]byte, error)");
    buf.open_block(head.as_str());
    buf.writeln(call);
    buf.indent();
    assert(buf@ =~= old(buf)@ + (block_head(
        old(buf).unit(),
        old(buf).depth(),
        serializer_head(name@),
    ) + line(old(buf).unit(), old(buf).depth() + 1, call@)));
}

/// Closes the call and the serializer that [`open_serializer`] opened.
fn close_serializer(buf: &mut CodegenBuf)
    requires
        old(buf).depth() >= 2,
    ensures
        final(buf).unit() == old(buf).unit(),
        final(buf).depth() == old(buf).depth() - 2,
        final(buf)@ == old(buf)@ + (line(
            old(buf).unit(),
            (old(buf).depth() - 1) as nat,
            "})"@,
        ) + block_tail(old(buf).unit(), (old(buf).depth() - 2) as nat)),
{
    buf.unindent();
    buf.writeln("})");
    buf.close_block();
    assert(buf@ =~= old(buf)@ + (line(old(buf).unit(), (old(buf).depth() - 1) as nat, "})"@)
        + block_tail(old(buf).unit(), (old(buf).depth() - 2) as nat)));
}

/// Closes the value and the body that [`open_constructor_body`] opened.
fn close_constructor_body(buf: &mut CodegenBuf)
    requires
        old(buf).depth() >= 2,
    ensures
        final(buf).unit() == old(buf).unit(),
        final(buf).depth() == old(buf).depth() - 2,
        final(buf)@ == old(buf)@ + (block_tail(
            old(buf).unit(),
            (old(buf).depth() - 1) as nat,
        ) + block_tail(old(buf).unit(), (old(buf).depth() - 2) as nat)),
{
    buf.close_block();
    buf.close_block();
    assert(buf@ =~= old(buf)@ + (block_tail(old(buf).unit(), (old(buf).depth() - 1) as nat)
        + block_tail(old(buf).unit(), (old(buf).depth() - 2) as nat)));
}

/// Renders an object with a single required property as a struct with one
/// member, a constructor, and a serializer that writes the one key.
pub(crate) fn render_object(
    buf: &mut CodegenBuf,
    name: Option<&str>,
    properties: &Vec<(String, OpenApiSchema)>,
    required: &Vec<String>,
) -> (r: Result<(), CodegenError>)
    requires
        old(buf).depth() <= u64::MAX,
    ensures
        final(buf).unit() == old(buf).unit(),
        final(buf).depth() == old(buf).depth(),
        match object_result(
            old(buf).unit(),
            old(buf).depth(),
            opt_name(name),
            properties_view(*properties),
            texts_view(*required),
        ) {
            Ok(t) => r is Ok && final(buf)@ == old(buf)@ + t,
            Err(f) => r matches Err(e) && e@ == f,
        },
{
    let Some(name) = name else {
        return Err(CodegenError::ObjectPosition);
    };
    if properties.len() != 1 || required.len() != 1 {
        return Err(CodegenError::ObjectProperties);
    }
    let prop_name = properties[0].0.as_str();
    let prop_schema = &properties[0].1;
    if !text_eq(required[0].as_str(), prop_name) {
        return Err(CodegenError::ObjectRequired);
    }
    let ty = go_type(prop_schema)?;
    let prop_name_munged = snake_to_camel_case(prop_name);
    let ghost unit = buf.unit();
    let ghost n = buf.depth();
    let ghost member = upper_camel(prop_name@);

    // Struct definition.
    buf.open_block("struct");
    write_field(buf, prop_name_munged.as_str(), ty.as_str(), "");
    buf.close_block();
    proof {
        lemma_written_3(
            old(buf)@,
            block_head(unit, n, "struct"@),
            line(unit, n + 1, field_text(member, ty@, ""@)),
            block_tail(unit, n),
        );
    }
    let ghost after_struct = buf@;

    // Constructor function.
    write_constructor_head(buf, name);
    buf.indent();
    write_field(buf, prop_name_munged.as_str(), ty.as_str(), ",");
    buf.unindent();
    open_constructor_body(buf, name);
    let mut value = prop_name_munged.clone();
    value.append(": ");
    value.append(prop_name_munged.as_str());
    value.append(",");
    buf.writeln(value.as_str());
    close_constructor_body(buf);
    proof {
        lemma_written_5(
            after_struct,
            line(unit, n, constructor_head(name@)),
            line(unit, n + 1, field_text(member, ty@, ","@)),
            block_head(unit, n, constructor_body(name@)) + block_head(
                unit,
                n + 1,
                constructor_value(name@),
            ),
            line(unit, n + 2, member + ": "@ + member + ","@),
            block_tail(unit, n + 1) + block_tail(unit, n),
        );
    }
    let ghost after_constructor = buf@;

    // Serializer.
    open_serializer(buf, name, "return shimjson.Marshal(map[string]any{");
    let mut entry = "\"".to_owned();
    entry.append(prop_name);
    entry.append("\": v.");
    entry.append(prop_name_munged.as_str());
    entry.append(",");
    buf.writeln(entry.as_str());
    close_serializer(buf);
    proof {
        lemma_written_3(
            after_constructor,
            block_head(unit, n, serializer_head(name@)) + line(
                unit,
                n + 1,
                "return shimjson.Marshal(map[string]any{"@,
            ),
            line(unit, n + 2, "\""@ + prop_name@ + "\": v."@ + member + ","@),
            line(unit, n + 1, "})"@) + block_tail(unit, n),
        );
        lemma_written_3(
            old(buf)@,
            object_struct(unit, n, member, ty@),
            object_constructor(unit, n, name@, member, ty@),
            object_serializer(unit, n, name@, prop_name@, member),
        );
    }
    Ok(())
}

/// The lines that declare the value slots among `fields`, at depth `n`,
/// each ended by `sep`: the members of a struct, or the parameters of its
/// constructor. Literals and flatten markers declare nothing.
pub open spec fn field_lines(unit: Seq<char>, n: nat, fields: Seq<Field>, sep: Seq<char>) -> Result<
    Seq<char>,
    Failure,
>
    decreases fields.len(),
{
    if fields.len() == 0 {
        Ok(Seq::empty())
    } else {
        match field_lines(unit, n, fields.drop_last(), sep) {
            Err(e) => Err(e),
            Ok(t) => match fields.last() {
                Field::Normal { name, schema } => match type_text(schema) {
                    Err(e) => Err(e),
                    Ok(ty) => Ok(t + line(unit, n, field_text(name, ty, sep))),
                },
                _ => Ok(t),
            },
        }
    }
}

/// A failure among the first fields is the failure of all.
pub proof fn lemma_field_lines_fails(
    unit: Seq<char>,
    n: nat,
    fields: Seq<Field>,
    sep: Seq<char>,
    k: int,
)
    requires
        0 <= k <= fields.len(),
        field_lines(unit, n, fields.take(k), sep) is Err,
    ensures
        field_lines(unit, n, fields, sep) == field_lines(unit, n, fields.take(k), sep),
    decreases fields.len(),
{
    if k == fields.len() {
        assert(fields.take(k) =~= fields);
    } else {
        assert(fields.drop_last().take(k) =~= fields.take(k));
        lemma_field_lines_fails(unit, n, fields.drop_last(), sep, k);
    }
}

/// The lines that pass the value slots among `fields` on to the struct.
pub open spec fn value_lines(unit: Seq<char>, n: nat, fields: Seq<Field>) -> Seq<char>
    decreases fields.len(),
{
    if fields.len() == 0 {
        Seq::empty()
    } else {
        value_lines(unit, n, fields.drop_last()) + match fields.last() {
            Field::Normal { name, .. } => line(unit, n, name + ","@),
            _ => Seq::empty(),
        }
    }
}

/// The line that one field adds to the array written by the serializer,
/// where `open` flatten ranges are open before it and the array itself
/// stands at depth `n`: a literal as it is, a value slot as the member
/// that holds it, a flatten range as an array of its own.
pub open spec fn element_line(unit: Seq<char>, n: nat, open: int, field: Field) -> Seq<char> {
    match field {
        Field::Literal(s) => line(unit, (n + open) as nat, "\""@ + s + "\","@),
        Field::FlattenStart => line(unit, (n + open) as nat, "[]any{"@),
        Field::FlattenEnd => line(unit, (n + open - 1) as nat, "},"@),
        Field::Normal { name, .. } => line(unit, (n + open) as nat, "v."@ + name + ","@),
    }
}

/// The lines that `fields` add to the array written by the serializer.
pub open spec fn element_lines(unit: Seq<char>, n: nat, fields: Seq<Field>) -> Seq<char>
    decreases fields.len(),
{
    if fields.len() == 0 {
        Seq::empty()
    } else {
        element_lines(unit, n, fields.drop_last()) + element_line(
            unit,
            n,
            nesting(fields.drop_last()),
            fields.last(),
        )
    }
}

/// The lines that write one position of an array: a literal as it is, a
/// value slot as the member that holds it, an array of its own between
/// `[]any{` and `},`, one step deeper.
pub open spec fn wire_line(unit: Seq<char>, n: nat, wire: Wire) -> Seq<char>
    decreases wire, 1nat,
{
    match wire {
        Wire::Literal(s) => line(unit, n, "\""@ + s + "\","@),
        Wire::Slot(name) => line(unit, n, "v."@ + name + ","@),
        Wire::Nested(inner) => line(unit, n, "[]any{"@) + wire_lines(unit, n + 1, inner) + line(
            unit,
            n,
            "},"@,
        ),
    }
}

/// The lines that write the positions of an array, one after the other.
pub open spec fn wire_lines(unit: Seq<char>, n: nat, wires: Seq<Wire>) -> Seq<char>
    decreases wires, 0nat,
{
    if wires.len() == 0 {
        Seq::empty()
    } else {
        wire_lines(unit, n, wires.drop_last()) + wire_line(unit, n, wires.last())
    }
}

/// The lines of two lists of fields in a row are those of the first, then
/// those of the second, as deep as the first leaves ranges open.
pub proof fn lemma_element_lines_concat(unit: Seq<char>, n: nat, a: Seq<Field>, b: Seq<Field>)
    requires
        nesting(a) >= 0,
    ensures
        element_lines(unit, n, a + b) == element_lines(unit, n, a) + element_lines(
            unit,
            (n + nesting(a)) as nat,
            b,
        ),
    decreases b.len(),
{
    if b.len() == 0 {
        assert(a + b =~= a);
        assert(element_lines(unit, n, a) + Seq::<char>::empty() =~= element_lines(unit, n, a));
    } else {
        let init = b.drop_last();
        assert((a + b).drop_last() =~= a + init);
        assert((a + b).last() == b.last());
        lemma_element_lines_concat(unit, n, a, init);
        lemma_nesting_concat(a, init);
        let deeper = (n + nesting(a)) as nat;
        assert(element_line(unit, n, nesting(a + init), b.last()) == element_line(
            unit,
            deeper,
            nesting(init),
            b.last(),
        ));
        lemma_written_2(
            element_lines(unit, n, a),
            element_lines(unit, deeper, init),
            element_line(unit, deeper, nesting(init), b.last()),
        );
    }
}

/// The lines of a single field.
pub proof fn lemma_element_lines_one(unit: Seq<char>, n: nat, field: Field)
    ensures
        element_lines(unit, n, seq![field]) == element_line(unit, n, 0, field),
{
    let one = seq![field];
    assert(one.drop_last() =~= Seq::<Field>::empty());
    assert(one.last() == field);
    assert(nesting(Seq::<Field>::empty()) == 0);
    assert(element_lines(unit, n, Seq::<Field>::empty()) =~= Seq::<char>::empty());
    assert(Seq::<char>::empty() + element_line(unit, n, 0, field) =~= element_line(
        unit,
        n,
        0,
        field,
    ));
}

/// The lines that the fields of the items of a tuple add to the array of
/// the serializer write what the items are on the wire.
pub proof fn lemma_element_lines_items(unit: Seq<char>, n: nat, items: Seq<Schema>, start: nat)
    ensures
        element_lines(unit, n, tuple_fields_from(items, start)) == wire_lines(
            unit,
            n,
            wire_shape(items, start),
        ),
    decreases items, 0nat,
{
    if items.len() > 0 {
        let init = items.drop_last();
        let position = start + positions(init);
        let a = tuple_fields_from(init, start);
        let b = item_fields(items.last(), position);
        lemma_tuple_fields_well_nested(init, start);
        lemma_element_lines_concat(unit, n, a, b);
        lemma_element_lines_items(unit, n, init, start);
        lemma_element_lines_item(unit, n, items.last(), position);
        let wires = wire_shape(items, start);
        assert(wires.drop_last() =~= wire_shape(init, start));
        assert(wires.last() == item_wire(items.last(), position));
    }
}

/// The lines that the fields of one item add to the array of the
/// serializer write what the item is on the wire.
pub proof fn lemma_element_lines_item(unit: Seq<char>, n: nat, item: Schema, position: nat)
    ensures
        element_lines(unit, n, item_fields(item, position)) == wire_line(
            unit,
            n,
            item_wire(item, position),
        ),
    decreases item, 1nat,
{
    if is_flattened(item) {
        let nested = item->ArrayTuple_prefix_items;
        let inner = tuple_fields_from(nested, position);
        let first = seq![Field::FlattenStart];
        let last = seq![Field::FlattenEnd];
        assert(item_fields(item, position) == first + inner + last);
        assert(nesting(Seq::<Field>::empty()) == 0);
        assert(nesting(first) == 1) by {
            assert(first.drop_last() =~= Seq::<Field>::empty());
            assert(first.last() == Field::FlattenStart);
        }
        lemma_tuple_fields_well_nested(nested, position);
        lemma_nesting_concat(first, inner);
        lemma_element_lines_concat(unit, n, first + inner, last);
        lemma_element_lines_concat(unit, n, first, inner);
        lemma_element_lines_one(unit, n, Field::FlattenStart);
        lemma_element_lines_one(unit, n + 1, Field::FlattenEnd);
        lemma_element_lines_items(unit, n + 1, nested, position);
    } else {
        match item {
            Schema::Const { sconst, .. } => {
                lemma_element_lines_one(unit, n, Field::Literal(sconst));
            },
            _ => {
                let name = match item.title() {
                    Some(t) => t,
                    None => placeholder(position),
                };
                lemma_element_lines_one(unit, n, Field::Normal { name, schema: item });
            },
        }
    }
}

/// The serializer of a tuple writes the array that the tuple stands for:
/// every item in its place, a literal as its value, a flattened tuple as an
/// array of its own.
pub proof fn lemma_serializer_writes_tuple(unit: Seq<char>, n: nat, items: Seq<Schema>)
    ensures
        element_lines(unit, n, tuple_fields(items)) == wire_lines(unit, n, wire_shape(items, 0)),
{
    lemma_element_lines_items(unit, n, items, 0);
}

/// The struct for a tuple: one member for each value slot.
pub open spec fn tuple_struct(unit: Seq<char>, n: nat, members: Seq<char>) -> Seq<char> {
    block_head(unit, n, "struct"@) + members + block_tail(unit, n)
}

/// The constructor for a tuple: it takes the value slots in their order
/// and returns the struct that holds them.
pub open spec fn tuple_constructor(
    unit: Seq<char>,
    n: nat,
    name: Seq<char>,
    params: Seq<char>,
    values: Seq<char>,
) -> Seq<char> {
    line(unit, n, constructor_head(name)) + params + (block_head(
        unit,
        n,
        constructor_body(name),
    ) + block_head(unit, n + 1, constructor_value(name))) + values + (block_tail(unit, n + 1)
        + block_tail(unit, n))
}

/// The serializer for a tuple: it writes the array that the tuple stands
/// for, every position in its place.
pub open spec fn tuple_serializer(unit: Seq<char>, n: nat, name: Seq<char>, elements: Seq<char>) -> Seq<
    char,
> {
    (block_head(unit, n, serializer_head(name)) + line(
        unit,
        n + 1,
        "return shimjson.Marshal([]any{"@,
    )) + elements + (line(unit, n + 1, "})"@) + block_tail(unit, n))
}

/// What follows `type Name ` for a tuple with the given fields: a struct,
/// its constructor and its serializer.
pub open spec fn tuple_text(unit: Seq<char>, n: nat, name: Seq<char>, fields: Seq<Field>) -> Result<
    Seq<char>,
    Failure,
> {
    match field_lines(unit, n + 1, fields, ""@) {
        Err(e) => Err(e),
        Ok(members) => match field_lines(unit, n + 1, fields, ","@) {
            Err(e) => Err(e),
            Ok(params) => Ok(
                tuple_struct(unit, n, members) + tuple_constructor(
                    unit,
                    n,
                    name,
                    params,
                    value_lines(unit, n + 2, fields),
                ) + tuple_serializer(unit, n, name, element_lines(unit, n + 2, fields)),
            ),
        },
    }
}

/// The result of rendering a tuple. Only a tuple that admits no additional
/// items can be rendered, and only where a declaration can stand.
pub open spec fn tuple_result(
    unit: Seq<char>,
    n: nat,
    name: Option<Seq<char>>,
    additional_items: bool,
    prefix_items: Seq<Schema>,
) -> Result<Seq<char>, Failure> {
    if additional_items {
        Err(Failure::TupleItems)
    } else {
        match name {
            None => Err(Failure::TuplePosition),
            Some(name) => tuple_text(unit, n, name, tuple_fields(prefix_items)),
        }
    }
}

/// No more ranges are open than there are fields.
pub proof fn lemma_nesting_bound(fields: Seq<Field>)
    ensures
        nesting(fields) <= fields.len(),
    decreases fields.len(),
{
    if fields.len() > 0 {
        lemma_nesting_bound(fields.drop_last());
    }
}

/// Writes the lines that declare the value slots among `fields`.
fn write_fields(buf: &mut CodegenBuf, fields: &Vec<TupleField>, sep: &str) -> (r: Result<
    (),
    CodegenError,
>)
    ensures
        final(buf).unit() == old(buf).unit(),
        final(buf).depth() == old(buf).depth(),
        match field_lines(old(buf).unit(), old(buf).depth(), fields_view(fields@), sep@) {
            Ok(t) => r is Ok && final(buf)@ == old(buf)@ + t,
            Err(f) => r matches Err(e) && e@ == f,
        },
{
    let ghost unit = buf.unit();
    let ghost n = buf.depth();
    let ghost all = fields_view(fields@);
    let mut i: usize = 0;
    assert(all.take(0) =~= Seq::<Field>::empty());
    assert(buf@ + Seq::<char>::empty() =~= buf@);
    while i < fields.len()
        invariant
            0 <= i <= fields.len(),
            all == fields_view(fields@),
            buf.unit() == unit,
            buf.depth() == n,
            unit == old(buf).unit(),
            n == old(buf).depth(),
            match field_lines(unit, n, all.take(i as int), sep@) {
                Ok(t) => buf@ == old(buf)@ + t,
                Err(_) => false,
            },
        decreases fields.len() - i,
    {
        let ghost done = field_lines(unit, n, all.take(i as int), sep@)->Ok_0;
        proof {
            assert(all.take(i + 1).drop_last() =~= all.take(i as int));
            assert(all.take(i + 1).last() == fields@[i as int]@);
        }
        match &fields[i] {
            TupleField::Normal { name, schema } => {
                match go_type(schema) {
                    Err(e) => {
                        proof {
                            lemma_field_lines_fails(unit, n, all, sep@, i + 1);
                        }
                        return Err(e);
                    },
                    Ok(ty) => {
                        write_field(buf, name.as_str(), ty.as_str(), sep);
                        proof {
                            lemma_written_2(
                                old(buf)@,
                                done,
                                line(unit, n, field_text(name@, ty@, sep@)),
                            );
                        }
                    },
                }
            },
            _ => {},
        }
        i = i + 1;
    }
    assert(all.take(all.len() as int) =~= all);
    Ok(())
}

/// Writes the lines that pass the value slots among `fields` on.
fn write_values(buf: &mut CodegenBuf, fields: &Vec<TupleField>)
    ensures
        final(buf).unit() == old(buf).unit(),
        final(buf).depth() == old(buf).depth(),
        final(buf)@ == old(buf)@ + value_lines(
            old(buf).unit(),
            old(buf).depth(),
            fields_view(fields@),
        ),
{
    let ghost unit = buf.unit();
    let ghost n = buf.depth();
    let ghost all = fields_view(fields@);
    let mut i: usize = 0;
    assert(all.take(0) =~= Seq::<Field>::empty());
    assert(buf@ + Seq::<char>::empty() =~= buf@);
    while i < fields.len()
        invariant
            0 <= i <= fields.len(),
            all == fields_view(fields@),
            buf.unit() == unit,
            buf.depth() == n,
            buf@ == old(buf)@ + value_lines(unit, n, all.take(i as int)),
        decreases fields.len() - i,
    {
        let ghost done = value_lines(unit, n, all.take(i as int));
        proof {
            assert(all.take(i + 1).drop_last() =~= all.take(i as int));
            assert(all.take(i + 1).last() == fields@[i as int]@);
        }
        match &fields[i] {
            TupleField::Normal { name, .. } => {
                let text = name.clone().concat(",");
                buf.writeln(text.as_str());
                proof {
                    lemma_written_2(old(buf)@, done, line(unit, n, name@ + ","@));
                }
            },
            _ => {
                assert(done + Seq::<char>::empty() =~= done);
            },
        }
        i = i + 1;
    }
    assert(all.take(all.len() as int) =~= all);
}

/// Writes the lines that `fields` add to the array of the serializer.
fn write_elements(buf: &mut CodegenBuf, fields: &Vec<TupleField>)
    requires
        well_nested(fields_view(fields@)),
        old(buf).depth() <= u64::MAX + 2,
    ensures
        final(buf).unit() == old(buf).unit(),
        final(buf).depth() == old(buf).depth(),
        final(buf)@ == old(buf)@ + element_lines(
            old(buf).unit(),
            old(buf).depth(),
            fields_view(fields@),
        ),
{
    let ghost unit = buf.unit();
    let ghost n = buf.depth();
    let ghost all = fields_view(fields@);
    let mut i: usize = 0;
    assert(all.take(0) =~= Seq::<Field>::empty());
    assert(buf@ + Seq::<char>::empty() =~= buf@);
    while i < fields.len()
        invariant
            0 <= i <= fields.len(),
            all == fields_view(fields@),
            well_nested(all),
            n <= u64::MAX + 2,
            buf.unit() == unit,
            buf.depth() == n + nesting(all.take(i as int)),
            buf@ == old(buf)@ + element_lines(unit, n, all.take(i as int)),
        decreases fields.len() - i,
    {
        let ghost done = element_lines(unit, n, all.take(i as int));
        let ghost open = nesting(all.take(i as int));
        proof {
            assert(all.take(i + 1).drop_last() =~= all.take(i as int));
            assert(all.take(i + 1).last() == fields@[i as int]@);
            lemma_nesting_bound(all.take(i as int));
            assert(nesting(all.take(i as int)) >= 0);
            assert(nesting(all.take(i + 1)) >= 0);
        }
        match &fields[i] {
            TupleField::Const(sconst) => {
                let mut text = "\"".to_owned();
                text.append(sconst);
                text.append("\",");
                buf.writeln(text.as_str());
            },
            TupleField::StartIndent => {
                buf.writeln("[]any{");
                buf.indent();
            },
            TupleField::EndIndent => {
                buf.unindent();
                buf.writeln("},");
            },
            TupleField::Normal { name, .. } => {
                let mut text = "v.".to_owned();
                text.append(name.as_str());
                text.append(",");
                buf.writeln(text.as_str());
            },
        }
        proof {
            lemma_written_2(old(buf)@, done, element_line(unit, n, open, fields@[i as int]@));
        }
        i = i + 1;
    }
    assert(all.take(all.len() as int) =~= all);
}

/// Renders a tuple as a struct with one member for each value slot, a
/// constructor that takes the value slots in their order, and a serializer
/// that writes the array.
///
/// Go has no tuples, so a struct stands for the tuple. The literals of the
/// tuple are no members: the serializer writes them out at their positions.
pub(crate) fn render_tuple(
    buf: &mut CodegenBuf,
    name: Option<&str>,
    additional_items: bool,
    prefix_items: &Vec<OpenApiSchema>,
) -> (r: Result<(), CodegenError>)
    requires
        old(buf).depth() <= u64::MAX,
    ensures
        final(buf).unit() == old(buf).unit(),
        match tuple_result(
            old(buf).unit(),
            old(buf).depth(),
            opt_name(name),
            additional_items,
            schemas_view(*prefix_items),
        ) {
            Ok(t) => r is Ok && final(buf)@ == old(buf)@ + t && final(buf).depth() == old(
                buf,
            ).depth(),
            Err(f) => r matches Err(e) && e@ == f,
        },
{
    if additional_items {
        return Err(CodegenError::TupleItems);
    }
    let Some(name) = name else {
        return Err(CodegenError::TuplePosition);
    };
    let fields = build_tuple_fields(prefix_items);
    let ghost unit = buf.unit();
    let ghost n = buf.depth();
    let ghost all = fields_view(fields@);
    proof {
        lemma_tuple_fields_well_nested(schemas_view(*prefix_items), 0);
    }

    // Struct definition.
    buf.open_block("struct");
    write_fields(buf, &fields, "")?;
    buf.close_block();
    let ghost members = field_lines(unit, n + 1, all, ""@)->Ok_0;
    proof {
        lemma_written_3(
            old(buf)@,
            block_head(unit, n, "struct"@),
            members,
            block_tail(unit, n),
        );
    }
    let ghost after_struct = buf@;

    // Constructor function.
    write_constructor_head(buf, name);
    buf.indent();
    write_fields(buf, &fields, ",")?;
    buf.unindent();
    open_constructor_body(buf, name);
    write_values(buf, &fields);
    close_constructor_body(buf);
    let ghost params = field_lines(unit, n + 1, all, ","@)->Ok_0;
    proof {
        lemma_written_5(
            after_struct,
            line(unit, n, constructor_head(name@)),
            params,
            block_head(unit, n, constructor_body(name@)) + block_head(
                unit,
                n + 1,
                constructor_value(name@),
            ),
            value_lines(unit, n + 2, all),
            block_tail(unit, n + 1) + block_tail(unit, n),
        );
    }
    let ghost after_constructor = buf@;

    // Serializer.
    open_serializer(buf, name, "return shimjson.Marshal([]any{");
    write_elements(buf, &fields);
    close_serializer(buf);
    proof {
        lemma_written_3(
            after_constructor,
            block_head(unit, n, serializer_head(name@)) + line(
                unit,
                n + 1,
                "return shimjson.Marshal([]any{"@,
            ),
            element_lines(unit, n + 2, all),
            line(unit, n + 1, "})"@) + block_tail(unit, n),
        );
        lemma_written_3(
            old(buf)@,
            tuple_struct(unit, n, members),
            tuple_constructor(unit, n, name@, params, value_lines(unit, n + 2, all)),
            tuple_serializer(unit, n, name@, element_lines(unit, n + 2, all)),
        );
    }
    Ok(())
}

} // verus!
