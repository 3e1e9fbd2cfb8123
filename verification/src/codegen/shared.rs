//! What every renderer shares: the casing of names, and the linearization
//! of a tuple into fields.

use vstd::prelude::*;
use crate::codegen::{schemas_view, OpenApiSchema, Schema};
use crate::util::text::{
    char_is_uppercase,
    char_to_lowercase,
    char_to_uppercase,
    chars_of,
    decimal,
    increment,
    is_uppercase_char,
    lemma_successor_counts,
    lowercase_of,
    push_char,
    push_chars,
    uppercase_of,
};

verus! {

/// The name with its leading run of uppercase characters in lowercase.
///
/// Each leading character is replaced by its lowercase mapping while it is
/// uppercase. The first character that is not uppercase ends the run for
/// good: it and all that follows are kept as they are.
pub open spec fn lower_camel(s: Seq<char>) -> Seq<char>
    decreases s.len(),
{
    if s.len() == 0 {
        s
    } else if is_uppercase_char(s[0]) {
        lowercase_of(s[0]) + lower_camel(s.drop_first())
    } else {
        s
    }
}

/// Lowercases the leading run of uppercase characters of `input`, to turn
/// the name of a type into the name of a variable.
pub fn lower_camel_case(input: &str) -> (s: String)
    ensures
        s@ == lower_camel(input@),
{
    let x = chars_of(input);
    let mut s = String::new();
    let mut i: usize = 0;
    assert(x@.skip(0) =~= x@);
    while i < x.len() && char_is_uppercase(x[i])
        invariant
            0 <= i <= x.len(),
            s@ + lower_camel(x@.skip(i as int)) == lower_camel(x@),
        decreases x.len() - i,
    {
        let lower = char_to_lowercase(x[i]);
        let ghost before = s@;
        push_chars(&mut s, &lower);
        proof {
            let rest = x@.skip(i as int);
            assert(rest[0] == x@[i as int]);
            assert(rest.drop_first() =~= x@.skip(i + 1));
            assert(s@ + lower_camel(x@.skip(i + 1)) =~= before + lower_camel(rest));
        }
        i = i + 1;
    }
    let ghost done = s@;
    let ghost rest = x@.skip(i as int);
    proof {
        if i < x.len() {
            assert(rest[0] == x@[i as int]);
        }
        assert(lower_camel(rest) == rest);
    }
    let mut j: usize = i;
    while j < x.len()
        invariant
            i <= j <= x.len(),
            s@ == done + x@.subrange(i as int, j as int),
        decreases x.len() - j,
    {
        push_char(&mut s, x[j]);
        assert(done + x@.subrange(i as int, j + 1) =~= (done + x@.subrange(
            i as int,
            j as int,
        )).push(x@[j as int]));
        j = j + 1;
    }
    assert(x@.subrange(i as int, x@.len() as int) =~= rest);
    s
}

/// The name without its leading `$` characters.
pub open spec fn strip_sigils(s: Seq<char>) -> Seq<char>
    decreases s.len(),
{
    if s.len() > 0 && s[0] == '$' {
        strip_sigils(s.drop_first())
    } else {
        s
    }
}

/// The segments of `s` between underscores, joined, each with its first
/// character replaced by its uppercase mapping. `at_start` says whether the
/// first character of `s` begins a segment.
pub open spec fn capitalize_segments(s: Seq<char>, at_start: bool) -> Seq<char>
    decreases s.len(),
{
    if s.len() == 0 {
        s
    } else if s[0] == '_' {
        capitalize_segments(s.drop_first(), true)
    } else if at_start {
        uppercase_of(s[0]) + capitalize_segments(s.drop_first(), false)
    } else {
        seq![s[0]] + capitalize_segments(s.drop_first(), false)
    }
}

/// The exported identifier for a wire name in snake case.
pub open spec fn upper_camel(s: Seq<char>) -> Seq<char> {
    capitalize_segments(strip_sigils(s), true)
}

/// Derives an exported identifier from a wire name: strips the leading `$`
/// characters, capitalizes the first character of each segment between
/// underscores, and removes the underscores.
pub fn snake_to_camel_case(input: &str) -> (s: String)
    ensures
        s@ == upper_camel(input@),
{
    let x = chars_of(input);
    let mut i: usize = 0;
    assert(x@.skip(0) =~= x@);
    while i < x.len() && x[i] == '$'
        invariant
            0 <= i <= x.len(),
            strip_sigils(x@.skip(i as int)) == strip_sigils(x@),
        decreases x.len() - i,
    {
        proof {
            let rest = x@.skip(i as int);
            assert(rest[0] == x@[i as int]);
            assert(rest.drop_first() =~= x@.skip(i + 1));
        }
        i = i + 1;
    }
    let ghost body = x@.skip(i as int);
    proof {
        if i < x.len() {
            assert(body[0] == x@[i as int]);
        }
        assert(strip_sigils(body) == body);
        assert(body.skip(0) =~= body);
    }
    let mut s = String::new();
    let mut at_start = true;
    let mut j: usize = i;
    while j < x.len()
        invariant
            i <= j <= x.len(),
            body == x@.skip(i as int),
            s@ + capitalize_segments(body.skip(j - i), at_start) == capitalize_segments(body, true),
        decreases x.len() - j,
    {
        let c: char = x[j];
        proof {
            let rest = body.skip(j - i);
            assert(rest[0] == c);
            assert(rest.drop_first() =~= body.skip(j + 1 - i));
        }
        let ghost before = s@;
        if c == '_' {
            at_start = true;
        } else if at_start {
            let upper = char_to_uppercase(c);
            push_chars(&mut s, &upper);
            at_start = false;
            assert(s@ + capitalize_segments(body.skip(j + 1 - i), false) =~= before + (uppercase_of(c)
                + capitalize_segments(body.skip(j + 1 - i), false)));
        } else {
            push_char(&mut s, c);
            assert(s@ + capitalize_segments(body.skip(j + 1 - i), false) =~= before + (seq![c]
                + capitalize_segments(body.skip(j + 1 - i), false)));
        }
        j = j + 1;
    }
    assert(s@ + Seq::<char>::empty() =~= s@);
    s
}

/// The model of a [`TupleField`].
pub enum Field {
    /// A value slot, with the name of the member that holds it.
    Normal { name: Seq<char>, schema: Schema },
    /// A literal, written out as it is at its position.
    Literal(Seq<char>),
    /// The start of the items of a flattened nested tuple.
    FlattenStart,
    /// The end of the items of a flattened nested tuple.
    FlattenEnd,
}

/// One element of the linearization of a tuple.
#[derive(Debug)]
pub enum TupleField<'a> {
    /// A value slot. The name is the title of the item, or a placeholder
    /// made from its position.
    Normal { name: String, schema: &'a OpenApiSchema },
    /// A literal. It is no member of the constructed type, but is written
    /// out at this position when the tuple is serialized.
    Const(&'a str),
    /// Opens the range of a flattened nested tuple: its items follow as
    /// members of the enclosing type, and are wrapped in an array of their
    /// own again when the tuple is serialized.
    StartIndent,
    /// Closes the range that the last open `StartIndent` began.
    EndIndent,
}

impl<'a> View for TupleField<'a> {
    type V = Field;

    open spec fn view(&self) -> Field {
        match self {
            TupleField::Normal { name, schema } => Field::Normal { name: name@, schema: schema@ },
            TupleField::Const(s) => Field::Literal(s@),
            TupleField::StartIndent => Field::FlattenStart,
            TupleField::EndIndent => Field::FlattenEnd,
        }
    }
}

/// The models of a list of fields.
pub open spec fn fields_view(fields: Seq<TupleField>) -> Seq<Field> {
    Seq::new(fields.len(), |i: int| fields[i]@)
}

/// The name of a value slot without a title: `f` and its position.
pub open spec fn placeholder(position: nat) -> Seq<char> {
    seq!['f'] + decimal(position)
}

/// Whether an item is a nested tuple whose items are spliced into the
/// enclosing tuple.
pub open spec fn is_flattened(item: Schema) -> bool {
    item matches Schema::ArrayTuple { flatten, .. } && flatten
}

/// The number of positions that `item` takes up: one, and those of its
/// items if it is flattened.
pub open spec fn item_positions(item: Schema) -> nat
    decreases item, 1nat,
{
    match item {
        Schema::ArrayTuple { flatten: true, prefix_items, .. } => positions(prefix_items) + 1,
        _ => 1,
    }
}

/// The number of positions that `items` take up.
pub open spec fn positions(items: Seq<Schema>) -> nat
    decreases items, 0nat,
{
    if items.len() == 0 {
        0
    } else {
        positions(items.drop_last()) + item_positions(items.last())
    }
}

/// The fields of one item that starts at `position`.
pub open spec fn item_fields(item: Schema, position: nat) -> Seq<Field>
    decreases item, 1nat,
{
    match item {
        Schema::Const { sconst, .. } => seq![Field::Literal(sconst)],
        Schema::ArrayTuple { flatten: true, prefix_items, .. } => seq![Field::FlattenStart]
            + tuple_fields_from(prefix_items, position) + seq![Field::FlattenEnd],
        _ => seq![
            Field::Normal {
                name: match item.title() {
                    Some(t) => t,
                    None => placeholder(position),
                },
                schema: item,
            },
        ],
    }
}

/// The fields of `items`, the first of which stands at position `start`.
pub open spec fn tuple_fields_from(items: Seq<Schema>, start: nat) -> Seq<Field>
    decreases items, 0nat,
{
    if items.len() == 0 {
        Seq::empty()
    } else {
        tuple_fields_from(items.drop_last(), start) + item_fields(
            items.last(),
            start + positions(items.drop_last()),
        )
    }
}

/// The linearization of the prefix items of a tuple.
///
/// A literal gives a `Literal`. A nested tuple marked for flattening gives
/// its own linearization between `FlattenStart` and `FlattenEnd`. Every
/// other item gives a `Normal`, named by its title or, without one, by its
/// position. Positions count from zero; every item takes one, a flattened
/// tuple after its items.
pub open spec fn tuple_fields(items: Seq<Schema>) -> Seq<Field> {
    tuple_fields_from(items, 0)
}

/// How many flatten ranges are open after `fields`: the starts less the
/// ends.
pub open spec fn nesting(fields: Seq<Field>) -> int
    decreases fields.len(),
{
    if fields.len() == 0 {
        0
    } else {
        nesting(fields.drop_last()) + match fields.last() {
            Field::FlattenStart => 1int,
            Field::FlattenEnd => -1int,
            _ => 0int,
        }
    }
}

/// Whether the flatten markers of `fields` pair up: no range ends before it
/// starts, and none is left open.
pub open spec fn well_nested(fields: Seq<Field>) -> bool {
    &&& nesting(fields) == 0
    &&& forall|k: int| 0 <= k <= fields.len() ==> nesting(#[trigger] fields.take(k)) >= 0
}

/// The ranges open after two lists in a row are those of both.
pub proof fn lemma_nesting_concat(a: Seq<Field>, b: Seq<Field>)
    ensures
        nesting(a + b) == nesting(a) + nesting(b),
    decreases b.len(),
{
    if b.len() == 0 {
        assert(a + b =~= a);
    } else {
        assert((a + b).drop_last() =~= a + b.drop_last());
        assert((a + b).last() == b.last());
        lemma_nesting_concat(a, b.drop_last());
    }
}

/// Two lists whose markers pair up make one whose markers pair up.
pub proof fn lemma_well_nested_concat(a: Seq<Field>, b: Seq<Field>)
    requires
        well_nested(a),
        well_nested(b),
    ensures
        well_nested(a + b),
{
    lemma_nesting_concat(a, b);
    assert forall|k: int| 0 <= k <= (a + b).len() implies nesting(#[trigger] (a + b).take(k))
        >= 0 by {
        if k <= a.len() {
            assert((a + b).take(k) =~= a.take(k));
        } else {
            assert((a + b).take(k) =~= a + b.take(k - a.len()));
            lemma_nesting_concat(a, b.take(k - a.len()));
        }
    }
}

/// The fields of any items have markers that pair up.
pub proof fn lemma_tuple_fields_well_nested(items: Seq<Schema>, start: nat)
    ensures
        well_nested(tuple_fields_from(items, start)),
    decreases items, 0nat,
{
    if items.len() == 0 {
        let e = Seq::<Field>::empty();
        assert forall|k: int| 0 <= k <= e.len() implies nesting(#[trigger] e.take(k)) >= 0 by {
            assert(e.take(k) =~= e);
        }
    } else {
        lemma_tuple_fields_well_nested(items.drop_last(), start);
        lemma_item_fields_well_nested(items.last(), start + positions(items.drop_last()));
        lemma_well_nested_concat(
            tuple_fields_from(items.drop_last(), start),
            item_fields(items.last(), start + positions(items.drop_last())),
        );
    }
}

/// The fields of any one item have markers that pair up.
pub proof fn lemma_item_fields_well_nested(item: Schema, position: nat)
    ensures
        well_nested(item_fields(item, position)),
    decreases item, 1nat,
{
    let fields = item_fields(item, position);
    if is_flattened(item) {
        let inner = tuple_fields_from(item->ArrayTuple_prefix_items, position);
        lemma_tuple_fields_well_nested(item->ArrayTuple_prefix_items, position);
        let open = seq![Field::FlattenStart];
        let close = seq![Field::FlattenEnd];
        assert(fields == open + inner + close);
        assert(nesting(Seq::<Field>::empty()) == 0);
        assert(nesting(open) == 1) by {
            assert(open.drop_last() =~= Seq::<Field>::empty());
            assert(open.last() == Field::FlattenStart);
        }
        assert(nesting(close) == -1) by {
            assert(close.drop_last() =~= Seq::<Field>::empty());
            assert(close.last() == Field::FlattenEnd);
        }
        lemma_nesting_concat(open, inner);
        lemma_nesting_concat(open + inner, close);
        assert forall|k: int| 0 <= k <= fields.len() implies nesting(#[trigger] fields.take(k))
            >= 0 by {
            if k == 0 {
                assert(fields.take(0) =~= Seq::<Field>::empty());
            } else if k <= inner.len() + 1 {
                assert(fields.take(k) =~= open + inner.take(k - 1));
                lemma_nesting_concat(open, inner.take(k - 1));
            } else {
                assert(fields.take(k) =~= fields);
            }
        }
    } else {
        assert(fields.len() == 1);
        assert(fields.drop_last() =~= Seq::<Field>::empty());
        assert(nesting(Seq::<Field>::empty()) == 0);
        assert(!(fields.last() is FlattenStart) && !(fields.last() is FlattenEnd));
        assert(nesting(fields) == 0);
        assert forall|k: int| 0 <= k <= fields.len() implies nesting(#[trigger] fields.take(k))
            >= 0 by {
            if k == 0 {
                assert(fields.take(0) =~= Seq::<Field>::empty());
            } else {
                assert(fields.take(k) =~= fields);
            }
        }
    }
}

/// One position of the array that a tuple is serialized to.
pub enum Wire {
    /// A literal, written as it is.
    Literal(Seq<char>),
    /// The value of the member of this name.
    Slot(Seq<char>),
    /// An array of its own.
    Nested(Seq<Wire>),
}

/// What an item of a tuple is on the wire: a literal its value, a
/// flattened tuple the array of its own items, any other item the value of
/// its member.
pub open spec fn item_wire(item: Schema, position: nat) -> Wire
    decreases item, 1nat,
{
    match item {
        Schema::Const { sconst, .. } => Wire::Literal(sconst),
        Schema::ArrayTuple { flatten: true, prefix_items, .. } => Wire::Nested(
            wire_shape(prefix_items, position),
        ),
        _ => Wire::Slot(
            match item.title() {
                Some(t) => t,
                None => placeholder(position),
            },
        ),
    }
}

/// What the items of a tuple are on the wire: one position for each item.
pub open spec fn wire_shape(items: Seq<Schema>, start: nat) -> Seq<Wire>
    decreases items, 0nat,
{
    if items.len() == 0 {
        Seq::empty()
    } else {
        wire_shape(items.drop_last(), start).push(
            item_wire(items.last(), start + positions(items.drop_last())),
        )
    }
}

/// What one field does to the arrays that are being written, the
/// innermost last: a value slot and a literal are appended to the innermost
/// array, a start marker opens a new array, an end marker closes the
/// innermost array and appends it to the one that holds it.
pub open spec fn rewrap_step(open: Seq<Seq<Wire>>, field: Field) -> Seq<Seq<Wire>> {
    match field {
        Field::Normal { name, .. } => open.drop_last().push(open.last().push(Wire::Slot(name))),
        Field::Literal(s) => open.drop_last().push(open.last().push(Wire::Literal(s))),
        Field::FlattenStart => open.push(Seq::empty()),
        Field::FlattenEnd => {
            let outer = open.drop_last();
            outer.drop_last().push(outer.last().push(Wire::Nested(open.last())))
        },
    }
}

/// What the fields do, one after the other, to the arrays that are being
/// written.
pub open spec fn rewrap_onto(open: Seq<Seq<Wire>>, fields: Seq<Field>) -> Seq<Seq<Wire>>
    decreases fields.len(),
{
    if fields.len() == 0 {
        open
    } else {
        rewrap_step(rewrap_onto(open, fields.drop_last()), fields.last())
    }
}

/// The array that a serializer writes for the fields: every flatten range
/// wrapped in an array of its own again.
pub open spec fn rewrapped(fields: Seq<Field>) -> Seq<Wire> {
    rewrap_onto(seq![Seq::empty()], fields).last()
}

/// Writing two lists of fields in a row is writing the first, then the
/// second.
pub proof fn lemma_rewrap_concat(open: Seq<Seq<Wire>>, a: Seq<Field>, b: Seq<Field>)
    ensures
        rewrap_onto(open, a + b) == rewrap_onto(rewrap_onto(open, a), b),
    decreases b.len(),
{
    if b.len() == 0 {
        assert(a + b =~= a);
    } else {
        assert((a + b).drop_last() =~= a + b.drop_last());
        assert((a + b).last() == b.last());
        lemma_rewrap_concat(open, a, b.drop_last());
    }
}

/// Writing one field is one step.
pub proof fn lemma_rewrap_one(open: Seq<Seq<Wire>>, field: Field)
    ensures
        rewrap_onto(open, seq![field]) == rewrap_step(open, field),
{
    let one = seq![field];
    assert(one.drop_last() =~= Seq::<Field>::empty());
    assert(one.last() == field);
    assert(rewrap_onto(open, Seq::<Field>::empty()) == open);
}

/// Writing the fields of the items of a tuple appends to the innermost
/// array what the items are on the wire.
pub proof fn lemma_rewrap_items(open: Seq<Seq<Wire>>, items: Seq<Schema>, start: nat)
    requires
        open.len() >= 1,
    ensures
        rewrap_onto(open, tuple_fields_from(items, start)) == open.drop_last().push(
            open.last() + wire_shape(items, start),
        ),
    decreases items, 0nat,
{
    if items.len() == 0 {
        assert(open.last() + Seq::<Wire>::empty() =~= open.last());
        assert(open.drop_last().push(open.last()) =~= open);
    } else {
        let init = items.drop_last();
        let position = start + positions(init);
        lemma_rewrap_concat(
            open,
            tuple_fields_from(init, start),
            item_fields(items.last(), position),
        );
        lemma_rewrap_items(open, init, start);
        let mid = open.drop_last().push(open.last() + wire_shape(init, start));
        lemma_rewrap_item(mid, items.last(), position);
        assert(mid.drop_last() =~= open.drop_last());
        assert(mid.last().push(item_wire(items.last(), position)) =~= open.last() + wire_shape(
            items,
            start,
        ));
    }
}

/// Writing the fields of one item appends to the innermost array what the
/// item is on the wire.
pub proof fn lemma_rewrap_item(open: Seq<Seq<Wire>>, item: Schema, position: nat)
    requires
        open.len() >= 1,
    ensures
        rewrap_onto(open, item_fields(item, position)) == open.drop_last().push(
            open.last().push(item_wire(item, position)),
        ),
    decreases item, 1nat,
{
    if is_flattened(item) {
        let nested = item->ArrayTuple_prefix_items;
        let inner = tuple_fields_from(nested, position);
        let first = seq![Field::FlattenStart];
        let last = seq![Field::FlattenEnd];
        assert(item_fields(item, position) == first + inner + last);
        lemma_rewrap_concat(open, first + inner, last);
        lemma_rewrap_concat(open, first, inner);
        lemma_rewrap_one(open, Field::FlattenStart);
        let opened = open.push(Seq::<Wire>::empty());
        lemma_rewrap_items(opened, nested, position);
        let filled = opened.drop_last().push(opened.last() + wire_shape(nested, position));
        assert(opened.drop_last() =~= open);
        assert(opened.last() + wire_shape(nested, position) =~= wire_shape(nested, position));
        lemma_rewrap_one(filled, Field::FlattenEnd);
        assert(filled.drop_last() =~= open);
        assert(filled.last() == wire_shape(nested, position));
    } else {
        match item {
            Schema::Const { sconst, .. } => {
                lemma_rewrap_one(open, Field::Literal(sconst));
            },
            _ => {
                let name = match item.title() {
                    Some(t) => t,
                    None => placeholder(position),
                };
                lemma_rewrap_one(open, Field::Normal { name, schema: item });
            },
        }
    }
}

/// The serializer of a tuple writes the array that the tuple stands for:
/// wrapping every flatten range of the linearization in an array of its
/// own again gives, position by position, what the items are on the wire.
pub proof fn lemma_rewrap_reproduces_tuple(items: Seq<Schema>)
    ensures
        rewrapped(tuple_fields(items)) == wire_shape(items, 0),
{
    let open = seq![Seq::<Wire>::empty()];
    lemma_rewrap_items(open, items, 0);
    assert(open.last() + wire_shape(items, 0) =~= wire_shape(items, 0));
}

/// The array that a tuple stands for has one position for each item: the
/// position of a literal holds its value, the position of a flattened
/// tuple holds an array with one position for each of its own items, every
/// other position holds the value of a member.
pub proof fn lemma_wire_shape_positions(items: Seq<Schema>, start: nat, i: int)
    requires
        0 <= i < items.len(),
    ensures
        wire_shape(items, start).len() == items.len(),
        wire_shape(items, start)[i] == item_wire(items[i], start + positions(items.take(i))),
        items[i] matches Schema::Const { sconst, .. } ==> wire_shape(items, start)[i]
            == Wire::Literal(sconst),
        is_flattened(items[i]) ==> (wire_shape(items, start)[i] matches Wire::Nested(inner)
            && inner.len() == items[i]->ArrayTuple_prefix_items.len()),
    decreases items, 0nat,
{
    lemma_wire_shape_len(items, start);
    if i == items.len() - 1 {
        assert(items.take(i) =~= items.drop_last());
    } else {
        lemma_wire_shape_positions(items.drop_last(), start, i);
        assert(items.drop_last().take(i) =~= items.take(i));
    }
    if is_flattened(items[i]) {
        lemma_wire_shape_len(
            items[i]->ArrayTuple_prefix_items,
            start + positions(items.take(i)),
        );
    }
}

/// The array that a tuple stands for has one position for each item.
pub proof fn lemma_wire_shape_len(items: Seq<Schema>, start: nat)
    ensures
        wire_shape(items, start).len() == items.len(),
    decreases items.len(),
{
    if items.len() > 0 {
        lemma_wire_shape_len(items.drop_last(), start);
    }
}

/// The number of value slots among the fields.
pub open spec fn count_normal(fields: Seq<Field>) -> nat
    decreases fields.len(),
{
    if fields.len() == 0 {
        0
    } else {
        count_normal(fields.drop_last()) + if fields.last() is Normal {
            1nat
        } else {
            0nat
        }
    }
}

/// The number of literals among the fields.
pub open spec fn count_literal(fields: Seq<Field>) -> nat
    decreases fields.len(),
{
    if fields.len() == 0 {
        0
    } else {
        count_literal(fields.drop_last()) + if fields.last() is Literal {
            1nat
        } else {
            0nat
        }
    }
}

/// Linearizing keeps the number of elements: where no item is flattened,
/// the fields are value slots and literals only, one for each item.
pub proof fn lemma_unflattened_count(items: Seq<Schema>, start: nat)
    requires
        forall|i: int| 0 <= i < items.len() ==> !is_flattened(#[trigger] items[i]),
    ensures
        tuple_fields_from(items, start).len() == items.len(),
        count_normal(tuple_fields_from(items, start)) + count_literal(
            tuple_fields_from(items, start),
        ) == items.len(),
    decreases items.len(),
{
    if items.len() > 0 {
        let init = items.drop_last();
        assert forall|i: int| 0 <= i < init.len() implies !is_flattened(#[trigger] init[i]) by {
            assert(init[i] == items[i]);
        }
        lemma_unflattened_count(init, start);
        assert(!is_flattened(items[items.len() - 1]));
        let one = item_fields(items.last(), start + positions(init));
        assert(one.len() == 1);
        let all = tuple_fields_from(init, start) + one;
        assert(all.drop_last() =~= tuple_fields_from(init, start));
        assert(all.last() == one[0]);
    }
}

fn build_tuple_fields_inner<'a>(
    out: &mut Vec<TupleField<'a>>,
    i: &mut Vec<char>,
    prefix_items: &'a Vec<OpenApiSchema>,
    Ghost(start): Ghost<nat>,
)
    requires
        old(i)@ == decimal(start),
    ensures
        final(i)@ == decimal(start + positions(schemas_view(*prefix_items))),
        fields_view(final(out)@) == fields_view(old(out)@) + tuple_fields_from(
            schemas_view(*prefix_items),
            start,
        ),
    decreases prefix_items,
{
    let ghost items = schemas_view(*prefix_items);
    let mut k: usize = 0;
    assert(items.take(0) =~= Seq::<Schema>::empty());
    assert(fields_view(out@) + Seq::<Field>::empty() =~= fields_view(out@));
    while k < prefix_items.len()
        invariant
            0 <= k <= prefix_items.len(),
            items == schemas_view(*prefix_items),
            i@ == decimal(start + positions(items.take(k as int))),
            fields_view(out@) == fields_view(old(out)@) + tuple_fields_from(
                items.take(k as int),
                start,
            ),
        decreases prefix_items.len() - k,
    {
        let item = &prefix_items[k];
        let ghost before = fields_view(out@);
        let ghost position = start + positions(items.take(k as int));
        proof {
            assert(items.take(k + 1).drop_last() =~= items.take(k as int));
            assert(items.take(k + 1).last() == item@);
        }
        match item {
            OpenApiSchema::Const { sconst, .. } => {
                out.push(TupleField::Const(sconst.as_str()));
                assert(fields_view(out@) =~= before + item_fields(item@, position));
            },
            OpenApiSchema::ArrayTuple { x_turbopuffer_flatten: true, prefix_items: nested, .. } => {
                out.push(TupleField::StartIndent);
                assert(fields_view(out@) =~= before + seq![Field::FlattenStart]);
                build_tuple_fields_inner(out, i, nested, Ghost(position));
                let ghost inner = fields_view(out@);
                out.push(TupleField::EndIndent);
                assert(fields_view(out@) =~= inner + seq![Field::FlattenEnd]);
                assert(fields_view(out@) =~= before + item_fields(item@, position));
            },
            _ => {
                let name = match item.title() {
                    Some(name) => name.to_owned(),
                    None => {
                        let mut name = "f".to_owned();
                        proof {
                            reveal_strlit("f");
                        }
                        push_chars(&mut name, i);
                        assert(name@ =~= placeholder(position));
                        name
                    },
                };
                out.push(TupleField::Normal { name, schema: item });
                assert(fields_view(out@) =~= before + item_fields(item@, position));
            },
        }
        proof {
            lemma_successor_counts((position + item_positions(item@) - 1) as nat);
        }
        increment(i);
        k = k + 1;
    }
    assert(items.take(items.len() as int) =~= items);
}

/// Linearizes the prefix items of a tuple into its fields.
pub fn build_tuple_fields<'a>(prefix_items: &'a Vec<OpenApiSchema>) -> (fields: Vec<TupleField<'a>>)
    ensures
        fields_view(fields@) == tuple_fields(schemas_view(*prefix_items)),
{
    let mut fields: Vec<TupleField<'a>> = Vec::new();
    let mut position: Vec<char> = Vec::new();
    position.push('0');
    assert(position@ =~= decimal(0));
    build_tuple_fields_inner(&mut fields, &mut position, prefix_items, Ghost(0));
    assert(fields_view(Seq::<TupleField>::empty()) + tuple_fields(schemas_view(*prefix_items))
        =~= tuple_fields(schemas_view(*prefix_items)));
    fields
}

} // verus!
