//! Lifting: the tuple alternatives of a union become named schemas of their
//! own, and the union refers to them.
//!
//! Targets without sum types render a union of references as a closed set
//! of named types. A tuple alternative has no name, so it is given one,
//! made from the name of the union and the single literal of the tuple.

use vstd::prelude::*;
use crate::codegen::error::{CodegenError, Failure};
use crate::codegen::schemas::{has_name, lemma_put, put, sorted, SchemaMap};
use crate::codegen::{ref_to, schemas_view, OpenApiSchema, Schema, SCHEMA_REF_PREFIX};
use crate::util::text::{
    concat,
    decimal,
    increment,
    lemma_decimal_injective,
    lemma_decimal_nonempty,
    lemma_successor_counts,
    lex_less,
    push_chars,
};

verus! {

/// What to do with a tuple alternative whose name another one has taken.
#[derive(Debug, Clone, Copy, PartialEq, Eq, Structural)]
pub enum ConflictBehavior {
    /// Leave out the alternatives that are marked as droppable.
    Drop,
    /// Append the first number from 2 on that makes the name unique.
    AppendSuffix,
}

/// The literals among `items`, in order.
pub open spec fn literals(items: Seq<Schema>) -> Seq<Seq<char>>
    decreases items.len(),
{
    if items.len() == 0 {
        Seq::empty()
    } else {
        match items.last() {
            Schema::Const { sconst, .. } => literals(items.drop_last()).push(sconst),
            _ => literals(items.drop_last()),
        }
    }
}

/// Whether an alternative is lifted: a tuple with exactly one literal, its
/// discriminant.
pub open spec fn qualifies(alt: Schema) -> bool {
    alt matches Schema::ArrayTuple { prefix_items, .. } && literals(prefix_items).len() == 1
}

/// Whether an alternative is a tuple marked as droppable.
pub open spec fn droppable(alt: Schema) -> bool {
    alt matches Schema::ArrayTuple { drop_on_conflict, .. } && drop_on_conflict
}

/// The alternatives that are processed: under `Drop` those that are not
/// droppable, else all.
pub open spec fn kept(alts: Seq<Schema>, policy: ConflictBehavior) -> Seq<Schema>
    decreases alts.len(),
{
    if alts.len() == 0 {
        Seq::empty()
    } else if policy == ConflictBehavior::Drop && droppable(alts.last()) {
        kept(alts.drop_last(), policy)
    } else {
        kept(alts.drop_last(), policy).push(alts.last())
    }
}

/// The discriminant of a tuple that qualifies.
pub open spec fn discriminant(alt: Schema) -> Seq<char> {
    literals(alt->ArrayTuple_prefix_items)[0]
}

/// The name that a tuple asks for: the name of the union, followed by the
/// variant name of the tuple or, without one, by its discriminant.
pub open spec fn base_name(parent: Seq<char>, alt: Schema) -> Seq<char> {
    parent + match alt->ArrayTuple_variant_name {
        Some(v) => v,
        None => discriminant(alt),
    }
}

/// The title of the reference that takes the place of a tuple: the name of
/// the union followed by the discriminant, whatever the variant name.
pub open spec fn display_title(parent: Seq<char>, alt: Schema) -> Seq<char> {
    parent + discriminant(alt)
}

/// The `k`-th name tried for `base`: `base` itself, then `base2`, `base3`
/// and so on.
pub open spec fn candidate(base: Seq<char>, k: nat) -> Seq<char> {
    if k <= 1 {
        base
    } else {
        base + decimal(k)
    }
}

/// Whether `k` is the first candidate number whose name is free in `taken`.
pub open spec fn is_first_free(base: Seq<char>, taken: Seq<(Seq<char>, Schema)>, k: nat) -> bool {
    &&& k >= 1
    &&& !has_name(taken, candidate(base, k))
    &&& forall|j: nat| 1 <= j < k ==> has_name(taken, #[trigger] candidate(base, j))
}

/// The first candidate number whose name is free in `taken`.
pub open spec fn first_free(base: Seq<char>, taken: Seq<(Seq<char>, Schema)>) -> nat {
    choose|k: nat| is_first_free(base, taken, k)
}

/// The name under which a tuple is lifted, given the schemas lifted so far.
pub open spec fn lifted_name(
    parent: Seq<char>,
    alt: Schema,
    policy: ConflictBehavior,
    lifted: Seq<(Seq<char>, Schema)>,
) -> Seq<char> {
    let base = base_name(parent, alt);
    match policy {
        ConflictBehavior::Drop => base,
        ConflictBehavior::AppendSuffix => candidate(base, first_free(base, lifted)),
    }
}

/// The reference that takes the place of a tuple lifted under `name`.
pub open spec fn reference_to(name: Seq<char>, parent: Seq<char>, alt: Schema) -> Schema {
    Schema::Ref { sref: ref_to(name), title: Some(display_title(parent, alt)) }
}

/// Lifts the tuples among the alternatives `alts` of the union `parent`,
/// one after the other. `lifted` holds the schemas lifted before. Gives the
/// alternatives as they stand afterwards and all the schemas lifted, or the
/// name that two lifted schemas would share.
pub open spec fn lift_alternatives(
    parent: Seq<char>,
    alts: Seq<Schema>,
    policy: ConflictBehavior,
    lifted: Seq<(Seq<char>, Schema)>,
) -> Result<(Seq<Schema>, Seq<(Seq<char>, Schema)>), Failure>
    decreases alts.len(),
{
    if alts.len() == 0 {
        Ok((Seq::empty(), lifted))
    } else {
        match lift_alternatives(parent, alts.drop_last(), policy, lifted) {
            Err(e) => Err(e),
            Ok((done, lifted)) => {
                let alt = alts.last();
                if qualifies(alt) {
                    let name = lifted_name(parent, alt, policy, lifted);
                    if has_name(lifted, name) {
                        Err(Failure::DuplicateSchemaName(name))
                    } else {
                        Ok((done.push(reference_to(name, parent, alt)), put(lifted, name, alt)))
                    }
                } else {
                    Ok((done.push(alt), lifted))
                }
            },
        }
    }
}

/// Lifts the tuples out of every union among `entries`, in the order of the
/// entries. Gives the entries as they stand afterwards and the schemas
/// lifted, or the name that two lifted schemas would share.
pub open spec fn lift_entries(entries: Seq<(Seq<char>, Schema)>, policy: ConflictBehavior) -> Result<
    (Seq<(Seq<char>, Schema)>, Seq<(Seq<char>, Schema)>),
    Failure,
>
    decreases entries.len(),
{
    if entries.len() == 0 {
        Ok((Seq::empty(), Seq::empty()))
    } else {
        match lift_entries(entries.drop_last(), policy) {
            Err(e) => Err(e),
            Ok((done, lifted)) => {
                let (name, schema) = entries.last();
                match schema {
                    Schema::AnyOf { any_of } => match lift_alternatives(
                        name,
                        kept(any_of, policy),
                        policy,
                        lifted,
                    ) {
                        Err(e) => Err(e),
                        Ok((alts, lifted)) => Ok(
                            (done.push((name, Schema::AnyOf { any_of: alts })), lifted),
                        ),
                    },
                    _ => Ok((done.push((name, schema)), lifted)),
                }
            },
        }
    }
}

/// Adds the lifted schemas to the collection, in the order of their names.
/// Fails with the first name that the collection already has.
pub open spec fn merge(base: Seq<(Seq<char>, Schema)>, lifted: Seq<(Seq<char>, Schema)>) -> Result<
    Seq<(Seq<char>, Schema)>,
    Failure,
>
    decreases lifted.len(),
{
    if lifted.len() == 0 {
        Ok(base)
    } else {
        match merge(base, lifted.drop_last()) {
            Err(e) => Err(e),
            Ok(m) => {
                let (name, schema) = lifted.last();
                if has_name(m, name) {
                    Err(Failure::DuplicateSchemaName(name))
                } else {
                    Ok(put(m, name, schema))
                }
            },
        }
    }
}

/// The collection after lifting: every union has its tuples with a single
/// literal replaced by references, and the tuples stand in the collection
/// under their new names. Fails with a name that two schemas would share.
pub open spec fn lifted_schemas(entries: Seq<(Seq<char>, Schema)>, policy: ConflictBehavior) -> Result<
    Seq<(Seq<char>, Schema)>,
    Failure,
> {
    match lift_entries(entries, policy) {
        Err(e) => Err(e),
        Ok((rewritten, lifted)) => merge(rewritten, lifted),
    }
}

/// Only one number is the first free one.
pub proof fn lemma_first_free_unique(base: Seq<char>, taken: Seq<(Seq<char>, Schema)>, k: nat)
    requires
        is_first_free(base, taken, k),
    ensures
        first_free(base, taken) == k,
{
    let c = first_free(base, taken);
    if c < k {
        assert(has_name(taken, candidate(base, c)));
    } else if k < c {
        assert(has_name(taken, candidate(base, k)));
    }
}

/// Different candidate numbers give different names.
pub proof fn lemma_candidate_injective(base: Seq<char>, j: nat, k: nat)
    requires
        1 <= j,
        1 <= k,
        candidate(base, j) == candidate(base, k),
    ensures
        j == k,
{
    lemma_decimal_nonempty(j);
    lemma_decimal_nonempty(k);
    if j >= 2 && k >= 2 {
        assert(decimal(j) =~= (base + decimal(j)).skip(base.len() as int));
        assert(decimal(k) =~= (base + decimal(k)).skip(base.len() as int));
        lemma_decimal_injective(j, k);
    } else if j >= 2 {
        assert((base + decimal(j)).len() > base.len());
    } else if k >= 2 {
        assert((base + decimal(k)).len() > base.len());
    }
}

/// No more candidates can be taken than there are names: if the first `k`
/// candidates are all taken, `k` is at most the number of entries.
pub proof fn lemma_candidates_bounded(base: Seq<char>, taken: Seq<(Seq<char>, Schema)>, k: nat)
    requires
        forall|j: nat| 1 <= j <= k ==> has_name(taken, #[trigger] candidate(base, j)),
    ensures
        k <= taken.len(),
{
    let tried = Seq::new(k, |j: int| candidate(base, (j + 1) as nat));
    let names = Seq::new(taken.len(), |i: int| taken[i].0);
    assert(tried.no_duplicates()) by {
        assert forall|a: int, b: int| 0 <= a < tried.len() && 0 <= b < tried.len() && a != b implies tried[a]
            != tried[b] by {
            if tried[a] == tried[b] {
                lemma_candidate_injective(base, (a + 1) as nat, (b + 1) as nat);
            }
        }
    }
    tried.unique_seq_to_set();
    names.lemma_cardinality_of_set();
    assert(tried.to_set().subset_of(names.to_set())) by {
        assert forall|n: Seq<char>| tried.to_set().contains(n) implies names.to_set().contains(n) by {
            let j = choose|j: int| 0 <= j < tried.len() && tried[j] == n;
            assert(has_name(taken, candidate(base, (j + 1) as nat)));
            let i = choose|i: int| 0 <= i < taken.len() && #[trigger] taken[i].0 == n;
            assert(names[i] == n);
        }
    }
    vstd::set_lib::lemma_len_subset(tried.to_set(), names.to_set());
}

/// A name above all names of a sorted collection is stored at its end.
pub proof fn lemma_put_after(m: Seq<(Seq<char>, Schema)>, name: Seq<char>, schema: Schema)
    requires
        sorted(m),
        forall|j: int| 0 <= j < m.len() ==> lex_less(#[trigger] m[j].0, name),
    ensures
        put(m, name, schema) == m.push((name, schema)),
{
    crate::codegen::schemas::lemma_slot_exists(m, name);
    assert(crate::codegen::schemas::is_slot(m, name, m.len() as int));
    crate::codegen::schemas::lemma_slot_unique(
        m,
        name,
        m.len() as int,
        crate::codegen::schemas::slot(m, name),
    );
    assert(m.insert(m.len() as int, (name, schema)) =~= m.push((name, schema)));
}

/// Whether lifting leaves an alternative alone: it is no tuple with a
/// single literal, and it is not dropped.
pub open spec fn settled_alternative(alt: Schema, policy: ConflictBehavior) -> bool {
    !qualifies(alt) && !(policy == ConflictBehavior::Drop && droppable(alt))
}

/// Whether lifting leaves a schema alone: if it is a union, all its
/// alternatives are settled.
pub open spec fn settled_schema(s: Schema, policy: ConflictBehavior) -> bool {
    s matches Schema::AnyOf { any_of } ==> forall|j: int|
        0 <= j < any_of.len() ==> settled_alternative(#[trigger] any_of[j], policy)
}

/// Whether lifting has nothing to do in a collection.
pub open spec fn settled(m: Seq<(Seq<char>, Schema)>, policy: ConflictBehavior) -> bool {
    forall|i: int| 0 <= i < m.len() ==> settled_schema((#[trigger] m[i]).1, policy)
}

/// Alternatives that are all settled are all kept, and lifting them
/// changes nothing.
pub proof fn lemma_settled_alternatives(
    parent: Seq<char>,
    alts: Seq<Schema>,
    policy: ConflictBehavior,
    lifted: Seq<(Seq<char>, Schema)>,
)
    requires
        forall|j: int| 0 <= j < alts.len() ==> settled_alternative(#[trigger] alts[j], policy),
    ensures
        kept(alts, policy) == alts,
        lift_alternatives(parent, alts, policy, lifted) == Ok::<
            (Seq<Schema>, Seq<(Seq<char>, Schema)>),
            Failure,
        >((alts, lifted)),
    decreases alts.len(),
{
    if alts.len() == 0 {
        assert(kept(alts, policy) =~= alts);
        assert(alts =~= Seq::<Schema>::empty());
    } else {
        let init = alts.drop_last();
        assert forall|j: int| 0 <= j < init.len() implies settled_alternative(
            #[trigger] init[j],
            policy,
        ) by {
            assert(init[j] == alts[j]);
        }
        lemma_settled_alternatives(parent, init, policy, lifted);
        assert(settled_alternative(alts[alts.len() - 1], policy));
        assert(init.push(alts.last()) =~= alts);
    }
}

/// Lifting changes nothing in a collection in which it has nothing to do.
pub proof fn lemma_settled_entries(entries: Seq<(Seq<char>, Schema)>, policy: ConflictBehavior)
    requires
        settled(entries, policy),
    ensures
        lift_entries(entries, policy) == Ok::<
            (Seq<(Seq<char>, Schema)>, Seq<(Seq<char>, Schema)>),
            Failure,
        >((entries, Seq::empty())),
    decreases entries.len(),
{
    if entries.len() == 0 {
        assert(entries =~= Seq::<(Seq<char>, Schema)>::empty());
    } else {
        let init = entries.drop_last();
        assert forall|i: int| 0 <= i < init.len() implies settled_schema(
            (#[trigger] init[i]).1,
            policy,
        ) by {
            assert(init[i] == entries[i]);
        }
        lemma_settled_entries(init, policy);
        let (name, schema) = entries.last();
        assert(settled_schema(entries[entries.len() - 1].1, policy));
        match schema {
            Schema::AnyOf { any_of } => {
                lemma_settled_alternatives(name, any_of, policy, Seq::empty());
            },
            _ => {},
        }
        assert(init.push((name, schema)) =~= entries);
    }
}

/// Lifting is a no-op where it has nothing to do: in a collection whose
/// unions hold no tuple with a single literal and, under `Drop`, no
/// droppable tuple, it succeeds and leaves the collection as it is.
pub proof fn lemma_lift_settled_is_noop(
    entries: Seq<(Seq<char>, Schema)>,
    policy: ConflictBehavior,
)
    requires
        settled(entries, policy),
    ensures
        lifted_schemas(entries, policy) == Ok::<Seq<(Seq<char>, Schema)>, Failure>(entries),
{
    lemma_settled_entries(entries, policy);
}

/// What is kept of the alternatives holds no droppable tuple under `Drop`,
/// and nothing that was not there.
pub proof fn lemma_kept_settles(alts: Seq<Schema>, policy: ConflictBehavior)
    ensures
        forall|j: int|
            0 <= j < kept(alts, policy).len() ==> !(policy == ConflictBehavior::Drop && droppable(
                #[trigger] kept(alts, policy)[j],
            )),
    decreases alts.len(),
{
    if alts.len() > 0 {
        lemma_kept_settles(alts.drop_last(), policy);
        let init = kept(alts.drop_last(), policy);
        let all = kept(alts, policy);
        assert forall|j: int| 0 <= j < all.len() implies !(policy == ConflictBehavior::Drop
            && droppable(#[trigger] all[j])) by {
            if j < init.len() {
                assert(all[j] == init[j]);
            }
        }
    }
}

/// Whether every schema of the collection is a tuple.
pub open spec fn all_tuples(m: Seq<(Seq<char>, Schema)>) -> bool {
    forall|i: int| 0 <= i < m.len() ==> (#[trigger] m[i]).1 is ArrayTuple
}

/// Storing a schema in a sorted collection leaves every entry either the
/// new one or one that was there.
pub proof fn lemma_put_entries(m: Seq<(Seq<char>, Schema)>, name: Seq<char>, schema: Schema)
    requires
        sorted(m),
    ensures
        forall|i: int|
            0 <= i < put(m, name, schema).len() ==> (#[trigger] put(m, name, schema)[i]) == (
                name,
                schema,
            ) || exists|k: int| 0 <= k < m.len() && m[k] == put(m, name, schema)[i],
{
    crate::codegen::schemas::lemma_slot_exists(m, name);
    let at = crate::codegen::schemas::slot(m, name);
    let r = put(m, name, schema);
    assert forall|i: int| 0 <= i < r.len() implies (#[trigger] r[i]) == (name, schema) || exists|
        k: int,
    |
        0 <= k < m.len() && m[k] == r[i] by {
        if at < m.len() && m[at].0 == name {
            if i != at {
                assert(m[i] == r[i]);
            }
        } else {
            if i < at {
                assert(m[i] == r[i]);
            } else if i > at {
                assert(m[i - 1] == r[i]);
            }
        }
    }
}

/// After lifting the alternatives of a union, all of them are settled, and
/// the schemas lifted are sorted tuples if they were before.
pub proof fn lemma_lift_alternatives_settles(
    parent: Seq<char>,
    alts: Seq<Schema>,
    policy: ConflictBehavior,
    lifted: Seq<(Seq<char>, Schema)>,
)
    requires
        sorted(lifted),
        all_tuples(lifted),
        forall|j: int|
            0 <= j < alts.len() ==> !(policy == ConflictBehavior::Drop && droppable(
                #[trigger] alts[j],
            )),
        lift_alternatives(parent, alts, policy, lifted) is Ok,
    ensures
        ({
            let (done, all) = lift_alternatives(parent, alts, policy, lifted)->Ok_0;
            &&& sorted(all)
            &&& all_tuples(all)
            &&& done.len() == alts.len()
            &&& forall|j: int|
                0 <= j < done.len() ==> settled_alternative(#[trigger] done[j], policy)
        }),
    decreases alts.len(),
{
    if alts.len() > 0 {
        let init = alts.drop_last();
        assert forall|j: int| 0 <= j < init.len() implies !(policy == ConflictBehavior::Drop
            && droppable(#[trigger] init[j])) by {
            assert(init[j] == alts[j]);
        }
        lemma_lift_alternatives_settles(parent, init, policy, lifted);
        let (done, all) = lift_alternatives(parent, init, policy, lifted)->Ok_0;
        let alt = alts.last();
        assert(alt == alts[alts.len() - 1]);
        if qualifies(alt) {
            let name = lifted_name(parent, alt, policy, all);
            lemma_put(all, name, alt);
            lemma_put_entries(all, name, alt);
            let next = put(all, name, alt);
            assert forall|i: int| 0 <= i < next.len() implies (#[trigger] next[i]).1 is ArrayTuple by {
                if next[i] != (name, alt) {
                    let k = choose|k: int| 0 <= k < all.len() && all[k] == next[i];
                    assert(all[k].1 is ArrayTuple);
                }
            }
            let out = done.push(reference_to(name, parent, alt));
            assert forall|j: int| 0 <= j < out.len() implies settled_alternative(
                #[trigger] out[j],
                policy,
            ) by {
                if j < done.len() {
                    assert(out[j] == done[j]);
                }
            }
        } else {
            let out = done.push(alt);
            assert forall|j: int| 0 <= j < out.len() implies settled_alternative(
                #[trigger] out[j],
                policy,
            ) by {
                if j < done.len() {
                    assert(out[j] == done[j]);
                }
            }
        }
    } else {
        assert(lift_alternatives(parent, alts, policy, lifted)->Ok_0.0.len() == 0);
    }
}

/// After lifting the entries of a collection, the entries keep their names
/// and are settled, and the schemas lifted are sorted tuples.
pub proof fn lemma_lift_entries_settles(entries: Seq<(Seq<char>, Schema)>, policy: ConflictBehavior)
    requires
        lift_entries(entries, policy) is Ok,
    ensures
        ({
            let (done, lifted) = lift_entries(entries, policy)->Ok_0;
            &&& sorted(lifted)
            &&& all_tuples(lifted)
            &&& done.len() == entries.len()
            &&& forall|i: int| 0 <= i < done.len() ==> (#[trigger] done[i]).0 == entries[i].0
            &&& settled(done, policy)
        }),
    decreases entries.len(),
{
    if entries.len() > 0 {
        let init = entries.drop_last();
        lemma_lift_entries_settles(init, policy);
        let (done, lifted) = lift_entries(init, policy)->Ok_0;
        let (name, schema) = entries.last();
        assert(entries.last() == entries[entries.len() - 1]);
        match schema {
            Schema::AnyOf { any_of } => {
                lemma_kept_settles(any_of, policy);
                lemma_lift_alternatives_settles(name, kept(any_of, policy), policy, lifted);
                let (alts, all) = lift_alternatives(
                    name,
                    kept(any_of, policy),
                    policy,
                    lifted,
                )->Ok_0;
                let out = done.push((name, Schema::AnyOf { any_of: alts }));
                assert forall|i: int| 0 <= i < out.len() implies settled_schema(
                    (#[trigger] out[i]).1,
                    policy,
                ) by {
                    if i < done.len() {
                        assert(out[i] == done[i]);
                    }
                }
                assert forall|i: int| 0 <= i < out.len() implies (#[trigger] out[i]).0
                    == entries[i].0 by {
                    if i < done.len() {
                        assert(out[i] == done[i]);
                        assert(init[i] == entries[i]);
                    }
                }
            },
            _ => {
                let out = done.push((name, schema));
                assert forall|i: int| 0 <= i < out.len() implies settled_schema(
                    (#[trigger] out[i]).1,
                    policy,
                ) by {
                    if i < done.len() {
                        assert(out[i] == done[i]);
                    }
                }
                assert forall|i: int| 0 <= i < out.len() implies (#[trigger] out[i]).0
                    == entries[i].0 by {
                    if i < done.len() {
                        assert(out[i] == done[i]);
                        assert(init[i] == entries[i]);
                    }
                }
            },
        }
    } else {
        let (done, lifted) = lift_entries(entries, policy)->Ok_0;
        assert(done.len() == 0 && lifted.len() == 0);
    }
}

/// Adding tuples to a sorted, settled collection leaves it sorted and
/// settled.
pub proof fn lemma_merge_settles(
    base: Seq<(Seq<char>, Schema)>,
    lifted: Seq<(Seq<char>, Schema)>,
    policy: ConflictBehavior,
)
    requires
        sorted(base),
        settled(base, policy),
        all_tuples(lifted),
        merge(base, lifted) is Ok,
    ensures
        sorted(merge(base, lifted)->Ok_0),
        settled(merge(base, lifted)->Ok_0, policy),
    decreases lifted.len(),
{
    if lifted.len() > 0 {
        let init = lifted.drop_last();
        assert forall|i: int| 0 <= i < init.len() implies (#[trigger] init[i]).1 is ArrayTuple by {
            assert(init[i] == lifted[i]);
        }
        lemma_merge_settles(base, init, policy);
        let m = merge(base, init)->Ok_0;
        let (name, schema) = lifted.last();
        assert(lifted.last() == lifted[lifted.len() - 1]);
        lemma_put(m, name, schema);
        lemma_put_entries(m, name, schema);
        let r = put(m, name, schema);
        assert forall|i: int| 0 <= i < r.len() implies settled_schema(
            (#[trigger] r[i]).1,
            policy,
        ) by {
            if r[i] != (name, schema) {
                let k = choose|k: int| 0 <= k < m.len() && m[k] == r[i];
                assert(settled_schema(m[k].1, policy));
            }
        }
    }
}

/// Lifting leaves nothing to lift: the collection it gives is sorted if
/// the collection it was given is, and none of its unions holds a tuple
/// with a single literal or, under `Drop`, a droppable tuple.
pub proof fn lemma_lifted_is_settled(entries: Seq<(Seq<char>, Schema)>, policy: ConflictBehavior)
    requires
        sorted(entries),
        lifted_schemas(entries, policy) is Ok,
    ensures
        sorted(lifted_schemas(entries, policy)->Ok_0),
        settled(lifted_schemas(entries, policy)->Ok_0, policy),
{
    lemma_lift_entries_settles(entries, policy);
    let (done, lifted) = lift_entries(entries, policy)->Ok_0;
    assert forall|i: int, j: int| 0 <= i < j < done.len() implies lex_less(
        #[trigger] done[i].0,
        #[trigger] done[j].0,
    ) by {
        assert(lex_less(entries[i].0, entries[j].0));
    }
    lemma_merge_settles(done, lifted, policy);
}

/// Lifting is idempotent: on a collection that has been lifted, lifting
/// again under the same policy succeeds and changes nothing.
pub proof fn lemma_lift_idempotent(entries: Seq<(Seq<char>, Schema)>, policy: ConflictBehavior)
    requires
        sorted(entries),
        lifted_schemas(entries, policy) is Ok,
    ensures
        lifted_schemas(lifted_schemas(entries, policy)->Ok_0, policy) == lifted_schemas(
            entries,
            policy,
        ),
{
    lemma_lifted_is_settled(entries, policy);
    lemma_lift_settled_is_noop(lifted_schemas(entries, policy)->Ok_0, policy);
}

/// The single literal among `items`, if there is exactly one.
fn single_literal(items: &Vec<OpenApiSchema>) -> (r: Option<&str>)
    ensures
        match r {
            Some(s) => literals(schemas_view(*items)) == seq![s@],
            None => literals(schemas_view(*items)).len() != 1,
        },
{
    let ghost all = schemas_view(*items);
    let mut found: Option<&str> = None;
    let mut many = false;
    let mut k: usize = 0;
    assert(all.take(0) =~= Seq::<Schema>::empty());
    while k < items.len()
        invariant
            0 <= k <= items.len(),
            all == schemas_view(*items),
            many ==> found is Some && literals(all.take(k as int)).len() >= 2,
            !many ==> match found {
                Some(s) => literals(all.take(k as int)) == seq![s@],
                None => literals(all.take(k as int)).len() == 0,
            },
        decreases items.len() - k,
    {
        proof {
            assert(all.take(k + 1).drop_last() =~= all.take(k as int));
            assert(all.take(k + 1).last() == items@[k as int]@);
        }
        match &items[k] {
            OpenApiSchema::Const { sconst, .. } => {
                if found.is_some() {
                    many = true;
                } else {
                    found = Some(sconst.as_str());
                    assert(literals(all.take(k as int)) =~= Seq::<Seq<char>>::empty());
                    assert(literals(all.take(k + 1)) =~= seq![sconst@]);
                }
            },
            _ => {},
        }
        k = k + 1;
    }
    assert(all.take(all.len() as int) =~= all);
    if many {
        None
    } else {
        found
    }
}

/// The first of `base`, `base2`, `base3`, ... that `lifted` does not hold.
fn unique_name(base: String, lifted: &SchemaMap) -> (name: String)
    ensures
        name@ == candidate(base@, first_free(base@, lifted@)),
{
    if !lifted.contains_key(base.as_str()) {
        proof {
            lemma_first_free_unique(base@, lifted@, 1);
        }
        return base;
    }
    let mut suffix: Vec<char> = Vec::new();
    suffix.push('2');
    assert(suffix@ =~= decimal(2));
    let ghost mut k: nat = 2;
    loop
        invariant
            k >= 2,
            suffix@ == decimal(k),
            forall|j: nat| 1 <= j < k ==> has_name(lifted@, #[trigger] candidate(base@, j)),
            k <= lifted@.len() + 1,
        decreases lifted@.len() + 1 - k,
    {
        let mut new_name = base.clone();
        push_chars(&mut new_name, &suffix);
        assert(new_name@ == candidate(base@, k));
        if !lifted.contains_key(new_name.as_str()) {
            proof {
                lemma_first_free_unique(base@, lifted@, k);
            }
            return new_name;
        }
        proof {
            lemma_candidates_bounded(base@, lifted@, k);
            lemma_successor_counts(k);
            k = k + 1;
        }
        increment(&mut suffix);
    }
}

/// What is kept of the first alternatives begins what is kept of all.
pub proof fn lemma_kept_prefix(alts: Seq<Schema>, policy: ConflictBehavior, k: int)
    requires
        0 <= k <= alts.len(),
    ensures
        kept(alts.take(k), policy).len() <= kept(alts, policy).len(),
        kept(alts, policy).take(kept(alts.take(k), policy).len() as int) == kept(
            alts.take(k),
            policy,
        ),
    decreases alts.len(),
{
    if k == alts.len() {
        assert(alts.take(k) =~= alts);
        assert(kept(alts, policy).take(kept(alts, policy).len() as int) =~= kept(alts, policy));
    } else {
        assert(alts.drop_last().take(k) =~= alts.take(k));
        lemma_kept_prefix(alts.drop_last(), policy, k);
        let n = kept(alts.take(k), policy).len() as int;
        assert(kept(alts, policy).take(n) =~= kept(alts.drop_last(), policy).take(n));
    }
}

/// A failure among the first alternatives is the failure of all.
pub proof fn lemma_lift_alternatives_fails(
    parent: Seq<char>,
    alts: Seq<Schema>,
    policy: ConflictBehavior,
    lifted: Seq<(Seq<char>, Schema)>,
    k: int,
)
    requires
        0 <= k <= alts.len(),
        lift_alternatives(parent, alts.take(k), policy, lifted) is Err,
    ensures
        lift_alternatives(parent, alts, policy, lifted) == lift_alternatives(
            parent,
            alts.take(k),
            policy,
            lifted,
        ),
    decreases alts.len(),
{
    if k == alts.len() {
        assert(alts.take(k) =~= alts);
    } else {
        assert(alts.drop_last().take(k) =~= alts.take(k));
        lemma_lift_alternatives_fails(parent, alts.drop_last(), policy, lifted, k);
    }
}

/// A failure among the first entries is the failure of all.
pub proof fn lemma_lift_entries_fails(
    entries: Seq<(Seq<char>, Schema)>,
    policy: ConflictBehavior,
    k: int,
)
    requires
        0 <= k <= entries.len(),
        lift_entries(entries.take(k), policy) is Err,
    ensures
        lift_entries(entries, policy) == lift_entries(entries.take(k), policy),
    decreases entries.len(),
{
    if k == entries.len() {
        assert(entries.take(k) =~= entries);
    } else {
        assert(entries.drop_last().take(k) =~= entries.take(k));
        lemma_lift_entries_fails(entries.drop_last(), policy, k);
    }
}

/// A failure to add one of the first lifted schemas is the failure of all.
pub proof fn lemma_merge_fails(
    base: Seq<(Seq<char>, Schema)>,
    lifted: Seq<(Seq<char>, Schema)>,
    k: int,
)
    requires
        0 <= k <= lifted.len(),
        merge(base, lifted.take(k)) is Err,
    ensures
        merge(base, lifted) == merge(base, lifted.take(k)),
    decreases lifted.len(),
{
    if k == lifted.len() {
        assert(lifted.take(k) =~= lifted);
    } else {
        assert(lifted.drop_last().take(k) =~= lifted.take(k));
        lemma_merge_fails(base, lifted.drop_last(), k);
    }
}

/// Lifts the tuples among the alternatives of the union called `parent`
/// into `lifted`, and gives the alternatives as they stand afterwards.
fn lift_union(
    parent: &str,
    any_of: &Vec<OpenApiSchema>,
    policy: ConflictBehavior,
    lifted: &mut SchemaMap,
) -> (r: Result<Vec<OpenApiSchema>, CodegenError>)
    ensures
        match lift_alternatives(
            parent@,
            kept(schemas_view(*any_of), policy),
            policy,
            old(lifted)@,
        ) {
            Ok((alts, all)) => r matches Ok(v) && schemas_view(v) == alts && final(lifted)@ == all,
            Err(f) => r matches Err(e) && e@ == f,
        },
{
    let ghost all = schemas_view(*any_of);
    let ghost start = lifted@;
    let mut out: Vec<OpenApiSchema> = Vec::new();
    let mut k: usize = 0;
    assert(all.take(0) =~= Seq::<Schema>::empty());
    assert(schemas_view(out) =~= Seq::<Schema>::empty());
    while k < any_of.len()
        invariant
            0 <= k <= any_of.len(),
            all == schemas_view(*any_of),
            start == old(lifted)@,
            lift_alternatives(parent@, kept(all.take(k as int), policy), policy, start) == Ok::<
                (Seq<Schema>, Seq<(Seq<char>, Schema)>),
                Failure,
            >((schemas_view(out), lifted@)),
        decreases any_of.len() - k,
    {
        let alt = &any_of[k];
        let ghost before = kept(all.take(k as int), policy);
        let ghost done = schemas_view(out);
        proof {
            assert(all.take(k + 1).drop_last() =~= all.take(k as int));
            assert(all.take(k + 1).last() == alt@);
        }
        let dropped = match (policy, alt) {
            (
                ConflictBehavior::Drop,
                OpenApiSchema::ArrayTuple { x_turbopuffer_variant_drop_on_conflict: true, .. },
            ) => true,
            _ => false,
        };
        if !dropped {
            let ghost now = before.push(alt@);
            proof {
                assert(kept(all.take(k + 1), policy) == now);
                assert(now.drop_last() =~= before);
                assert(now.last() == alt@);
            }
            let lifted_as = match alt {
                OpenApiSchema::ArrayTuple { prefix_items, x_turbopuffer_variant_name, .. } => {
                    match single_literal(prefix_items) {
                        Some(sconst) => {
                            let ref_title = concat(parent, sconst);
                            let base = match x_turbopuffer_variant_name {
                                Some(variant_name) => concat(parent, variant_name.as_str()),
                                None => concat(parent, sconst),
                            };
                            assert(literals(schemas_view(*prefix_items))[0] == sconst@);
                            assert(base@ == base_name(parent@, alt@));
                            let name = match policy {
                                ConflictBehavior::AppendSuffix => unique_name(base, lifted),
                                ConflictBehavior::Drop => base,
                            };
                            Some((name, ref_title))
                        },
                        None => None,
                    }
                },
                _ => None,
            };
            match lifted_as {
                Some((name, ref_title)) => {
                    assert(qualifies(alt@));
                    assert(name@ == lifted_name(parent@, alt@, policy, lifted@));
                    if lifted.contains_key(name.as_str()) {
                        proof {
                            lemma_kept_prefix(all, policy, k + 1);
                            assert(kept(all, policy).take(now.len() as int) == now);
                            assert(lift_alternatives(parent@, now, policy, start) == Err::<
                                (Seq<Schema>, Seq<(Seq<char>, Schema)>),
                                Failure,
                            >(Failure::DuplicateSchemaName(name@)));
                            lemma_lift_alternatives_fails(
                                parent@,
                                kept(all, policy),
                                policy,
                                start,
                                now.len() as int,
                            );
                        }
                        return Err(CodegenError::DuplicateSchemaName(name));
                    }
                    let sref = concat(SCHEMA_REF_PREFIX, name.as_str());
                    let _ = lifted.insert(name, alt.clone());
                    out.push(OpenApiSchema::Ref { sref, title: Some(ref_title) });
                    assert(schemas_view(out) =~= done.push(reference_to(name@, parent@, alt@)));
                },
                None => {
                    assert(!qualifies(alt@));
                    out.push(alt.clone());
                    assert(schemas_view(out) =~= done.push(alt@));
                },
            }
        } else {
            assert(kept(all.take(k + 1), policy) == before);
        }
        k = k + 1;
    }
    assert(all.take(all.len() as int) =~= all);
    Ok(out)
}

/// Gives every tuple with a single literal that is an alternative of a
/// top-level union a name and a place of its own in the collection, and
/// puts a reference to it in its place in the union.
///
/// The unions are visited in the order of their names, the alternatives
/// of each in their own order. Under `Drop` the tuples marked as droppable
/// are first taken out of every union. A tuple with no literal, or with
/// more than one, stays where it is. The name of a lifted tuple is the name
/// of its union followed by its variant name or, without one, by its
/// literal; the title of the reference is the name of the union followed by
/// the literal. Under `AppendSuffix` a name that an earlier lifted tuple
/// has taken is followed by the first number from 2 on that makes it new.
///
/// Fails, leaving the collection as it was, when two lifted tuples would
/// share a name or when a lifted tuple would take the name of a schema that
/// the collection already holds.
pub fn extract_any_of_tuples(schemas: &mut SchemaMap, conflict_behavior: ConflictBehavior) -> (r:
    Result<(), CodegenError>)
    ensures
        match lifted_schemas(old(schemas)@, conflict_behavior) {
            Ok(m) => r is Ok && final(schemas)@ == m,
            Err(f) => r matches Err(e) && e@ == f && final(schemas)@ == old(schemas)@,
        },
{
    let ghost entries = schemas@;
    proof {
        use_type_invariant(&*schemas);
    }
    let mut rewritten = SchemaMap::new();
    let mut new_schemas = SchemaMap::new();
    let mut i: usize = 0;
    assert(entries.take(0) =~= Seq::<(Seq<char>, Schema)>::empty());
    while i < schemas.len()
        invariant
            0 <= i <= schemas@.len(),
            entries == schemas@,
            schemas@ == old(schemas)@,
            sorted(entries),
            rewritten@.len() == i,
            forall|j: int| 0 <= j < i ==> #[trigger] rewritten@[j].0 == entries[j].0,
            lift_entries(entries.take(i as int), conflict_behavior) == Ok::<
                (Seq<(Seq<char>, Schema)>, Seq<(Seq<char>, Schema)>),
                Failure,
            >((rewritten@, new_schemas@)),
        decreases schemas@.len() - i,
    {
        let name = schemas.name_at(i);
        let schema = schemas.schema_at(i);
        let ghost done = rewritten@;
        proof {
            assert(entries.take(i + 1).drop_last() =~= entries.take(i as int));
            assert(entries.take(i + 1).last() == entries[i as int]);
        }
        let new_schema = match schema {
            OpenApiSchema::AnyOf { any_of } => {
                match lift_union(name, any_of, conflict_behavior, &mut new_schemas) {
                    Ok(alts) => OpenApiSchema::AnyOf { any_of: alts },
                    Err(e) => {
                        proof {
                            lemma_lift_entries_fails(entries, conflict_behavior, i + 1);
                        }
                        return Err(e);
                    },
                }
            },
            _ => schema.clone(),
        };
        proof {
            use_type_invariant(&rewritten);
            assert forall|j: int| 0 <= j < done.len() implies lex_less(
                #[trigger] done[j].0,
                name@,
            ) by {
                assert(lex_less(entries[j].0, entries[i as int].0));
            }
            lemma_put_after(done, name@, new_schema@);
        }
        let _ = rewritten.insert(name.to_owned(), new_schema);
        i = i + 1;
    }
    assert(entries.take(entries.len() as int) =~= entries);
    let ghost base = rewritten@;
    let ghost lifted = new_schemas@;
    let mut j: usize = 0;
    assert(lifted.take(0) =~= Seq::<(Seq<char>, Schema)>::empty());
    while j < new_schemas.len()
        invariant
            0 <= j <= new_schemas@.len(),
            lifted == new_schemas@,
            schemas@ == old(schemas)@,
            lift_entries(old(schemas)@, conflict_behavior) == Ok::<
                (Seq<(Seq<char>, Schema)>, Seq<(Seq<char>, Schema)>),
                Failure,
            >((base, lifted)),
            merge(base, lifted.take(j as int)) == Ok::<Seq<(Seq<char>, Schema)>, Failure>(
                rewritten@,
            ),
        decreases new_schemas@.len() - j,
    {
        let name = new_schemas.name_at(j);
        proof {
            assert(lifted.take(j + 1).drop_last() =~= lifted.take(j as int));
            assert(lifted.take(j + 1).last() == lifted[j as int]);
        }
        if rewritten.contains_key(name) {
            proof {
                lemma_merge_fails(base, lifted, j + 1);
            }
            return Err(CodegenError::DuplicateSchemaName(name.to_owned()));
        }
        let _ = rewritten.insert(name.to_owned(), new_schemas.schema_at(j).clone());
        j = j + 1;
    }
    assert(lifted.take(lifted.len() as int) =~= lifted);
    *schemas = rewritten;
    Ok(())
}

} // verus!
