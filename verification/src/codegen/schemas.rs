//! The schema collection: schemas by name, kept in the order of their names.

use vstd::prelude::*;
use crate::codegen::{properties_view, OpenApiSchema, Schema};
use crate::util::text::{
    lemma_lex_less_irreflexive,
    lemma_lex_less_total,
    lemma_lex_less_transitive,
    lex_less,
    text_eq,
    text_less,
};

verus! {

/// Whether the entries stand in strictly ascending order of their names.
/// No name then occurs twice.
pub open spec fn sorted(m: Seq<(Seq<char>, Schema)>) -> bool {
    forall|i: int, j: int| 0 <= i < j < m.len() ==> lex_less(#[trigger] m[i].0, #[trigger] m[j].0)
}

/// Whether an entry is called `name`.
pub open spec fn has_name(m: Seq<(Seq<char>, Schema)>, name: Seq<char>) -> bool {
    exists|i: int| 0 <= i < m.len() && #[trigger] m[i].0 == name
}

/// The schema called `name`, if there is one.
pub open spec fn lookup(m: Seq<(Seq<char>, Schema)>, name: Seq<char>) -> Option<Schema> {
    if has_name(m, name) {
        Some(m[choose|i: int| 0 <= i < m.len() && #[trigger] m[i].0 == name].1)
    } else {
        None
    }
}

/// Whether `i` is where `name` belongs: the names before `i` are below
/// `name`, those from `i` on are not.
pub open spec fn is_slot(m: Seq<(Seq<char>, Schema)>, name: Seq<char>, i: int) -> bool {
    &&& 0 <= i <= m.len()
    &&& forall|j: int| 0 <= j < i ==> lex_less(#[trigger] m[j].0, name)
    &&& forall|j: int| i <= j < m.len() ==> !lex_less(#[trigger] m[j].0, name)
}

/// The place where `name` belongs.
pub open spec fn slot(m: Seq<(Seq<char>, Schema)>, name: Seq<char>) -> int {
    choose|i: int| is_slot(m, name, i)
}

/// The collection with `schema` stored under `name`: in place of the entry
/// of that name if there is one, else as a new entry where the name belongs.
pub open spec fn put(m: Seq<(Seq<char>, Schema)>, name: Seq<char>, schema: Schema) -> Seq<
    (Seq<char>, Schema),
> {
    let i = slot(m, name);
    if i < m.len() && m[i].0 == name {
        m.update(i, (name, schema))
    } else {
        m.insert(i, (name, schema))
    }
}

/// A name belongs in one place only.
pub proof fn lemma_slot_unique(m: Seq<(Seq<char>, Schema)>, name: Seq<char>, i: int, j: int)
    requires
        is_slot(m, name, i),
        is_slot(m, name, j),
    ensures
        i == j,
{
    if i < j {
        assert(lex_less(m[i].0, name));
    } else if j < i {
        assert(lex_less(m[j].0, name));
    }
}

/// In a sorted collection every name has its place.
pub proof fn lemma_slot_exists(m: Seq<(Seq<char>, Schema)>, name: Seq<char>)
    requires
        sorted(m),
    ensures
        is_slot(m, name, slot(m, name)),
    decreases m.len(),
{
    if m.len() == 0 {
        assert(is_slot(m, name, 0));
    } else {
        let init = m.drop_last();
        assert(sorted(init)) by {
            assert forall|i: int, j: int| 0 <= i < j < init.len() implies lex_less(
                #[trigger] init[i].0,
                #[trigger] init[j].0,
            ) by {
                assert(init[i] == m[i] && init[j] == m[j]);
            }
        }
        lemma_slot_exists(init, name);
        let k = slot(init, name);
        let last = m.len() - 1;
        if lex_less(m[last].0, name) {
            assert forall|j: int| 0 <= j < m.len() implies lex_less(#[trigger] m[j].0, name) by {
                if j < last {
                    lemma_lex_less_transitive(m[j].0, m[last].0, name);
                }
            }
            assert(is_slot(m, name, m.len() as int));
        } else {
            assert forall|j: int| 0 <= j < k implies lex_less(#[trigger] m[j].0, name) by {
                assert(init[j] == m[j]);
            }
            assert forall|j: int| k <= j < m.len() implies !lex_less(#[trigger] m[j].0, name) by {
                if j < last {
                    assert(init[j] == m[j]);
                }
            }
            assert(is_slot(m, name, k));
        }
    }
}

/// What an entry stored with [`put`] does to a sorted collection: the
/// result is sorted, holds the new schema under its name, and holds under
/// every other name what it held before.
pub proof fn lemma_put(m: Seq<(Seq<char>, Schema)>, name: Seq<char>, schema: Schema)
    requires
        sorted(m),
    ensures
        sorted(put(m, name, schema)),
        lookup(put(m, name, schema), name) == Some(schema),
        forall|n: Seq<char>| n != name ==> lookup(put(m, name, schema), n) == lookup(m, n),
        forall|n: Seq<char>| has_name(put(m, name, schema), n) <==> (n == name || has_name(m, n)),
        put(m, name, schema).len() == m.len() + if has_name(m, name) { 0int } else { 1int },
{
    lemma_slot_exists(m, name);
    let i = slot(m, name);
    let r = put(m, name, schema);
    lemma_lex_less_irreflexive(name);
    assert forall|j: int| i < j < m.len() implies lex_less(name, #[trigger] m[j].0) by {
        lemma_lex_less_total(name, m[j].0);
        if m[j].0 == name {
            assert(lex_less(m[i].0, m[j].0));
        }
    }
    if i < m.len() && m[i].0 == name {
        assert(r[i] == (name, schema));
        assert forall|a: int, b: int| 0 <= a < b < r.len() implies lex_less(
            #[trigger] r[a].0,
            #[trigger] r[b].0,
        ) by {
            assert(r[a].0 == m[a].0 && r[b].0 == m[b].0);
        }
        assert forall|n: Seq<char>| has_name(r, n) <==> (n == name || has_name(m, n)) by {
            if has_name(r, n) {
                let k = choose|k: int| 0 <= k < r.len() && #[trigger] r[k].0 == n;
                assert(m[k].0 == n);
            }
            if has_name(m, n) {
                let k = choose|k: int| 0 <= k < m.len() && #[trigger] m[k].0 == n;
                assert(r[k].0 == n);
            }
            if n == name {
                assert(r[i].0 == n);
            }
        }
        assert(has_name(m, name));
    } else {
        if i < m.len() {
            lemma_lex_less_total(name, m[i].0);
        }
        assert forall|j: int| i <= j < m.len() implies lex_less(name, #[trigger] m[j].0) by {}
        assert(r[i] == (name, schema));
        assert forall|a: int, b: int| 0 <= a < b < r.len() implies lex_less(
            #[trigger] r[a].0,
            #[trigger] r[b].0,
        ) by {
            if b < i {
                assert(r[a] == m[a] && r[b] == m[b]);
            } else if b == i {
                assert(r[a] == m[a]);
            } else if a < i {
                assert(r[a] == m[a] && r[b] == m[b - 1]);
                lemma_lex_less_transitive(m[a].0, name, m[b - 1].0);
            } else if a == i {
                assert(r[b] == m[b - 1]);
            } else {
                assert(r[a] == m[a - 1] && r[b] == m[b - 1]);
            }
        }
        assert forall|n: Seq<char>| has_name(r, n) <==> (n == name || has_name(m, n)) by {
            if has_name(r, n) {
                let k = choose|k: int| 0 <= k < r.len() && #[trigger] r[k].0 == n;
                if k < i {
                    assert(m[k].0 == n);
                } else if k > i {
                    assert(m[k - 1].0 == n);
                }
            }
            if has_name(m, n) {
                let k = choose|k: int| 0 <= k < m.len() && #[trigger] m[k].0 == n;
                if k < i {
                    assert(r[k].0 == n);
                } else {
                    assert(r[k + 1].0 == n);
                }
            }
            if n == name {
                assert(r[i].0 == n);
            }
        }
        assert(!has_name(m, name)) by {
            if has_name(m, name) {
                let k = choose|k: int| 0 <= k < m.len() && #[trigger] m[k].0 == name;
                if k < i {
                    assert(lex_less(m[k].0, name));
                } else {
                    assert(lex_less(name, m[k].0));
                }
            }
        }
    }
    assert(has_name(r, name));
    lemma_lookup_at(r, name, i);
    assert forall|n: Seq<char>| n != name implies lookup(r, n) == lookup(m, n) by {
        if has_name(m, n) {
            let k = choose|k: int| 0 <= k < m.len() && #[trigger] m[k].0 == n;
            lemma_lookup_at(m, n, k);
            if i < m.len() && m[i].0 == name {
                lemma_lookup_at(r, n, k);
            } else if k < i {
                lemma_lookup_at(r, n, k);
            } else {
                assert(r[k + 1] == m[k]);
                lemma_lookup_at(r, n, k + 1);
            }
        }
    }
}

/// In a sorted collection, the entry at `i` is the one found under its name.
pub proof fn lemma_lookup_at(m: Seq<(Seq<char>, Schema)>, name: Seq<char>, i: int)
    requires
        sorted(m),
        0 <= i < m.len(),
        m[i].0 == name,
    ensures
        has_name(m, name),
        lookup(m, name) == Some(m[i].1),
{
    let k = choose|k: int| 0 <= k < m.len() && #[trigger] m[k].0 == name;
    lemma_lex_less_irreflexive(name);
    if k < i {
        assert(lex_less(m[k].0, m[i].0));
    } else if i < k {
        assert(lex_less(m[i].0, m[k].0));
    }
}

/// Schemas by name. The entries are kept, and walked, in ascending order
/// of their names, and no name occurs twice.
#[derive(Debug)]
pub struct SchemaMap {
    entries: Vec<(String, OpenApiSchema)>,
}

impl View for SchemaMap {
    type V = Seq<(Seq<char>, Schema)>;

    /// The entries as pairs of name and schema, in ascending order of name.
    closed spec fn view(&self) -> Seq<(Seq<char>, Schema)> {
        properties_view(self.entries)
    }
}

impl SchemaMap {
    /// Holds of every collection: the entries are sorted by name.
    #[verifier::type_invariant]
    pub open spec fn ordered(&self) -> bool {
        sorted(self@)
    }

    /// An empty collection.
    pub fn new() -> (m: SchemaMap)
        ensures
            m@ == Seq::<(Seq<char>, Schema)>::empty(),
    {
        let m = SchemaMap { entries: Vec::new() };
        assert(m@ =~= Seq::<(Seq<char>, Schema)>::empty());
        m
    }

    /// The number of entries.
    pub fn len(&self) -> (n: usize)
        ensures
            n == self@.len(),
    {
        self.entries.len()
    }

    /// The name of the entry at `i`.
    pub fn name_at(&self, i: usize) -> (name: &str)
        requires
            i < self@.len(),
        ensures
            name@ == self@[i as int].0,
    {
        self.entries[i].0.as_str()
    }

    /// The schema of the entry at `i`.
    pub fn schema_at(&self, i: usize) -> (schema: &OpenApiSchema)
        requires
            i < self@.len(),
        ensures
            schema@ == self@[i as int].1,
    {
        &self.entries[i].1
    }

    /// The place where `name` belongs.
    fn find(&self, name: &str) -> (i: usize)
        ensures
            is_slot(self@, name@, i as int),
            sorted(self@),
    {
        proof {
            use_type_invariant(self);
        }
        let mut i: usize = 0;
        while i < self.entries.len() && text_less(self.entries[i].0.as_str(), name)
            invariant
                0 <= i <= self.entries.len(),
                sorted(self@),
                forall|j: int| 0 <= j < i ==> lex_less(#[trigger] self@[j].0, name@),
            decreases self.entries.len() - i,
        {
            i = i + 1;
        }
        proof {
            if i < self.entries.len() {
                assert(!lex_less(self@[i as int].0, name@));
                assert forall|j: int| i <= j < self@.len() implies !lex_less(
                    #[trigger] self@[j].0,
                    name@,
                ) by {
                    if j > i && lex_less(self@[j].0, name@) {
                        lemma_lex_less_transitive(self@[i as int].0, self@[j].0, name@);
                    }
                }
            }
        }
        i
    }

    /// Whether the collection has a schema called `name`.
    pub fn contains_key(&self, name: &str) -> (r: bool)
        ensures
            r == has_name(self@, name@),
    {
        self.get(name).is_some()
    }

    /// The schema called `name`, if there is one.
    pub fn get(&self, name: &str) -> (r: Option<&OpenApiSchema>)
        ensures
            match r {
                Some(s) => lookup(self@, name@) == Some(s@),
                None => lookup(self@, name@) is None,
            },
    {
        let i = self.find(name);
        if i < self.entries.len() && text_eq(self.entries[i].0.as_str(), name) {
            proof {
                lemma_lookup_at(self@, name@, i as int);
            }
            Some(&self.entries[i].1)
        } else {
            proof {
                if has_name(self@, name@) {
                    let k = choose|k: int| 0 <= k < self@.len() && #[trigger] self@[k].0 == name@;
                    lemma_lex_less_irreflexive(name@);
                    if k < i {
                        assert(lex_less(self@[k].0, name@));
                    } else if k > i {
                        lemma_lex_less_total(self@[i as int].0, name@);
                        assert(lex_less(self@[i as int].0, self@[k].0));
                    }
                }
            }
            None
        }
    }

    /// Stores `schema` under `name`. Returns the schema that was stored
    /// under that name before, if there was one.
    pub fn insert(&mut self, name: String, schema: OpenApiSchema) -> (r: Option<OpenApiSchema>)
        ensures
            final(self)@ == put(old(self)@, name@, schema@),
            match r {
                Some(s) => lookup(old(self)@, name@) == Some(s@),
                None => lookup(old(self)@, name@) is None,
            },
    {
        let i = self.find(name.as_str());
        proof {
            lemma_slot_exists(self@, name@);
            lemma_slot_unique(self@, name@, i as int, slot(self@, name@));
            lemma_put(self@, name@, schema@);
        }
        let found = i < self.entries.len() && text_eq(
            self.entries[i].0.as_str(),
            name.as_str(),
        );
        let mut entries: Vec<(String, OpenApiSchema)> = Vec::new();
        core::mem::swap(&mut self.entries, &mut entries);
        assert(properties_view(self.entries) =~= Seq::<(Seq<char>, Schema)>::empty());
        if found {
            proof {
                lemma_lookup_at(old(self)@, name@, i as int);
            }
            let mut taken = (name, schema);
            core::mem::swap(&mut entries[i], &mut taken);
            assert(properties_view(entries) =~= put(old(self)@, name@, schema@));
            self.entries = entries;
            Some(taken.1)
        } else {
            proof {
                let m = old(self)@;
                if has_name(m, name@) {
                    let k = choose|k: int| 0 <= k < m.len() && #[trigger] m[k].0 == name@;
                    lemma_lex_less_irreflexive(name@);
                    if k < i {
                        assert(lex_less(m[k].0, name@));
                    } else if k > i {
                        lemma_lex_less_total(m[i as int].0, name@);
                        assert(lex_less(m[i as int].0, m[k].0));
                    }
                }
            }
            entries.insert(i, (name, schema));
            assert(properties_view(entries) =~= put(old(self)@, name@, schema@));
            self.entries = entries;
            None
        }
    }
}

} // verus!
