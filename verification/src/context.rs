//! Rows, and what an expression finds its identifiers in.
use vstd::prelude::*;

use crate::data::Value;

verus! {

/// Values by name. No name occurs twice.
#[derive(Debug, PartialEq, Eq)]
pub struct Bindings {
    entries: Vec<(String, Value)>,
}

/// Whether no name occurs twice.
spec fn distinct(entries: Seq<(String, Value)>) -> bool {
    forall|i: int, j: int|
        0 <= i < j < entries.len() ==> #[trigger] entries[i].0@ != #[trigger] entries[j].0@
}

/// Whether the name stands at the index.
spec fn named(entries: Seq<(String, Value)>, name: Seq<char>, i: int) -> bool {
    0 <= i < entries.len() && entries[i].0@ == name
}

/// The values of the entries by their names.
spec fn as_map(entries: Seq<(String, Value)>) -> Map<Seq<char>, Value> {
    Map::new(
        |name: Seq<char>| exists|i: int| named(entries, name, i),
        |name: Seq<char>| entries[choose|i: int| named(entries, name, i)].1,
    )
}

/// The entry at an index is the one that its name finds.
proof fn lemma_entry(entries: Seq<(String, Value)>, i: int)
    requires
        distinct(entries),
        0 <= i < entries.len(),
    ensures
        as_map(entries).contains_key(entries[i].0@),
        as_map(entries)[entries[i].0@] == entries[i].1,
{
    let name = entries[i].0@;
    assert(named(entries, name, i));
    let j = choose|j: int| named(entries, name, j);
    assert(named(entries, name, j));
    if i < j {
        assert(entries[i].0@ != entries[j].0@);
    }
    if j < i {
        assert(entries[j].0@ != entries[i].0@);
    }
}

impl View for Bindings {
    type V = Map<Seq<char>, Value>;

    closed spec fn view(&self) -> Map<Seq<char>, Value> {
        as_map(self.entries@)
    }
}

impl Bindings {
    #[verifier::type_invariant]
    spec fn well_formed(self) -> bool {
        distinct(self.entries@)
    }

    /// No bindings.
    pub fn new() -> (bindings: Bindings)
        ensures
            bindings@ == Map::<Seq<char>, Value>::empty(),
    {
        let bindings = Bindings { entries: Vec::new() };
        assert(bindings@ =~= Map::<Seq<char>, Value>::empty());
        bindings
    }

    /// The index at which the name stands.
    fn position(&self, name: &String) -> (found: Option<usize>)
        ensures
            match found {
                Some(i) => named(self.entries@, name@, i as int),
                None => forall|i: int| !named(self.entries@, name@, i),
            },
    {
        for i in 0..self.entries.len()
            invariant
                forall|j: int| 0 <= j < i ==> !named(self.entries@, name@, j),
        {
            if self.entries[i].0 == *name {
                return Some(i);
            }
        }
        None
    }

    /// Binds the name to the value, in place of what it was bound to before.
    pub fn insert(&mut self, name: String, value: Value)
        ensures
            final(self)@ == old(self)@.insert(name@, value),
    {
        proof {
            use_type_invariant(&*self);
        }
        let ghost before = self.entries@;
        let found = self.position(&name);
        let ghost key = name@;
        let mut entries: Vec<(String, Value)> = Vec::new();
        std::mem::swap(&mut entries, &mut self.entries);
        match found {
            Some(i) => {
                entries.set(i, (name, value));
            },
            None => {
                entries.push((name, value));
            },
        }
        let ghost after = entries@;
        proof {
            assert forall|i: int, j: int| 0 <= i < j < after.len() implies #[trigger] after[i].0@
                != #[trigger] after[j].0@ by {
                if i < before.len() && j < before.len() {
                    assert(before[i].0@ != before[j].0@);
                } else {
                    assert(!named(before, key, i));
                }
            }
            assert forall|other: Seq<char>|
                as_map(after).contains_key(other) <==> as_map(before).insert(
                    key,
                    value,
                ).contains_key(other) by {
                if as_map(after).contains_key(other) {
                    let i = choose|i: int| named(after, other, i);
                    if other != key {
                        assert(named(before, other, i));
                    }
                }
                if other == key {
                    let i = if found is Some { found->0 as int } else { before.len() as int };
                    assert(named(after, key, i));
                } else if as_map(before).contains_key(other) {
                    let i = choose|i: int| named(before, other, i);
                    assert(named(after, other, i));
                }
            }
            assert forall|other: Seq<char>| as_map(after).contains_key(other) implies as_map(
                after,
            )[other] == as_map(before).insert(key, value)[other] by {
                let i = choose|i: int| named(after, other, i);
                lemma_entry(after, i);
                if other == key {
                    let i = if found is Some { found->0 as int } else { before.len() as int };
                    lemma_entry(after, i);
                } else {
                    assert(named(before, other, i));
                    lemma_entry(before, i);
                }
            }
            assert(as_map(after) =~= as_map(before).insert(key, value));
        }
        self.entries = entries;
    }

    /// The value that the name is bound to.
    pub fn get(&self, name: &String) -> (value: Option<Value>)
        ensures
            value == (if self@.contains_key(name@) {
                Some(self@[name@])
            } else {
                None
            }),
    {
        proof {
            use_type_invariant(self);
        }
        match self.position(name) {
            Some(i) => {
                proof {
                    lemma_entry(self.entries@, i as int);
                }
                Some(self.entries[i].1)
            },
            None => None,
        }
    }
}

/// A row of a query.
#[derive(Debug, PartialEq, Eq)]
pub enum Row {
    /// A row of a table with a schema.
    Vec { values: Vec<Value> },
    /// A row of a table without one.
    Schemaless(Bindings),
}

/// What an expression finds its identifiers in.
#[derive(Debug, PartialEq, Eq)]
pub enum RowContext {
    /// The rows that the statement stands on, by their number.
    Outer(u64),
    /// The parameters of the custom function whose body is evaluated. Nothing else is in sight.
    Call { name: String, row: Bindings },
}

/// What a context is made of.
pub enum ContextView {
    Outer(u64),
    Call { name: Seq<char>, row: Map<Seq<char>, Value> },
}

impl View for RowContext {
    type V = ContextView;

    open spec fn view(&self) -> ContextView {
        match self {
            RowContext::Outer(number) => ContextView::Outer(*number),
            RowContext::Call { name, row } => ContextView::Call { name: name@, row: row@ },
        }
    }
}

} // verus!
