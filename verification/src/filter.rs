//! Which entity types of a deployment to export.

use vstd::prelude::*;

verus! {

/// Whether one of the names is `name`.
pub open spec fn lists(names: Seq<String>, name: Seq<char>) -> bool {
    exists|i: int| 0 <= i < names.len() && #[trigger] names[i]@ == name
}

/// Whether no name occurs twice.
pub open spec fn all_different(names: Seq<String>) -> bool {
    forall|i: int, j: int|
        0 <= i < j < names.len() ==> #[trigger] names[i]@ != #[trigger] names[j]@
}

/// Tells whether one of the names is `name`.
fn contains(names: &[String], name: &str) -> (found: bool)
    ensures
        found == lists(names@, name@),
{
    for i in 0..names.len()
        invariant
            forall|j: int| 0 <= j < i ==> #[trigger] names@[j]@ != name@,
    {
        if *names[i].as_str() == *name {
            assert(names@[i as int]@ == name@);
            return true;
        }
    }
    false
}

/// Which entity types of a deployment to export.
#[derive(Debug)]
pub enum EntityFilter {
    All,
    /// The types with these names. No name occurs twice.
    Only(Vec<String>),
}

impl EntityFilter {
    /// The names that the filter lists; `None` if it takes every type.
    pub open spec fn names(&self) -> Option<Seq<String>> {
        match self {
            EntityFilter::All => None,
            EntityFilter::Only(names) => Some(names@),
        }
    }

    /// Whether the filter takes a type.
    pub open spec fn accepts(&self, entity_type: Seq<char>) -> bool {
        match self.names() {
            None => true,
            Some(names) => lists(names, entity_type),
        }
    }

    /// No name is listed twice.
    pub open spec fn well_formed(&self) -> bool {
        match self.names() {
            None => true,
            Some(names) => all_different(names),
        }
    }

    /// Tells whether the filter takes a type.
    pub fn matches(&self, entity_type: &str) -> (accepted: bool)
        ensures
            accepted == self.accepts(entity_type@),
    {
        match self {
            EntityFilter::All => true,
            EntityFilter::Only(names) => contains(names.as_slice(), entity_type),
        }
    }

    /// The filter of an export rule: every type if `"*"` is among the names, else the types that
    /// are named.
    pub fn from_rule(entities: &[String]) -> (filter: EntityFilter)
        ensures
            filter.well_formed(),
            filter is All <==> lists(entities@, "*"@),
            forall|name: Seq<char>| #[trigger]
                filter.accepts(name) <==> lists(entities@, "*"@) || lists(entities@, name),
    {
        if contains(entities, "*") {
            return EntityFilter::All;
        }
        let mut names: Vec<String> = Vec::new();
        for i in 0..entities.len()
            invariant
                forall|j: int, k: int|
                    0 <= j < k < names@.len() ==> #[trigger] names@[j]@ != #[trigger] names@[k]@,
                forall|j: int|
                    0 <= j < names@.len() ==> lists(entities@, #[trigger] names@[j]@),
                forall|j: int| 0 <= j < i ==> lists(names@, #[trigger] entities@[j]@),
        {
            let name = &entities[i];
            assert(lists(entities@, name@));
            if !contains(names.as_slice(), name.as_str()) {
                let ghost before = names@;
                names.push(name.clone());
                proof {
                    assert(names@[before.len() as int]@ == name@);
                    assert forall|j: int| 0 <= j < i implies lists(names@, #[trigger] entities@[j]@) by {
                        let k = choose|k: int|
                            0 <= k < before.len() && #[trigger] before[k]@ == entities@[j]@;
                        assert(names@[k]@ == entities@[j]@);
                    }
                }
            }
        }
        let filter = EntityFilter::Only(names);
        proof {
            assert forall|name: Seq<char>| #[trigger] filter.accepts(name) == lists(entities@, name) by {
                if lists(entities@, name) {
                    let j = choose|j: int| 0 <= j < entities@.len() && #[trigger] entities@[j]@ == name;
                    assert(lists(names@, entities@[j]@));
                }
            }
        }
        filter
    }
}

impl Clone for EntityFilter {
    fn clone(&self) -> (copy: EntityFilter)
        ensures
            copy.names() == self.names(),
    {
        match self {
            EntityFilter::All => EntityFilter::All,
            EntityFilter::Only(names) => {
                let copied = names.clone();
                assert(copied@ =~= names@);
                EntityFilter::Only(copied)
            },
        }
    }
}

/// The filter of a rule takes the type at every position of the rule's list, every type if one of the
/// positions has `"*"`, and nothing else.
pub proof fn rule_takes_what_it_lists(
    entities: &[String],
    filter: EntityFilter,
    entity_type: &str,
    accepted: bool,
)
    requires
        call_ensures(EntityFilter::from_rule, (entities,), filter),
        call_ensures(EntityFilter::matches, (&filter, entity_type), accepted),
    ensures
        forall|i: int|
            0 <= i < entities@.len() && #[trigger] entities@[i]@ == entity_type@ ==> accepted,
        forall|i: int| 0 <= i < entities@.len() && #[trigger] entities@[i]@ == "*"@ ==> accepted,
        accepted ==> exists|i: int|
            0 <= i < entities@.len() && (#[trigger] entities@[i]@ == entity_type@ || entities@[i]@
                == "*"@),
        filter is All <==> exists|i: int|
            0 <= i < entities@.len() && #[trigger] entities@[i]@ == "*"@,
{
    assert(filter.accepts(entity_type@) == accepted);
}

/// A filter that names types names none but those at the rule's positions, and each of them once.
pub proof fn rule_names_each_type_once(
    entities: &[String],
    filter: EntityFilter,
    names: Vec<String>,
    name: Seq<char>,
)
    requires
        call_ensures(EntityFilter::from_rule, (entities,), filter),
        filter == EntityFilter::Only(names),
    ensures
        forall|i: int, j: int|
            0 <= i < j < names@.len() ==> #[trigger] names@[i]@ != #[trigger] names@[j]@,
        (exists|i: int| 0 <= i < names@.len() && #[trigger] names@[i]@ == name) <==> (exists|j: int|
            0 <= j < entities@.len() && #[trigger] entities@[j]@ == name),
{
    assert(all_different(names@));
    assert(filter.accepts(name) == lists(names@, name));
    assert(filter.accepts(name) == lists(entities@, name));
}

/// A copy of a filter takes the same types.
pub proof fn copied_filter_takes_the_same(
    filter: EntityFilter,
    copy: EntityFilter,
    entity_type: &str,
    first: bool,
    second: bool,
)
    requires
        call_ensures(EntityFilter::clone, (&filter,), copy),
        call_ensures(EntityFilter::matches, (&filter, entity_type), first),
        call_ensures(EntityFilter::matches, (&copy, entity_type), second),
    ensures
        first == second,
        filter is All <==> copy is All,
{
}

} // verus!
