//! The registry of named schemas, and the resolving of references through it.

use vstd::prelude::*;

use crate::error::{Error, ErrorView, SchemaError, SchemaErrorView};
use crate::names::{
    entry_names, find, first_index, is_first, lemma_first_unique, lemma_occurs_at, occurs,
};
use crate::schema::definition::{SchemaType, SchemaView};

verus! {

/// A store of schemas by name. Its model is the map from each name to the
/// schema registered under it.
#[derive(Debug)]
pub struct SchemaRegistry {
    schemas: Vec<(String, SchemaType)>,
}

/// The name that a reference gives: what follows a leading `#/`, or the
/// whole reference where it has none.
pub open spec fn reference_name(reference: Seq<char>) -> Seq<char> {
    if reference.len() >= 2 && reference[0] == '#' && reference[1] == '/' {
        reference.skip(2)
    } else {
        reference
    }
}

/// The schema that a reference stands for in the end, having already passed
/// the names in `visited`: the first schema on the chain of references that
/// is not itself a reference. A reference without a name is invalid, a name
/// met twice is a circle, a name that is not registered is unresolved.
pub open spec fn resolve(
    schemas: Map<Seq<char>, SchemaView>,
    reference: Seq<char>,
    visited: Set<Seq<char>>,
) -> Result<SchemaView, SchemaErrorView>
    decreases schemas.dom().difference(visited).len(),
    when schemas.dom().finite()
    via resolve_decreases
{
    let name = reference_name(reference);
    if name.len() == 0 {
        Err(SchemaErrorView::InvalidReference(reference))
    } else if visited.contains(name) {
        Err(SchemaErrorView::CircularReference(name))
    } else if !schemas.dom().contains(name) {
        Err(SchemaErrorView::UnresolvedReference(name))
    } else {
        match schemas[name] {
            SchemaView::Reference(inner) => resolve(schemas, inner, visited.insert(name)),
            other => Ok(other),
        }
    }
}

#[via_fn]
proof fn resolve_decreases(
    schemas: Map<Seq<char>, SchemaView>,
    reference: Seq<char>,
    visited: Set<Seq<char>>,
) {
    let name = reference_name(reference);
    if name.len() != 0 && !visited.contains(name) && schemas.dom().contains(name) {
        schemas.dom().lemma_set_insert_diff_decreases(visited, name);
    }
}

/// The schema that a reference stands for in the end.
pub open spec fn resolved(schemas: Map<Seq<char>, SchemaView>, reference: Seq<char>) -> Result<
    SchemaView,
    SchemaErrorView,
> {
    resolve(schemas, reference, Set::empty())
}

/// What resolving gives is never itself a reference.
pub proof fn lemma_resolve_terminal(
    schemas: Map<Seq<char>, SchemaView>,
    reference: Seq<char>,
    visited: Set<Seq<char>>,
)
    requires
        schemas.dom().finite(),
    ensures
        resolve(schemas, reference, visited) matches Ok(s) ==> !(s is Reference),
    decreases schemas.dom().difference(visited).len(),
{
    let name = reference_name(reference);
    if name.len() != 0 && !visited.contains(name) && schemas.dom().contains(name) {
        if let SchemaView::Reference(inner) = schemas[name] {
            schemas.dom().lemma_set_insert_diff_decreases(visited, name);
            lemma_resolve_terminal(schemas, inner, visited.insert(name));
        }
    }
}

/// Every schema of the registry is a reference to a name of the registry.
pub open spec fn all_refer_on(schemas: Map<Seq<char>, SchemaView>) -> bool {
    forall|name: Seq<char>| #[trigger]
        schemas.dom().contains(name) ==> (schemas[name] matches SchemaView::Reference(next)
            && reference_name(next).len() > 0 && schemas.dom().contains(reference_name(next)))
}

/// In a registry whose schemas all refer on to one another, every chain of
/// references comes back to a name it has passed: resolving a reference to
/// one of its names is a circular reference.
pub proof fn lemma_closed_chain_is_circular(
    schemas: Map<Seq<char>, SchemaView>,
    reference: Seq<char>,
    visited: Set<Seq<char>>,
)
    requires
        schemas.dom().finite(),
        all_refer_on(schemas),
        reference_name(reference).len() > 0,
        schemas.dom().contains(reference_name(reference)),
    ensures
        resolve(schemas, reference, visited) matches Err(SchemaErrorView::CircularReference(_)),
    decreases schemas.dom().difference(visited).len(),
{
    let name = reference_name(reference);
    if !visited.contains(name) {
        let next = schemas[name]->Reference_0;
        schemas.dom().lemma_set_insert_diff_decreases(visited, name);
        lemma_closed_chain_is_circular(schemas, next, visited.insert(name));
    }
}

impl View for SchemaRegistry {
    type V = Map<Seq<char>, SchemaView>;

    closed spec fn view(&self) -> Map<Seq<char>, SchemaView> {
        Map::new(
            |name: Seq<char>| occurs(entry_names(self.schemas@), name),
            |name: Seq<char>| self.schemas@[first_index(entry_names(self.schemas@), name)].1@,
        )
    }
}

/// Reads the name out of a reference.
pub fn parse_reference(reference: &str) -> (outcome: Result<String, Error>)
    ensures
        match outcome {
            Ok(name) => name@ == reference_name(reference@) && name@.len() > 0,
            Err(e) => reference_name(reference@).len() == 0 && e@ == ErrorView::Schema(
                SchemaErrorView::InvalidReference(reference@),
            ),
        },
{
    let len: usize = reference.unicode_len();
    let name: &str = if len >= 2 && reference.get_char(0) == '#' && reference.get_char(1) == '/' {
        let tail = reference.substring_char(2, len);
        assert(tail@ =~= reference@.skip(2));
        tail
    } else {
        reference
    };
    if name.unicode_len() == 0 {
        return Err(Error::Schema(SchemaError::InvalidReference(reference.to_owned())));
    }
    Ok(name.to_owned())
}

/// Whether `name` is among the names gathered so far.
fn seen_before(visited: &Vec<String>, name: &String) -> (seen: bool)
    ensures
        seen <==> exists|i: int| 0 <= i < visited@.len() && (#[trigger] visited@[i])@ == name@,
{
    let mut i: usize = 0;
    while i < visited.len()
        invariant
            i <= visited.len(),
            forall|j: int| 0 <= j < i ==> (#[trigger] visited@[j])@ != name@,
        decreases visited.len() - i,
    {
        if visited[i] == *name {
            return true;
        }
        i += 1;
    }
    false
}

impl Default for SchemaRegistry {
    fn default() -> (registry: SchemaRegistry)
        ensures
            registry@ == Map::<Seq<char>, SchemaView>::empty(),
    {
        SchemaRegistry::new()
    }
}

impl Clone for SchemaRegistry {
    fn clone(&self) -> (copy: SchemaRegistry)
        ensures
            copy@ == self@,
    {
        let mut schemas: Vec<(String, SchemaType)> = Vec::new();
        let mut i: usize = 0;
        while i < self.schemas.len()
            invariant
                i <= self.schemas@.len(),
                schemas@.len() == i,
                forall|j: int|
                    0 <= j < i ==> (#[trigger] schemas@[j]).0@ == self.schemas@[j].0@
                        && schemas@[j].1@ == self.schemas@[j].1@,
            decreases self.schemas@.len() - i,
        {
            let entry = &self.schemas[i];
            schemas.push((entry.0.clone(), entry.1.clone()));
            i += 1;
        }
        let copy = SchemaRegistry { schemas };
        assert(entry_names(copy.schemas@) =~= entry_names(self.schemas@));
        assert(copy@ =~= self@);
        copy
    }
}

impl SchemaRegistry {
    /// A registry of finitely many schemas.
    pub proof fn lemma_finite(&self)
        ensures
            self@.dom().finite(),
    {
        let names = entry_names(self.schemas@);
        assert forall|name: Seq<char>| self@.dom().contains(name) implies names.to_set().contains(
            name,
        ) by {
            assert(names[first_index(names, name)] == name);
        }
        vstd::seq_lib::seq_to_set_is_finite(names);
        vstd::set_lib::lemma_set_subset_finite(names.to_set(), self@.dom());
    }

    /// An empty registry.
    pub fn new() -> (registry: SchemaRegistry)
        ensures
            registry@ == Map::<Seq<char>, SchemaView>::empty(),
    {
        let registry = SchemaRegistry { schemas: Vec::new() };
        assert(registry@ =~= Map::<Seq<char>, SchemaView>::empty());
        registry
    }

    /// Registers a schema under a name. A schema registered earlier under
    /// that name is replaced.
    pub fn register(&mut self, name: &str, schema: SchemaType) -> (outcome: Result<(), Error>)
        ensures
            outcome is Ok,
            final(self)@ == old(self)@.insert(name@, schema@),
    {
        let ghost before = entry_names(self.schemas@);
        match find(&self.schemas, name) {
            Some(i) => {
                self.schemas.set(i, (name.to_owned(), schema));
                let ghost after = entry_names(self.schemas@);
                assert(after =~= before);
                proof {
                    lemma_first_unique(before, name@, i as int);
                }
            },
            None => {
                self.schemas.push((name.to_owned(), schema));
                let ghost after = entry_names(self.schemas@);
                assert(after =~= before.push(name@));
                proof {
                    let last = before.len() as int;
                    assert forall|j: int| 0 <= j < last implies #[trigger] after[j] != name@ by {
                        if before[j] == name@ {
                            lemma_occurs_at(before, name@, j);
                        }
                    }
                    assert(is_first(after, name@, last));
                    lemma_first_unique(after, name@, last);
                    assert forall|other: Seq<char>| other != name@ implies (occurs(after, other)
                        <==> occurs(before, other)) && (occurs(before, other) ==> first_index(
                        after,
                        other,
                    ) == first_index(before, other)) by {
                        if occurs(before, other) {
                            let k = first_index(before, other);
                            assert(is_first(after, other, k));
                            lemma_first_unique(after, other, k);
                        }
                        if occurs(after, other) {
                            let k = first_index(after, other);
                            assert(k != last);
                            assert forall|j: int| 0 <= j < k implies #[trigger] before[j]
                                != other by {
                                assert(after[j] != other);
                            }
                            assert(before[k] == after[k]);
                            assert(is_first(before, other, k));
                            lemma_first_unique(before, other, k);
                        }
                    }
                }
            },
        }
        assert(self@ =~= old(self)@.insert(name@, schema@));
        Ok(())
    }

    /// The schema registered under a name, if there is one.
    pub fn get(&self, name: &str) -> (outcome: Result<Option<SchemaType>, Error>)
        ensures
            outcome matches Ok(found) && match found {
                Some(schema) => self@.dom().contains(name@) && schema@ == self@[name@],
                None => !self@.dom().contains(name@),
            },
    {
        match find(&self.schemas, name) {
            Some(i) => {
                proof {
                    lemma_first_unique(entry_names(self.schemas@), name@, i as int);
                }
                Ok(Some(self.schemas[i].1.clone()))
            },
            None => Ok(None),
        }
    }

    /// Follows a reference to the schema it stands for in the end, and lends
    /// that schema out.
    pub fn resolve_shared(&self, reference: &str) -> (outcome: Result<&SchemaType, Error>)
        ensures
            match resolved(self@, reference@) {
                Ok(schema) => outcome matches Ok(s) && s@ == schema,
                Err(e) => outcome matches Err(x) && x@ == ErrorView::Schema(e),
            },
    {
        let mut visited: Vec<String> = Vec::new();
        let mut current: String = reference.to_owned();
        let ghost mut seen: Set<Seq<char>> = Set::empty();
        proof {
            self.lemma_finite();
        }
        loop
            invariant
                self@.dom().finite(),
                forall|name: Seq<char>|
                    seen.contains(name) <==> exists|i: int|
                        0 <= i < visited@.len() && (#[trigger] visited@[i])@ == name,
                resolve(self@, current@, seen) == resolved(self@, reference@),
            decreases self@.dom().difference(seen).len(),
        {
            let name = match parse_reference(current.as_str()) {
                Ok(name) => name,
                Err(_) => {
                    return Err(Error::Schema(SchemaError::InvalidReference(current)));
                },
            };
            if seen_before(&visited, &name) {
                return Err(Error::Schema(SchemaError::CircularReference(name)));
            }
            match find(&self.schemas, name.as_str()) {
                None => {
                    return Err(Error::Schema(SchemaError::UnresolvedReference(name)));
                },
                Some(i) => {
                    proof {
                        lemma_first_unique(entry_names(self.schemas@), name@, i as int);
                    }
                    match &self.schemas[i].1 {
                        SchemaType::Reference(inner) => {
                            let ghost before = visited@;
                            let ghost seen_before = seen;
                            let ghost added = name@;
                            proof {
                                self@.dom().lemma_set_insert_diff_decreases(seen, added);
                                seen = seen.insert(added);
                            }
                            current = inner.clone();
                            visited.push(name);
                            assert forall|n: Seq<char>| seen.contains(n) implies exists|i: int|
                                0 <= i < visited@.len() && (#[trigger] visited@[i])@ == n by {
                                if n == added {
                                    assert(visited@[visited@.len() - 1]@ == n);
                                } else {
                                    assert(seen_before.contains(n));
                                    let k = choose|k: int|
                                        0 <= k < before.len() && (#[trigger] before[k])@ == n;
                                    assert(visited@[k] == before[k]);
                                }
                            }
                            assert forall|n: Seq<char>|
                                (exists|i: int|
                                    0 <= i < visited@.len() && (#[trigger] visited@[i])@
                                        == n) implies seen.contains(n) by {
                                let k = choose|k: int|
                                    0 <= k < visited@.len() && (#[trigger] visited@[k])@ == n;
                                if k < before.len() {
                                    assert(before[k]@ == n);
                                }
                            }
                        },
                        other => {
                            return Ok(other);
                        },
                    }
                },
            }
        }
    }

    /// Follows a reference to the schema it stands for in the end: the first
    /// schema on the chain that is not a reference.
    pub fn resolve_ref(&self, reference: &str) -> (outcome: Result<SchemaType, Error>)
        ensures
            match resolved(self@, reference@) {
                Ok(schema) => outcome matches Ok(s) && s@ == schema,
                Err(e) => outcome matches Err(x) && x@ == ErrorView::Schema(e),
            },
    {
        match self.resolve_shared(reference) {
            Ok(schema) => Ok(schema.clone()),
            Err(e) => Err(e),
        }
    }
}

} // verus!
