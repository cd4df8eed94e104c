//! Finding a name in an ordered list of names.
//!
//! Object fields, and the schemas of a registry, are kept in lists of named
//! entries. Where a name occurs more than once, the first entry counts.

use vstd::prelude::*;

verus! {

/// `i` is the first place in `names` that holds `name`.
pub open spec fn is_first(names: Seq<Seq<char>>, name: Seq<char>, i: int) -> bool {
    &&& 0 <= i < names.len()
    &&& names[i] == name
    &&& forall|j: int| 0 <= j < i ==> #[trigger] names[j] != name
}

/// The first place in `names` that holds `name`, where there is one.
pub open spec fn first_index(names: Seq<Seq<char>>, name: Seq<char>) -> int {
    choose|i: int| is_first(names, name, i)
}

/// Whether `name` is among `names`.
pub open spec fn occurs(names: Seq<Seq<char>>, name: Seq<char>) -> bool {
    is_first(names, name, first_index(names, name))
}

/// The names of a list of named entries, in order.
pub open spec fn entry_names<T>(entries: Seq<(String, T)>) -> Seq<Seq<char>> {
    Seq::new(entries.len(), |i: int| entries[i].0@)
}

/// Below any place that holds `name` there is a first one.
pub proof fn lemma_occurs_at(names: Seq<Seq<char>>, name: Seq<char>, k: int)
    requires
        0 <= k < names.len(),
        names[k] == name,
    ensures
        occurs(names, name),
        first_index(names, name) <= k,
    decreases k,
{
    if exists|j: int| 0 <= j < k && #[trigger] names[j] == name {
        let j = choose|j: int| 0 <= j < k && #[trigger] names[j] == name;
        lemma_occurs_at(names, name, j);
    } else {
        assert(is_first(names, name, k));
        lemma_first_unique(names, name, k);
    }
}

/// Only one place is the first to hold `name`.
pub proof fn lemma_first_unique(names: Seq<Seq<char>>, name: Seq<char>, i: int)
    requires
        is_first(names, name, i),
    ensures
        occurs(names, name),
        first_index(names, name) == i,
{
    let c = first_index(names, name);
    assert(is_first(names, name, c));
    if c < i {
        assert(names[c] != name);
    }
    if i < c {
        assert(names[i] != name);
    }
}

/// A name that no place holds does not occur.
pub proof fn lemma_occurs_nowhere(names: Seq<Seq<char>>, name: Seq<char>)
    requires
        forall|j: int| 0 <= j < names.len() ==> #[trigger] names[j] != name,
    ensures
        !occurs(names, name),
{
}

/// A name added at the end of a list changes nothing for the other names.
pub proof fn lemma_push_other(names: Seq<Seq<char>>, added: Seq<char>, name: Seq<char>)
    requires
        name != added,
    ensures
        occurs(names.push(added), name) == occurs(names, name),
        occurs(names, name) ==> first_index(names.push(added), name) == first_index(names, name),
{
    let longer = names.push(added);
    if occurs(names, name) {
        let k = first_index(names, name);
        assert(longer[k] == names[k]);
        assert forall|j: int| 0 <= j < k implies #[trigger] longer[j] != name by {
            assert(names[j] != name);
        }
        lemma_first_unique(longer, name, k);
    }
    if occurs(longer, name) {
        let k = first_index(longer, name);
        assert(k != names.len());
        assert(names[k] == longer[k]);
        assert forall|j: int| 0 <= j < k implies #[trigger] names[j] != name by {
            assert(longer[j] != name);
        }
        lemma_first_unique(names, name, k);
    }
}

/// A name added at the end of a list that lacks it is found there.
pub proof fn lemma_push_new(names: Seq<Seq<char>>, added: Seq<char>)
    requires
        !occurs(names, added),
    ensures
        occurs(names.push(added), added),
        first_index(names.push(added), added) == names.len(),
{
    let longer = names.push(added);
    assert forall|j: int| 0 <= j < names.len() implies #[trigger] longer[j] != added by {
        if names[j] == added {
            lemma_occurs_at(names, added, j);
        }
    }
    lemma_first_unique(longer, added, names.len() as int);
}

/// A name put in front of a list is found there.
pub proof fn lemma_prepend_same(names: Seq<Seq<char>>, added: Seq<char>)
    ensures
        occurs(seq![added] + names, added),
        first_index(seq![added] + names, added) == 0,
{
    lemma_first_unique(seq![added] + names, added, 0);
}

/// A name put in front of a list moves the other names one place on.
pub proof fn lemma_prepend_other(names: Seq<Seq<char>>, added: Seq<char>, name: Seq<char>)
    requires
        name != added,
    ensures
        occurs(seq![added] + names, name) == occurs(names, name),
        occurs(names, name) ==> first_index(seq![added] + names, name) == first_index(names, name)
            + 1,
{
    let longer = seq![added] + names;
    if occurs(names, name) {
        let k = first_index(names, name);
        assert(longer[k + 1] == names[k]);
        assert forall|j: int| 0 <= j < k + 1 implies #[trigger] longer[j] != name by {
            if j > 0 {
                assert(longer[j] == names[j - 1]);
            }
        }
        lemma_first_unique(longer, name, k + 1);
    }
    if occurs(longer, name) {
        let k = first_index(longer, name);
        assert(k > 0);
        assert(names[k - 1] == longer[k]);
        assert forall|j: int| 0 <= j < k - 1 implies #[trigger] names[j] != name by {
            assert(longer[j + 1] != name);
        }
        lemma_first_unique(names, name, k - 1);
    }
}

/// Finds the first entry called `name`.
pub fn find<T>(entries: &Vec<(String, T)>, name: &str) -> (found: Option<usize>)
    ensures
        match found {
            Some(i) => is_first(entry_names(entries@), name@, i as int),
            None => !occurs(entry_names(entries@), name@),
        },
{
    let wanted = name.to_owned();
    let mut i: usize = 0;
    while i < entries.len()
        invariant
            i <= entries.len(),
            wanted@ == name@,
            forall|j: int| 0 <= j < i ==> #[trigger] entry_names(entries@)[j] != name@,
        decreases entries.len() - i,
    {
        if entries[i].0 == wanted {
            return Some(i);
        }
        i += 1;
    }
    proof {
        lemma_occurs_nowhere(entry_names(entries@), name@);
    }
    None
}

} // verus!
