//! Name dictionaries: resolve human-readable names to stable numeric indices.

use vstd::prelude::*;

verus! {

/// Index of the first name equal to `name`, if any.
pub open spec fn position_of(names: Seq<String>, name: Seq<char>) -> Option<int>
    decreases names.len(),
{
    if names.len() == 0 {
        None
    } else {
        match position_of(names.drop_last(), name) {
            Some(i) => Some(i),
            None => if names.last()@ == name {
                Some(names.len() - 1)
            } else {
                None
            },
        }
    }
}

/// Looks `name` up among `names`: the index of its first occurrence, so of two
/// equal names the first one wins.
pub fn find_position(names: &Vec<String>, name: &String) -> (r: Option<usize>)
    ensures
        match r {
            Some(i) => position_of(names@, name@) == Some(i as int),
            None => position_of(names@, name@) is None,
        },
{
    let mut i: usize = 0;
    while i < names.len()
        invariant
            i <= names.len(),
            position_of(names@.subrange(0, i as int), name@) is None,
        decreases names.len() - i,
    {
        assert(names@.subrange(0, i + 1).drop_last() =~= names@.subrange(0, i as int));
        if names[i] == *name {
            proof {
                lemma_position_prefix(names@, name@, i as int + 1);
            }
            return Some(i);
        }
        i += 1;
    }
    assert(names@.subrange(0, i as int) =~= names@);
    None
}

/// A position found in a prefix is the position in the whole sequence.
proof fn lemma_position_prefix(names: Seq<String>, name: Seq<char>, n: int)
    requires
        0 <= n <= names.len(),
        position_of(names.subrange(0, n), name) is Some,
    ensures
        position_of(names, name) == position_of(names.subrange(0, n), name),
    decreases names.len() - n,
{
    if n < names.len() {
        assert(names.subrange(0, n + 1).drop_last() =~= names.subrange(0, n));
        lemma_position_prefix(names, name, n + 1);
    } else {
        assert(names.subrange(0, n) =~= names);
    }
}

/// A position found is a valid index holding the name.
pub proof fn lemma_position_in_range(names: Seq<String>, name: Seq<char>)
    ensures
        position_of(names, name) matches Some(i) ==> 0 <= i < names.len() && names[i]@ == name,
    decreases names.len(),
{
    if names.len() > 0 {
        lemma_position_in_range(names.drop_last(), name);
    }
}

/// The named cells of each sprite sheet, in sheet order. Names need not be
/// unique within a sheet: a name resolves to the first cell that carries it.
#[derive(Clone, Debug)]
pub struct CellDictionary {
    pub sheets: Vec<Vec<String>>,
}

impl View for CellDictionary {
    type V = Seq<Seq<String>>;

    open spec fn view(&self) -> Seq<Seq<String>> {
        self.sheets@.map_values(|names: Vec<String>| names@)
    }
}

} // verus!
