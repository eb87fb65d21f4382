//! Named values of variables, by which an expression tree is simplified.
use vstd::prelude::*;
use crate::operator::{Operator, OperatorView};

verus! {

/// Variables and their values; a later entry for a name hides earlier ones.
pub struct VarMap {
    pub entries: Vec<(String, Operator)>,
}

/// The map that a list of entries stands for: the last entry of each name
/// gives its value.
pub open spec fn entries_map(s: Seq<(String, Operator)>) -> Map<Seq<char>, OperatorView>
    decreases s.len(),
{
    if s.len() == 0 {
        Map::empty()
    } else {
        entries_map(s.drop_last()).insert(s.last().0@, s.last().1@)
    }
}

impl View for VarMap {
    type V = Map<Seq<char>, OperatorView>;

    open spec fn view(&self) -> Map<Seq<char>, OperatorView> {
        entries_map(self.entries@)
    }
}

/// The value of `key` in `m`, if it has one.
pub open spec fn lookup(m: Map<Seq<char>, OperatorView>, key: Seq<char>) -> Option<OperatorView> {
    if m.contains_key(key) {
        Some(m[key])
    } else {
        None
    }
}

impl VarMap {
    /// The map without variables.
    pub fn new() -> (r: VarMap)
        ensures
            r@ == Map::<Seq<char>, OperatorView>::empty(),
    {
        VarMap { entries: Vec::new() }
    }

    /// Gives `key` the value `value`.
    pub fn insert(&mut self, key: String, value: Operator)
        ensures
            final(self)@ == old(self)@.insert(key@, value@),
    {
        self.entries.push((key, value));
        assert(self.entries@.drop_last() =~= old(self).entries@);
    }

    /// A copy of the value of `key`, if it has one.
    pub fn get(&self, key: &String) -> (r: Option<Operator>)
        ensures
            match r {
                Some(op) => lookup(self@, key@) == Some(op@),
                None => lookup(self@, key@) is None,
            },
    {
        let mut i = self.entries.len();
        while i > 0
            invariant
                i <= self.entries@.len(),
                forall|k: int| i <= k < self.entries@.len() ==> #[trigger] self.entries@[k].0@ != key@,
            decreases i,
        {
            i -= 1;
            if self.entries[i].0 == *key {
                proof { lemma_entries_map_last(self.entries@, i as int, key@); }
                return Some(self.entries[i].1.clone());
            }
        }
        proof { lemma_entries_map_absent(self.entries@, key@); }
        None
    }
}

/// A variable read after it was given a value reads that value; every other
/// variable reads what it read before.
pub proof fn lemma_read_after_insert(
    m: Map<Seq<char>, OperatorView>,
    key: Seq<char>,
    value: OperatorView,
    other: Seq<char>,
)
    ensures
        lookup(m.insert(key, value), key) == Some(value),
        other != key ==> lookup(m.insert(key, value), other) == lookup(m, other),
{
}

proof fn lemma_entries_map_last(s: Seq<(String, Operator)>, i: int, key: Seq<char>)
    requires
        0 <= i < s.len(),
        s[i].0@ == key,
        forall|k: int| i < k < s.len() ==> #[trigger] s[k].0@ != key,
    ensures
        entries_map(s).contains_key(key),
        entries_map(s)[key] == s[i].1@,
    decreases s.len(),
{
    if i < s.len() - 1 {
        lemma_entries_map_last(s.drop_last(), i, key);
        assert(s.last().0@ != key);
    }
}

proof fn lemma_entries_map_absent(s: Seq<(String, Operator)>, key: Seq<char>)
    requires
        forall|k: int| 0 <= k < s.len() ==> #[trigger] s[k].0@ != key,
    ensures
        !entries_map(s).contains_key(key),
    decreases s.len(),
{
    if s.len() > 0 {
        lemma_entries_map_absent(s.drop_last(), key);
        assert(s.last().0@ != key);
    }
}

} // verus!
