//! A sequence of operators, used as a token stream, as a stack and as the
//! operands of an operator.
use vstd::prelude::*;
use crate::operator::{Operator, OperatorView, views_of, lemma_views_of, lemma_views_of_push};

verus! {

/// A sequence of operators.
pub struct OpVec(pub Vec<Operator>);

impl View for OpVec {
    type V = Seq<OperatorView>;

    open spec fn view(&self) -> Seq<OperatorView> {
        views_of(self.0@)
    }
}

impl OpVec {
    /// The empty sequence.
    pub fn new() -> (r: OpVec)
        ensures
            r@ == Seq::<OperatorView>::empty(),
    {
        let r = OpVec(Vec::new());
        proof { lemma_views_of(r.0@); }
        assert(r@ =~= Seq::<OperatorView>::empty());
        r
    }

    /// Appends `value`.
    pub fn push(&mut self, value: Operator)
        ensures
            final(self)@ == old(self)@.push(value@),
    {
        proof { lemma_views_of_push(self.0@, value); }
        self.0.push(value);
    }

    /// Removes and returns the last operator, if any.
    pub fn pop(&mut self) -> (r: Option<Operator>)
        ensures
            old(self)@.len() == 0 ==> r is None && final(self)@ == old(self)@,
            old(self)@.len() > 0 ==> r is Some && r->0@ == old(self)@.last() && final(self)@
                == old(self)@.drop_last(),
    {
        proof { lemma_views_of(self.0@); }
        let r = self.0.pop();
        proof {
            lemma_views_of(self.0@);
            if old(self)@.len() > 0 {
                assert(self@ =~= old(self)@.drop_last());
            }
        }
        r
    }

    /// The number of operators.
    pub fn len(&self) -> (r: usize)
        ensures
            r == self@.len(),
    {
        proof { lemma_views_of(self.0@); }
        self.0.len()
    }

    /// A copy of the operator at `index`, if there is one.
    pub fn get(&self, index: usize) -> (r: Option<Operator>)
        ensures
            index < self@.len() ==> r is Some && r->0@ == self@[index as int],
            index >= self@.len() ==> r is None,
    {
        proof { lemma_views_of(self.0@); }
        if index < self.0.len() {
            Some(self.0[index].clone())
        } else {
            None
        }
    }

    /// Replaces the operator at `index`.
    pub fn set(&mut self, index: usize, value: Operator)
        requires
            index < old(self)@.len(),
        ensures
            final(self)@ == old(self)@.update(index as int, value@),
    {
        proof { lemma_views_of(self.0@); }
        self.0.set(index, value);
        proof {
            lemma_views_of(self.0@);
            assert(self@ =~= old(self)@.update(index as int, value@));
        }
    }

    /// Removes and returns the operator at `index`, shifting the later ones
    /// down.
    pub fn remove(&mut self, index: usize) -> (r: Operator)
        requires
            index < old(self)@.len(),
        ensures
            r@ == old(self)@[index as int],
            final(self)@ == old(self)@.remove(index as int),
    {
        proof { lemma_views_of(self.0@); }
        let r = self.0.remove(index);
        proof {
            lemma_views_of(self.0@);
            assert(self@ =~= old(self)@.remove(index as int));
        }
        r
    }

    /// Inserts `to_insert` at `index`, shifting the later operators up; an
    /// index past the end appends it.
    pub fn insert(&mut self, index: usize, to_insert: Operator)
        ensures
            index <= old(self)@.len() ==> final(self)@ == old(self)@.insert(
                index as int,
                to_insert@,
            ),
            index > old(self)@.len() ==> final(self)@ == old(self)@.push(to_insert@),
    {
        proof { lemma_views_of(self.0@); }
        if index > self.0.len() {
            self.push(to_insert);
        } else {
            let ghost v = to_insert@;
            self.0.insert(index, to_insert);
            proof {
                lemma_views_of(self.0@);
                assert(self@ =~= old(self)@.insert(index as int, v));
            }
        }
    }

    /// The operator at `index`, to be changed in place, if there is one.
    pub fn get_mut(&mut self, index: usize) -> (r: Option<&mut Operator>)
        ensures
            index < old(self)@.len() ==> r is Some && *r->0 == old(self).0@[index as int]
                && final(self).0@ == old(self).0@.update(index as int, *final(r->0)),
            index >= old(self)@.len() ==> r is None && final(self)@ == old(self)@,
    {
        proof { lemma_views_of(self.0@); }
        if index < self.0.len() {
            Some(&mut self.0[index])
        } else {
            None
        }
    }

    /// Whether there is no operator.
    pub fn is_empty(&self) -> (r: bool)
        ensures
            r == (self@.len() == 0),
    {
        proof { lemma_views_of(self.0@); }
        self.0.len() == 0
    }
}

} // verus!
