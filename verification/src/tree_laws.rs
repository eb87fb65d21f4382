//! Laws that relate the operations on operator trees.
use vstd::prelude::*;
use crate::arity::Arities;
use crate::operator::{
    OperatorView, constant_named, dependencies_of, flatten_of, is_constant_of, well_formed,
};
use crate::token::Token;
use crate::value::ValueView;
use crate::var_map::lookup;

verus! {

/// A well-formed tree is constant exactly when it reads no name.
pub proof fn lemma_constant_iff_no_dependencies(op: OperatorView)
    requires
        well_formed(op),
    ensures
        is_constant_of(op) <==> dependencies_of(op).len() == 0,
    decreases op,
{
    match op.token_type {
        Token::Num | Token::ID => {},
        _ => match op.values {
            ValueView::Op(s) => match op.arity {
                Arities::BINARY => {
                    lemma_constant_iff_no_dependencies(s[0]);
                    lemma_constant_iff_no_dependencies(s[1]);
                },
                Arities::UNARY => {
                    lemma_constant_iff_no_dependencies(s[0]);
                },
                Arities::NULLARY => {},
            },
            _ => {},
        },
    }
}

/// Replacing names changes nothing in a tree that reads none.
pub proof fn lemma_flatten_constant_unchanged(op: OperatorView, map: Map<Seq<char>, OperatorView>)
    requires
        well_formed(op),
        is_constant_of(op),
    ensures
        flatten_of(op, map) == op,
    decreases op,
{
    match op.token_type {
        Token::Num | Token::ID => {},
        _ => match op.values {
            ValueView::Op(s) => match op.arity {
                Arities::BINARY => {
                    lemma_flatten_constant_unchanged(s[0], map);
                    lemma_flatten_constant_unchanged(s[1], map);
                    assert(s.update(0, flatten_of(s[0], map)).update(1, flatten_of(s[1], map)) =~= s);
                },
                Arities::UNARY => {
                    lemma_flatten_constant_unchanged(s[0], map);
                    assert(s.update(0, flatten_of(s[0], map)) =~= s);
                },
                Arities::NULLARY => {},
            },
            _ => {},
        },
    }
}

/// Replacing names by well-formed values keeps a tree well-formed.
pub proof fn lemma_flatten_well_formed(op: OperatorView, map: Map<Seq<char>, OperatorView>)
    requires
        well_formed(op),
        forall|k: Seq<char>| #[trigger] map.contains_key(k) ==> well_formed(map[k]),
    ensures
        well_formed(flatten_of(op, map)),
    decreases op,
{
    match op.token_type {
        Token::Num => {},
        Token::ID => {
            if map.contains_key(op.symbol) {
            }
        },
        _ => match op.values {
            ValueView::Op(s) => match op.arity {
                Arities::BINARY => {
                    lemma_flatten_well_formed(s[0], map);
                    lemma_flatten_well_formed(s[1], map);
                },
                Arities::UNARY => {
                    lemma_flatten_well_formed(s[0], map);
                },
                Arities::NULLARY => {},
            },
            _ => {},
        },
    }
}

/// Whether `map`, with the predefined constants behind it, gives the name `k`
/// a value that reads no name.
pub open spec fn binds_to_constant(map: Map<Seq<char>, OperatorView>, k: Seq<char>) -> bool {
    match lookup(map, k) {
        Some(v) => is_constant_of(v),
        None => constant_named(k) is Some,
    }
}

/// When every name a tree reads is bound to a constant value, replacing the
/// names leaves a constant tree.
pub proof fn lemma_flatten_makes_constant(op: OperatorView, map: Map<Seq<char>, OperatorView>)
    requires
        well_formed(op),
        forall|k: Seq<char>| dependencies_of(op).contains(k) ==> #[trigger] binds_to_constant(map, k),
    ensures
        is_constant_of(flatten_of(op, map)),
    decreases op,
{
    match op.token_type {
        Token::Num => {},
        Token::ID => {
            assert(dependencies_of(op)[0] == op.symbol);
            assert(binds_to_constant(map, op.symbol));
        },
        _ => match op.values {
            ValueView::Op(s) => match op.arity {
                Arities::BINARY => {
                    let d0 = dependencies_of(s[0]);
                    let d1 = dependencies_of(s[1]);
                    assert forall|k: Seq<char>| d0.contains(k) implies #[trigger] binds_to_constant(map, k) by {
                        let j = choose|j: int| 0 <= j < d0.len() && d0[j] == k;
                        assert((d0 + d1)[j] == k);
                        assert(dependencies_of(op).contains(k));
                    }
                    assert forall|k: Seq<char>| d1.contains(k) implies #[trigger] binds_to_constant(map, k) by {
                        let j = choose|j: int| 0 <= j < d1.len() && d1[j] == k;
                        assert((d0 + d1)[d0.len() + j] == k);
                        assert(dependencies_of(op).contains(k));
                    }
                    lemma_flatten_makes_constant(s[0], map);
                    lemma_flatten_makes_constant(s[1], map);
                },
                Arities::UNARY => {
                    lemma_flatten_makes_constant(s[0], map);
                },
                Arities::NULLARY => {},
            },
            _ => {},
        },
    }
}


/// Whether flattening leaves the name `name` in place: `map` gives it no
/// value and it names no predefined constant.
pub open spec fn left_unbound(map: Map<Seq<char>, OperatorView>, name: Seq<char>) -> bool {
    !map.contains_key(name) && constant_named(name) is None
}

/// Where every value in `map` reads no name, the names a flattened tree reads
/// are exactly the names of the tree that neither `map` nor the predefined
/// constants give a value, in order.
pub proof fn lemma_flatten_dependencies(op: OperatorView, map: Map<Seq<char>, OperatorView>)
    requires
        forall|k: Seq<char>| map.contains_key(k) ==> dependencies_of(#[trigger] map[k]).len() == 0,
    ensures
        dependencies_of(flatten_of(op, map)) == dependencies_of(op).filter(
            |name: Seq<char>| left_unbound(map, name),
        ),
    decreases op,
{
    let pred = |name: Seq<char>| left_unbound(map, name);
    reveal(Seq::filter);
    match op.token_type {
        Token::Num => {
            assert(Seq::<Seq<char>>::empty().filter(pred) =~= Seq::<Seq<char>>::empty());
        },
        Token::ID => {
            let one = seq![op.symbol];
            assert(one.drop_last() =~= Seq::<Seq<char>>::empty());
            assert(Seq::<Seq<char>>::empty().filter(pred) =~= Seq::<Seq<char>>::empty());
            match lookup(map, op.symbol) {
                Some(v) => {
                    assert(dependencies_of(v) =~= Seq::<Seq<char>>::empty());
                },
                None => {
                    if let Some(c) = constant_named(op.symbol) {
                        assert(dependencies_of(c) =~= Seq::<Seq<char>>::empty());
                    }
                },
            }
            assert(dependencies_of(flatten_of(op, map)) =~= one.filter(pred));
        },
        _ => match op.values {
            ValueView::Op(s) => match op.arity {
                Arities::BINARY => {
                    if s.len() >= 2 {
                        lemma_flatten_dependencies(s[0], map);
                        lemma_flatten_dependencies(s[1], map);
                        Seq::filter_distributes_over_add(
                            dependencies_of(s[0]),
                            dependencies_of(s[1]),
                            pred,
                        );
                    } else {
                        assert(Seq::<Seq<char>>::empty().filter(pred) =~= Seq::<Seq<char>>::empty());
                    }
                },
                Arities::UNARY => {
                    if s.len() >= 1 {
                        lemma_flatten_dependencies(s[0], map);
                    } else {
                        assert(Seq::<Seq<char>>::empty().filter(pred) =~= Seq::<Seq<char>>::empty());
                    }
                },
                Arities::NULLARY => {
                    assert(Seq::<Seq<char>>::empty().filter(pred) =~= Seq::<Seq<char>>::empty());
                },
            },
            _ => {
                assert(Seq::<Seq<char>>::empty().filter(pred) =~= Seq::<Seq<char>>::empty());
            },
        },
    }
}


/// A name is flattened to the value the variables give it; only a name they
/// do not give a value is looked up among the predefined constants, and a name
/// that is neither stays as it is. So a variable named like a constant hides
/// the constant.
pub proof fn lemma_flatten_prefers_variables(
    t: OperatorView,
    map: Map<Seq<char>, OperatorView>,
)
    requires
        t.token_type == Token::ID,
    ensures
        map.contains_key(t.symbol) ==> flatten_of(t, map) == map[t.symbol],
        !map.contains_key(t.symbol) ==> flatten_of(t, map) == flatten_of(t, Map::empty()),
        !map.contains_key(t.symbol) && constant_named(t.symbol) is None ==> flatten_of(t, map) == t,
{
}

} // verus!
