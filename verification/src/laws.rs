use crate::axioms::{
    associates, associative, closed, failure_unless, failures, has_inverse, identity_holds,
    inverse_pair, inverses_exist, is_group, modulus_of, neutral, AxiomFailure,
};
use crate::command::Argument;
use crate::operation::combine;
use crate::session::{is_number, numbers_of};
use vstd::arithmetic::div_mod::lemma_fundamental_div_mod_converse;
use vstd::prelude::*;
use vstd::set_lib::{lemma_int_range, set_int_range};

verus! {

/// A non-empty finite set passes validation exactly where it is closed and
/// associative, the identity holds on both sides and every member has an
/// inverse; and the list of failures is empty exactly for a group.
pub proof fn verdict_follows_the_axioms(s: Set<int>, e: int)
    requires
        s.finite(),
        s.len() > 0,
    ensures
        is_group(s, e) <==> closed(s) && associative(s) && identity_holds(s, e) && inverses_exist(
            s,
            e,
        ),
        is_group(s, e) <==> failures(s, e) == Seq::<AxiomFailure>::empty(),
        failures(s, e).contains(AxiomFailure::NotClosed) <==> !closed(s),
        failures(s, e).contains(AxiomFailure::NotAssociative) <==> !associative(s),
        failures(s, e).contains(AxiomFailure::NoIdentity) <==> !identity_holds(s, e),
        failures(s, e).contains(AxiomFailure::MissingInverses) <==> !inverses_exist(s, e),
{
    let a = failure_unless(closed(s), AxiomFailure::NotClosed);
    let b = failure_unless(associative(s), AxiomFailure::NotAssociative);
    let c = failure_unless(identity_holds(s, e), AxiomFailure::NoIdentity);
    let d = failure_unless(inverses_exist(s, e), AxiomFailure::MissingInverses);
    let all = failures(s, e);
    assert(all == a + b + c + d);
    assert(all.len() == a.len() + b.len() + c.len() + d.len());
    if is_group(s, e) {
        assert(all =~= Seq::<AxiomFailure>::empty());
    }
    if !closed(s) {
        assert(all[0] == AxiomFailure::NotClosed);
    }
    if !associative(s) {
        assert(all[a.len() as int] == AxiomFailure::NotAssociative);
    }
    if !identity_holds(s, e) {
        assert(all[(a.len() + b.len()) as int] == AxiomFailure::NoIdentity);
    }
    if !inverses_exist(s, e) {
        assert(all[(a.len() + b.len() + c.len()) as int] == AxiomFailure::MissingInverses);
    }
}

/// An empty set is never a group, whatever the identity: the one failure
/// reported is its emptiness.
pub proof fn empty_set_is_rejected(e: int)
    ensures
        !is_group(Set::<int>::empty(), e),
        failures(Set::<int>::empty(), e) == seq![AxiomFailure::EmptySet],
{
}

/// Validation is a function of the members and the identity: two sets with
/// the same members get the same verdict and the same failures, so
/// validating again changes nothing.
pub proof fn verdict_is_repeatable(s: Set<int>, t: Set<int>, e: int)
    requires
        forall|v: int| s.contains(v) == t.contains(v),
    ensures
        is_group(s, e) == is_group(t, e),
        failures(s, e) == failures(t, e),
{
    assert(s =~= t);
}

/// The identity of a group is one of its members.
pub proof fn identity_is_member(s: Set<int>, e: int)
    requires
        s.finite(),
        is_group(s, e),
    ensures
        s.contains(e),
{
    let a = s.choose();
    assert(s.contains(a)) by {
        vstd::set::axiom_set_choose_len(s);
    }
    assert(has_inverse(s, a, e));
    let b = choose|b: int| s.contains(b) && #[trigger] inverse_pair(a, b, e, modulus_of(s));
    assert(s.contains(combine(a, b, modulus_of(s))));
}

/// The identity of a group is unique: two values that both serve as
/// identity of the same set are equal.
pub proof fn identity_is_unique(s: Set<int>, e: int, f: int)
    requires
        s.finite(),
        is_group(s, e),
        is_group(s, f),
    ensures
        e == f,
{
    identity_is_member(s, e);
    identity_is_member(s, f);
    assert(neutral(e, f, modulus_of(s)));
    assert(neutral(f, e, modulus_of(s)));
}

/// A sum of two residues of `n` is reduced by taking `n` off at most once.
proof fn lemma_reduce_two_residues(t: int, n: int)
    requires
        n > 0,
        0 <= t < 2 * n,
    ensures
        combine(t, 0, n) == if t < n {
            t
        } else {
            t - n
        },
{
    if t < n {
        lemma_fundamental_div_mod_converse(t, n, 0, t);
    } else {
        lemma_fundamental_div_mod_converse(t, n, 1, t - n);
    }
}

/// The residues `0, 1, .., n - 1` with the identity `0` form a group, for
/// every `n` above zero.
pub proof fn residues_form_a_group(n: int)
    requires
        n > 0,
    ensures
        set_int_range(0, n).finite(),
        is_group(set_int_range(0, n), 0),
{
    let s = set_int_range(0, n);
    lemma_int_range(0, n);
    assert(modulus_of(s) == n);
    assert forall|x: int, y: int| s.contains(x) && s.contains(y) implies s.contains(
        #[trigger] combine(x, y, n),
    ) by {
        lemma_reduce_two_residues(x + y, n);
    }
    assert forall|a: int, b: int, c: int|
        s.contains(a) && s.contains(b) && s.contains(c) implies #[trigger] associates(
        a,
        b,
        c,
        n,
    ) by {
        lemma_reduce_two_residues(a + b, n);
        lemma_reduce_two_residues(b + c, n);
        lemma_reduce_two_residues(combine(a, b, n) + c, n);
        lemma_reduce_two_residues(a + combine(b, c, n), n);
    }
    assert forall|x: int| s.contains(x) implies #[trigger] neutral(0, x, n) by {
        lemma_reduce_two_residues(x, n);
    }
    assert forall|a: int| s.contains(a) implies #[trigger] has_inverse(s, a, 0) by {
        let b = if a == 0 {
            0
        } else {
            n - a
        };
        lemma_reduce_two_residues(a + b, n);
        assert(s.contains(b) && inverse_pair(a, b, 0, modulus_of(s)));
    }
}

/// Naming an integer twice in one `add` adds it once: the integers among
/// `arguments` written twice over are those among `arguments`, and one
/// integer named twice is a single member.
pub proof fn repeated_numbers_count_once(arguments: Seq<Argument>, n: i32)
    ensures
        numbers_of(arguments + arguments) == numbers_of(arguments),
        numbers_of(seq![Argument::Number(n), Argument::Number(n)]) == set![n as int],
        numbers_of(seq![Argument::Number(n), Argument::Number(n)]).len() == 1,
{
    let twice = arguments + arguments;
    assert forall|v: int| numbers_of(twice).contains(v) == numbers_of(arguments).contains(v) by {
        if numbers_of(twice).contains(v) {
            let i = choose|i: int| 0 <= i < twice.len() && #[trigger] is_number(twice[i], v);
            if i < arguments.len() {
                assert(is_number(arguments[i], v));
            } else {
                assert(is_number(arguments[i - arguments.len()], v));
            }
        }
        if numbers_of(arguments).contains(v) {
            let i = choose|i: int|
                0 <= i < arguments.len() && #[trigger] is_number(arguments[i], v);
            assert(is_number(twice[i], v));
        }
    }
    assert(numbers_of(twice) =~= numbers_of(arguments));
    let pair = seq![Argument::Number(n), Argument::Number(n)];
    assert forall|v: int| numbers_of(pair).contains(v) == (v == n as int) by {
        if v == n as int {
            assert(is_number(pair[0], v));
        }
    }
    assert(numbers_of(pair) =~= set![n as int]);
}

} // verus!
