use crate::operation::combine;
use vstd::prelude::*;

verus! {

/// The modulus under which a set is examined: the number of its members.
pub open spec fn modulus_of(s: Set<int>) -> int {
    s.len() as int
}

/// Closure: combining two members gives a member.
pub open spec fn closed(s: Set<int>) -> bool {
    forall|x: int, y: int|
        s.contains(x) && s.contains(y) ==> s.contains(#[trigger] combine(x, y, modulus_of(s)))
}

/// Both groupings of `a`, `b`, `c` give the same result under modulus `m`.
pub open spec fn associates(a: int, b: int, c: int, m: int) -> bool {
    combine(combine(a, b, m), c, m) == combine(a, combine(b, c, m), m)
}

/// Associativity: every three members associate.
pub open spec fn associative(s: Set<int>) -> bool {
    forall|a: int, b: int, c: int|
        s.contains(a) && s.contains(b) && s.contains(c) ==> #[trigger] associates(
            a,
            b,
            c,
            modulus_of(s),
        )
}

/// `e` leaves `x` unchanged on either side under modulus `m`.
pub open spec fn neutral(e: int, x: int, m: int) -> bool {
    combine(x, e, m) == x && combine(e, x, m) == x
}

/// Identity: `e` leaves every member unchanged on either side. `e` itself
/// need not be a member.
pub open spec fn identity_holds(s: Set<int>, e: int) -> bool {
    forall|x: int| s.contains(x) ==> #[trigger] neutral(e, x, modulus_of(s))
}

/// `a` and `b` combine to `e` in either order under modulus `m`.
pub open spec fn inverse_pair(a: int, b: int, e: int, m: int) -> bool {
    combine(a, b, m) == e && combine(b, a, m) == e
}

/// Some member of `s` is an inverse of `a` with respect to `e`.
pub open spec fn has_inverse(s: Set<int>, a: int, e: int) -> bool {
    exists|b: int| s.contains(b) && #[trigger] inverse_pair(a, b, e, modulus_of(s))
}

/// Inverses: every member has an inverse among the members.
pub open spec fn inverses_exist(s: Set<int>, e: int) -> bool {
    forall|a: int| s.contains(a) ==> #[trigger] has_inverse(s, a, e)
}

/// `s` with the modular addition and the identity `e` is a group: `s` has a
/// member and the four axioms hold.
pub open spec fn is_group(s: Set<int>, e: int) -> bool {
    &&& s.len() > 0
    &&& closed(s)
    &&& associative(s)
    &&& identity_holds(s, e)
    &&& inverses_exist(s, e)
}

/// One way in which a set fails to be a group.
#[derive(Clone, Copy, Debug, PartialEq, Eq, Structural)]
pub enum AxiomFailure {
    /// The set has no member, so there is no modulus to add under.
    EmptySet,
    /// Two members combine to a value outside the set.
    NotClosed,
    /// Three members give different results in the two groupings.
    NotAssociative,
    /// The designated identity changes some member.
    NoIdentity,
    /// Some member has no inverse in the set.
    MissingInverses,
}

/// The one-element list of `failure` where `holds` is false, else nothing.
pub open spec fn failure_unless(holds: bool, failure: AxiomFailure) -> Seq<AxiomFailure> {
    if holds {
        Seq::empty()
    } else {
        seq![failure]
    }
}

/// Every failure of `s` with identity `e`, in the fixed order closure,
/// associativity, identity, inverses. Of an empty set only its emptiness is
/// reported. The list is empty exactly for a group.
pub open spec fn failures(s: Set<int>, e: int) -> Seq<AxiomFailure> {
    if s.len() == 0 {
        seq![AxiomFailure::EmptySet]
    } else {
        failure_unless(closed(s), AxiomFailure::NotClosed) + failure_unless(
            associative(s),
            AxiomFailure::NotAssociative,
        ) + failure_unless(identity_holds(s, e), AxiomFailure::NoIdentity) + failure_unless(
            inverses_exist(s, e),
            AxiomFailure::MissingInverses,
        )
    }
}

impl AxiomFailure {
    /// The line of text that reports this failure.
    pub open spec fn message_spec(self) -> Seq<char> {
        match self {
            AxiomFailure::EmptySet => "  Group has no elements, so the modulus is undefined."@,
            AxiomFailure::NotClosed => "  Group is not closed under the operation."@,
            AxiomFailure::NotAssociative => "  Operation is not associative."@,
            AxiomFailure::NoIdentity => "  No valid identity element found."@,
            AxiomFailure::MissingInverses => "  Not all elements have inverses."@,
        }
    }

    /// The line of text that reports this failure.
    pub fn message(&self) -> (text: &'static str)
        ensures
            text@ == self.message_spec(),
    {
        match self {
            AxiomFailure::EmptySet => "  Group has no elements, so the modulus is undefined.",
            AxiomFailure::NotClosed => "  Group is not closed under the operation.",
            AxiomFailure::NotAssociative => "  Operation is not associative.",
            AxiomFailure::NoIdentity => "  No valid identity element found.",
            AxiomFailure::MissingInverses => "  Not all elements have inverses.",
        }
    }
}

/// The report of `failures`: their lines of text, one below the other, with
/// a line feed between each two.
pub open spec fn report_spec(failures: Seq<AxiomFailure>) -> Seq<char>
    decreases failures.len(),
{
    if failures.len() == 0 {
        Seq::empty()
    } else if failures.len() == 1 {
        failures[0].message_spec()
    } else {
        report_spec(failures.drop_last()) + "\n"@ + failures.last().message_spec()
    }
}

/// Writes the report of `failures`: one line of text for each, in order.
pub fn report(failures: &Vec<AxiomFailure>) -> (text: String)
    ensures
        text@ == report_spec(failures@),
{
    let mut text: String = String::new();
    let mut i: usize = 0;
    while i < failures.len()
        invariant
            i <= failures.len(),
            text@ == report_spec(failures@.take(i as int)),
        decreases failures.len() - i,
    {
        if i > 0 {
            text.append("\n");
        }
        text.append(failures[i].message());
        proof {
            let seen = failures@.take(i as int);
            let next = failures@.take(i + 1);
            assert(next.drop_last() =~= seen);
            assert(next.last() == failures@[i as int]);
            if i == 0 {
                assert(text@ =~= failures@[0].message_spec());
            }
        }
        i += 1;
    }
    proof {
        assert(failures@.take(failures@.len() as int) =~= failures@);
    }
    text
}

} // verus!
