use crate::axioms::{
    associates, associative, closed, failure_unless, failures, has_inverse, identity_holds,
    inverse_pair, inverses_exist, is_group, modulus_of, neutral, AxiomFailure,
};
use crate::elements::ElementSet;
use crate::operation::{combine, lemma_remainder_bounds, operation, reduce};
use vstd::prelude::*;

verus! {

/// A set of integers with a designated identity, taken with addition modulo
/// the number of members. A value of this type is a candidate: `Group::new`
/// hands out only those that are groups.
#[derive(Debug)]
pub struct Group {
    pub elements: ElementSet,
    pub identity: i32,
}

/// Whether `value` is a member of `elements`; a value outside `i32` is none.
fn is_member(elements: &ElementSet, value: i64) -> (r: bool)
    requires
        elements.wf(),
    ensures
        r == elements@.contains(value as int),
{
    if value < i32::MIN as i64 || value > i32::MAX as i64 {
        proof {
            elements.lemma_members();
        }
        false
    } else {
        elements.contains(value as i32)
    }
}

/// Whether both groupings of `a`, `b`, `c` give the same result.
fn associates_at(a: i32, b: i32, c: i32, modulus: usize) -> (r: bool)
    requires
        modulus > 0,
    ensures
        r == associates(a as int, b as int, c as int, modulus as int),
{
    let ab: i64 = operation(a, b, modulus);
    let bc: i64 = operation(b, c, modulus);
    proof {
        lemma_remainder_bounds(a + b, modulus as int);
        lemma_remainder_bounds(b + c, modulus as int);
    }
    let left: i64 = reduce(ab + c as i64, modulus);
    let right: i64 = reduce(a as i64 + bc, modulus);
    left == right
}

impl Group {
    /// The candidate is well formed where its element set is.
    pub open spec fn wf(&self) -> bool {
        self.elements.wf()
    }

    /// Whether combining any two members gives a member.
    pub fn is_closed(&self) -> (r: bool)
        requires
            self.wf(),
        ensures
            r == closed(self.elements@),
    {
        let n: usize = self.elements.len();
        let ghost s = self.elements@;
        let ghost ord = self.elements.order();
        proof {
            self.elements.lemma_members();
        }
        let mut i: usize = 0;
        while i < n
            invariant
                i <= n,
                self.wf(),
                s == self.elements@,
                ord == self.elements.order(),
                n == ord.len(),
                n == s.len(),
                forall|k: int| 0 <= k < n ==> s.contains(#[trigger] ord[k]),
                forall|p: int, q: int|
                    0 <= p < i && 0 <= q < n ==> s.contains(
                        #[trigger] combine(ord[p], ord[q], n as int),
                    ),
            decreases n - i,
        {
            let x: i32 = self.elements.get(i);
            let mut j: usize = 0;
            while j < n
                invariant
                    i < n,
                    j <= n,
                    self.wf(),
                    s == self.elements@,
                    ord == self.elements.order(),
                    n == ord.len(),
                    n == s.len(),
                    x == ord[i as int],
                    forall|k: int| 0 <= k < n ==> s.contains(#[trigger] ord[k]),
                    forall|q: int|
                        0 <= q < j ==> s.contains(
                            #[trigger] combine(ord[i as int], ord[q], n as int),
                        ),
                decreases n - j,
            {
                let y: i32 = self.elements.get(j);
                let z: i64 = operation(x, y, n);
                if !is_member(&self.elements, z) {
                    proof {
                        assert(s.contains(ord[i as int]) && s.contains(ord[j as int]));
                        assert(!s.contains(combine(ord[i as int], ord[j as int], modulus_of(s))));
                    }
                    return false;
                }
                j += 1;
            }
            i += 1;
        }
        proof {
            assert forall|x: int, y: int| s.contains(x) && s.contains(y) implies s.contains(
                #[trigger] combine(x, y, modulus_of(s)),
            ) by {
                let p = choose|p: int| 0 <= p < ord.len() && ord[p] == x;
                let q = choose|q: int| 0 <= q < ord.len() && ord[q] == y;
                assert(s.contains(combine(ord[p], ord[q], n as int)));
            }
        }
        true
    }

    /// Whether the identity leaves every member unchanged on either side.
    pub fn has_identity(&self) -> (r: bool)
        requires
            self.wf(),
        ensures
            r == identity_holds(self.elements@, self.identity as int),
    {
        let n: usize = self.elements.len();
        let ghost s = self.elements@;
        let ghost ord = self.elements.order();
        let ghost e = self.identity as int;
        proof {
            self.elements.lemma_members();
        }
        let mut i: usize = 0;
        while i < n
            invariant
                i <= n,
                self.wf(),
                s == self.elements@,
                ord == self.elements.order(),
                e == self.identity as int,
                n == ord.len(),
                n == s.len(),
                forall|k: int| 0 <= k < n ==> s.contains(#[trigger] ord[k]),
                forall|p: int| 0 <= p < i ==> neutral(e, #[trigger] ord[p], n as int),
            decreases n - i,
        {
            let x: i32 = self.elements.get(i);
            let right: i64 = operation(x, self.identity, n);
            let left: i64 = operation(self.identity, x, n);
            if right != x as i64 || left != x as i64 {
                proof {
                    assert(s.contains(ord[i as int]));
                    assert(!neutral(e, ord[i as int], modulus_of(s)));
                }
                return false;
            }
            i += 1;
        }
        proof {
            assert forall|x: int| s.contains(x) implies #[trigger] neutral(
                e,
                x,
                modulus_of(s),
            ) by {
                let p = choose|p: int| 0 <= p < ord.len() && ord[p] == x;
                assert(neutral(e, ord[p], n as int));
            }
        }
        true
    }

    /// Whether every member has a member that combines with it to the
    /// identity in either order.
    pub fn has_inverses(&self) -> (r: bool)
        requires
            self.wf(),
        ensures
            r == inverses_exist(self.elements@, self.identity as int),
    {
        let n: usize = self.elements.len();
        let ghost s = self.elements@;
        let ghost ord = self.elements.order();
        let ghost e = self.identity as int;
        proof {
            self.elements.lemma_members();
        }
        let mut i: usize = 0;
        while i < n
            invariant
                i <= n,
                self.wf(),
                s == self.elements@,
                ord == self.elements.order(),
                e == self.identity as int,
                n == ord.len(),
                n == s.len(),
                forall|k: int| 0 <= k < n ==> s.contains(#[trigger] ord[k]),
                forall|v: int|
                    s.contains(v) ==> exists|k: int| 0 <= k < n && #[trigger] ord[k] == v,
                forall|p: int| 0 <= p < i ==> has_inverse(s, #[trigger] ord[p], e),
            decreases n - i,
        {
            let a: i32 = self.elements.get(i);
            let mut found: bool = false;
            let mut j: usize = 0;
            while j < n && !found
                invariant
                    i < n,
                    j <= n,
                    self.wf(),
                    s == self.elements@,
                    ord == self.elements.order(),
                    e == self.identity as int,
                    n == ord.len(),
                    n == s.len(),
                    a == ord[i as int],
                    forall|k: int| 0 <= k < n ==> s.contains(#[trigger] ord[k]),
                    found ==> has_inverse(s, ord[i as int], e),
                    !found ==> forall|q: int|
                        0 <= q < j ==> !inverse_pair(ord[i as int], #[trigger] ord[q], e, n as int),
                decreases n - j,
            {
                let b: i32 = self.elements.get(j);
                let ab: i64 = operation(a, b, n);
                let ba: i64 = operation(b, a, n);
                if ab == self.identity as i64 && ba == self.identity as i64 {
                    proof {
                        assert(s.contains(ord[j as int]));
                        assert(inverse_pair(ord[i as int], ord[j as int], e, modulus_of(s)));
                    }
                    found = true;
                }
                j += 1;
            }
            if !found {
                proof {
                    assert(s.contains(ord[i as int]));
                    assert(!has_inverse(s, ord[i as int], e)) by {
                        assert forall|b: int| s.contains(b) implies !#[trigger] inverse_pair(
                            ord[i as int],
                            b,
                            e,
                            modulus_of(s),
                        ) by {
                            let q = choose|q: int| 0 <= q < n && ord[q] == b;
                            assert(!inverse_pair(ord[i as int], ord[q], e, n as int));
                        }
                    }
                }
                return false;
            }
            i += 1;
        }
        proof {
            assert forall|a: int| s.contains(a) implies #[trigger] has_inverse(s, a, e) by {
                let p = choose|p: int| 0 <= p < n && ord[p] == a;
                assert(has_inverse(s, ord[p], e));
            }
        }
        true
    }

    /// Whether every three members give the same result in both groupings.
    pub fn is_associative(&self) -> (r: bool)
        requires
            self.wf(),
        ensures
            r == associative(self.elements@),
    {
        let n: usize = self.elements.len();
        let ghost s = self.elements@;
        let ghost ord = self.elements.order();
        proof {
            self.elements.lemma_members();
        }
        let mut i: usize = 0;
        while i < n
            invariant
                i <= n,
                self.wf(),
                s == self.elements@,
                ord == self.elements.order(),
                n == ord.len(),
                n == s.len(),
                forall|k: int| 0 <= k < n ==> s.contains(#[trigger] ord[k]),
                forall|p: int, q: int, t: int|
                    0 <= p < i && 0 <= q < n && 0 <= t < n ==> #[trigger] associates(
                        ord[p],
                        ord[q],
                        ord[t],
                        n as int,
                    ),
            decreases n - i,
        {
            let a: i32 = self.elements.get(i);
            let mut j: usize = 0;
            while j < n
                invariant
                    i < n,
                    j <= n,
                    self.wf(),
                    s == self.elements@,
                    ord == self.elements.order(),
                    n == ord.len(),
                    n == s.len(),
                    a == ord[i as int],
                    forall|k: int| 0 <= k < n ==> s.contains(#[trigger] ord[k]),
                        forall|q: int, t: int|
                        0 <= q < j && 0 <= t < n ==> #[trigger] associates(
                            ord[i as int],
                            ord[q],
                            ord[t],
                            n as int,
                        ),
                decreases n - j,
            {
                let b: i32 = self.elements.get(j);
                let mut k: usize = 0;
                while k < n
                    invariant
                        i < n,
                        j < n,
                        k <= n,
                        self.wf(),
                        s == self.elements@,
                        ord == self.elements.order(),
                        n == ord.len(),
                        n == s.len(),
                        a == ord[i as int],
                        b == ord[j as int],
                        forall|k: int| 0 <= k < n ==> s.contains(#[trigger] ord[k]),
                        forall|t: int|
                            0 <= t < k ==> #[trigger] associates(
                                ord[i as int],
                                ord[j as int],
                                ord[t],
                                n as int,
                            ),
                    decreases n - k,
                {
                    let c: i32 = self.elements.get(k);
                    if !associates_at(a, b, c, n) {
                        proof {
                            assert(s.contains(ord[i as int]) && s.contains(ord[j as int])
                                && s.contains(ord[k as int]));
                            assert(!associates(
                                ord[i as int],
                                ord[j as int],
                                ord[k as int],
                                modulus_of(s),
                            ));
                        }
                        return false;
                    }
                    k += 1;
                }
                j += 1;
            }
            i += 1;
        }
        proof {
            assert forall|a: int, b: int, c: int|
                s.contains(a) && s.contains(b) && s.contains(c) implies #[trigger] associates(
                a,
                b,
                c,
                modulus_of(s),
            ) by {
                let p = choose|p: int| 0 <= p < ord.len() && ord[p] == a;
                let q = choose|q: int| 0 <= q < ord.len() && ord[q] == b;
                let t = choose|t: int| 0 <= t < ord.len() && ord[t] == c;
                assert(associates(ord[p], ord[q], ord[t], n as int));
            }
        }
        true
    }

    /// Examines the candidate. Succeeds exactly where it is a group; else
    /// returns every failure: of an empty set its emptiness alone, of any
    /// other each axiom that does not hold, in the order closure,
    /// associativity, identity, inverses.
    pub fn is_valid_group(&self) -> (r: Result<(), Vec<AxiomFailure>>)
        requires
            self.wf(),
        ensures
            r is Ok <==> is_group(self.elements@, self.identity as int),
            r is Err ==> r->Err_0@ == failures(self.elements@, self.identity as int),
            r is Err ==> r->Err_0@.len() > 0,
    {
        let mut errors: Vec<AxiomFailure> = Vec::new();
        let ghost s = self.elements@;
        let ghost e = self.identity as int;
        if self.elements.is_empty() {
            errors.push(AxiomFailure::EmptySet);
            assert(errors@ =~= failures(s, e));
            return Err(errors);
        }
        if !self.is_closed() {
            errors.push(AxiomFailure::NotClosed);
        }
        assert(errors@ =~= failure_unless(closed(s), AxiomFailure::NotClosed));
        let ghost first = errors@;
        if !self.is_associative() {
            errors.push(AxiomFailure::NotAssociative);
        }
        assert(errors@ =~= first + failure_unless(associative(s), AxiomFailure::NotAssociative));
        let ghost second = errors@;
        if !self.has_identity() {
            errors.push(AxiomFailure::NoIdentity);
        }
        assert(errors@ =~= second + failure_unless(identity_holds(s, e), AxiomFailure::NoIdentity));
        let ghost third = errors@;
        if !self.has_inverses() {
            errors.push(AxiomFailure::MissingInverses);
        }
        assert(errors@ =~= third + failure_unless(
            inverses_exist(s, e),
            AxiomFailure::MissingInverses,
        ));
        assert(errors@ == failures(s, e));
        if errors.len() == 0 {
            Ok(())
        } else {
            Err(errors)
        }
    }

    /// Makes the group of `elements` with the identity `identity`, if they
    /// form one; else returns every failure, as `is_valid_group` lists them.
    pub fn new(elements: ElementSet, identity: i32) -> (r: Result<Group, Vec<AxiomFailure>>)
        requires
            elements.wf(),
        ensures
            r is Ok <==> is_group(elements@, identity as int),
            r is Ok ==> r->Ok_0.wf() && r->Ok_0.elements.order() == elements.order()
                && r->Ok_0.elements@ == elements@ && r->Ok_0.identity == identity,
            r is Err ==> r->Err_0@ == failures(elements@, identity as int),
            r is Err ==> r->Err_0@.len() > 0,
    {
        let group = Group { elements, identity };
        match group.is_valid_group() {
            Ok(()) => Ok(group),
            Err(errors) => Err(errors),
        }
    }
}

} // verus!
