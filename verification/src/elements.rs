use vstd::prelude::*;

verus! {

/// A finite set of integers. Adding a value that is already a member changes
/// nothing; the members are kept in the order in which they first came.
#[derive(Debug)]
pub struct ElementSet {
    items: Vec<i32>,
}

impl View for ElementSet {
    type V = Set<int>;

    /// The members, as a mathematical set.
    open spec fn view(&self) -> Set<int> {
        self.order().to_set()
    }
}

impl ElementSet {
    /// The members in the order of their first insertion.
    pub closed spec fn order(&self) -> Seq<int> {
        self.items@.map_values(|v: i32| v as int)
    }

    /// No member is held twice.
    pub open spec fn wf(&self) -> bool {
        self.order().no_duplicates()
    }

    /// What a well-formed set gives its users: the members are exactly the
    /// entries of `order`, each within `i32`, and there are as many members
    /// as entries.
    pub proof fn lemma_members(&self)
        requires
            self.wf(),
        ensures
            self@.finite(),
            self@.len() == self.order().len(),
            forall|i: int|
                0 <= i < self.order().len() ==> self@.contains(#[trigger] self.order()[i]),
            forall|v: int|
                self@.contains(v) ==> exists|i: int|
                    0 <= i < self.order().len() && #[trigger] self.order()[i] == v,
            forall|i: int|
                0 <= i < self.order().len() ==> i32::MIN <= #[trigger] self.order()[i]
                    <= i32::MAX,
    {
        broadcast use vstd::seq_lib::seq_to_set_is_finite;

        self.order().unique_seq_to_set();
        assert forall|i: int| 0 <= i < self.order().len() implies self@.contains(
            #[trigger] self.order()[i],
        ) by {
            assert(self.order().contains(self.order()[i]));
        }
        assert forall|v: int| self@.contains(v) implies exists|i: int|
            0 <= i < self.order().len() && #[trigger] self.order()[i] == v by {
            assert(self.order().contains(v));
        }
    }

    /// The empty set.
    pub fn new() -> (r: ElementSet)
        ensures
            r.wf(),
            r@ == Set::<int>::empty(),
            r.order() == Seq::<int>::empty(),
    {
        let r = ElementSet { items: Vec::new() };
        proof {
            assert(r.order() =~= Seq::<int>::empty());
            assert(r@ =~= Set::<int>::empty());
        }
        r
    }

    /// The number of members.
    pub fn len(&self) -> (n: usize)
        requires
            self.wf(),
        ensures
            n == self@.len(),
            n == self.order().len(),
    {
        proof {
            self.lemma_members();
        }
        self.items.len()
    }

    /// Whether the set has no member.
    pub fn is_empty(&self) -> (r: bool)
        requires
            self.wf(),
        ensures
            r == (self@.len() == 0),
            r == (self@ == Set::<int>::empty()),
    {
        proof {
            self.lemma_members();
            if self.order().len() == 0 {
                assert(self@ =~= Set::<int>::empty());
            } else {
                assert(self@.contains(self.order()[0]));
            }
        }
        self.items.len() == 0
    }

    /// The member at place `index` of the insertion order.
    pub fn get(&self, index: usize) -> (v: i32)
        requires
            index < self.order().len(),
        ensures
            v == self.order()[index as int],
    {
        self.items[index]
    }

    /// Whether `value` is a member.
    pub fn contains(&self, value: i32) -> (r: bool)
        ensures
            r == self@.contains(value as int),
    {
        let n: usize = self.items.len();
        let mut i: usize = 0;
        while i < n
            invariant
                i <= n,
                n == self.items.len(),
                forall|k: int| 0 <= k < i ==> self.items[k] != value,
            decreases n - i,
        {
            if self.items[i] == value {
                proof {
                    assert(self.order()[i as int] == value as int);
                    assert(self.order().contains(value as int));
                }
                return true;
            }
            i += 1;
        }
        proof {
            assert forall|k: int| 0 <= k < self.order().len() implies self.order()[k]
                != value as int by {
                assert(self.order()[k] == self.items[k] as int);
            }
            assert(!self.order().contains(value as int));
        }
        false
    }

    /// Adds `value`. Returns whether the set grew, that is whether `value`
    /// was not yet a member.
    pub fn insert(&mut self, value: i32) -> (grew: bool)
        requires
            old(self).wf(),
        ensures
            final(self).wf(),
            final(self)@ == old(self)@.insert(value as int),
            grew == !old(self)@.contains(value as int),
            final(self).order() == if grew {
                old(self).order().push(value as int)
            } else {
                old(self).order()
            },
    {
        if self.contains(value) {
            proof {
                assert(self@.insert(value as int) =~= self@);
            }
            return false;
        }
        let ghost before = self.order();
        self.items.push(value);
        proof {
            assert(self.order() =~= before.push(value as int));
            assert(!before.contains(value as int));
            assert forall|i: int, j: int|
                0 <= i < self.order().len() && 0 <= j < self.order().len() && i != j implies self.order()[i]
                != self.order()[j] by {
                if i < before.len() {
                    assert(before.contains(before[i]));
                }
                if j < before.len() {
                    assert(before.contains(before[j]));
                }
            }
            assert(self@ =~= before.to_set().insert(value as int)) by {
                assert forall|v: int| self@.contains(v) == before.to_set().insert(
                    value as int,
                ).contains(v) by {
                    if self.order().contains(v) {
                        let i = choose|i: int| 0 <= i < self.order().len() && self.order()[i] == v;
                        if i < before.len() {
                            assert(before.contains(v));
                        }
                    }
                    if before.contains(v) {
                        let i = choose|i: int| 0 <= i < before.len() && before[i] == v;
                        assert(self.order()[i] == v);
                    }
                    if v == value as int {
                        assert(self.order()[before.len() as int] == v);
                    }
                }
            }
        }
        true
    }

    /// The members as a vector, in the order of their first insertion.
    pub fn to_vec(&self) -> (v: Vec<i32>)
        ensures
            v@.map_values(|x: i32| x as int) == self.order(),
    {
        self.items.clone()
    }
}

impl Clone for ElementSet {
    /// A copy with the same members in the same order.
    fn clone(&self) -> (r: ElementSet)
        ensures
            r.order() == self.order(),
            r@ == self@,
            r.wf() == self.wf(),
    {
        ElementSet { items: self.items.clone() }
    }
}

} // verus!
