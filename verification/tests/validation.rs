use group_calculator::axioms::{report, AxiomFailure};
use group_calculator::elements::ElementSet;
use group_calculator::group::Group;
use group_calculator::operation::{operation, reduce};

fn set_of(values: &[i32]) -> ElementSet {
    let mut set = ElementSet::new();
    for v in values {
        set.insert(*v);
    }
    set
}

fn candidate(values: &[i32], identity: i32) -> Group {
    Group { elements: set_of(values), identity }
}

#[test]
fn three_residues_form_a_group() {
    let group = Group::new(set_of(&[0, 1, 2]), 0).expect("a group");
    assert_eq!(group.identity, 0);
    assert_eq!(group.elements.to_vec(), vec![0, 1, 2]);
    let c = candidate(&[0, 1, 2], 0);
    assert!(c.is_closed());
    assert!(c.is_associative());
    assert!(c.has_identity());
    assert!(c.has_inverses());
    assert_eq!(c.is_valid_group(), Ok(()));
}

#[test]
fn two_residues_form_a_group() {
    let group = Group::new(set_of(&[0, 1]), 0).expect("a group");
    assert_eq!(group.elements.len(), 2);
    assert_eq!(operation(1, 1, 2), 0);
    assert_eq!(operation(0, 0, 2), 0);
}

#[test]
fn set_without_its_identity_is_rejected() {
    let c = candidate(&[1, 2, 3], 0);
    assert!(!c.is_closed());
    assert!(c.is_associative());
    assert!(!c.has_identity());
    assert!(c.has_inverses());
    let errors = Group::new(set_of(&[1, 2, 3]), 0).expect_err("no group");
    assert_eq!(errors, vec![AxiomFailure::NotClosed, AxiomFailure::NoIdentity]);
}

#[test]
fn empty_set_is_rejected_without_a_fault() {
    for identity in [0, 1, -7, i32::MAX, i32::MIN] {
        let errors = Group::new(ElementSet::new(), identity).expect_err("no group");
        assert_eq!(errors, vec![AxiomFailure::EmptySet]);
    }
    let c = candidate(&[], 0);
    assert_eq!(c.is_valid_group(), Err(vec![AxiomFailure::EmptySet]));
    assert!(c.is_closed());
    assert!(c.is_associative());
    assert!(c.has_identity());
    assert!(c.has_inverses());
}

#[test]
fn every_failing_axiom_is_listed() {
    let errors = Group::new(set_of(&[2, -2, 0]), 0).expect_err("no group");
    assert_eq!(errors, vec![AxiomFailure::NotClosed, AxiomFailure::NotAssociative]);
    let errors = Group::new(set_of(&[0, 1]), 5).expect_err("no group");
    assert_eq!(errors, vec![AxiomFailure::NoIdentity, AxiomFailure::MissingInverses]);
    let errors = Group::new(set_of(&[7, -3, 4]), 9).expect_err("no group");
    assert_eq!(
        errors,
        vec![
            AxiomFailure::NotClosed,
            AxiomFailure::NotAssociative,
            AxiomFailure::NoIdentity,
            AxiomFailure::MissingInverses,
        ]
    );
}

#[test]
fn single_axiom_checks_agree_with_hand_computation() {
    // 2 + 2 = 4, reduced by 3 is 1; 1 is no member.
    assert!(!candidate(&[2, -2, 0], 0).is_closed());
    // (2 + 2) + -2 reduces to -1, 2 + (2 + -2) to 2.
    assert!(!candidate(&[2, -2, 0], 0).is_associative());
    assert!(candidate(&[2, -2, 0], 0).has_identity());
    assert!(candidate(&[2, -2, 0], 0).has_inverses());
    // 2 + 0 reduced by 2 is 0, not 2.
    assert!(candidate(&[0, 2], 0).is_closed());
    assert!(!candidate(&[0, 2], 0).has_identity());
    assert!(candidate(&[0, 2], 0).has_inverses());
    assert!(!candidate(&[0, 1], 5).has_inverses());
}

#[test]
fn negative_members_keep_their_sign() {
    // -1 + -1 = -2 reduces to 0, and -1 + 0 stays -1.
    let group = Group::new(set_of(&[-1, 0]), 0).expect("a group");
    assert!(group.elements.contains(-1));
    assert_eq!(operation(-1, -1, 2), 0);
    assert_eq!(operation(-1, 0, 2), -1);
}

#[test]
fn operation_exact_values() {
    assert_eq!(operation(2, 2, 3), 1);
    assert_eq!(operation(1, 2, 3), 0);
    assert_eq!(operation(3, 3, 3), 0);
    assert_eq!(operation(-5, 0, 3), -2);
    assert_eq!(operation(-5, 7, 3), 2);
    assert_eq!(operation(5, -7, 3), -2);
    assert_eq!(operation(4, 5, 1), 0);
    assert_eq!(operation(4, 5, 100), 9);
}

#[test]
fn operation_does_not_overflow() {
    assert_eq!(operation(i32::MAX, i32::MAX, 10), 4);
    assert_eq!(operation(i32::MIN, i32::MIN, 10), -6);
    assert_eq!(operation(i32::MAX, i32::MAX, usize::MAX), 4294967294);
    assert_eq!(operation(i32::MIN, i32::MIN, usize::MAX), -4294967296);
    assert_eq!(operation(i32::MAX, 1, 2147483647), 1);
}

#[test]
fn reduce_exact_values() {
    assert_eq!(reduce(0, 1), 0);
    assert_eq!(reduce(7, 7), 0);
    assert_eq!(reduce(-7, 7), 0);
    assert_eq!(reduce(8, 7), 1);
    assert_eq!(reduce(-8, 7), -1);
    assert_eq!(reduce(i64::MAX, 2), 1);
    assert_eq!(reduce(i64::MIN, 2), 0);
    assert_eq!(reduce(i64::MIN, 3), -2);
    assert_eq!(reduce(i64::MIN, 1), 0);
    assert_eq!(reduce(i64::MIN, usize::MAX), i64::MIN);
}

#[test]
fn residues_form_a_group_for_small_moduli() {
    for n in 1..8 {
        let members: Vec<i32> = (0..n).collect();
        let group = Group::new(set_of(&members), 0).expect("a group");
        assert!(group.elements.contains(group.identity));
        assert_eq!(group.elements.len(), members.len());
    }
}

#[test]
fn validation_is_repeatable() {
    let inputs: Vec<(Vec<i32>, i32)> = vec![
        (vec![0, 1, 2], 0),
        (vec![1, 2, 3], 0),
        (vec![], 4),
        (vec![2, -2, 0], 0),
        (vec![0, 1], 5),
    ];
    for (members, identity) in inputs {
        let c = candidate(&members, identity);
        let first = c.is_valid_group();
        let second = c.is_valid_group();
        assert_eq!(first, second);
        let mut reversed = members.clone();
        reversed.reverse();
        assert_eq!(candidate(&reversed, identity).is_valid_group(), first);
        assert_eq!(Group::new(set_of(&members), identity).map(|_| ()), first);
    }
}

#[test]
fn a_group_holds_its_only_identity() {
    let members = [0, 1, 2, 3];
    let mut accepted = Vec::new();
    for identity in -6..7 {
        if let Ok(group) = Group::new(set_of(&members), identity) {
            assert!(group.elements.contains(identity));
            accepted.push(identity);
        }
    }
    assert_eq!(accepted, vec![0]);
}

#[test]
fn failure_messages() {
    assert_eq!(AxiomFailure::NotClosed.message(), "  Group is not closed under the operation.");
    assert_eq!(AxiomFailure::NotAssociative.message(), "  Operation is not associative.");
    assert_eq!(AxiomFailure::NoIdentity.message(), "  No valid identity element found.");
    assert_eq!(AxiomFailure::MissingInverses.message(), "  Not all elements have inverses.");
    assert_eq!(
        AxiomFailure::EmptySet.message(),
        "  Group has no elements, so the modulus is undefined."
    );
}

#[test]
fn element_set_collapses_duplicates() {
    let mut set = ElementSet::new();
    assert!(set.is_empty());
    assert_eq!(set.len(), 0);
    assert!(set.insert(5));
    assert!(!set.insert(5));
    assert_eq!(set.len(), 1);
    assert!(set.insert(-3));
    assert!(set.insert(i32::MIN));
    assert!(!set.insert(-3));
    assert_eq!(set.len(), 3);
    assert!(!set.is_empty());
    assert!(set.contains(5));
    assert!(set.contains(i32::MIN));
    assert!(!set.contains(4));
    assert_eq!(set.get(0), 5);
    assert_eq!(set.get(1), -3);
    assert_eq!(set.get(2), i32::MIN);
    assert_eq!(set.to_vec(), vec![5, -3, i32::MIN]);
    let copy = set.clone();
    assert_eq!(copy.to_vec(), set.to_vec());
}

#[test]
fn report_joins_the_lines() {
    assert_eq!(report(&Vec::new()), "");
    assert_eq!(report(&vec![AxiomFailure::NoIdentity]), "  No valid identity element found.");
    let errors = Group::new(set_of(&[7, -3, 4]), 9).expect_err("no group");
    assert_eq!(
        report(&errors),
        "  Group is not closed under the operation.\n  Operation is not associative.\n  No valid identity element found.\n  Not all elements have inverses."
    );
    let errors = Group::new(ElementSet::new(), 0).expect_err("no group");
    assert_eq!(report(&errors), "  Group has no elements, so the modulus is undefined.");
}
