use crate::axioms::{failures, is_group, AxiomFailure};
use crate::command::{Argument, Command};
use crate::elements::ElementSet;
use crate::group::Group;
use vstd::prelude::*;

verus! {

/// The state of an interactive session: the working set and the identity
/// candidate, which is unset at first.
#[derive(Debug)]
pub struct Session {
    pub elements: ElementSet,
    pub identity: Option<i32>,
}

/// What a command led to: what the caller is to report.
#[derive(Debug)]
pub enum Response {
    /// `add` was carried out; `any` says whether some argument was an integer.
    Added { any: bool },
    /// The identity candidate was set.
    IdentitySet,
    /// `identity` had no integer argument; nothing changed.
    IdentityInvalid,
    /// The working set, in insertion order, and the identity candidate.
    Listing { elements: Vec<i32>, identity: Option<i32> },
    /// The list of commands was asked for.
    Help,
    /// The working set and the identity candidate form this group.
    Created(Group),
    /// They form no group, for these reasons.
    Rejected(Vec<AxiomFailure>),
    /// `create` came before any identity candidate was set.
    IdentityMissing,
    /// The session is to end.
    Exit,
    /// The line named no command.
    Unknown,
}

/// Whether `argument` is the integer `v`.
pub open spec fn is_number(argument: Argument, v: int) -> bool {
    argument matches Argument::Number(n) && n as int == v
}

/// The integers among `arguments`.
pub open spec fn numbers_of(arguments: Seq<Argument>) -> Set<int> {
    Set::new(
        |v: int| exists|i: int| 0 <= i < arguments.len() && #[trigger] is_number(arguments[i], v),
    )
}

/// Whether some argument is an integer.
pub open spec fn any_number(arguments: Seq<Argument>) -> bool {
    exists|i: int| 0 <= i < arguments.len() && #[trigger] arguments[i] is Number
}

/// What `create` answers for the working set `elements` and the identity
/// candidate `identity`.
pub open spec fn creation(elements: ElementSet, identity: Option<i32>, response: Response) -> bool {
    match identity {
        None => response == Response::IdentityMissing,
        Some(e) => if is_group(elements@, e as int) {
            &&& response matches Response::Created(group)
            &&& group.wf()
            &&& group.elements.order() == elements.order()
            &&& group.identity == e
        } else {
            &&& response matches Response::Rejected(errors)
            &&& errors@ == failures(elements@, e as int)
        },
    }
}

/// The step relation of a session: `after` and `response` are what `command`
/// makes of `before`. Only `add` and `identity` with an integer change the
/// state.
pub open spec fn step(before: Session, command: Command, after: Session, response: Response) -> bool {
    match command {
        Command::Add(arguments) => {
            &&& after.elements@ == before.elements@.union(numbers_of(arguments@))
            &&& after.identity == before.identity
            &&& response == Response::Added { any: any_number(arguments@) }
        },
        Command::Identity(Some(e)) => {
            &&& after.elements == before.elements
            &&& after.identity == Some(e)
            &&& response == Response::IdentitySet
        },
        Command::Identity(None) => after == before && response == Response::IdentityInvalid,
        Command::List => {
            &&& after == before
            &&& response matches Response::Listing { elements, identity }
            &&& elements@.map_values(|x: i32| x as int) == before.elements.order()
            &&& identity == before.identity
        },
        Command::Help => after == before && response == Response::Help,
        Command::Create => after == before && creation(before.elements, before.identity, response),
        Command::Exit => after == before && response == Response::Exit,
        Command::Unknown => after == before && response == Response::Unknown,
    }
}

impl Session {
    /// The session is well formed where its working set is.
    pub open spec fn wf(&self) -> bool {
        self.elements.wf()
    }

    /// A session with an empty working set and no identity candidate.
    pub fn new() -> (session: Session)
        ensures
            session.wf(),
            session.elements@ == Set::<int>::empty(),
            session.identity == None::<i32>,
    {
        Session { elements: ElementSet::new(), identity: None }
    }

    /// Puts every integer among `arguments` into the working set. Returns
    /// whether there was one.
    pub fn add(&mut self, arguments: &Vec<Argument>) -> (any: bool)
        requires
            old(self).wf(),
        ensures
            final(self).wf(),
            final(self).elements@ == old(self).elements@.union(numbers_of(arguments@)),
            final(self).identity == old(self).identity,
            any == any_number(arguments@),
    {
        let ghost start = self.elements@;
        let mut any: bool = false;
        let mut i: usize = 0;
        proof {
            assert(numbers_of(arguments@.take(0)) =~= Set::<int>::empty());
            assert(start.union(Set::<int>::empty()) =~= start);
        }
        while i < arguments.len()
            invariant
                i <= arguments.len(),
                self.wf(),
                self.identity == old(self).identity,
                self.elements@ == start.union(numbers_of(arguments@.take(i as int))),
                any == any_number(arguments@.take(i as int)),
            decreases arguments.len() - i,
        {
            let ghost seen = arguments@.take(i as int);
            let ghost next = arguments@.take(i + 1);
            let ghost held = self.elements@;
            proof {
                assert forall|k: int| 0 <= k < seen.len() implies seen[k] == next[k] by {}
                assert(next[i as int] == arguments@[i as int]);
            }
            match &arguments[i] {
                Argument::Number(number) => {
                    self.elements.insert(*number);
                    any = true;
                    proof {
                        assert(any_number(next));
                        assert forall|v: int|
                            numbers_of(next).contains(v) == (numbers_of(seen).contains(v) || v
                                == *number as int) by {
                            if numbers_of(seen).contains(v) {
                                let k = choose|k: int|
                                    0 <= k < seen.len() && #[trigger] is_number(seen[k], v);
                                assert(next[k] == seen[k]);
                            }
                            if v == *number as int {
                                assert(is_number(next[i as int], v));
                            }
                            if numbers_of(next).contains(v) && v != *number as int {
                                let k = choose|k: int|
                                    0 <= k < next.len() && #[trigger] is_number(next[k], v);
                                assert(seen[k] == next[k]);
                            }
                        }
                        assert(self.elements@ =~= start.union(numbers_of(next)));
                    }
                },
                Argument::Invalid(_) => {
                    proof {
                        assert forall|v: int|
                            numbers_of(next).contains(v) == numbers_of(seen).contains(v) by {
                            if numbers_of(seen).contains(v) {
                                let k = choose|k: int|
                                    0 <= k < seen.len() && #[trigger] is_number(seen[k], v);
                                assert(next[k] == seen[k]);
                            }
                            if numbers_of(next).contains(v) {
                                let k = choose|k: int|
                                    0 <= k < next.len() && #[trigger] is_number(next[k], v);
                                assert(seen[k] == next[k]);
                            }
                        }
                        assert(numbers_of(next) =~= numbers_of(seen));
                        if any_number(seen) {
                            let k = choose|k: int| 0 <= k < seen.len() && #[trigger] seen[k] is Number;
                            assert(next[k] == seen[k]);
                        }
                        if any_number(next) {
                            let k = choose|k: int| 0 <= k < next.len() && #[trigger] next[k] is Number;
                            assert(seen[k] == next[k]);
                        }
                    }
                },
            }
            i += 1;
        }
        proof {
            assert(arguments@.take(arguments@.len() as int) =~= arguments@);
        }
        any
    }

    /// Submits the working set and the identity candidate for validation.
    /// The session keeps its state either way.
    pub fn create(&self) -> (response: Response)
        requires
            self.wf(),
        ensures
            creation(self.elements, self.identity, response),
    {
        match self.identity {
            None => Response::IdentityMissing,
            Some(identity) => match Group::new(self.elements.clone(), identity) {
                Ok(group) => Response::Created(group),
                Err(errors) => Response::Rejected(errors),
            },
        }
    }

    /// Carries out one command and says what the caller is to report.
    pub fn apply(&mut self, command: &Command) -> (response: Response)
        requires
            old(self).wf(),
        ensures
            final(self).wf(),
            step(*old(self), *command, *final(self), response),
    {
        match command {
            Command::Add(arguments) => {
                let any = self.add(arguments);
                Response::Added { any }
            },
            Command::Identity(Some(identity)) => {
                self.identity = Some(*identity);
                Response::IdentitySet
            },
            Command::Identity(None) => Response::IdentityInvalid,
            Command::List => Response::Listing {
                elements: self.elements.to_vec(),
                identity: self.identity,
            },
            Command::Help => Response::Help,
            Command::Create => self.create(),
            Command::Exit => Response::Exit,
            Command::Unknown => Response::Unknown,
        }
    }
}

} // verus!
