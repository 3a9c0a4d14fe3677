//! Declarative finite-state machines whose misuse does not compile.
//!
//! A declaration such as
//!
//! ```text
//! TurnStile {
//!     InitialStates { Locked }
//!
//!     Coin { Locked, Unlocked => Unlocked }
//!     Push { Locked, Unlocked => Locked }
//! }
//! ```
//!
//! is read ([`machine::Machines::parse`]) into a model of machines, states,
//! events and transitions, from which the states, events and union cases of
//! each machine are derived, and the Rust source of one module per machine is
//! generated ([`machine::Machines::to_tokens`]). The generated types implement
//! the traits of this crate root: a machine can be built only from a starting
//! state, moved only along a declared transition, and turned into a case of a
//! union type that covers every configuration it can be in.
//!
//! The same rules can be run directly on a model ([`runner`]).
use vstd::prelude::*;

pub mod derive;
pub mod event;
pub mod initial_state;
pub mod machine;
pub mod runner;
pub mod state;
pub mod text;
pub mod token;
pub mod transition;
pub mod variant;

use crate::machine::{machines_code, parse_machines, MachineModel, Machines};
use crate::token::{ErrorKind, ParseError, Token};
use crate::variant::tags_separate;

verus! {

/// A marker type that stands for one state of a machine.
pub trait State: core::fmt::Debug + Eq + Clone {}

/// A state that a machine may be built in.
pub trait InitialState: State {}

/// A marker type that stands for one event of a machine.
pub trait Event: core::fmt::Debug + Eq + Clone {}

/// A machine in a known state, reached by a known event.
pub trait Machine: core::fmt::Debug + Eq {
    /// The state the machine is in.
    type State: State;

    /// The event that brought the machine into its state.
    type Event: Event;

    /// The state the machine is in.
    fn state(&self) -> Self::State;

    /// The event that brought the machine into its state, or `None` when it
    /// has not moved since it was built.
    fn trigger(&self) -> Option<Self::Event>;
}

/// Builds a machine in a starting state, with no event yet.
pub trait Initializer<S: InitialState> {
    /// The machine that is built.
    type Machine: Machine<State = S, Event = NoneEvent>;

    /// A machine in `state`.
    fn new(state: S) -> Self::Machine;
}

/// Moves a machine by an event; implemented only for the declared
/// transitions.
pub trait Transition<E: Event>: core::fmt::Debug {
    /// The machine after the move.
    type Machine: Machine;

    /// Consumes the machine and returns it in the state that `event` leads
    /// to.
    fn transition(self, event: E) -> Self::Machine;
}

/// Turns a machine into the case of a union type that wraps it.
pub trait AsEnum: core::fmt::Debug {
    /// The union type.
    type Enum;

    /// Consumes the machine and returns the case that wraps it.
    fn as_enum(self) -> Self::Enum;
}

/// The event type of a machine that has not moved yet.
#[derive(Clone, Copy, Debug, Eq, PartialEq)]
pub struct NoneEvent;

impl Event for NoneEvent {}

/// Expands a declaration: the source text of one module per machine, or the
/// first error in the declaration. A declaration in which some machine would
/// give two configurations the same union tag is refused, since its union
/// would lack a case.
pub fn sm(input: &Vec<Token>) -> (r: Result<String, ParseError>)
    ensures
        match parse_machines(input@) {
            Ok(ms) => if forall|i: int| 0 <= i < ms.len() ==> tags_separate(#[trigger] ms[i]) {
                r is Ok && r.unwrap()@ == machines_code(ms)
            } else {
                r == Err::<String, ParseError>(
                    ParseError { kind: ErrorKind::CollidingCases, pos: 0 },
                )
            },
            Err(e) => r == Err::<String, ParseError>(e),
        },
{
    match Machines::parse(input) {
        Ok(machines) => {
            let mut i: usize = 0;
            while i < machines.0.len()
                invariant
                    i <= machines.0.len(),
                    parse_machines(input@) == Ok::<Seq<MachineModel>, ParseError>(machines@),
                    forall|k: int| 0 <= k < i ==> tags_separate(#[trigger] machines@[k]),
                decreases machines.0.len() - i,
            {
                if !machines.0[i].tags_distinct() {
                    assert(!tags_separate(machines@[i as int]));
                    let ghost ms = parse_machines(input@)->Ok_0;
                    assert(ms == machines@);
                    assert(!(forall|k: int| 0 <= k < ms.len() ==> tags_separate(#[trigger] ms[k])));
                    return Err(ParseError { kind: ErrorKind::CollidingCases, pos: 0 });
                }
                i += 1;
            }
            let mut out = String::new();
            machines.to_tokens(&mut out);
            Ok(out)
        },
        Err(e) => Err(e),
    }
}

} // verus!
