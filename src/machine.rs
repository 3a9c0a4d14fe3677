//! Machines: how a declaration of one or more machines is read, and what is
//! derived from each (its states, events, starting states and union cases).
use vstd::prelude::*;
use vstd::string::StringExecFns;

use crate::derive::{
    event_names, lemma_event_names, lemma_start_states, lemma_state_names, may_start,
    start_states, state_names,
};
use crate::initial_state::{init_block, initial_code, initials_code, InitialStates};
use crate::text::{
    eq_impl_code, eq_row_parts, join, lemma_join_step, lemma_join_whole, lemma_marker_equality,
    markers_code,
};
use crate::token::{err_at, is_open, name_at, read_name, token_is_open, ErrorKind, ParseError, Token};
use crate::transition::{
    blocks, edge_param, lemma_edge_param_fresh, transition_code, transitions_code, Edge,
    Transitions,
};
use crate::variant::{enum_code, variant_list, variants_to_tokens};

verus! {

/// A machine as a mathematical value: its name, its declared initial states
/// (empty when every state may start it) and its edges in declaration order.
pub struct MachineModel {
    pub name: Seq<char>,
    pub initial_states: Seq<Seq<char>>,
    pub transitions: Seq<Edge>,
}

/// One declared machine.
#[derive(Clone, Debug, PartialEq)]
pub struct Machine {
    pub name: String,
    pub initial_states: InitialStates,
    pub transitions: Transitions,
}

impl View for Machine {
    type V = MachineModel;

    open spec fn view(&self) -> MachineModel {
        MachineModel {
            name: self.name@,
            initial_states: self.initial_states@,
            transitions: self.transitions@,
        }
    }
}

/// All machines of one declaration, in order.
#[derive(Clone, Debug, PartialEq)]
pub struct Machines(pub Vec<Machine>);

pub open spec fn machines_view(v: Seq<Machine>) -> Seq<MachineModel> {
    v.map_values(|m: Machine| m@)
}

impl View for Machines {
    type V = Seq<MachineModel>;

    open spec fn view(&self) -> Seq<MachineModel> {
        machines_view(self.0@)
    }
}

/// The machine `Name { [InitialStates { ... }] Event { ... } ... }` at `p`,
/// and the position after its closing brace.
pub open spec fn machine_at(t: Seq<Token>, p: int) -> Result<(MachineModel, int), ParseError> {
    match name_at(t, p) {
        Err(e) => Err(e),
        Ok(name) => if !is_open(t, p + 1) {
            Err(err_at(ErrorKind::ExpectedOpenBrace, p + 1))
        } else {
            match init_block(t, p + 2) {
                Err(e) => Err(e),
                Ok(init) => match blocks(t, init.1, Seq::empty()) {
                    Err(e) => Err(e),
                    Ok(body) => Ok(
                        (
                            MachineModel {
                                name,
                                initial_states: init.0,
                                transitions: body.0,
                            },
                            body.1,
                        ),
                    ),
                },
            }
        },
    }
}

/// The machines from `p` to the end, appended to `acc`.
pub open spec fn machines_from(t: Seq<Token>, p: int, acc: Seq<MachineModel>) -> Result<
    Seq<MachineModel>,
    ParseError,
>
    decreases t.len() - p,
{
    if p >= t.len() {
        Ok(acc)
    } else {
        match machine_at(t, p) {
            Err(e) => Err(e),
            // A machine always moves forward; the bound only makes that evident.
            Ok(next) => if p < next.1 <= t.len() {
                machines_from(t, next.1, acc.push(next.0))
            } else {
                Err(err_at(ErrorKind::ExpectedCloseBrace, next.1))
            },
        }
    }
}

/// What a whole declaration reads as: its machines, or the first error.
pub open spec fn parse_machines(t: Seq<Token>) -> Result<Seq<MachineModel>, ParseError> {
    machines_from(t, 0, Seq::empty())
}

impl Machine {
    /// Reads the machine at `p`; on success also the position after its
    /// closing brace.
    pub fn parse(t: &Vec<Token>, p: usize) -> (r: Result<(Machine, usize), ParseError>)
        ensures
            match r {
                Ok((m, q)) => machine_at(t@, p as int) == Ok::<(MachineModel, int), ParseError>(
                    (m@, q as int),
                ) && p < q <= t.len(),
                Err(e) => machine_at(t@, p as int) == Err::<(MachineModel, int), ParseError>(e),
            },
    {
        let name = match read_name(t, p) {
            Ok(n) => n,
            Err(e) => {
                return Err(e);
            },
        };
        if !token_is_open(t, p + 1) {
            return Err(ParseError { kind: ErrorKind::ExpectedOpenBrace, pos: p + 1 });
        }
        let (initial_states, q) = match InitialStates::parse(t, p + 2) {
            Ok(x) => x,
            Err(e) => {
                return Err(e);
            },
        };
        let (transitions, r) = match Transitions::parse(t, q) {
            Ok(x) => x,
            Err(e) => {
                return Err(e);
            },
        };
        Ok((Machine { name, initial_states, transitions }, r))
    }
}

impl Machines {
    /// Reads a whole declaration.
    pub fn parse(t: &Vec<Token>) -> (r: Result<Machines, ParseError>)
        ensures
            match r {
                Ok(ms) => parse_machines(t@) == Ok::<Seq<MachineModel>, ParseError>(ms@),
                Err(e) => parse_machines(t@) == Err::<Seq<MachineModel>, ParseError>(e),
            },
    {
        let mut acc: Vec<Machine> = Vec::new();
        assert(machines_view(acc@) =~= Seq::empty());
        let mut p: usize = 0;
        while p < t.len()
            invariant
                machines_from(t@, p as int, machines_view(acc@)) == parse_machines(t@),
            decreases t.len() - p,
        {
            let (m, q) = match Machine::parse(t, p) {
                Ok(x) => x,
                Err(e) => {
                    return Err(e);
                },
            };
            let ghost before = acc@;
            acc.push(m);
            assert(machines_view(acc@) =~= machines_view(before).push(m@));
            p = q;
        }
        Ok(Machines(acc))
    }
}

/// What every generated machine module holds besides its own types: the
/// container of a state and the event that led to it, its queries, and its
/// construction from a starting state with no event yet.
pub const MACHINE_PRELUDE: &'static str = "use ::sm::{AsEnum, Event, InitialState, Initializer, Machine as M, NoneEvent, State, Transition};

#[derive(Debug, Eq, PartialEq)]
pub struct Machine<S: State, E: Event>(S, Option<E>);

impl<S: State, E: Event> M for Machine<S, E> {
    type State = S;
    type Event = E;

    fn state(&self) -> Self::State {
        self.0.clone()
    }

    fn trigger(&self) -> Option<Self::Event> {
        self.1.clone()
    }
}

impl<S: InitialState> Initializer<S> for Machine<S, NoneEvent> {
    type Machine = Machine<S, NoneEvent>;

    fn new(state: S) -> Self::Machine {
        Machine(state, Option::None)
    }
}
";

/// What the whole of a declaration expands to begins with this, so that the
/// traits' methods can be called on the generated machines.
pub const MACHINES_PRELUDE: &'static str = "use ::sm::{AsEnum, Initializer, Machine as M, Transition};\n";

/// The module generated for a machine: the prelude, the state markers with
/// their comparisons, the starting capability of each starting state, the
/// event markers with their comparisons, the union type with its
/// conversions, and the transition impls.
pub open spec fn machine_code(m: MachineModel) -> Seq<char> {
    "#[allow(non_snake_case)]\nmod "@ + m.name + " {\n"@ + MACHINE_PRELUDE@ + markers_code(
        "State"@,
        state_names(m),
    ) + initials_code(start_states(m)) + markers_code("Event"@, event_names(m)) + enum_code(
        variant_list(m),
    ) + transitions_code(m.transitions) + "}\n"@
}

/// What a declaration expands to: the imports, then one module per machine.
pub open spec fn machines_code(ms: Seq<MachineModel>) -> Seq<char> {
    MACHINES_PRELUDE@ + join(ms.map_values(|m: MachineModel| machine_code(m)))
}

impl Machine {
    /// Writes the module generated for this machine.
    pub fn to_tokens(&self, out: &mut String)
        ensures
            final(out)@ == old(out)@ + machine_code(self@),
    {
        out.append("#[allow(non_snake_case)]\nmod ");
        out.append(self.name.as_str());
        out.append(" {\n");
        out.append(MACHINE_PRELUDE);
        self.states().to_tokens(out);
        self.start_states().to_tokens(out);
        self.events().to_tokens(out);
        variants_to_tokens(&self.variants(), out);
        self.transitions.to_tokens(out);
        out.append("}\n");
        assert(out@ =~= old(out)@ + machine_code(self@));
    }
}

impl Machines {
    /// Writes what the whole declaration expands to.
    pub fn to_tokens(&self, out: &mut String)
        ensures
            final(out)@ == old(out)@ + machines_code(self@),
    {
        out.append(MACHINES_PRELUDE);
        let ghost head = out@;
        let ghost parts = self@.map_values(|m: MachineModel| machine_code(m));
        let mut i: usize = 0;
        while i < self.0.len()
            invariant
                i <= self.0.len(),
                parts == self@.map_values(|m: MachineModel| machine_code(m)),
                out@ == head + join(parts.take(i as int)),
            decreases self.0.len() - i,
        {
            self.0[i].to_tokens(out);
            proof {
                lemma_join_step(parts, i as int);
                assert(out@ =~= head + join(parts.take(i + 1)));
            }
            i += 1;
        }
        proof {
            lemma_join_whole(parts);
        }
        assert(out@ =~= old(out)@ + machines_code(self@));
    }
}

/// In the module generated for a machine, each state marker compares equal
/// to itself and unequal to every other state marker, both ways round: the
/// comparison of the `i`-th state with the `j`-th answers `i == j`.
pub proof fn lemma_state_markers_compare(m: MachineModel, i: int, j: int)
    requires
        0 <= i < state_names(m).len(),
        0 <= j < state_names(m).len(),
    ensures
        ({
            let ns = state_names(m);
            &&& eq_row_parts(ns[i], ns)[j] == eq_impl_code(ns[i], ns[j], i == j)
            &&& eq_row_parts(ns[j], ns)[i] == eq_impl_code(ns[j], ns[i], i == j)
        }),
{
    lemma_state_names(m);
    lemma_marker_equality(state_names(m), i, j);
}

/// In the module generated for a machine, each event marker compares equal
/// to itself and unequal to every other event marker, both ways round: the
/// comparison of the `i`-th event with the `j`-th answers `i == j`.
pub proof fn lemma_event_markers_compare(m: MachineModel, i: int, j: int)
    requires
        0 <= i < event_names(m).len(),
        0 <= j < event_names(m).len(),
    ensures
        ({
            let ns = event_names(m);
            &&& eq_row_parts(ns[i], ns)[j] == eq_impl_code(ns[i], ns[j], i == j)
            &&& eq_row_parts(ns[j], ns)[i] == eq_impl_code(ns[j], ns[i], i == j)
        }),
{
    lemma_event_names(m);
    lemma_marker_equality(event_names(m), i, j);
}

/// The module generated for a machine builds a container from a bare state
/// in one place only: the `Initializer` impl of its prelude, which asks the
/// state to implement `InitialState`. Right after the state markers, the
/// module implements `InitialState` once for each state that may start the
/// machine and for no other, so building one from any other state does not
/// type-check.
pub proof fn lemma_generated_starting_states(m: MachineModel)
    ensures
        machine_code(m) == "#[allow(non_snake_case)]\nmod "@ + m.name + " {\n"@ + MACHINE_PRELUDE@
            + markers_code("State"@, state_names(m)) + join(
            start_states(m).map_values(|n: Seq<char>| initial_code(n)),
        ) + (markers_code("Event"@, event_names(m)) + enum_code(variant_list(m))
            + transitions_code(m.transitions) + "}\n"@),
        start_states(m).no_duplicates(),
        forall|x: Seq<char>| #[trigger] start_states(m).contains(x) <==> may_start(m, x),
{
    lemma_start_states(m);
    assert(machine_code(m) =~= "#[allow(non_snake_case)]\nmod "@ + m.name + " {\n"@
        + MACHINE_PRELUDE@ + markers_code("State"@, state_names(m)) + join(
        start_states(m).map_values(|n: Seq<char>| initial_code(n)),
    ) + (markers_code("Event"@, event_names(m)) + enum_code(variant_list(m)) + transitions_code(
        m.transitions,
    ) + "}\n"@));
}

/// The module generated for a machine ends with one transition impl per
/// declared edge, in order. The impl of an edge takes a machine in the
/// edge's source state, whatever event brought it there, and the edge's
/// event, to a machine in the edge's target state that holds that event;
/// its parameter is none of the edge's names, so it shadows none of them.
pub proof fn lemma_generated_transitions(m: MachineModel, k: int)
    requires
        0 <= k < m.transitions.len(),
    ensures
        machine_code(m) == "#[allow(non_snake_case)]\nmod "@ + m.name + " {\n"@ + (
        MACHINE_PRELUDE@ + markers_code("State"@, state_names(m)) + initials_code(start_states(m))
            + markers_code("Event"@, event_names(m)) + enum_code(variant_list(m))) + join(
            m.transitions.map_values(|e: Edge| transition_code(e)),
        ) + "}\n"@,
        m.transitions.map_values(|e: Edge| transition_code(e))[k] == transition_code(
            m.transitions[k],
        ),
        edge_param(m.transitions[k]) != m.transitions[k].event,
        edge_param(m.transitions[k]) != m.transitions[k].from,
        edge_param(m.transitions[k]) != m.transitions[k].to,
{
    lemma_edge_param_fresh(m.transitions[k]);
    assert(machine_code(m) =~= "#[allow(non_snake_case)]\nmod "@ + m.name + " {\n"@ + (
    MACHINE_PRELUDE@ + markers_code("State"@, state_names(m)) + initials_code(start_states(m))
        + markers_code("Event"@, event_names(m)) + enum_code(variant_list(m))) + join(
        m.transitions.map_values(|e: Edge| transition_code(e)),
    ) + "}\n"@);
}

} // verus!
