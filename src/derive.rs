//! What is derived from a machine's declaration: its states and events in
//! order of first appearance, and the states it may start from.
use vstd::prelude::*;

use crate::event::{events_view, Event, Events};
use crate::initial_state::{initial_states_view, InitialState, InitialStates};
use crate::machine::{Machine, MachineModel};
use crate::state::{states_view, State, States};
use crate::transition::Edge;

verus! {

/// `acc` with `n` added at the end, unless it is there already.
pub open spec fn add_name(acc: Seq<Seq<char>>, n: Seq<char>) -> Seq<Seq<char>> {
    if acc.contains(n) {
        acc
    } else {
        acc.push(n)
    }
}

/// The names of `ns` added one by one to `acc`.
pub open spec fn add_names(acc: Seq<Seq<char>>, ns: Seq<Seq<char>>) -> Seq<Seq<char>>
    decreases ns.len(),
{
    if ns.len() == 0 {
        acc
    } else {
        add_name(add_names(acc, ns.drop_last()), ns.last())
    }
}

/// The source and target of each edge, in order, each name once.
pub open spec fn edge_states(ts: Seq<Edge>) -> Seq<Seq<char>>
    decreases ts.len(),
{
    if ts.len() == 0 {
        Seq::empty()
    } else {
        add_name(add_name(edge_states(ts.drop_last()), ts.last().from), ts.last().to)
    }
}

/// The event of each edge, in order, each name once.
pub open spec fn edge_events(ts: Seq<Edge>) -> Seq<Seq<char>>
    decreases ts.len(),
{
    if ts.len() == 0 {
        Seq::empty()
    } else {
        add_name(edge_events(ts.drop_last()), ts.last().event)
    }
}

/// The states of a machine: those of its edges, then the declared initial
/// states not seen there.
pub open spec fn state_names(m: MachineModel) -> Seq<Seq<char>> {
    add_names(edge_states(m.transitions), m.initial_states)
}

pub open spec fn event_names(m: MachineModel) -> Seq<Seq<char>> {
    edge_events(m.transitions)
}

/// Whether `n` names a state of the machine: an edge's source or target, or
/// a declared initial state.
pub open spec fn mentions_state(m: MachineModel, n: Seq<char>) -> bool {
    m.initial_states.contains(n) || exists|i: int|
        0 <= i < m.transitions.len() && (#[trigger] m.transitions[i].from == n
            || m.transitions[i].to == n)
}

/// Whether `n` names the event of some edge.
pub open spec fn mentions_event(m: MachineModel, n: Seq<char>) -> bool {
    exists|i: int| 0 <= i < m.transitions.len() && #[trigger] m.transitions[i].event == n
}

/// The states a machine may start from: the declared initial states, each
/// once in order of first appearance, or all its states when none is
/// declared.
pub open spec fn start_states(m: MachineModel) -> Seq<Seq<char>> {
    if m.initial_states.len() == 0 {
        state_names(m)
    } else {
        add_names(Seq::empty(), m.initial_states)
    }
}

/// Whether `n` may start the machine: it is declared initial, or no state is
/// declared initial and `n` is a state of the machine.
pub open spec fn may_start(m: MachineModel, n: Seq<char>) -> bool {
    if m.initial_states.len() == 0 {
        mentions_state(m, n)
    } else {
        m.initial_states.contains(n)
    }
}

pub proof fn lemma_add_name(acc: Seq<Seq<char>>, n: Seq<char>)
    ensures
        acc.no_duplicates() ==> add_name(acc, n).no_duplicates(),
        forall|x: Seq<char>| #[trigger]
            add_name(acc, n).contains(x) <==> (acc.contains(x) || x == n),
{
    if !acc.contains(n) {
        assert forall|x: Seq<char>| #[trigger]
            acc.push(n).contains(x) <==> (acc.contains(x) || x == n) by {
            if acc.push(n).contains(x) {
                let i = choose|i: int| 0 <= i < acc.push(n).len() && acc.push(n)[i] == x;
                if i < acc.len() {
                    assert(acc[i] == x);
                }
            }
            if acc.contains(x) {
                let i = choose|i: int| 0 <= i < acc.len() && acc[i] == x;
                assert(acc.push(n)[i] == x);
            }
            if x == n {
                assert(acc.push(n)[acc.len() as int] == x);
            }
        }
    }
}

pub proof fn lemma_add_names(acc: Seq<Seq<char>>, ns: Seq<Seq<char>>)
    ensures
        acc.no_duplicates() ==> add_names(acc, ns).no_duplicates(),
        forall|x: Seq<char>| #[trigger]
            add_names(acc, ns).contains(x) <==> (acc.contains(x) || ns.contains(x)),
    decreases ns.len(),
{
    if ns.len() > 0 {
        let rest = ns.drop_last();
        lemma_add_names(acc, rest);
        lemma_add_name(add_names(acc, rest), ns.last());
        assert forall|x: Seq<char>| #[trigger]
            add_names(acc, ns).contains(x) <==> (acc.contains(x) || ns.contains(x)) by {
            if rest.contains(x) {
                let i = choose|i: int| 0 <= i < rest.len() && rest[i] == x;
                assert(ns[i] == x);
            }
            if ns.contains(x) {
                let i = choose|i: int| 0 <= i < ns.len() && ns[i] == x;
                if i < rest.len() {
                    assert(rest[i] == x);
                }
            }
        }
    }
}

pub proof fn lemma_edge_states(ts: Seq<Edge>)
    ensures
        edge_states(ts).no_duplicates(),
        forall|i: int|
            0 <= i < ts.len() ==> edge_states(ts).contains(#[trigger] ts[i].from)
                && edge_states(ts).contains(ts[i].to),
        forall|x: Seq<char>| #[trigger]
            edge_states(ts).contains(x) ==> exists|i: int|
                0 <= i < ts.len() && (#[trigger] ts[i].from == x || ts[i].to == x),
    decreases ts.len(),
{
    if ts.len() > 0 {
        let rest = ts.drop_last();
        lemma_edge_states(rest);
        let a = edge_states(rest);
        lemma_add_name(a, ts.last().from);
        lemma_add_name(add_name(a, ts.last().from), ts.last().to);
        assert forall|i: int|
            0 <= i < ts.len() implies edge_states(ts).contains(#[trigger] ts[i].from)
                && edge_states(ts).contains(ts[i].to) by {
            if i < rest.len() {
                assert(rest[i] == ts[i]);
            }
        }
        assert forall|x: Seq<char>| #[trigger]
            edge_states(ts).contains(x) implies exists|i: int|
                0 <= i < ts.len() && (#[trigger] ts[i].from == x || ts[i].to == x) by {
            if a.contains(x) {
                let i = choose|i: int|
                    0 <= i < rest.len() && (#[trigger] rest[i].from == x || rest[i].to == x);
                assert(ts[i] == rest[i]);
            } else {
                assert(ts[ts.len() - 1].from == x || ts[ts.len() - 1].to == x);
            }
        }
    } else {
        assert(edge_states(ts) =~= Seq::<Seq<char>>::empty());
    }
}

pub proof fn lemma_edge_events(ts: Seq<Edge>)
    ensures
        edge_events(ts).no_duplicates(),
        forall|i: int| 0 <= i < ts.len() ==> edge_events(ts).contains(#[trigger] ts[i].event),
        forall|x: Seq<char>| #[trigger]
            edge_events(ts).contains(x) ==> exists|i: int|
                0 <= i < ts.len() && #[trigger] ts[i].event == x,
    decreases ts.len(),
{
    if ts.len() > 0 {
        let rest = ts.drop_last();
        lemma_edge_events(rest);
        let a = edge_events(rest);
        lemma_add_name(a, ts.last().event);
        assert forall|i: int| 0 <= i < ts.len() implies edge_events(ts).contains(
            #[trigger] ts[i].event,
        ) by {
            if i < rest.len() {
                assert(rest[i] == ts[i]);
            }
        }
        assert forall|x: Seq<char>| #[trigger]
            edge_events(ts).contains(x) implies exists|i: int|
                0 <= i < ts.len() && #[trigger] ts[i].event == x by {
            if a.contains(x) {
                let i = choose|i: int| 0 <= i < rest.len() && #[trigger] rest[i].event == x;
                assert(ts[i] == rest[i]);
            } else {
                assert(ts[ts.len() - 1].event == x);
            }
        }
    } else {
        assert(edge_events(ts) =~= Seq::<Seq<char>>::empty());
    }
}

/// The derived states hold each state of the machine exactly once.
pub proof fn lemma_state_names(m: MachineModel)
    ensures
        state_names(m).no_duplicates(),
        forall|x: Seq<char>| #[trigger] state_names(m).contains(x) <==> mentions_state(m, x),
{
    let ts = m.transitions;
    lemma_edge_states(ts);
    lemma_add_names(edge_states(ts), m.initial_states);
    assert forall|i: int| 0 <= i < ts.len() implies state_names(m).contains(#[trigger] ts[i].from)
        && state_names(m).contains(ts[i].to) by {
        assert(edge_states(ts).contains(ts[i].from));
        assert(edge_states(ts).contains(ts[i].to));
    }
}

/// The derived events hold each event of the machine exactly once.
pub proof fn lemma_event_names(m: MachineModel)
    ensures
        event_names(m).no_duplicates(),
        forall|x: Seq<char>| #[trigger] event_names(m).contains(x) <==> mentions_event(m, x),
{
    let ts = m.transitions;
    lemma_edge_events(ts);
    assert forall|i: int| 0 <= i < ts.len() implies event_names(m).contains(#[trigger] ts[i].event) by {
        assert(edge_events(ts).contains(ts[i].event));
    }
}

/// The starting states hold each state that may start the machine exactly
/// once.
pub proof fn lemma_start_states(m: MachineModel)
    ensures
        start_states(m).no_duplicates(),
        forall|x: Seq<char>| #[trigger] start_states(m).contains(x) <==> may_start(m, x),
{
    lemma_state_names(m);
    lemma_add_names(Seq::empty(), m.initial_states);
}

fn add_state(v: &mut States, n: &String)
    ensures
        final(v)@ == add_name(old(v)@, n@),
{
    if !v.contains(n) {
        let ghost before = v.0@;
        v.0.push(State { name: n.clone() });
        assert(states_view(v.0@) =~= states_view(before).push(n@));
    }
}

fn add_event(v: &mut Events, n: &String)
    ensures
        final(v)@ == add_name(old(v)@, n@),
{
    if !v.contains(n) {
        let ghost before = v.0@;
        v.0.push(Event { name: n.clone() });
        assert(events_view(v.0@) =~= events_view(before).push(n@));
    }
}

impl Machine {
    /// The states of the machine: each source and target of its
    /// transitions in declaration order, then each declared initial state
    /// not seen there; each name once.
    pub fn states(&self) -> (r: States)
        ensures
            r@ == state_names(self@),
            r@.no_duplicates(),
            forall|x: Seq<char>| #[trigger] r@.contains(x) <==> mentions_state(self@, x),
    {
        let ts = &self.transitions.0;
        let mut r = States(Vec::new());
        assert(r@ =~= Seq::<Seq<char>>::empty());
        let mut i: usize = 0;
        while i < ts.len()
            invariant
                i <= ts.len(),
                ts@ == self.transitions.0@,
                r@ == edge_states(self@.transitions.take(i as int)),
            decreases ts.len() - i,
        {
            add_state(&mut r, &ts[i].from.name);
            add_state(&mut r, &ts[i].to.name);
            assert(self@.transitions.take(i + 1).drop_last() =~= self@.transitions.take(i as int));
            i += 1;
        }
        assert(self@.transitions.take(i as int) =~= self@.transitions);
        let inits = &self.initial_states.0;
        let ghost base = r@;
        let mut j: usize = 0;
        while j < inits.len()
            invariant
                j <= inits.len(),
                inits@ == self.initial_states.0@,
                base == edge_states(self@.transitions),
                r@ == add_names(base, self@.initial_states.take(j as int)),
            decreases inits.len() - j,
        {
            add_state(&mut r, &inits[j].name);
            assert(self@.initial_states.take(j + 1).drop_last() =~= self@.initial_states.take(
                j as int,
            ));
            j += 1;
        }
        assert(self@.initial_states.take(j as int) =~= self@.initial_states);
        proof {
            lemma_state_names(self@);
        }
        r
    }

    /// The events of the machine, in order of first appearance among its
    /// transitions; each name once.
    pub fn events(&self) -> (r: Events)
        ensures
            r@ == event_names(self@),
            r@.no_duplicates(),
            forall|x: Seq<char>| #[trigger] r@.contains(x) <==> mentions_event(self@, x),
    {
        let ts = &self.transitions.0;
        let mut r = Events(Vec::new());
        assert(r@ =~= Seq::<Seq<char>>::empty());
        let mut i: usize = 0;
        while i < ts.len()
            invariant
                i <= ts.len(),
                ts@ == self.transitions.0@,
                r@ == edge_events(self@.transitions.take(i as int)),
            decreases ts.len() - i,
        {
            add_event(&mut r, &ts[i].event.name);
            assert(self@.transitions.take(i + 1).drop_last() =~= self@.transitions.take(i as int));
            i += 1;
        }
        assert(self@.transitions.take(i as int) =~= self@.transitions);
        proof {
            lemma_event_names(self@);
        }
        r
    }

    /// The states the machine may start from: the declared initial states,
    /// each once, or every state when none is declared.
    pub fn start_states(&self) -> (r: InitialStates)
        ensures
            r@ == start_states(self@),
            r@.no_duplicates(),
            forall|x: Seq<char>| #[trigger] r@.contains(x) <==> may_start(self@, x),
    {
        let names = if self.initial_states.0.len() == 0 {
            self.states()
        } else {
            let inits = &self.initial_states.0;
            let mut r = States(Vec::new());
            assert(r@ =~= Seq::<Seq<char>>::empty());
            let mut j: usize = 0;
            while j < inits.len()
                invariant
                    j <= inits.len(),
                    inits@ == self.initial_states.0@,
                    r@ == add_names(Seq::empty(), self@.initial_states.take(j as int)),
                decreases inits.len() - j,
            {
                add_state(&mut r, &inits[j].name);
                assert(self@.initial_states.take(j + 1).drop_last() =~= self@.initial_states.take(
                    j as int,
                ));
                j += 1;
            }
            assert(self@.initial_states.take(j as int) =~= self@.initial_states);
            r
        };
        let mut v: Vec<InitialState> = Vec::new();
        let mut i: usize = 0;
        while i < names.0.len()
            invariant
                i <= names.0.len(),
                v@.len() == i,
                forall|k: int| 0 <= k < i ==> v@[k]@ == names@[k],
            decreases names.0.len() - i,
        {
            v.push(InitialState { name: names.0[i].name.clone() });
            i += 1;
        }
        assert(initial_states_view(v@) =~= names@);
        proof {
            lemma_start_states(self@);
        }
        InitialStates(v)
    }
}

} // verus!
