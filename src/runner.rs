//! Running a machine model directly: a configuration is a state and the
//! event that led to it, a machine starts only from a starting state, and an
//! event moves it only along a declared transition. These are the rules that
//! the generated types enforce at compile time, checked here at the one
//! place where a configuration changes.
use vstd::prelude::*;

use crate::derive::{lemma_start_states, may_start, start_states};
use crate::machine::{Machine, MachineModel};
use crate::transition::Edge;
use crate::variant::{
    lemma_union_cases, opt_view, reachable, tags_separate, variant_list, variants_view, Variant,
    VariantModel,
};

verus! {

/// A configuration as a mathematical value.
pub struct Config {
    pub state: Seq<char>,
    pub trigger: Option<Seq<char>>,
}

/// A running machine: the state it is in and the event that brought it
/// there (`None` when it has not moved since it started).
#[derive(Clone, Debug, PartialEq)]
pub struct Instance {
    pub state: String,
    pub trigger: Option<String>,
}

impl View for Instance {
    type V = Config;

    open spec fn view(&self) -> Config {
        Config { state: self.state@, trigger: opt_view(self.trigger) }
    }
}

/// Why a machine refused to start or to move.
#[derive(Clone, Copy, Debug, PartialEq, Eq)]
pub enum RunError {
    /// The state is not one the machine may start from.
    NotInitial,
    /// No transition is declared for this state and event.
    Undeclared,
}

/// The target of the first edge that leaves `s` on event `e`.
pub open spec fn first_target(ts: Seq<Edge>, s: Seq<char>, e: Seq<char>) -> Option<Seq<char>>
    decreases ts.len(),
{
    if ts.len() == 0 {
        None
    } else if ts[0].from == s && ts[0].event == e {
        Some(ts[0].to)
    } else {
        first_target(ts.drop_first(), s, e)
    }
}

/// Whether an edge leaves `s` on event `e`.
pub open spec fn declared(ts: Seq<Edge>, s: Seq<char>, e: Seq<char>) -> bool {
    exists|i: int| 0 <= i < ts.len() && (#[trigger] ts[i]).from == s && ts[i].event == e
}

/// The configuration that a union case wraps.
pub open spec fn config_of(v: VariantModel) -> Config {
    Config { state: v.state, trigger: v.event }
}

pub proof fn lemma_first_target(ts: Seq<Edge>, s: Seq<char>, e: Seq<char>)
    ensures
        first_target(ts, s, e) is Some <==> declared(ts, s, e),
        first_target(ts, s, e) is Some ==> exists|i: int|
            0 <= i < ts.len() && (#[trigger] ts[i]).from == s && ts[i].event == e && ts[i].to
                == first_target(ts, s, e).unwrap(),
    decreases ts.len(),
{
    if ts.len() > 0 {
        let rest = ts.drop_first();
        lemma_first_target(rest, s, e);
        if declared(rest, s, e) {
            let i = choose|i: int| 0 <= i < rest.len() && (#[trigger] rest[i]).from == s && rest[i].event == e;
            assert(ts[i + 1] == rest[i]);
        }
        if first_target(rest, s, e) is Some && !(ts[0].from == s && ts[0].event == e) {
            let i = choose|i: int|
                0 <= i < rest.len() && (#[trigger] rest[i]).from == s && rest[i].event == e
                    && rest[i].to == first_target(rest, s, e).unwrap();
            assert(ts[i + 1] == rest[i]);
        }
        if declared(ts, s, e) && !(ts[0].from == s && ts[0].event == e) {
            let i = choose|i: int| 0 <= i < ts.len() && (#[trigger] ts[i]).from == s && ts[i].event == e;
            assert(rest[i - 1] == ts[i]);
        }
    }
}

/// A declared transition is taken: a machine in the source state of an
/// edge, given its event, moves to the edge's target, provided no other edge
/// leaves the same state on the same event for another target.
pub proof fn lemma_declared_transition(m: MachineModel, k: int)
    requires
        0 <= k < m.transitions.len(),
        forall|i: int|
            0 <= i < m.transitions.len() && (#[trigger] m.transitions[i]).from
                == m.transitions[k].from && m.transitions[i].event == m.transitions[k].event
                ==> m.transitions[i].to == m.transitions[k].to,
    ensures
        first_target(m.transitions, m.transitions[k].from, m.transitions[k].event) == Some(
            m.transitions[k].to,
        ),
{
    let ts = m.transitions;
    lemma_first_target(ts, ts[k].from, ts[k].event);
    assert(declared(ts, ts[k].from, ts[k].event));
}

/// Converting a machine into its union case and taking the machine back out
/// gives the same configuration: every configuration a machine can reach
/// has a case that wraps exactly it, and the case of the configuration a
/// case wraps is that case itself. This holds when no two reachable
/// configurations share a tag.
pub proof fn lemma_union_round_trip(m: MachineModel, c: Config)
    requires
        tags_separate(m),
        reachable(m, c.state, c.trigger),
    ensures
        exists|i: int|
            0 <= i < variant_list(m).len() && config_of(#[trigger] variant_list(m)[i]) == c,
        forall|i: int, j: int|
            0 <= i < variant_list(m).len() && 0 <= j < variant_list(m).len() && config_of(
                #[trigger] variant_list(m)[i],
            ) == c && config_of(#[trigger] variant_list(m)[j]) == c ==> i == j,
{
    lemma_union_cases(m);
    let vs = variant_list(m);
    let i = choose|i: int| 0 <= i < vs.len() && #[trigger] vs[i].state == c.state && vs[i].event == c.trigger;
    assert(config_of(vs[i]) == c);
    assert forall|i: int, j: int|
        0 <= i < vs.len() && 0 <= j < vs.len() && config_of(#[trigger] vs[i]) == c && config_of(
            #[trigger] vs[j],
        ) == c implies i == j by {
        if i < j {
            assert(vs[i].state == vs[j].state);
        } else if j < i {
            assert(vs[j].state == vs[i].state);
        }
    }
}

impl Variant {
    /// The configuration of the machine that this case wraps.
    pub fn instance(&self) -> (r: Instance)
        ensures
            r@ == config_of(self@),
    {
        let trigger = match &self.event {
            Some(e) => Some(e.clone()),
            None => None,
        };
        Instance { state: self.state.clone(), trigger }
    }
}

fn same_trigger(a: &Option<String>, b: &Option<String>) -> (r: bool)
    ensures
        r == (opt_view(*a) == opt_view(*b)),
{
    match (a, b) {
        (Some(x), Some(y)) => *x == *y,
        (None, None) => true,
        _ => false,
    }
}

impl Machine {
    /// Starts the machine in `state`, with no event yet; refused unless
    /// `state` is one the machine may start from.
    pub fn start(&self, state: &String) -> (r: Result<Instance, RunError>)
        ensures
            r is Ok <==> may_start(self@, state@),
            match r {
                Ok(i) => i@ == (Config { state: state@, trigger: None }),
                Err(e) => e == RunError::NotInitial,
            },
    {
        let starts = self.start_states();
        proof {
            lemma_start_states(self@);
        }
        let mut k: usize = 0;
        while k < starts.0.len()
            invariant
                k <= starts.0.len(),
                starts@ == start_states(self@),
                start_states(self@).contains(state@) <==> may_start(self@, state@),
                forall|i: int| 0 <= i < k ==> starts@[i] != state@,
            decreases starts.0.len() - k,
        {
            if starts.0[k].name == *state {
                assert(starts@[k as int] == state@);
                assert(start_states(self@).contains(state@));
                return Ok(Instance { state: state.clone(), trigger: None });
            }
            k += 1;
        }
        assert(!start_states(self@).contains(state@));
        Err(RunError::NotInitial)
    }

    /// Moves a running machine by `event` along the first transition
    /// declared for its state and that event; refused when none is.
    pub fn fire(&self, inst: Instance, event: &String) -> (r: Result<Instance, RunError>)
        ensures
            r is Ok <==> declared(self@.transitions, inst@.state, event@),
            match r {
                Ok(j) => j@ == (Config {
                    state: first_target(self@.transitions, inst@.state, event@).unwrap(),
                    trigger: Some(event@),
                }),
                Err(e) => e == RunError::Undeclared,
            },
    {
        let ts = &self.transitions.0;
        let ghost all = self@.transitions;
        proof {
            lemma_first_target(all, inst@.state, event@);
            assert(all.subrange(0, all.len() as int) =~= all);
        }
        let mut k: usize = 0;
        while k < ts.len()
            invariant
                k <= ts.len(),
                ts@ == self.transitions.0@,
                all == self@.transitions,
                first_target(all.subrange(k as int, all.len() as int), inst@.state, event@)
                    == first_target(all, inst@.state, event@),
            decreases ts.len() - k,
        {
            let ghost tail = all.subrange(k as int, all.len() as int);
            assert(tail[0] == all[k as int]);
            if ts[k].from.name == inst.state && ts[k].event.name == *event {
                return Ok(Instance { state: ts[k].to.name.clone(), trigger: Some(event.clone()) });
            }
            assert(tail.drop_first() =~= all.subrange(k + 1, all.len() as int));
            k += 1;
        }
        assert(all.subrange(k as int, all.len() as int) =~= Seq::<Edge>::empty());
        Err(RunError::Undeclared)
    }

    /// The union case that wraps a machine in the configuration of `inst`,
    /// if the union has one.
    pub fn as_enum(&self, inst: &Instance) -> (r: Option<Variant>)
        ensures
            match r {
                Some(v) => exists|i: int|
                    0 <= i < variant_list(self@).len() && #[trigger] variant_list(self@)[i] == v@
                        && config_of(v@) == inst@,
                None => forall|i: int|
                    0 <= i < variant_list(self@).len() ==> config_of(
                        #[trigger] variant_list(self@)[i],
                    ) != inst@,
            },
    {
        let vs = self.variants();
        let mut k: usize = 0;
        while k < vs.len()
            invariant
                k <= vs.len(),
                variants_view(vs@) == variant_list(self@),
                forall|i: int| 0 <= i < k ==> config_of(#[trigger] variant_list(self@)[i]) != inst@,
            decreases vs.len() - k,
        {
            if vs[k].state == inst.state && same_trigger(&vs[k].event, &inst.trigger) {
                let v = vs[k].duplicate();
                assert(variant_list(self@)[k as int] == vs@[k as int]@);
                return Some(v);
            }
            assert(variant_list(self@)[k as int] == vs@[k as int]@);
            k += 1;
        }
        None
    }
}

} // verus!
