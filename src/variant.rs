//! The cases of the union type generated for a machine: one for each state
//! that a machine can be in together with the event that brought it there,
//! or with none for a fresh machine.
use vstd::prelude::*;
use vstd::string::StringExecFns;

use crate::derive::{lemma_start_states, start_states};
use crate::machine::{Machine, MachineModel};
use crate::text::{join, lemma_join_step, lemma_join_whole};
use crate::transition::Edge;

verus! {

/// One case of the union: its tag, its state, and the event that led to that
/// state (`None` for a machine that has not moved yet).
pub struct VariantModel {
    pub tag: Seq<char>,
    pub state: Seq<char>,
    pub event: Option<Seq<char>>,
}

/// One case of the union, as generated.
#[derive(Clone, Debug, PartialEq)]
pub struct Variant {
    pub name: String,
    pub state: String,
    pub event: Option<String>,
}

pub open spec fn opt_view(e: Option<String>) -> Option<Seq<char>> {
    match e {
        Some(s) => Some(s@),
        None => None,
    }
}

impl View for Variant {
    type V = VariantModel;

    open spec fn view(&self) -> VariantModel {
        VariantModel { tag: self.name@, state: self.state@, event: opt_view(self.event) }
    }
}

pub open spec fn variants_view(v: Seq<Variant>) -> Seq<VariantModel> {
    v.map_values(|x: Variant| x@)
}

pub open spec fn initial_tag(s: Seq<char>) -> Seq<char> {
    "Initial"@ + s
}

pub open spec fn reached_tag(s: Seq<char>, e: Seq<char>) -> Seq<char> {
    s + "By"@ + e
}

/// The tag of the case for state `s` reached by `e` (or by nothing).
pub open spec fn tag_of(s: Seq<char>, e: Option<Seq<char>>) -> Seq<char> {
    match e {
        None => initial_tag(s),
        Some(x) => reached_tag(s, x),
    }
}

pub open spec fn has_tag(vs: Seq<VariantModel>, tag: Seq<char>) -> bool {
    exists|k: int| 0 <= k < vs.len() && #[trigger] vs[k].tag == tag
}

pub open spec fn distinct_tags(vs: Seq<VariantModel>) -> bool {
    forall|i: int, j: int| 0 <= i < j < vs.len() ==> #[trigger] vs[i].tag != #[trigger] vs[j].tag
}

/// One case per starting state.
pub open spec fn initial_variants(ns: Seq<Seq<char>>) -> Seq<VariantModel> {
    ns.map_values(|s: Seq<char>| VariantModel { tag: initial_tag(s), state: s, event: None })
}

/// `vs` with the case that edge `e` leads to, unless a case of that tag is
/// there already.
pub open spec fn add_reached(vs: Seq<VariantModel>, e: Edge) -> Seq<VariantModel> {
    if has_tag(vs, reached_tag(e.to, e.event)) {
        vs
    } else {
        vs.push(VariantModel { tag: reached_tag(e.to, e.event), state: e.to, event: Some(e.event) })
    }
}

pub open spec fn reached_variants(vs: Seq<VariantModel>, ts: Seq<Edge>) -> Seq<VariantModel>
    decreases ts.len(),
{
    if ts.len() == 0 {
        vs
    } else {
        add_reached(reached_variants(vs, ts.drop_last()), ts.last())
    }
}

/// The union cases of a machine: one per starting state, then one per
/// edge in declaration order, skipping a tag already present.
pub open spec fn variant_list(m: MachineModel) -> Seq<VariantModel> {
    reached_variants(initial_variants(start_states(m)), m.transitions)
}

/// Whether a machine can be in state `s` having come there by `e`: a fresh
/// machine in a starting state, or the target of an edge of event `e`.
pub open spec fn reachable(m: MachineModel, s: Seq<char>, e: Option<Seq<char>>) -> bool {
    match e {
        None => start_states(m).contains(s),
        Some(x) => exists|i: int|
            0 <= i < m.transitions.len() && (#[trigger] m.transitions[i]).to == s
                && m.transitions[i].event == x,
    }
}

/// Whether distinct reachable configurations get distinct tags (names that
/// contain `By` can make two of them collide).
pub open spec fn tags_separate(m: MachineModel) -> bool {
    forall|s1: Seq<char>, e1: Option<Seq<char>>, s2: Seq<char>, e2: Option<Seq<char>>|
        #![trigger tag_of(s1, e1), tag_of(s2, e2)]
        reachable(m, s1, e1) && reachable(m, s2, e2) && tag_of(s1, e1) == tag_of(s2, e2) ==> s1
            == s2 && e1 == e2
}

pub proof fn lemma_initial_tag_injective(a: Seq<char>, b: Seq<char>)
    requires
        initial_tag(a) == initial_tag(b),
    ensures
        a == b,
{
    let k = "Initial"@.len() as int;
    assert(initial_tag(a).subrange(k, initial_tag(a).len() as int) =~= a);
    assert(initial_tag(b).subrange(k, initial_tag(b).len() as int) =~= b);
}

proof fn lemma_initial_variants(ns: Seq<Seq<char>>)
    requires
        ns.no_duplicates(),
    ensures
        distinct_tags(initial_variants(ns)),
        forall|i: int|
            0 <= i < ns.len() ==> #[trigger] initial_variants(ns)[i] == (VariantModel {
                tag: initial_tag(ns[i]),
                state: ns[i],
                event: None,
            }),
{
    let vs = initial_variants(ns);
    assert forall|i: int, j: int| 0 <= i < j < vs.len() implies #[trigger] vs[i].tag
        != #[trigger] vs[j].tag by {
        if vs[i].tag == vs[j].tag {
            lemma_initial_tag_injective(ns[i], ns[j]);
        }
    }
}

proof fn lemma_reached(vs0: Seq<VariantModel>, ts: Seq<Edge>)
    requires
        distinct_tags(vs0),
        forall|i: int|
            0 <= i < vs0.len() ==> #[trigger] vs0[i].tag == tag_of(vs0[i].state, vs0[i].event),
    ensures
        ({
            let vs = reached_variants(vs0, ts);
            &&& vs0.len() <= vs.len()
            &&& forall|i: int| 0 <= i < vs0.len() ==> #[trigger] vs[i] == vs0[i]
            &&& distinct_tags(vs)
            &&& forall|i: int|
                0 <= i < vs.len() ==> #[trigger] vs[i].tag == tag_of(vs[i].state, vs[i].event)
            &&& forall|i: int|
                #![trigger vs[i]]
                vs0.len() <= i < vs.len() ==> exists|j: int|
                    0 <= j < ts.len() && (#[trigger] ts[j]).to == vs[i].state && vs[i].event
                        == Some(ts[j].event)
            &&& forall|j: int|
                0 <= j < ts.len() ==> has_tag(vs, reached_tag(#[trigger] ts[j].to, ts[j].event))
        }),
    decreases ts.len(),
{
    if ts.len() > 0 {
        let rest = ts.drop_last();
        lemma_reached(vs0, rest);
        let a = reached_variants(vs0, rest);
        let e = ts.last();
        let vs = reached_variants(vs0, ts);
        assert(vs == add_reached(a, e));
        let v = VariantModel { tag: reached_tag(e.to, e.event), state: e.to, event: Some(e.event) };
        if !has_tag(a, v.tag) {
            assert(vs == a.push(v));
            assert forall|i: int, j: int| 0 <= i < j < vs.len() implies #[trigger] vs[i].tag
                != #[trigger] vs[j].tag by {
                if j == a.len() {
                    assert(vs[i] == a[i]);
                } else {
                    assert(vs[i] == a[i] && vs[j] == a[j]);
                }
            }
            assert forall|i: int| 0 <= i < vs.len() implies #[trigger] vs[i].tag == tag_of(
                vs[i].state,
                vs[i].event,
            ) by {
                if i < a.len() {
                    assert(vs[i] == a[i]);
                }
            }
            assert forall|i: int| #![trigger vs[i]] vs0.len() <= i < vs.len() implies exists|j: int|
                0 <= j < ts.len() && (#[trigger] ts[j]).to == vs[i].state && vs[i].event == Some(
                    ts[j].event,
                ) by {
                if i < a.len() {
                    assert(vs[i] == a[i]);
                    let j = choose|j: int|
                        0 <= j < rest.len() && (#[trigger] rest[j]).to == a[i].state && a[i].event
                            == Some(rest[j].event);
                    assert(ts[j] == rest[j]);
                } else {
                    assert(ts[ts.len() - 1] == e);
                }
            }
            assert forall|j: int| 0 <= j < ts.len() implies has_tag(
                vs,
                reached_tag(#[trigger] ts[j].to, ts[j].event),
            ) by {
                if j < rest.len() {
                    assert(ts[j] == rest[j]);
                    let k = choose|k: int|
                        0 <= k < a.len() && #[trigger] a[k].tag == reached_tag(
                            rest[j].to,
                            rest[j].event,
                        );
                    assert(vs[k] == a[k]);
                } else {
                    assert(vs[a.len() as int] == v);
                }
            }
        } else {
            assert forall|i: int| #![trigger vs[i]] vs0.len() <= i < vs.len() implies exists|j: int|
                0 <= j < ts.len() && (#[trigger] ts[j]).to == vs[i].state && vs[i].event == Some(
                    ts[j].event,
                ) by {
                let j = choose|j: int|
                    0 <= j < rest.len() && (#[trigger] rest[j]).to == a[i].state && a[i].event
                        == Some(rest[j].event);
                assert(ts[j] == rest[j]);
            }
            assert forall|j: int| 0 <= j < ts.len() implies has_tag(
                vs,
                reached_tag(#[trigger] ts[j].to, ts[j].event),
            ) by {
                if j < rest.len() {
                    assert(ts[j] == rest[j]);
                } else {
                    assert(ts[j] == e);
                }
            }
        }
    }
}

/// The union has exactly one case per configuration that a machine can be
/// in: every case is reachable and carries the tag of its configuration,
/// every reachable configuration has a case, and no two cases share one.
/// This holds when no two reachable configurations get the same tag.
pub proof fn lemma_union_cases(m: MachineModel)
    requires
        tags_separate(m),
    ensures
        ({
            let vs = variant_list(m);
            &&& forall|i: int|
                0 <= i < vs.len() ==> reachable(m, vs[i].state, vs[i].event) && #[trigger] vs[i].tag
                    == tag_of(vs[i].state, vs[i].event)
            &&& forall|s: Seq<char>, e: Option<Seq<char>>|
                reachable(m, s, e) ==> exists|i: int|
                    0 <= i < vs.len() && #[trigger] vs[i].state == s && vs[i].event == e
            &&& forall|i: int, j: int|
                0 <= i < j < vs.len() ==> !(#[trigger] vs[i].state == #[trigger] vs[j].state
                    && vs[i].event == vs[j].event)
        }),
{
    lemma_start_states(m);
    let ns = start_states(m);
    let vs0 = initial_variants(ns);
    let ts = m.transitions;
    lemma_initial_variants(ns);
    lemma_reached(vs0, ts);
    let vs = variant_list(m);
    assert forall|i: int| 0 <= i < vs.len() implies reachable(m, vs[i].state, vs[i].event)
        && #[trigger] vs[i].tag == tag_of(vs[i].state, vs[i].event) by {
        if i < vs0.len() {
            assert(vs[i] == vs0[i]);
            assert(ns[i] == vs[i].state);
        } else {
            let j = choose|j: int|
                0 <= j < ts.len() && (#[trigger] ts[j]).to == vs[i].state && vs[i].event == Some(
                    ts[j].event,
                );
        }
    }
    assert forall|s: Seq<char>, e: Option<Seq<char>>| reachable(m, s, e) implies exists|i: int|
        0 <= i < vs.len() && #[trigger] vs[i].state == s && vs[i].event == e by {
        match e {
            None => {
                let k = choose|k: int| 0 <= k < ns.len() && ns[k] == s;
                assert(vs[k] == vs0[k]);
                assert(vs0[k] == initial_variants(ns)[k]);
                assert(vs[k].state == s && vs[k].event == e);
            },
            Some(x) => {
                let j = choose|j: int|
                    0 <= j < ts.len() && (#[trigger] ts[j]).to == s && ts[j].event == x;
                assert(has_tag(vs, reached_tag(ts[j].to, ts[j].event)));
                let k = choose|k: int|
                    0 <= k < vs.len() && #[trigger] vs[k].tag == reached_tag(s, x);
                assert(reachable(m, vs[k].state, vs[k].event));
                assert(tag_of(vs[k].state, vs[k].event) == tag_of(s, e));
                assert(vs[k].state == s && vs[k].event == e);
            },
        }
    }
    assert forall|i: int, j: int| 0 <= i < j < vs.len() implies !(#[trigger] vs[i].state
        == #[trigger] vs[j].state && vs[i].event == vs[j].event) by {
        if vs[i].state == vs[j].state && vs[i].event == vs[j].event {
            assert(vs[i].tag == vs[j].tag);
        }
    }
}

impl Variant {
    /// A copy of this case, field by field.
    pub fn duplicate(&self) -> (r: Variant)
        ensures
            r@ == self@,
    {
        let event = match &self.event {
            Some(e) => Some(e.clone()),
            None => None,
        };
        Variant { name: self.name.clone(), state: self.state.clone(), event }
    }
}

fn tag_present(vs: &Vec<Variant>, tag: &String) -> (r: bool)
    ensures
        r == has_tag(variants_view(vs@), tag@),
{
    let mut k: usize = 0;
    while k < vs.len()
        invariant
            k <= vs.len(),
            forall|i: int| 0 <= i < k ==> variants_view(vs@)[i].tag != tag@,
        decreases vs.len() - k,
    {
        if vs[k].name == *tag {
            assert(variants_view(vs@)[k as int].tag == tag@);
            return true;
        }
        k += 1;
    }
    false
}

impl Machine {
    /// The cases of the union type: `Initial<S>` for each starting state
    /// `S`, then `<S>By<E>` for each transition of event `E` into `S`, in
    /// declaration order, where a tag already present is not added again.
    pub fn variants(&self) -> (r: Vec<Variant>)
        ensures
            variants_view(r@) == variant_list(self@),
    {
        let starts = self.start_states();
        let mut vs: Vec<Variant> = Vec::new();
        let mut i: usize = 0;
        while i < starts.0.len()
            invariant
                i <= starts.0.len(),
                variants_view(vs@) == initial_variants(starts@.take(i as int)),
            decreases starts.0.len() - i,
        {
            let s = &starts.0[i].name;
            let tag = String::from_str("Initial").concat(s.as_str());
            let ghost before = vs@;
            vs.push(Variant { name: tag, state: s.clone(), event: None });
            assert(variants_view(vs@) =~= variants_view(before).push(vs@[i as int]@));
            assert(initial_variants(starts@.take(i + 1)) =~= initial_variants(
                starts@.take(i as int),
            ).push(vs@[i as int]@));
            i += 1;
        }
        assert(starts@.take(i as int) =~= starts@);
        let ts = &self.transitions.0;
        let ghost base = variants_view(vs@);
        let mut j: usize = 0;
        while j < ts.len()
            invariant
                j <= ts.len(),
                ts@ == self.transitions.0@,
                base == initial_variants(start_states(self@)),
                variants_view(vs@) == reached_variants(base, self@.transitions.take(j as int)),
            decreases ts.len() - j,
        {
            let tr = &ts[j];
            let tag = tr.to.name.clone().concat("By").concat(tr.event.name.as_str());
            if !tag_present(&vs, &tag) {
                let ghost before = vs@;
                vs.push(
                    Variant {
                        name: tag,
                        state: tr.to.name.clone(),
                        event: Some(tr.event.name.clone()),
                    },
                );
                assert(variants_view(vs@) =~= variants_view(before).push(vs@[before.len() as int]@));
            }
            assert(self@.transitions.take(j + 1).drop_last() =~= self@.transitions.take(j as int));
            j += 1;
        }
        assert(self@.transitions.take(j as int) =~= self@.transitions);
        vs
    }
}

/// The event type a case names: the event, or `NoneEvent` for none.
pub open spec fn event_code(e: Option<Seq<char>>) -> Seq<char> {
    match e {
        Some(x) => x,
        None => "NoneEvent"@,
    }
}

/// One case of the union, wrapping the machine type of its configuration.
pub open spec fn case_code(v: VariantModel) -> Seq<char> {
    "    "@ + v.tag + "(Machine<"@ + v.state + ", "@ + event_code(v.event) + ">),\n"@
}

/// The conversion of the machine type of a case into that case.
pub open spec fn as_enum_code(v: VariantModel) -> Seq<char> {
    "impl AsEnum for Machine<"@ + v.state + ", "@ + event_code(v.event)
        + "> {\n    type Enum = Variant;\n\n    fn as_enum(self) -> Self::Enum {\n        Variant::"@
        + v.tag + "(self)\n    }\n}\n"@
}

/// The union type with the given cases, then the conversion into each.
pub open spec fn enum_code(vs: Seq<VariantModel>) -> Seq<char> {
    "#[derive(Debug)]\npub enum Variant {\n"@ + join(vs.map_values(|v: VariantModel| case_code(v)))
        + "}\n"@ + join(vs.map_values(|v: VariantModel| as_enum_code(v)))
}

fn push_event(out: &mut String, e: &Option<String>)
    ensures
        final(out)@ == old(out)@ + event_code(opt_view(*e)),
{
    match e {
        Some(x) => out.append(x.as_str()),
        None => out.append("NoneEvent"),
    }
}

fn push_case(out: &mut String, v: &Variant)
    ensures
        final(out)@ == old(out)@ + case_code(v@),
{
    out.append("    ");
    out.append(v.name.as_str());
    out.append("(Machine<");
    out.append(v.state.as_str());
    out.append(", ");
    push_event(out, &v.event);
    out.append(">),\n");
    assert(out@ =~= old(out)@ + case_code(v@));
}

fn push_as_enum(out: &mut String, v: &Variant)
    ensures
        final(out)@ == old(out)@ + as_enum_code(v@),
{
    out.append("impl AsEnum for Machine<");
    out.append(v.state.as_str());
    out.append(", ");
    push_event(out, &v.event);
    out.append("> {\n    type Enum = Variant;\n\n    fn as_enum(self) -> Self::Enum {\n        Variant::");
    out.append(v.name.as_str());
    out.append("(self)\n    }\n}\n");
    assert(out@ =~= old(out)@ + as_enum_code(v@));
}

/// Writes the union type with the cases `vs`, then the conversion of each
/// case's machine type into it.
pub fn variants_to_tokens(vs: &Vec<Variant>, out: &mut String)
    ensures
        final(out)@ == old(out)@ + enum_code(variants_view(vs@)),
{
    let ghost start = out@;
    let ghost v = variants_view(vs@);
    let ghost cases = v.map_values(|x: VariantModel| case_code(x));
    let ghost convs = v.map_values(|x: VariantModel| as_enum_code(x));
    out.append("#[derive(Debug)]\npub enum Variant {\n");
    let ghost head = out@;
    let mut i: usize = 0;
    while i < vs.len()
        invariant
            i <= vs.len(),
            v == variants_view(vs@),
            cases == v.map_values(|x: VariantModel| case_code(x)),
            out@ == head + join(cases.take(i as int)),
        decreases vs.len() - i,
    {
        push_case(out, &vs[i]);
        proof {
            lemma_join_step(cases, i as int);
            assert(out@ =~= head + join(cases.take(i + 1)));
        }
        i += 1;
    }
    proof {
        lemma_join_whole(cases);
    }
    out.append("}\n");
    let ghost mid = out@;
    let mut j: usize = 0;
    while j < vs.len()
        invariant
            j <= vs.len(),
            v == variants_view(vs@),
            convs == v.map_values(|x: VariantModel| as_enum_code(x)),
            out@ == mid + join(convs.take(j as int)),
        decreases vs.len() - j,
    {
        push_as_enum(out, &vs[j]);
        proof {
            lemma_join_step(convs, j as int);
            assert(out@ =~= mid + join(convs.take(j + 1)));
        }
        j += 1;
    }
    proof {
        lemma_join_whole(convs);
    }
    assert(out@ =~= start + enum_code(v));
}

/// The case that edge `e` leads to.
pub open spec fn reached_variant(e: Edge) -> VariantModel {
    VariantModel { tag: reached_tag(e.to, e.event), state: e.to, event: Some(e.event) }
}

/// One candidate case per starting state and one per edge, repeats kept.
pub open spec fn candidates(m: MachineModel) -> Seq<VariantModel> {
    initial_variants(start_states(m)) + m.transitions.map_values(|e: Edge| reached_variant(e))
}

/// Whether candidates that share a tag share their configuration.
pub open spec fn pairwise_separate(cs: Seq<VariantModel>) -> bool {
    forall|i: int, j: int|
        0 <= i < cs.len() && 0 <= j < cs.len() && (#[trigger] cs[i]).tag == (#[trigger] cs[j]).tag
            ==> cs[i].state == cs[j].state && cs[i].event == cs[j].event
}

proof fn lemma_candidates(m: MachineModel)
    ensures
        forall|k: int|
            0 <= k < candidates(m).len() ==> (#[trigger] candidates(m)[k]).tag == tag_of(
                candidates(m)[k].state,
                candidates(m)[k].event,
            ) && reachable(m, candidates(m)[k].state, candidates(m)[k].event),
        forall|s: Seq<char>, e: Option<Seq<char>>|
            reachable(m, s, e) ==> exists|k: int|
                0 <= k < candidates(m).len() && (#[trigger] candidates(m)[k]).state == s
                    && candidates(m)[k].event == e,
{
    lemma_start_states(m);
    let ns = start_states(m);
    let ts = m.transitions;
    let cs = candidates(m);
    let n = ns.len() as int;
    lemma_initial_variants(ns);
    assert forall|k: int| 0 <= k < cs.len() implies (#[trigger] cs[k]).tag == tag_of(
        cs[k].state,
        cs[k].event,
    ) && reachable(m, cs[k].state, cs[k].event) by {
        if k < n {
            assert(cs[k] == initial_variants(ns)[k]);
            assert(ns[k] == cs[k].state);
        } else {
            assert(cs[k] == reached_variant(ts[k - n]));
        }
    }
    assert forall|s: Seq<char>, e: Option<Seq<char>>| reachable(m, s, e) implies exists|k: int|
        0 <= k < cs.len() && (#[trigger] cs[k]).state == s && cs[k].event == e by {
        match e {
            None => {
                let k = choose|k: int| 0 <= k < ns.len() && ns[k] == s;
                assert(cs[k] == initial_variants(ns)[k]);
            },
            Some(x) => {
                let i = choose|i: int|
                    0 <= i < ts.len() && (#[trigger] ts[i]).to == s && ts[i].event == x;
                assert(cs[n + i] == reached_variant(ts[i]));
            },
        }
    }
}

/// Distinct reachable configurations get distinct tags exactly when the
/// candidate cases that share a tag share their configuration.
pub proof fn lemma_tags_separate(m: MachineModel)
    ensures
        tags_separate(m) <==> pairwise_separate(candidates(m)),
{
    lemma_candidates(m);
    let cs = candidates(m);
    if tags_separate(m) {
        assert forall|i: int, j: int|
            0 <= i < cs.len() && 0 <= j < cs.len() && (#[trigger] cs[i]).tag == (
            #[trigger] cs[j]).tag implies cs[i].state == cs[j].state && cs[i].event
            == cs[j].event by {
            assert(tag_of(cs[i].state, cs[i].event) == tag_of(cs[j].state, cs[j].event));
        }
    }
    if pairwise_separate(cs) {
        assert forall|s1: Seq<char>, e1: Option<Seq<char>>, s2: Seq<char>, e2: Option<Seq<char>>|
            #![trigger tag_of(s1, e1), tag_of(s2, e2)]
            reachable(m, s1, e1) && reachable(m, s2, e2) && tag_of(s1, e1) == tag_of(
                s2,
                e2,
            ) implies s1 == s2 && e1 == e2 by {
            let i = choose|k: int|
                0 <= k < cs.len() && (#[trigger] cs[k]).state == s1 && cs[k].event == e1;
            let j = choose|k: int|
                0 <= k < cs.len() && (#[trigger] cs[k]).state == s2 && cs[k].event == e2;
            assert(cs[i].tag == cs[j].tag);
        }
    }
}

fn same_event(a: &Option<String>, b: &Option<String>) -> (r: bool)
    ensures
        r == (opt_view(*a) == opt_view(*b)),
{
    match (a, b) {
        (Some(x), Some(y)) => *x == *y,
        (None, None) => true,
        _ => false,
    }
}

impl Machine {
    /// One candidate case per starting state and one per transition.
    fn candidates(&self) -> (r: Vec<Variant>)
        ensures
            variants_view(r@) == candidates(self@),
    {
        let starts = self.start_states();
        let ts = &self.transitions.0;
        let mut vs: Vec<Variant> = Vec::new();
        let mut i: usize = 0;
        while i < starts.0.len()
            invariant
                i <= starts.0.len(),
                variants_view(vs@) == initial_variants(starts@.take(i as int)),
            decreases starts.0.len() - i,
        {
            let s = &starts.0[i].name;
            let tag = String::from_str("Initial").concat(s.as_str());
            let ghost before = vs@;
            vs.push(Variant { name: tag, state: s.clone(), event: None });
            assert(variants_view(vs@) =~= variants_view(before).push(vs@[i as int]@));
            assert(initial_variants(starts@.take(i + 1)) =~= initial_variants(
                starts@.take(i as int),
            ).push(vs@[i as int]@));
            i += 1;
        }
        assert(starts@.take(i as int) =~= starts@);
        let ghost base = variants_view(vs@);
        let ghost reached = self@.transitions.map_values(|e: Edge| reached_variant(e));
        let mut j: usize = 0;
        while j < ts.len()
            invariant
                j <= ts.len(),
                ts@ == self.transitions.0@,
                base == initial_variants(start_states(self@)),
                reached == self@.transitions.map_values(|e: Edge| reached_variant(e)),
                variants_view(vs@) == base + reached.take(j as int),
            decreases ts.len() - j,
        {
            let tr = &ts[j];
            let tag = tr.to.name.clone().concat("By").concat(tr.event.name.as_str());
            let ghost before = vs@;
            vs.push(
                Variant {
                    name: tag,
                    state: tr.to.name.clone(),
                    event: Some(tr.event.name.clone()),
                },
            );
            assert(variants_view(vs@) =~= variants_view(before).push(vs@[before.len() as int]@));
            assert(base + reached.take(j + 1) =~= (base + reached.take(j as int)).push(
                reached[j as int],
            ));
            j += 1;
        }
        assert(reached.take(j as int) =~= reached);
        vs
    }

    /// Whether distinct configurations of the machine get distinct case
    /// tags. Names that contain `By` can make two of them collide, and the
    /// union would then lack a case.
    pub fn tags_distinct(&self) -> (r: bool)
        ensures
            r == tags_separate(self@),
    {
        let cs = self.candidates();
        proof {
            lemma_tags_separate(self@);
        }
        let ghost v = candidates(self@);
        let mut i: usize = 0;
        while i < cs.len()
            invariant
                i <= cs.len(),
                v == variants_view(cs@),
                tags_separate(self@) <==> pairwise_separate(v),
                forall|a: int, b: int|
                    0 <= a < i && 0 <= b < v.len() && (#[trigger] v[a]).tag == (#[trigger] v[b]).tag
                        ==> v[a].state == v[b].state && v[a].event == v[b].event,
            decreases cs.len() - i,
        {
            let mut j: usize = 0;
            while j < cs.len()
                invariant
                    i < cs.len(),
                    j <= cs.len(),
                    v == variants_view(cs@),
                    tags_separate(self@) <==> pairwise_separate(v),
                    forall|a: int, b: int|
                        0 <= a < i && 0 <= b < v.len() && (#[trigger] v[a]).tag == (
                        #[trigger] v[b]).tag ==> v[a].state == v[b].state && v[a].event
                            == v[b].event,
                    forall|b: int|
                        0 <= b < j && v[i as int].tag == (#[trigger] v[b]).tag ==> v[i as int].state
                            == v[b].state && v[i as int].event == v[b].event,
                decreases cs.len() - j,
            {
                assert(v[i as int] == cs@[i as int]@ && v[j as int] == cs@[j as int]@);
                if cs[i].name == cs[j].name && !(cs[i].state == cs[j].state && same_event(
                    &cs[i].event,
                    &cs[j].event,
                )) {
                    assert(!pairwise_separate(v));
                    return false;
                }
                j += 1;
            }
            i += 1;
        }
        true
    }
}

/// The union section of a generated module: one case line and one `AsEnum`
/// impl per union case, in order, each impl for the machine type of its
/// case's configuration and wrapping the machine itself. When tags are
/// distinct, these cases are one per reachable configuration, so every
/// machine type that can be built converts into exactly one case.
pub proof fn lemma_generated_union(m: MachineModel, i: int)
    requires
        tags_separate(m),
        0 <= i < variant_list(m).len(),
    ensures
        enum_code(variant_list(m)) == "#[derive(Debug)]\npub enum Variant {\n"@ + join(
            variant_list(m).map_values(|v: VariantModel| case_code(v)),
        ) + "}\n"@ + join(variant_list(m).map_values(|v: VariantModel| as_enum_code(v))),
        variant_list(m).map_values(|v: VariantModel| as_enum_code(v))[i] == as_enum_code(
            variant_list(m)[i],
        ),
        reachable(m, variant_list(m)[i].state, variant_list(m)[i].event),
        forall|j: int|
            0 <= j < variant_list(m).len() && j != i ==> !(#[trigger] variant_list(m)[j].state
                == variant_list(m)[i].state && variant_list(m)[j].event == variant_list(m)[i].event),
{
    lemma_union_cases(m);
    let vs = variant_list(m);
    assert(vs[i].tag == tag_of(vs[i].state, vs[i].event));
    assert forall|j: int|
        0 <= j < vs.len() && j != i implies !(#[trigger] vs[j].state == vs[i].state && vs[j].event
        == vs[i].event) by {
        if j < i {
            assert(!(vs[j].state == vs[i].state && vs[j].event == vs[i].event));
        } else {
            assert(!(vs[i].state == vs[j].state && vs[i].event == vs[j].event));
        }
    }
}

} // verus!
