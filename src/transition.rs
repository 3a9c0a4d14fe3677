//! Transitions: the `Event { from, ... => to }` blocks of a machine, how they
//! are read, and the transition impls generated for them.
use vstd::prelude::*;
use vstd::string::{StrSliceExecFns, StringExecFns};

use crate::event::Event;
use crate::state::{states_view, State};
use crate::text::{join, lemma_join_step, lemma_join_whole};
use crate::token::{
    err_at, is_arrow, is_close, is_comma, is_open, name_at, token_is_arrow, token_is_close,
    token_is_comma, token_is_open, ErrorKind, ParseError, Token,
};

verus! {

/// One declared edge: `event` takes a machine in `from` to `to`.
pub struct Edge {
    pub event: Seq<char>,
    pub from: Seq<char>,
    pub to: Seq<char>,
}

/// One declared edge, as read from a declaration.
#[derive(Clone, Debug, PartialEq)]
pub struct Transition {
    pub event: Event,
    pub from: State,
    pub to: State,
}

impl View for Transition {
    type V = Edge;

    open spec fn view(&self) -> Edge {
        Edge { event: self.event@, from: self.from@, to: self.to@ }
    }
}

pub open spec fn edges_view(v: Seq<Transition>) -> Seq<Edge> {
    v.map_values(|x: Transition| x@)
}

/// All transitions of a machine, in declaration order.
#[derive(Clone, Debug, PartialEq)]
pub struct Transitions(pub Vec<Transition>);

impl View for Transitions {
    type V = Seq<Edge>;

    open spec fn view(&self) -> Seq<Edge> {
        edges_view(self.0@)
    }
}

/// The list `from1, from2, ...` that starts at `p`, appended to `acc`, and
/// the position after it. A comma right before `=>` is refused.
pub open spec fn from_list(t: Seq<Token>, p: int, acc: Seq<Seq<char>>) -> Result<
    (Seq<Seq<char>>, int),
    ParseError,
>
    decreases t.len() - p,
{
    if p >= t.len() {
        Err(err_at(ErrorKind::ExpectedName, p))
    } else {
        match name_at(t, p) {
            Err(e) => Err(e),
            Ok(n) => if is_comma(t, p + 1) && is_arrow(t, p + 2) {
                Err(err_at(ErrorKind::UnexpectedComma, p + 1))
            } else if is_comma(t, p + 1) {
                from_list(t, p + 2, acc.push(n))
            } else {
                Ok((acc.push(n), p + 1))
            },
        }
    }
}

/// One entry `from1, from2, ... => to` at `p`: the sources, the target and
/// the position after it.
pub open spec fn entry(t: Seq<Token>, p: int) -> Result<
    (Seq<Seq<char>>, Seq<char>, int),
    ParseError,
> {
    match from_list(t, p, Seq::empty()) {
        Err(e) => Err(e),
        Ok((fs, q)) => if !is_arrow(t, q) {
            Err(err_at(ErrorKind::ExpectedArrow, q))
        } else {
            match name_at(t, q + 1) {
                Err(e) => Err(e),
                Ok(to) => Ok((fs, to, q + 2)),
            }
        },
    }
}

/// The edges of one entry: one per source, all sharing event and target.
pub open spec fn entry_edges(event: Seq<char>, fs: Seq<Seq<char>>, to: Seq<char>) -> Seq<Edge> {
    fs.map_values(|f: Seq<char>| Edge { event, from: f, to })
}

/// The entries of the block of `event` from `p` up to its closing brace,
/// their edges appended to `acc`, and the position after the brace.
pub open spec fn entries(t: Seq<Token>, p: int, event: Seq<char>, acc: Seq<Edge>) -> Result<
    (Seq<Edge>, int),
    ParseError,
>
    decreases t.len() - p,
{
    if p >= t.len() {
        Err(err_at(ErrorKind::ExpectedCloseBrace, p))
    } else if t[p] is Close {
        Ok((acc, p + 1))
    } else {
        match entry(t, p) {
            Err(e) => Err(e),
            // An entry always moves forward; the test only makes that evident.
            Ok((fs, to, q)) => if p < q {
                entries(t, q, event, acc + entry_edges(event, fs, to))
            } else {
                Err(err_at(ErrorKind::ExpectedArrow, q))
            },
        }
    }
}

/// One event block `Event { ... }` at `p`, its edges appended to `acc`.
pub open spec fn block(t: Seq<Token>, p: int, acc: Seq<Edge>) -> Result<
    (Seq<Edge>, int),
    ParseError,
> {
    match name_at(t, p) {
        Err(e) => Err(e),
        Ok(ev) => if ev == "InitialStates"@ {
            Err(err_at(ErrorKind::ReservedName, p))
        } else if !is_open(t, p + 1) {
            Err(err_at(ErrorKind::ExpectedOpenBrace, p + 1))
        } else if is_close(t, p + 2) {
            Err(err_at(ErrorKind::EmptyTransitions, p + 2))
        } else {
            entries(t, p + 2, ev, acc)
        },
    }
}

/// The event blocks from `p` up to the closing brace of the machine, their
/// edges appended to `acc`, and the position after that brace.
pub open spec fn blocks(t: Seq<Token>, p: int, acc: Seq<Edge>) -> Result<
    (Seq<Edge>, int),
    ParseError,
>
    decreases t.len() - p,
{
    if p >= t.len() {
        Err(err_at(ErrorKind::ExpectedCloseBrace, p))
    } else if t[p] is Close {
        Ok((acc, p + 1))
    } else {
        match block(t, p, acc) {
            Err(e) => Err(e),
            // A block always moves forward; the bound only makes that evident.
            Ok(next) => if p < next.1 <= t.len() {
                blocks(t, next.1, next.0)
            } else {
                Err(err_at(ErrorKind::ExpectedCloseBrace, next.1))
            },
        }
    }
}

fn parse_from_list(t: &Vec<Token>, begin: usize) -> (r: Result<(Vec<State>, usize), ParseError>)
    ensures
        match r {
            Ok((v, q)) => from_list(t@, begin as int, Seq::empty()) == Ok::<
                (Seq<Seq<char>>, int),
                ParseError,
            >((states_view(v@), q as int)) && begin < q <= t.len(),
            Err(e) => from_list(t@, begin as int, Seq::empty()) == Err::<
                (Seq<Seq<char>>, int),
                ParseError,
            >(e),
        },
{
    let mut acc: Vec<State> = Vec::new();
    assert(states_view(acc@) =~= Seq::empty());
    let mut p: usize = begin;
    loop
        invariant
            begin <= p,
            from_list(t@, p as int, states_view(acc@)) == from_list(
                t@,
                begin as int,
                Seq::empty(),
            ),
        decreases t.len() - p,
    {
        if p >= t.len() {
            return Err(ParseError { kind: ErrorKind::ExpectedName, pos: p });
        }
        let (s, _) = match State::parse(t, p) {
            Ok(x) => x,
            Err(e) => {
                return Err(e);
            },
        };
        let ghost before = acc@;
        acc.push(s);
        assert(states_view(acc@) =~= states_view(before).push(s@));
        if token_is_comma(t, p + 1) {
            if token_is_arrow(t, p + 2) {
                return Err(ParseError { kind: ErrorKind::UnexpectedComma, pos: p + 1 });
            }
            p = p + 2;
        } else {
            return Ok((acc, p + 1));
        }
    }
}

fn parse_entry(t: &Vec<Token>, p: usize) -> (r: Result<(Vec<State>, State, usize), ParseError>)
    ensures
        match r {
            Ok((fs, to, q)) => entry(t@, p as int) == Ok::<
                (Seq<Seq<char>>, Seq<char>, int),
                ParseError,
            >((states_view(fs@), to@, q as int)) && p < q <= t.len(),
            Err(e) => entry(t@, p as int) == Err::<(Seq<Seq<char>>, Seq<char>, int), ParseError>(
                e,
            ),
        },
{
    let (fs, q) = match parse_from_list(t, p) {
        Ok(x) => x,
        Err(e) => {
            return Err(e);
        },
    };
    if !token_is_arrow(t, q) {
        return Err(ParseError { kind: ErrorKind::ExpectedArrow, pos: q });
    }
    match State::parse(t, q + 1) {
        Ok((to, _)) => Ok((fs, to, q + 2)),
        Err(e) => Err(e),
    }
}

/// Appends the edges of one entry to `acc`.
fn push_entry_edges(acc: &mut Vec<Transition>, event: &Event, fs: &Vec<State>, to: &State)
    ensures
        edges_view(final(acc)@) == edges_view(old(acc)@) + entry_edges(
            event@,
            states_view(fs@),
            to@,
        ),
{
    let ghost start = edges_view(acc@);
    let ghost added = entry_edges(event@, states_view(fs@), to@);
    let mut i: usize = 0;
    while i < fs.len()
        invariant
            i <= fs.len(),
            added == entry_edges(event@, states_view(fs@), to@),
            edges_view(acc@) == start + added.take(i as int),
        decreases fs.len() - i,
    {
        let ghost before = acc@;
        let tr = Transition {
            event: Event { name: event.name.clone() },
            from: State { name: fs[i].name.clone() },
            to: State { name: to.name.clone() },
        };
        acc.push(tr);
        assert(edges_view(acc@) =~= edges_view(before).push(tr@));
        assert(added.take(i + 1) =~= added.take(i as int).push(tr@));
        i += 1;
    }
    assert(added.take(i as int) =~= added);
}

fn parse_entries(t: &Vec<Token>, begin: usize, event: &Event, acc: &mut Vec<Transition>) -> (r: Result<
    usize,
    ParseError,
>)
    ensures
        match r {
            Ok(q) => entries(t@, begin as int, event@, edges_view(old(acc)@)) == Ok::<
                (Seq<Edge>, int),
                ParseError,
            >((edges_view(final(acc)@), q as int)) && begin < q <= t.len(),
            Err(e) => entries(t@, begin as int, event@, edges_view(old(acc)@)) == Err::<
                (Seq<Edge>, int),
                ParseError,
            >(e),
        },
{
    let mut p: usize = begin;
    loop
        invariant
            begin <= p,
            entries(t@, p as int, event@, edges_view(acc@)) == entries(
                t@,
                begin as int,
                event@,
                edges_view(old(acc)@),
            ),
        decreases t.len() - p,
    {
        if p >= t.len() {
            return Err(ParseError { kind: ErrorKind::ExpectedCloseBrace, pos: p });
        }
        if token_is_close(t, p) {
            return Ok(p + 1);
        }
        let (fs, to, q) = match parse_entry(t, p) {
            Ok(x) => x,
            Err(e) => {
                return Err(e);
            },
        };
        push_entry_edges(acc, event, &fs, &to);
        p = q;
    }
}

fn parse_block(t: &Vec<Token>, p: usize, acc: &mut Vec<Transition>) -> (r: Result<
    usize,
    ParseError,
>)
    ensures
        match r {
            Ok(q) => block(t@, p as int, edges_view(old(acc)@)) == Ok::<
                (Seq<Edge>, int),
                ParseError,
            >((edges_view(final(acc)@), q as int)) && p < q <= t.len(),
            Err(e) => block(t@, p as int, edges_view(old(acc)@)) == Err::<
                (Seq<Edge>, int),
                ParseError,
            >(e),
        },
{
    let (event, _) = match Event::parse(t, p) {
        Ok(x) => x,
        Err(e) => {
            return Err(e);
        },
    };
    let reserved = String::from_str("InitialStates");
    if event.name == reserved {
        return Err(ParseError { kind: ErrorKind::ReservedName, pos: p });
    }
    if !token_is_open(t, p + 1) {
        return Err(ParseError { kind: ErrorKind::ExpectedOpenBrace, pos: p + 1 });
    }
    assert(p + 1 < t.len());
    if token_is_close(t, p + 2) {
        return Err(ParseError { kind: ErrorKind::EmptyTransitions, pos: p + 2 });
    }
    parse_entries(t, p + 2, &event, acc)
}

impl Transitions {
    /// Reads the event blocks that start at `p`, up to and including the
    /// closing brace of the machine; on success also the position after
    /// that brace.
    pub fn parse(t: &Vec<Token>, begin: usize) -> (r: Result<(Transitions, usize), ParseError>)
        ensures
            match r {
                Ok((ts, q)) => blocks(t@, begin as int, Seq::empty()) == Ok::<
                    (Seq<Edge>, int),
                    ParseError,
                >((ts@, q as int)) && begin < q <= t.len(),
                Err(e) => blocks(t@, begin as int, Seq::empty()) == Err::<(Seq<Edge>, int), ParseError>(
                    e,
                ),
            },
    {
        let mut acc: Vec<Transition> = Vec::new();
        assert(edges_view(acc@) =~= Seq::empty());
        let mut p: usize = begin;
        loop
            invariant
                begin <= p,
                blocks(t@, p as int, edges_view(acc@)) == blocks(t@, begin as int, Seq::empty()),
            decreases t.len() - p,
        {
            if p >= t.len() {
                return Err(ParseError { kind: ErrorKind::ExpectedCloseBrace, pos: p });
            }
            if token_is_close(t, p) {
                return Ok((Transitions(acc), p + 1));
            }
            p = match parse_block(t, p, &mut acc) {
                Ok(q) => q,
                Err(e) => {
                    return Err(e);
                },
            };
        }
    }
}

/// `n` underscores.
pub open spec fn underscores(n: nat) -> Seq<char> {
    Seq::new(n, |i: int| '_')
}

/// The length of the longest of an edge's three names.
pub open spec fn longest_name(e: Edge) -> nat {
    let a = if e.event.len() >= e.from.len() {
        e.event.len()
    } else {
        e.from.len()
    };
    if a >= e.to.len() {
        a
    } else {
        e.to.len()
    }
}

/// The name of the transition impl's parameter for the event that brought
/// the machine into the source state: `E`, unless the edge itself uses that
/// name; then `E` followed by underscores, longer than each of its names.
pub open spec fn edge_param(e: Edge) -> Seq<char> {
    if e.event != "E"@ && e.from != "E"@ && e.to != "E"@ {
        "E"@
    } else {
        "E"@ + underscores(longest_name(e))
    }
}

/// The parameter of a transition impl is none of the names that the impl
/// mentions, so it shadows neither the event nor a state.
pub proof fn lemma_edge_param_fresh(e: Edge)
    ensures
        edge_param(e) != e.event,
        edge_param(e) != e.from,
        edge_param(e) != e.to,
{
    reveal_strlit("E");
    if !(e.event != "E"@ && e.from != "E"@ && e.to != "E"@) {
        assert(edge_param(e).len() == 1 + longest_name(e));
    }
}

/// The transition impl for one edge: a machine in `from`, whatever event
/// brought it there, takes `event` to a machine in `to` that remembers it.
pub open spec fn transition_code(e: Edge) -> Seq<char> {
    "impl<"@ + edge_param(e) + ": Event> Transition<"@ + e.event + "> for Machine<"@ + e.from
        + ", "@ + edge_param(e) + "> {\n    type Machine = Machine<"@ + e.to + ", "@ + e.event
        + ">;\n\n    fn transition(self, event: "@ + e.event
        + ") -> Self::Machine {\n        Machine("@ + e.to + ", Some(event))\n    }\n}\n"@
}

pub open spec fn transitions_code(ts: Seq<Edge>) -> Seq<char> {
    join(ts.map_values(|e: Edge| transition_code(e)))
}

impl Transition {
    /// The name of the parameter of this edge's transition impl.
    pub fn param(&self) -> (r: String)
        ensures
            r@ == edge_param(self@),
    {
        let e = String::from_str("E");
        if self.event.name != e && self.from.name != e && self.to.name != e {
            return e;
        }
        let a = self.event.name.as_str().unicode_len();
        let b = self.from.name.as_str().unicode_len();
        let c = self.to.name.as_str().unicode_len();
        let ab = if a >= b {
            a
        } else {
            b
        };
        let n = if ab >= c {
            ab
        } else {
            c
        };
        let mut r = e;
        let mut i: usize = 0;
        while i < n
            invariant
                i <= n,
                n == longest_name(self@),
                r@ == "E"@ + underscores(i as nat),
            decreases n - i,
        {
            r.append("_");
            proof {
                reveal_strlit("_");
                assert("E"@ + underscores((i + 1) as nat) =~= "E"@ + underscores(i as nat) + "_"@);
            }
            i += 1;
        }
        r
    }

    /// Writes the transition impl of this edge.
    pub fn to_tokens(&self, out: &mut String)
        ensures
            final(out)@ == old(out)@ + transition_code(self@),
    {
        let param = self.param();
        let event = self.event.name.as_str();
        let to = self.to.name.as_str();
        out.append("impl<");
        out.append(param.as_str());
        out.append(": Event> Transition<");
        out.append(event);
        out.append("> for Machine<");
        out.append(self.from.name.as_str());
        out.append(", ");
        out.append(param.as_str());
        out.append("> {\n    type Machine = Machine<");
        out.append(to);
        out.append(", ");
        out.append(event);
        out.append(">;\n\n    fn transition(self, event: ");
        out.append(event);
        out.append(") -> Self::Machine {\n        Machine(");
        out.append(to);
        out.append(", Some(event))\n    }\n}\n");
        assert(out@ =~= old(out)@ + transition_code(self@));
    }
}

impl Transitions {
    /// Writes the transition impl of every edge, in order.
    pub fn to_tokens(&self, out: &mut String)
        ensures
            final(out)@ == old(out)@ + transitions_code(self@),
    {
        let ghost start = out@;
        let ghost parts = self@.map_values(|e: Edge| transition_code(e));
        let mut i: usize = 0;
        while i < self.0.len()
            invariant
                i <= self.0.len(),
                parts == self@.map_values(|e: Edge| transition_code(e)),
                out@ == start + join(parts.take(i as int)),
            decreases self.0.len() - i,
        {
            self.0[i].to_tokens(out);
            proof {
                lemma_join_step(parts, i as int);
                assert(out@ =~= start + join(parts.take(i + 1)));
            }
            i += 1;
        }
        proof {
            lemma_join_whole(parts);
        }
    }
}

} // verus!
