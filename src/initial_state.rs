//! Initial states: the optional `InitialStates { ... }` block of a machine,
//! how it is read, and the capability generated for each initial state.
use vstd::prelude::*;
use vstd::string::StringExecFns;

use crate::text::join;
use crate::token::{
    err_at, is_close, is_comma, is_open, name_at, read_name, token_is_close, token_is_comma,
    token_is_open, ErrorKind, ParseError, Token,
};

verus! {

/// A state from which a machine may start.
#[derive(Clone, Debug, PartialEq)]
pub struct InitialState {
    pub name: String,
}

impl View for InitialState {
    type V = Seq<char>;

    open spec fn view(&self) -> Seq<char> {
        self.name@
    }
}

pub open spec fn initial_states_view(v: Seq<InitialState>) -> Seq<Seq<char>> {
    v.map_values(|x: InitialState| x@)
}

/// The declared initial states, in order; empty when the block is absent.
#[derive(Clone, Debug, PartialEq)]
pub struct InitialStates(pub Vec<InitialState>);

impl View for InitialStates {
    type V = Seq<Seq<char>>;

    open spec fn view(&self) -> Seq<Seq<char>> {
        initial_states_view(self.0@)
    }
}

/// The names of the block's list from `p` up to its closing brace, appended
/// to `acc`, and the position after the brace. The list is separated by
/// commas and may end with one.
pub open spec fn init_names(t: Seq<Token>, p: int, acc: Seq<Seq<char>>) -> Result<
    (Seq<Seq<char>>, int),
    ParseError,
>
    decreases t.len() - p,
{
    if p >= t.len() {
        Err(err_at(ErrorKind::ExpectedCloseBrace, p))
    } else if t[p] is Close {
        Ok((acc, p + 1))
    } else {
        match name_at(t, p) {
            Err(e) => Err(e),
            Ok(n) => if is_comma(t, p + 1) {
                init_names(t, p + 2, acc.push(n))
            } else if is_close(t, p + 1) {
                Ok((acc.push(n), p + 2))
            } else {
                Err(err_at(ErrorKind::ExpectedCloseBrace, p + 1))
            },
        }
    }
}

/// Whether the `InitialStates` keyword stands at `p`.
pub open spec fn is_initial_keyword(t: Seq<Token>, p: int) -> bool {
    0 <= p < t.len() && match t[p] {
        Token::Ident(s) => s@ == "InitialStates"@,
        _ => false,
    }
}

/// The initial-states block at `p` if there is one (else no names, and `p`
/// unchanged), and the position after it.
pub open spec fn init_block(t: Seq<Token>, p: int) -> Result<(Seq<Seq<char>>, int), ParseError> {
    if is_initial_keyword(t, p) {
        if !is_open(t, p + 1) {
            Err(err_at(ErrorKind::ExpectedOpenBrace, p + 1))
        } else {
            init_names(t, p + 2, Seq::empty())
        }
    } else {
        Ok((Seq::empty(), p))
    }
}

/// The capability that lets state `n` start a machine.
pub open spec fn initial_code(n: Seq<char>) -> Seq<char> {
    "impl InitialState for "@ + n + " {}\n"@
}

pub open spec fn initials_code(ns: Seq<Seq<char>>) -> Seq<char> {
    join(ns.map_values(|n: Seq<char>| initial_code(n)))
}

impl InitialState {
    /// Reads the name of an initial state at `p`; on success the next token
    /// is at `p + 1`.
    pub fn parse(t: &Vec<Token>, p: usize) -> (r: Result<(InitialState, usize), ParseError>)
        ensures
            match r {
                Ok((x, q)) => name_at(t@, p as int) == Ok::<Seq<char>, ParseError>(x@) && q == p
                    + 1,
                Err(e) => name_at(t@, p as int) == Err::<Seq<char>, ParseError>(e),
            },
    {
        match read_name(t, p) {
            Ok(name) => Ok((InitialState { name }, p + 1)),
            Err(e) => Err(e),
        }
    }

    /// Writes the capability that lets this state start a machine.
    pub fn to_tokens(&self, out: &mut String)
        ensures
            final(out)@ == old(out)@ + initial_code(self@),
    {
        out.append("impl InitialState for ");
        out.append(self.name.as_str());
        out.append(" {}\n");
        assert(out@ =~= old(out)@ + initial_code(self@));
    }
}

fn starts_with_keyword(t: &Vec<Token>, p: usize) -> (r: bool)
    ensures
        r == is_initial_keyword(t@, p as int),
        r ==> p < t.len(),
{
    if p >= t.len() {
        return false;
    }
    match &t[p] {
        Token::Ident(s) => {
            let keyword = String::from_str("InitialStates");
            *s == keyword
        },
        _ => false,
    }
}

impl InitialStates {
    /// Reads the initial-states block at `p`, if there is one; on success
    /// also the position after it (`p` itself when there is no block).
    pub fn parse(t: &Vec<Token>, p: usize) -> (r: Result<(InitialStates, usize), ParseError>)
        ensures
            match r {
                Ok((x, q)) => init_block(t@, p as int) == Ok::<
                    (Seq<Seq<char>>, int),
                    ParseError,
                >((x@, q as int)) && p <= q,
                Err(e) => init_block(t@, p as int) == Err::<(Seq<Seq<char>>, int), ParseError>(e),
            },
    {
        let mut acc: Vec<InitialState> = Vec::new();
        assert(initial_states_view(acc@) =~= Seq::empty());
        if !starts_with_keyword(t, p) {
            return Ok((InitialStates(acc), p));
        }
        if !token_is_open(t, p + 1) {
            return Err(ParseError { kind: ErrorKind::ExpectedOpenBrace, pos: p + 1 });
        }
        let mut i: usize = p + 2;
        loop
            invariant
                p + 2 <= i,
                init_names(t@, i as int, initial_states_view(acc@)) == init_block(t@, p as int),
            decreases t.len() - i,
        {
            if i >= t.len() {
                return Err(ParseError { kind: ErrorKind::ExpectedCloseBrace, pos: i });
            }
            if token_is_close(t, i) {
                return Ok((InitialStates(acc), i + 1));
            }
            let (x, _) = match InitialState::parse(t, i) {
                Ok(x) => x,
                Err(e) => {
                    return Err(e);
                },
            };
            let ghost before = acc@;
            acc.push(x);
            assert(initial_states_view(acc@) =~= initial_states_view(before).push(x@));
            if token_is_comma(t, i + 1) {
                i = i + 2;
            } else if token_is_close(t, i + 1) {
                return Ok((InitialStates(acc), i + 2));
            } else {
                return Err(ParseError { kind: ErrorKind::ExpectedCloseBrace, pos: i + 1 });
            }
        }
    }

    /// Writes the starting capability of each listed state.
    pub fn to_tokens(&self, out: &mut String)
        ensures
            final(out)@ == old(out)@ + initials_code(self@),
    {
        let ghost start = out@;
        let ghost parts = self@.map_values(|n: Seq<char>| initial_code(n));
        let mut i: usize = 0;
        while i < self.0.len()
            invariant
                i <= self.0.len(),
                parts == self@.map_values(|n: Seq<char>| initial_code(n)),
                out@ == start + join(parts.take(i as int)),
            decreases self.0.len() - i,
        {
            self.0[i].to_tokens(out);
            proof {
                crate::text::lemma_join_step(parts, i as int);
                assert(out@ =~= start + join(parts.take(i + 1)));
            }
            i += 1;
        }
        proof {
            crate::text::lemma_join_whole(parts);
        }
    }
}

} // verus!
