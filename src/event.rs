//! Events of a machine: their names, how one is read, and the marker types
//! generated for them.
use vstd::prelude::*;

use crate::text::{markers_code, marker_code, names_of, push_marker, push_markers};
use crate::token::{name_at, read_name, ParseError, Token};

verus! {

/// One event of a machine, known by its name.
#[derive(Clone, Debug, PartialEq)]
pub struct Event {
    pub name: String,
}

impl View for Event {
    type V = Seq<char>;

    open spec fn view(&self) -> Seq<char> {
        self.name@
    }
}

pub open spec fn events_view(v: Seq<Event>) -> Seq<Seq<char>> {
    v.map_values(|x: Event| x@)
}

impl Event {
    /// Reads the name of a event at `p`; on success the next token is at
    /// `p + 1`.
    pub fn parse(t: &Vec<Token>, p: usize) -> (r: Result<(Event, usize), ParseError>)
        ensures
            match r {
                Ok((x, q)) => name_at(t@, p as int) == Ok::<Seq<char>, ParseError>(x@) && q == p + 1,
                Err(e) => name_at(t@, p as int) == Err::<Seq<char>, ParseError>(e),
            },
    {
        match read_name(t, p) {
            Ok(name) => Ok((Event { name }, p + 1)),
            Err(e) => Err(e),
        }
    }

    /// Writes the marker type of this event.
    pub fn to_tokens(&self, out: &mut String)
        ensures
            final(out)@ == old(out)@ + marker_code("Event"@, self@),
    {
        push_marker(out, "Event", self.name.as_str());
    }
}

/// The events of a machine, in order of first appearance.
#[derive(Clone, Debug, PartialEq)]
pub struct Events(pub Vec<Event>);

impl View for Events {
    type V = Seq<Seq<char>>;

    open spec fn view(&self) -> Seq<Seq<char>> {
        events_view(self.0@)
    }
}

impl Events {
    /// The names, in order.
    pub fn names(&self) -> (r: Vec<String>)
        ensures
            names_of(r@) == self@,
    {
        let mut r: Vec<String> = Vec::new();
        let mut i: usize = 0;
        while i < self.0.len()
            invariant
                i <= self.0.len(),
                r@.len() == i,
                forall|k: int| 0 <= k < i ==> r@[k]@ == self@[k],
            decreases self.0.len() - i,
        {
            r.push(self.0[i].name.clone());
            i += 1;
        }
        assert(names_of(r@) =~= self@);
        r
    }

    /// Whether a event of this name is present.
    pub fn contains(&self, name: &String) -> (r: bool)
        ensures
            r == self@.contains(name@),
    {
        let mut i: usize = 0;
        while i < self.0.len()
            invariant
                i <= self.0.len(),
                forall|k: int| 0 <= k < i ==> self@[k] != name@,
            decreases self.0.len() - i,
        {
            if self.0[i].name == *name {
                assert(self@[i as int] == name@);
                return true;
            }
            i += 1;
        }
        false
    }

    /// Writes the marker type of every event, each followed by its
    /// comparisons with all of them.
    pub fn to_tokens(&self, out: &mut String)
        ensures
            final(out)@ == old(out)@ + markers_code("Event"@, self@),
    {
        let names = self.names();
        push_markers(out, "Event", &names);
    }
}

} // verus!
