//! Generated source text: how pieces are joined, and the pieces that state
//! and event markers share.
use vstd::prelude::*;
use vstd::string::StringExecFns;

verus! {

/// The pieces written one after the other.
pub open spec fn join(parts: Seq<Seq<char>>) -> Seq<char>
    decreases parts.len(),
{
    if parts.len() == 0 {
        Seq::empty()
    } else {
        join(parts.drop_last()) + parts.last()
    }
}

pub proof fn lemma_join_step(parts: Seq<Seq<char>>, i: int)
    requires
        0 <= i < parts.len(),
    ensures
        join(parts.take(i + 1)) == join(parts.take(i)) + parts[i],
{
    assert(parts.take(i + 1).drop_last() =~= parts.take(i));
}

pub proof fn lemma_join_whole(parts: Seq<Seq<char>>)
    ensures
        join(parts.take(parts.len() as int)) == join(parts),
{
    assert(parts.take(parts.len() as int) =~= parts);
}

pub open spec fn names_of(ns: Seq<String>) -> Seq<Seq<char>> {
    ns.map_values(|s: String| s@)
}

pub open spec fn bool_code(b: bool) -> Seq<char> {
    if b {
        "true"@
    } else {
        "false"@
    }
}

/// A marker type `n` that implements the capability `kind` (`State` or
/// `Event`).
pub open spec fn marker_code(kind: Seq<char>, n: Seq<char>) -> Seq<char> {
    "#[derive(Clone, Copy, Debug, Eq)]\npub struct "@ + n + ";\nimpl "@ + kind + " for "@ + n
        + " {}\n"@
}

/// The comparison of marker `a` with marker `b`, answering `answer`.
pub open spec fn eq_impl_code(a: Seq<char>, b: Seq<char>, answer: bool) -> Seq<char> {
    "impl PartialEq<"@ + b + "> for "@ + a + " {\n    fn eq(&self, _: &"@ + b
        + ") -> bool {\n        "@ + bool_code(answer) + "\n    }\n}\n"@
}

/// The comparisons of marker `a` with every marker of `ns`, in order: equal
/// names answer `true`, others `false`.
pub open spec fn eq_row_code(a: Seq<char>, ns: Seq<Seq<char>>) -> Seq<char> {
    join(eq_row_parts(a, ns))
}

/// The comparisons of marker `a`, one piece per marker of `ns`.
pub open spec fn eq_row_parts(a: Seq<char>, ns: Seq<Seq<char>>) -> Seq<Seq<char>> {
    ns.map_values(|b: Seq<char>| eq_impl_code(a, b, a == b))
}

/// Among markers with distinct names, each one compares equal to itself and
/// unequal to every other, both ways round: the comparison of `ns[i]` with
/// `ns[j]` answers `i == j`, and so does that of `ns[j]` with `ns[i]`.
pub proof fn lemma_marker_equality(ns: Seq<Seq<char>>, i: int, j: int)
    requires
        ns.no_duplicates(),
        0 <= i < ns.len(),
        0 <= j < ns.len(),
    ensures
        eq_row_parts(ns[i], ns)[j] == eq_impl_code(ns[i], ns[j], i == j),
        eq_row_parts(ns[j], ns)[i] == eq_impl_code(ns[j], ns[i], i == j),
{
}

/// Each marker of `ns`, followed by its comparisons with all of `ns`.
pub open spec fn markers_code(kind: Seq<char>, ns: Seq<Seq<char>>) -> Seq<char> {
    join(ns.map_values(|a: Seq<char>| marker_code(kind, a) + eq_row_code(a, ns)))
}

pub(crate) fn push_marker(out: &mut String, kind: &str, n: &str)
    ensures
        final(out)@ == old(out)@ + marker_code(kind@, n@),
{
    out.append("#[derive(Clone, Copy, Debug, Eq)]\npub struct ");
    out.append(n);
    out.append(";\nimpl ");
    out.append(kind);
    out.append(" for ");
    out.append(n);
    out.append(" {}\n");
    assert(out@ =~= old(out)@ + marker_code(kind@, n@));
}

pub(crate) fn push_eq_impl(out: &mut String, a: &str, b: &str, answer: bool)
    ensures
        final(out)@ == old(out)@ + eq_impl_code(a@, b@, answer),
{
    out.append("impl PartialEq<");
    out.append(b);
    out.append("> for ");
    out.append(a);
    out.append(" {\n    fn eq(&self, _: &");
    out.append(b);
    out.append(") -> bool {\n        ");
    if answer {
        out.append("true");
    } else {
        out.append("false");
    }
    out.append("\n    }\n}\n");
    assert(out@ =~= old(out)@ + eq_impl_code(a@, b@, answer));
}

pub(crate) fn push_eq_row(out: &mut String, a: &String, ns: &Vec<String>)
    ensures
        final(out)@ == old(out)@ + eq_row_code(a@, names_of(ns@)),
{
    let ghost start = out@;
    let ghost v = names_of(ns@);
    let ghost parts = eq_row_parts(a@, v);
    let mut j: usize = 0;
    while j < ns.len()
        invariant
            j <= ns.len(),
            v == names_of(ns@),
            parts == eq_row_parts(a@, v),
            out@ == start + join(parts.take(j as int)),
        decreases ns.len() - j,
    {
        let same = *a == ns[j];
        push_eq_impl(out, a.as_str(), ns[j].as_str(), same);
        proof {
            lemma_join_step(parts, j as int);
            assert(out@ =~= start + join(parts.take(j + 1)));
        }
        j += 1;
    }
    proof {
        lemma_join_whole(parts);
    }
}

pub(crate) fn push_markers(out: &mut String, kind: &str, ns: &Vec<String>)
    ensures
        final(out)@ == old(out)@ + markers_code(kind@, names_of(ns@)),
{
    let ghost start = out@;
    let ghost v = names_of(ns@);
    let ghost parts = v.map_values(|a: Seq<char>| marker_code(kind@, a) + eq_row_code(a, v));
    let mut i: usize = 0;
    while i < ns.len()
        invariant
            i <= ns.len(),
            v == names_of(ns@),
            parts == v.map_values(|a: Seq<char>| marker_code(kind@, a) + eq_row_code(a, v)),
            out@ == start + join(parts.take(i as int)),
        decreases ns.len() - i,
    {
        push_marker(out, kind, ns[i].as_str());
        push_eq_row(out, &ns[i], ns);
        proof {
            lemma_join_step(parts, i as int);
            assert(out@ =~= start + join(parts.take(i + 1)));
        }
        i += 1;
    }
    proof {
        lemma_join_whole(parts);
    }
}

} // verus!
