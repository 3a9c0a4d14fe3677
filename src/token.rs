//! The lexical input of a declaration, and the errors of reading it.
use vstd::prelude::*;
use vstd::string::StrSliceExecFns;

verus! {

/// One lexical token of a declaration, as the compiler hands it over.
///
/// Brace groups are flattened into an `Open` token, their contents and a
/// `Close` token. Anything the grammar has no use for (other punctuation,
/// literals, other groups) arrives as `Other` with its text.
#[derive(Clone, Debug, PartialEq)]
pub enum Token {
    Ident(String),
    Comma,
    FatArrow,
    Open,
    Close,
    Other(String),
}

/// What went wrong while reading a declaration.
#[derive(Clone, Copy, Debug, PartialEq, Eq)]
pub enum ErrorKind {
    /// A name was expected here.
    ExpectedName,
    /// An identifier stands where a name is expected, but it is a keyword.
    Keyword,
    /// The text of a name holds a character that no plain identifier holds
    /// (`#` of a raw identifier, or an opening delimiter).
    InvalidName,
    /// `InitialStates` is used as the name of an event block.
    ReservedName,
    /// A `{` was expected here.
    ExpectedOpenBrace,
    /// A `}` was expected here (the block is unterminated or holds junk).
    ExpectedCloseBrace,
    /// A `=>` was expected after a list of source states.
    ExpectedArrow,
    /// A comma stands where a name is expected (leading, doubled or
    /// trailing comma).
    UnexpectedComma,
    /// An event block holds no transition.
    EmptyTransitions,
    /// Two configurations of one machine would get union cases of the same
    /// tag (names that contain `By` can do that). No single token is at
    /// fault, so such an error is reported at position 0.
    CollidingCases,
}

/// A parse failure and the index of the token at which it was found.
#[derive(Clone, Copy, Debug, PartialEq, Eq)]
pub struct ParseError {
    pub kind: ErrorKind,
    pub pos: usize,
}

pub open spec fn err_at(kind: ErrorKind, p: int) -> ParseError {
    ParseError { kind, pos: p as usize }
}

/// Whether syn accepts the text as an identifier (it refuses keywords).
pub uninterp spec fn accepts_ident(s: Seq<char>) -> bool;

/// Whether `c` may stand in a plain name: not `#` (raw identifiers, whose
/// text cannot be extended into a tag) and no opening delimiter.
pub open spec fn plain_char(c: char) -> bool {
    c != '#' && c != '(' && c != '[' && c != '{'
}

pub open spec fn plain_text(s: Seq<char>) -> bool {
    forall|i: int| 0 <= i < s.len() ==> plain_char(#[trigger] s[i])
}

/// Relies on `syn::parse_str::<syn::Ident>`: it succeeds exactly on the
/// identifiers that syn lets stand as a name, keywords such as `fn` or
/// `Self` being refused. The text holds no opening delimiter: syn builds
/// its token buffer recursively, one level per nested group, so deeply
/// nested groups would exhaust the stack.
#[verifier::external_body]
pub(crate) fn is_ident(s: &str) -> (r: bool)
    requires
        forall|i: int| 0 <= i < s@.len() ==> s@[i] != '(' && s@[i] != '[' && s@[i] != '{',
    ensures
        r == accepts_ident(s@),
{
    syn::parse_str::<syn::Ident>(s).is_ok()
}

pub open spec fn is_comma(t: Seq<Token>, p: int) -> bool {
    0 <= p < t.len() && t[p] is Comma
}

pub open spec fn is_arrow(t: Seq<Token>, p: int) -> bool {
    0 <= p < t.len() && t[p] is FatArrow
}

pub open spec fn is_open(t: Seq<Token>, p: int) -> bool {
    0 <= p < t.len() && t[p] is Open
}

pub open spec fn is_close(t: Seq<Token>, p: int) -> bool {
    0 <= p < t.len() && t[p] is Close
}

/// The name that stands at `p`, or why none does.
pub open spec fn name_at(t: Seq<Token>, p: int) -> Result<Seq<char>, ParseError> {
    if p < 0 || p >= t.len() {
        Err(err_at(ErrorKind::ExpectedName, p))
    } else {
        match t[p] {
            Token::Ident(s) => if !plain_text(s@) {
                Err(err_at(ErrorKind::InvalidName, p))
            } else if accepts_ident(s@) {
                Ok(s@)
            } else {
                Err(err_at(ErrorKind::Keyword, p))
            },
            Token::Comma => Err(err_at(ErrorKind::UnexpectedComma, p)),
            _ => Err(err_at(ErrorKind::ExpectedName, p)),
        }
    }
}

pub(crate) fn token_is_comma(t: &Vec<Token>, p: usize) -> (r: bool)
    ensures
        r == is_comma(t@, p as int),
{
    p < t.len() && matches!(t[p], Token::Comma)
}

pub(crate) fn token_is_arrow(t: &Vec<Token>, p: usize) -> (r: bool)
    ensures
        r == is_arrow(t@, p as int),
{
    p < t.len() && matches!(t[p], Token::FatArrow)
}

pub(crate) fn token_is_open(t: &Vec<Token>, p: usize) -> (r: bool)
    ensures
        r == is_open(t@, p as int),
{
    p < t.len() && matches!(t[p], Token::Open)
}

pub(crate) fn token_is_close(t: &Vec<Token>, p: usize) -> (r: bool)
    ensures
        r == is_close(t@, p as int),
{
    p < t.len() && matches!(t[p], Token::Close)
}

/// Whether every character of `s` may stand in a plain name.
fn is_plain(s: &str) -> (r: bool)
    ensures
        r == plain_text(s@),
{
    let n = s.unicode_len();
    let mut i: usize = 0;
    while i < n
        invariant
            i <= n,
            n == s@.len(),
            forall|k: int| 0 <= k < i ==> plain_char(#[trigger] s@[k]),
        decreases n - i,
    {
        let c = s.get_char(i);
        if c == '#' || c == '(' || c == '[' || c == '{' {
            assert(!plain_char(s@[i as int]));
            return false;
        }
        i += 1;
    }
    true
}

/// Reads the name at `p`.
pub(crate) fn read_name(t: &Vec<Token>, p: usize) -> (r: Result<String, ParseError>)
    ensures
        r is Ok ==> p < t.len(),
        match r {
            Ok(s) => name_at(t@, p as int) == Ok::<Seq<char>, ParseError>(s@),
            Err(e) => name_at(t@, p as int) == Err::<Seq<char>, ParseError>(e),
        },
{
    if p >= t.len() {
        return Err(ParseError { kind: ErrorKind::ExpectedName, pos: p });
    }
    match &t[p] {
        Token::Ident(s) => {
            if !is_plain(s.as_str()) {
                Err(ParseError { kind: ErrorKind::InvalidName, pos: p })
            } else if is_ident(s.as_str()) {
                Ok(s.clone())
            } else {
                Err(ParseError { kind: ErrorKind::Keyword, pos: p })
            }
        },
        Token::Comma => Err(ParseError { kind: ErrorKind::UnexpectedComma, pos: p }),
        _ => Err(ParseError { kind: ErrorKind::ExpectedName, pos: p }),
    }
}

} // verus!
