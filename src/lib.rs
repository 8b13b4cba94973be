//! Shell pattern matching with the semantics of Go's `path.Match`.
//!
//! A pattern is compiled once into tokens by [`GlobPattern::new`] and then
//! tested against names with [`GlobPattern::matches`]. The syntax:
//!
//! ```text
//! pattern:
//!     { term }
//! term:
//!     '*'         matches any sequence of non-/ characters
//!     '?'         matches any single non-/ character
//!     '[' [ '^' ] { character-range } ']'
//!                 character class (must be non-empty)
//!     c           matches character c (c != '*', '?', '\\', '[', ']')
//!     '\\' c      matches character c
//!
//! character-range:
//!     c           matches character c (c != '\\', '-', ']')
//!     '\\' c      matches character c
//!     lo '-' hi   matches character c for lo <= c <= hi
//! ```
//!
//! A pattern must match all of a name, not just a part of it.

use vstd::prelude::*;

pub mod charcls;
pub mod error;
pub mod literal;
pub mod matching;
pub mod scan;
pub mod text;

pub use crate::scan::scan_patterns;

use crate::charcls::{CharClass, CharClassType};
use crate::error::{Error, ErrorType};
use crate::literal::Literal;
use crate::matching::{glob_matches, matches_tokens, no_slash_from, opt_int, token_step};
use crate::scan::{compile_spec, lemma_compiled_well_formed, reports, tokens_well_formed};
use crate::text::chars_of;

verus! {

/// What a token is, as a mathematical value.
pub enum TokenModel {
    Literal(Seq<char>),
    CharClass(bool, Seq<CharClassType>),
    SeqWildcard,
    SingleWildcard,
}

/// One unit of a compiled pattern.
#[derive(Debug, Clone, PartialEq, Eq)]
pub enum GlobToken {
    Literal(Literal),
    CharClass(CharClass),
    SeqWildcard,
    SingleWildcard,
}

impl View for GlobToken {
    type V = TokenModel;

    open spec fn view(&self) -> TokenModel {
        match self {
            GlobToken::Literal(l) => TokenModel::Literal(l@),
            GlobToken::CharClass(c) => TokenModel::CharClass(c@.0, c@.1),
            GlobToken::SeqWildcard => TokenModel::SeqWildcard,
            GlobToken::SingleWildcard => TokenModel::SingleWildcard,
        }
    }
}

/// A literal is never empty; a class has members, and its ranges are not empty.
pub open spec fn wf_token(t: TokenModel) -> bool {
    match t {
        TokenModel::Literal(s) => s.len() > 0,
        TokenModel::CharClass(_, items) => items.len() > 0 && forall|i: int|
            0 <= i < items.len() ==> (#[trigger] items[i]).wf(),
        _ => true,
    }
}

/// The mathematical values of a sequence of tokens.
pub open spec fn tokens_model(ts: Seq<GlobToken>) -> Seq<TokenModel> {
    ts.map_values(|t: GlobToken| t@)
}

impl GlobToken {
    /// Where matching this token at index `pos` of `name` leaves off, or
    /// `Err(())` for a sequence wildcard, which has no single way to match.
    pub fn try_matches_next(&self, name: &[char], pos: usize) -> (r: Result<Option<usize>, ()>)
        requires
            pos <= name@.len(),
        ensures
            r is Err == self@ is SeqWildcard,
            r is Ok ==> opt_int(r->Ok_0) == token_step(self@, name@, pos as int),
    {
        match self {
            GlobToken::Literal(l) => Ok(l.matches_at(name, pos)),
            GlobToken::CharClass(cc) => {
                if pos < name.len() && cc.matches_char(name[pos]) {
                    Ok(Some(pos + 1))
                } else {
                    Ok(None)
                }
            },
            GlobToken::SingleWildcard => {
                if pos < name.len() && name[pos] != '/' {
                    Ok(Some(pos + 1))
                } else {
                    Ok(None)
                }
            },
            GlobToken::SeqWildcard => Err(()),
        }
    }
}

/// A compiled shell pattern, in the manner of Go's `path.Match`.
#[derive(Debug, Clone, PartialEq, Eq)]
pub struct GlobPattern {
    tokens: Vec<GlobToken>,
}

impl View for GlobPattern {
    type V = Seq<TokenModel>;

    closed spec fn view(&self) -> Seq<TokenModel> {
        tokens_model(self.tokens@)
    }
}

/// What compiling `pattern` gives: the pattern with the tokens of
/// `compile_spec`, or the error it reports.
pub open spec fn compiles_to(pattern: Seq<char>, r: Result<GlobPattern, Error>) -> bool {
    match (r, compile_spec(pattern)) {
        (Ok(g), Ok(ts)) => g@ == ts,
        (Err(x), Err(y)) => reports(pattern, x, y),
        _ => false,
    }
}

impl GlobPattern {
    /// The tokens are not empty, each is well formed, and no two sequence
    /// wildcards are adjacent.
    pub open spec fn wf(&self) -> bool {
        self@.len() > 0 && tokens_well_formed(self@)
    }

    /// Compiles `pattern` into tokens, or reports its first syntax error.
    pub fn new(pattern: &str) -> (r: Result<GlobPattern, Error>)
        ensures
            compiles_to(pattern@, r),
            pattern@.len() == 0 ==> r is Err && r->Err_0@.0 == ErrorType::EmptyPattern,
            r is Ok ==> r->Ok_0.wf(),
    {
        proof {
            lemma_compiled_well_formed(pattern@);
        }
        let mut tokens: Vec<GlobToken> = Vec::new();
        match scan_patterns(pattern, &mut tokens) {
            Ok(()) => {
                assert(tokens_model(Seq::<GlobToken>::empty()) =~= Seq::<TokenModel>::empty());
                assert(tokens_model(tokens@) =~= compile_spec(pattern@)->Ok_0);
                Ok(GlobPattern { tokens })
            },
            Err(e) => Err(e),
        }
    }

    /// Whether `name` matches the whole pattern.
    pub fn matches(&self, name: &str) -> (r: bool)
        ensures
            r == glob_matches(self@, name@),
    {
        let chars = chars_of(name);
        matches_tokens(self.tokens.as_slice(), chars.as_slice())
    }
}

/// The pattern made of `tokens`, as they are.
pub fn glob_from_tokens(tokens: Vec<GlobToken>) -> (r: GlobPattern)
    requires
        tokens@.len() > 0,
        tokens_well_formed(tokens_model(tokens@)),
    ensures
        r.wf(),
        r@ == tokens_model(tokens@),
{
    GlobPattern { tokens }
}

/// The pattern `*` compiles to one sequence wildcard, which matches exactly
/// the names that hold no `/`.
pub proof fn lemma_lone_star_matches_without_slash(name: Seq<char>)
    ensures
        compile_spec(seq!['*']) == Ok::<Seq<TokenModel>, crate::scan::ScanError>(
            seq![TokenModel::SeqWildcard],
        ),
        glob_matches(seq![TokenModel::SeqWildcard], name) == no_slash_from(name, 0),
{
    let p = seq!['*'];
    assert(seq![TokenModel::SeqWildcard] + Seq::<TokenModel>::empty() =~= seq![
        TokenModel::SeqWildcard,
    ]);
    assert(crate::scan::scan_from(p, 1, true) == Ok::<Seq<TokenModel>, crate::scan::ScanError>(
        Seq::<TokenModel>::empty(),
    ));
}

/// Compiling the same pattern twice gives the same tokens, or the same error.
pub proof fn lemma_compile_deterministic(
    pattern: Seq<char>,
    r1: Result<GlobPattern, Error>,
    r2: Result<GlobPattern, Error>,
)
    requires
        compiles_to(pattern, r1),
        compiles_to(pattern, r2),
    ensures
        r1 is Ok == r2 is Ok,
        r1 is Ok ==> r1->Ok_0@ == r2->Ok_0@,
        r1 is Err ==> r1->Err_0@ == r2->Err_0@,
{
}

} // verus!
