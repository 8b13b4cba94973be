use vstd::prelude::*;

use crate::charcls::class_matches;
use crate::literal::is_prefix;
use crate::{tokens_model, GlobToken, TokenModel};

verus! {

/// Where matching token `t` at index `j` of `name` leaves off, for any token
/// but a sequence wildcard (which has no single way to match).
pub open spec fn token_step(t: TokenModel, name: Seq<char>, j: int) -> Option<int> {
    match t {
        TokenModel::Literal(s) => {
            if is_prefix(s, name.skip(j)) {
                Some(j + s.len())
            } else {
                None
            }
        },
        TokenModel::CharClass(negated, items) => {
            if 0 <= j < name.len() && class_matches(negated, items, name[j]) {
                Some(j + 1)
            } else {
                None
            }
        },
        TokenModel::SingleWildcard => {
            if 0 <= j < name.len() && name[j] != '/' {
                Some(j + 1)
            } else {
                None
            }
        },
        TokenModel::SeqWildcard => None,
    }
}

/// Matches the segment of tokens from `ti` up to the next sequence wildcard
/// (or the end) against `name` from index `j`: the index of the token that
/// ends the segment and the index in `name` after it, or `None` where a token
/// fails.
pub open spec fn match_segment(toks: Seq<TokenModel>, ti: int, name: Seq<char>, j: int) -> Option<
    (int, int),
>
    decreases toks.len() - ti,
{
    if ti < 0 || ti >= toks.len() || toks[ti] is SeqWildcard {
        Some((ti, j))
    } else {
        let r = token_step(toks[ti], name, j);
        if r is Some {
            match_segment(toks, ti + 1, name, r->0)
        } else {
            None
        }
    }
}

/// How the search for a sequence wildcard ends.
pub enum SearchModel {
    /// The rest of the pattern matched the rest of the name.
    Matched,
    /// No start for the segment after the wildcard works.
    Failed,
    /// The segment matched; matching goes on at the given token and index.
    Resume(int, int),
}

/// The search for a sequence wildcard whose segment starts at token `si`,
/// trying the segment at index `k` of `name` and then at the indices after
/// it, leftmost first. The first start where the segment matches and another
/// wildcard follows is taken for good; where the segment ends the pattern it
/// must also end the name. The search gives up after failing at a `/`, which
/// a wildcard cannot cross, or at the end of the name.
pub open spec fn star_search(toks: Seq<TokenModel>, si: int, name: Seq<char>, k: int) -> SearchModel
    decreases name.len() - k,
{
    if k < 0 || k >= name.len() {
        SearchModel::Failed
    } else {
        let seg = match_segment(toks, si, name, k);
        if seg is Some && (seg->0).0 < toks.len() {
            SearchModel::Resume((seg->0).0, (seg->0).1)
        } else if seg is Some && (seg->0).1 == name.len() {
            SearchModel::Matched
        } else if name[k] == '/' {
            SearchModel::Failed
        } else {
            star_search(toks, si, name, k + 1)
        }
    }
}

/// Whether `name` from index `j` holds no `/`.
pub open spec fn no_slash_from(name: Seq<char>, j: int) -> bool {
    forall|x: int| j <= x < name.len() ==> name[x] != '/'
}

/// Whether the tokens from `ti` on match `name` from index `j` on.
pub open spec fn match_from(toks: Seq<TokenModel>, ti: int, name: Seq<char>, j: int) -> bool
    decreases toks.len() - ti,
{
    if ti < 0 || ti >= toks.len() {
        j == name.len()
    } else if toks[ti] is SeqWildcard {
        if ti + 1 == toks.len() {
            no_slash_from(name, j)
        } else {
            let s = star_search(toks, ti + 1, name, j);
            if s is Resume {
                proof {
                    lemma_search_resumes_later(toks, ti + 1, name, j);
                }
                match_from(toks, s->Resume_0, name, s->Resume_1)
            } else {
                s is Matched
            }
        }
    } else {
        let r = token_step(toks[ti], name, j);
        if r is Some {
            match_from(toks, ti + 1, name, r->0)
        } else {
            false
        }
    }
}

/// Whether a pattern with tokens `toks` matches the whole of `name`.
pub open spec fn glob_matches(toks: Seq<TokenModel>, name: Seq<char>) -> bool {
    match_from(toks, 0, name, 0)
}

/// A token that matches moves forward within the name; only a literal may
/// stay in place (where it is empty).
pub proof fn lemma_step_bounds(t: TokenModel, name: Seq<char>, j: int)
    requires
        0 <= j <= name.len(),
    ensures
        token_step(t, name, j) is Some ==> j < token_step(t, name, j)->0 <= name.len() || (
        t is Literal && j <= token_step(t, name, j)->0 <= name.len()),
{
}

/// A matched segment ends within the tokens and the name, at a sequence
/// wildcard or at the end of the tokens.
pub proof fn lemma_segment_bounds(toks: Seq<TokenModel>, ti: int, name: Seq<char>, j: int)
    requires
        0 <= ti <= toks.len(),
        0 <= j <= name.len(),
    ensures
        match_segment(toks, ti, name, j) is Some ==> {
            let (t2, j2) = match_segment(toks, ti, name, j)->0;
            &&& ti <= t2 <= toks.len()
            &&& j <= j2 <= name.len()
            &&& (t2 < toks.len() ==> toks[t2] is SeqWildcard)
        },
    decreases toks.len() - ti,
{
    if ti < toks.len() && !(toks[ti] is SeqWildcard) {
        lemma_step_bounds(toks[ti], name, j);
        if token_step(toks[ti], name, j) is Some {
            lemma_segment_bounds(toks, ti + 1, name, token_step(toks[ti], name, j)->0);
        }
    }
}

/// Where a search resumes, it does so at a later token and within the name.
pub proof fn lemma_search_resumes_later(toks: Seq<TokenModel>, si: int, name: Seq<char>, k: int)
    ensures
        star_search(toks, si, name, k) is Resume && 0 <= si <= toks.len() && 0 <= k
            ==> si <= star_search(toks, si, name, k)->Resume_0 < toks.len() && 0 <= star_search(
            toks,
            si,
            name,
            k,
        )->Resume_1 <= name.len(),
    decreases name.len() - k,
{
    if 0 <= si <= toks.len() && 0 <= k < name.len() {
        let seg = match_segment(toks, si, name, k);
        lemma_segment_bounds(toks, si, name, k);
        if !(seg is Some && (seg->0).0 < toks.len()) && !(seg is Some && (seg->0).1 == name.len())
            && name[k] != '/' {
            lemma_search_resumes_later(toks, si, name, k + 1);
        }
    }
}

/// Whether token `t` can match no `/`: a literal without `/`, a class that
/// rejects `/`, or a wildcard.
pub open spec fn slash_free(t: TokenModel) -> bool {
    match t {
        TokenModel::Literal(s) => forall|x: int| 0 <= x < s.len() ==> s[x] != '/',
        TokenModel::CharClass(negated, items) => !class_matches(negated, items, '/'),
        _ => true,
    }
}

/// Whether `name` holds no `/` from index `j` up to, not including, `e`.
pub open spec fn no_slash_between(name: Seq<char>, j: int, e: int) -> bool {
    forall|x: int| j <= x < e ==> name[x] != '/'
}

proof fn lemma_step_no_slash(t: TokenModel, name: Seq<char>, j: int)
    requires
        0 <= j <= name.len(),
        slash_free(t),
        token_step(t, name, j) is Some,
    ensures
        no_slash_between(name, j, token_step(t, name, j)->0),
{
    if let TokenModel::Literal(s) = t {
        assert forall|x: int| j <= x < j + s.len() implies name[x] != '/' by {
            assert(name.skip(j).subrange(0, s.len() as int)[x - j] == s[x - j]);
        }
    }
}

proof fn lemma_segment_no_slash(toks: Seq<TokenModel>, ti: int, name: Seq<char>, j: int)
    requires
        0 <= ti <= toks.len(),
        0 <= j <= name.len(),
        forall|i: int| 0 <= i < toks.len() ==> slash_free(#[trigger] toks[i]),
        match_segment(toks, ti, name, j) is Some,
    ensures
        no_slash_between(name, j, (match_segment(toks, ti, name, j)->0).1),
    decreases toks.len() - ti,
{
    if ti < toks.len() && !(toks[ti] is SeqWildcard) {
        let e = token_step(toks[ti], name, j)->0;
        lemma_step_no_slash(toks[ti], name, j);
        lemma_step_bounds(toks[ti], name, j);
        lemma_segment_no_slash(toks, ti + 1, name, e);
    }
}

proof fn lemma_search_no_slash(toks: Seq<TokenModel>, si: int, name: Seq<char>, k: int)
    requires
        0 <= si <= toks.len(),
        0 <= k <= name.len(),
        forall|i: int| 0 <= i < toks.len() ==> slash_free(#[trigger] toks[i]),
    ensures
        star_search(toks, si, name, k) is Matched ==> no_slash_from(name, k),
        star_search(toks, si, name, k) is Resume ==> no_slash_between(
            name,
            k,
            star_search(toks, si, name, k)->Resume_1,
        ),
    decreases name.len() - k,
{
    if k < name.len() {
        let seg = match_segment(toks, si, name, k);
        lemma_segment_bounds(toks, si, name, k);
        if seg is Some {
            lemma_segment_no_slash(toks, si, name, k);
        }
        if !(seg is Some && (seg->0).0 < toks.len()) && !(seg is Some && (seg->0).1 == name.len())
            && name[k] != '/' {
            lemma_search_no_slash(toks, si, name, k + 1);
        }
    }
}

proof fn lemma_match_from_no_slash(toks: Seq<TokenModel>, ti: int, name: Seq<char>, j: int)
    requires
        0 <= ti <= toks.len(),
        0 <= j <= name.len(),
        forall|i: int| 0 <= i < toks.len() ==> slash_free(#[trigger] toks[i]),
        match_from(toks, ti, name, j),
    ensures
        no_slash_from(name, j),
    decreases toks.len() - ti,
{
    if ti < toks.len() {
        if toks[ti] is SeqWildcard {
            if ti + 1 < toks.len() {
                let s = star_search(toks, ti + 1, name, j);
                lemma_search_no_slash(toks, ti + 1, name, j);
                if s is Resume {
                    lemma_search_resumes_later(toks, ti + 1, name, j);
                    lemma_match_from_no_slash(toks, s->Resume_0, name, s->Resume_1);
                }
            }
        } else {
            let e = token_step(toks[ti], name, j)->0;
            lemma_step_no_slash(toks[ti], name, j);
            lemma_step_bounds(toks[ti], name, j);
            lemma_match_from_no_slash(toks, ti + 1, name, e);
        }
    }
}

/// A sequence wildcard never matches across a `/`: where no token of a
/// pattern can match a `/` itself, the pattern matches no name holding one.
pub proof fn lemma_slash_free_pattern_rejects_slash(toks: Seq<TokenModel>, name: Seq<char>)
    requires
        forall|i: int| 0 <= i < toks.len() ==> slash_free(#[trigger] toks[i]),
        glob_matches(toks, name),
    ensures
        no_slash_from(name, 0),
{
    lemma_match_from_no_slash(toks, 0, name, 0);
}

/// An index, or none, as a mathematical value.
pub open spec fn opt_int(o: Option<usize>) -> Option<int> {
    match o {
        Some(x) => Some(x as int),
        None => None,
    }
}

/// How the search for a sequence wildcard ended, in indices.
pub enum SearchStep {
    Matched,
    Failed,
    Resume(usize, usize),
}

impl View for SearchStep {
    type V = SearchModel;

    open spec fn view(&self) -> SearchModel {
        match self {
            SearchStep::Matched => SearchModel::Matched,
            SearchStep::Failed => SearchModel::Failed,
            SearchStep::Resume(t, j) => SearchModel::Resume(*t as int, *j as int),
        }
    }
}

/// Matches the segment that starts at token `si` against `name` from index `k`.
fn segment(toks: &[GlobToken], si: usize, name: &[char], k: usize) -> (r: Option<(usize, usize)>)
    requires
        si <= toks@.len(),
        k <= name@.len(),
    ensures
        r is Some == match_segment(tokens_model(toks@), si as int, name@, k as int) is Some,
        r is Some ==> (r->0).0 == (match_segment(tokens_model(toks@), si as int, name@, k as int)->0).0,
        r is Some ==> (r->0).1 == (match_segment(tokens_model(toks@), si as int, name@, k as int)->0).1,
{
    let ghost ts = tokens_model(toks@);
    let mut ti: usize = si;
    let mut j: usize = k;
    loop
        invariant
            ts == tokens_model(toks@),
            si <= ti <= toks@.len(),
            j <= name@.len(),
            match_segment(ts, si as int, name@, k as int) == match_segment(ts, ti as int, name@, j as int),
        decreases toks@.len() - ti,
    {
        if ti >= toks.len() {
            return Some((ti, j));
        }
        match toks[ti].try_matches_next(name, j) {
            Err(()) => {
                return Some((ti, j));
            },
            Ok(None) => {
                return None;
            },
            Ok(Some(e)) => {
                proof {
                    lemma_step_bounds(ts[ti as int], name@, j as int);
                }
                ti += 1;
                j = e;
            },
        }
    }
}

/// Searches for where the segment after a sequence wildcard starts, from
/// index `j` of `name` on; `si` is the first token of that segment.
fn search_star(toks: &[GlobToken], si: usize, name: &[char], j: usize) -> (r: SearchStep)
    requires
        si <= toks@.len(),
        j <= name@.len(),
    ensures
        r@ == star_search(tokens_model(toks@), si as int, name@, j as int),
{
    let ghost ts = tokens_model(toks@);
    let mut k: usize = j;
    while k < name.len()
        invariant
            ts == tokens_model(toks@),
            si <= toks@.len(),
            j <= k <= name@.len(),
            star_search(ts, si as int, name@, j as int) == star_search(ts, si as int, name@, k as int),
        decreases name@.len() - k,
    {
        match segment(toks, si, name, k) {
            Some((t2, j2)) => {
                if t2 < toks.len() {
                    return SearchStep::Resume(t2, j2);
                }
                if j2 == name.len() {
                    return SearchStep::Matched;
                }
            },
            None => {},
        }
        if name[k] == '/' {
            return SearchStep::Failed;
        }
        k += 1;
    }
    SearchStep::Failed
}

/// Whether `name` holds a `/` at index `j` or after it.
fn has_slash_from(name: &[char], j: usize) -> (r: bool)
    ensures
        r == !no_slash_from(name@, j as int),
{
    let mut k: usize = j;
    while k < name.len()
        invariant
            j <= k,
            forall|x: int| j <= x < k ==> name@[x] != '/',
        decreases name@.len() - k,
    {
        if name[k] == '/' {
            return true;
        }
        k += 1;
    }
    false
}

/// Whether the tokens `toks` match the whole of `name`.
pub fn matches_tokens(toks: &[GlobToken], name: &[char]) -> (r: bool)
    ensures
        r == glob_matches(tokens_model(toks@), name@),
{
    let ghost ts = tokens_model(toks@);
    let mut ti: usize = 0;
    let mut j: usize = 0;
    loop
        invariant
            ts == tokens_model(toks@),
            ti <= toks@.len(),
            j <= name@.len(),
            glob_matches(ts, name@) == match_from(ts, ti as int, name@, j as int),
        decreases toks@.len() - ti,
    {
        if ti >= toks.len() {
            return j == name.len();
        }
        match toks[ti].try_matches_next(name, j) {
            Ok(Some(e)) => {
                proof {
                    lemma_step_bounds(ts[ti as int], name@, j as int);
                }
                ti += 1;
                j = e;
            },
            Ok(None) => {
                return false;
            },
            Err(()) => {
                if ti + 1 == toks.len() {
                    return !has_slash_from(name, j);
                }
                match search_star(toks, ti + 1, name, j) {
                    SearchStep::Matched => {
                        return true;
                    },
                    SearchStep::Failed => {
                        return false;
                    },
                    SearchStep::Resume(t2, j2) => {
                        proof {
                            lemma_search_resumes_later(ts, ti + 1, name@, j as int);
                        }
                        ti = t2;
                        j = j2;
                    },
                }
            },
        }
    }
}

} // verus!
