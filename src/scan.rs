use vstd::prelude::*;

use crate::charcls::{CharClass, CharClassType};
use crate::error::{Error, ErrorType};
use crate::literal::Literal;
use crate::text::{byte_offset, byte_offsets, chars_of};
use crate::{tokens_model, wf_token, GlobToken, TokenModel};

verus! {

/// A failure found while scanning: its kind and the index of the character
/// at which it was found.
pub type ScanError = (ErrorType, int);

/// Reads a run of literal characters starting at index `k`, appended to
/// `acc`. Any character but `[`, `?`, `*` and `]` stands for itself; `\`
/// makes the character after it stand for itself; the run ends before `[`,
/// `?`, `*` or the end, and an unescaped `]` is an error. Returns the run and
/// the index where it ends.
pub open spec fn lex_literal(p: Seq<char>, k: int, acc: Seq<char>) -> Result<
    (Seq<char>, int),
    ScanError,
>
    decreases p.len() - k,
{
    if k < 0 || k >= p.len() {
        Ok((acc, k))
    } else if p[k] == ']' {
        Err((ErrorType::UnescapedChar(']'), k))
    } else if p[k] == '[' || p[k] == '?' || p[k] == '*' {
        Ok((acc, k))
    } else if p[k] == '\\' {
        if k + 1 >= p.len() {
            Err((ErrorType::IllegalEscape, k))
        } else {
            lex_literal(p, k + 2, acc.push(p[k + 1]))
        }
    } else {
        lex_literal(p, k + 1, acc.push(p[k]))
    }
}

/// Whether the member at index `k` of a class is a `\` with nothing after it.
pub open spec fn escape_at_end(p: Seq<char>, k: int) -> bool {
    p[k] == '\\' && k + 1 >= p.len()
}

/// The character of the class member at index `k`: the character itself, or
/// the one after a `\`.
pub open spec fn elem_char(p: Seq<char>, k: int) -> char {
    if p[k] == '\\' {
        p[k + 1]
    } else {
        p[k]
    }
}

/// The index just after the class member at index `k`.
pub open spec fn elem_end(p: Seq<char>, k: int) -> int {
    if p[k] == '\\' {
        k + 2
    } else {
        k + 1
    }
}

/// The end of a class at the `]` at index `k`: an error if no member was read.
pub open spec fn close_class(items: Seq<CharClassType>, k: int) -> Result<
    (Seq<CharClassType>, int),
    ScanError,
> {
    if items.len() == 0 {
        Err((ErrorType::UnescapedChar(']'), k))
    } else {
        Ok((items, k + 1))
    }
}

/// Reads the members of a class from index `k` up to and including its
/// closing `]`, appended to `items`; `open` is the index of its `[`. The first
/// unescaped `]` closes the class. A member followed by an unescaped `-` is
/// the lower bound of a range whose upper bound is the member after the `-`;
/// any other unescaped `-` is an error, and so is a `-` that the closing `]`
/// follows, since a range needs an upper bound. Returns the members and the
/// index after the `]`.
pub open spec fn lex_class_body(p: Seq<char>, k: int, items: Seq<CharClassType>, open: int) -> Result<
    (Seq<CharClassType>, int),
    ScanError,
>
    decreases p.len() - k,
{
    if k < 0 || k >= p.len() {
        Err((ErrorType::UnclosedCharClass, open))
    } else if p[k] == ']' {
        close_class(items, k)
    } else if p[k] == '-' {
        Err((ErrorType::UnescapedChar('-'), k))
    } else if escape_at_end(p, k) {
        Err((ErrorType::IllegalEscape, k))
    } else {
        let lo = elem_char(p, k);
        let k1 = elem_end(p, k);
        if k1 < p.len() && p[k1] == '-' {
            let k2 = k1 + 1;
            if k2 >= p.len() {
                Err((ErrorType::UnclosedCharClass, open))
            } else if p[k2] == ']' {
                Err((ErrorType::UnescapedChar('-'), k1))
            } else if p[k2] == '-' {
                Err((ErrorType::UnescapedChar('-'), k2))
            } else if escape_at_end(p, k2) {
                Err((ErrorType::IllegalEscape, k2))
            } else {
                let hi = elem_char(p, k2);
                if lo > hi {
                    Err((ErrorType::InvalidRangeValues(lo, hi), k2))
                } else {
                    lex_class_body(p, elem_end(p, k2), items.push(CharClassType::Range(lo, hi)), open)
                }
            }
        } else {
            lex_class_body(p, k1, items.push(CharClassType::Single(lo)), open)
        }
    }
}

/// Whether the class whose `[` is at index `k` is negated by a `^` after it.
pub open spec fn class_negated(p: Seq<char>, k: int) -> bool {
    k + 1 < p.len() && p[k + 1] == '^'
}

/// The index of the first member of the class whose `[` is at index `k`.
pub open spec fn class_start(p: Seq<char>, k: int) -> int {
    if class_negated(p, k) {
        k + 2
    } else {
        k + 1
    }
}

/// The token `t` before the tokens of `r`, or the error of `r`.
pub open spec fn prepend(t: TokenModel, r: Result<Seq<TokenModel>, ScanError>) -> Result<
    Seq<TokenModel>,
    ScanError,
> {
    match r {
        Ok(ts) => Ok(seq![t] + ts),
        Err(e) => Err(e),
    }
}

/// The tokens of the pattern from index `k` on. `after_star` tells whether the
/// character before `k` was an unescaped `*`: a run of `*` gives one token.
pub open spec fn scan_from(p: Seq<char>, k: int, after_star: bool) -> Result<
    Seq<TokenModel>,
    ScanError,
>
    decreases p.len() - k,
{
    if k < 0 || k >= p.len() {
        Ok(seq![])
    } else if p[k] == '*' {
        if after_star {
            scan_from(p, k + 1, true)
        } else {
            prepend(TokenModel::SeqWildcard, scan_from(p, k + 1, true))
        }
    } else if p[k] == '?' {
        prepend(TokenModel::SingleWildcard, scan_from(p, k + 1, false))
    } else if p[k] == '[' {
        let r = lex_class_body(p, class_start(p, k), seq![], k);
        if r is Ok {
            proof {
                lemma_class_body_advances(p, class_start(p, k), seq![], k);
            }
            prepend(
                TokenModel::CharClass(class_negated(p, k), r->Ok_0.0),
                scan_from(p, r->Ok_0.1, false),
            )
        } else {
            Err(r->Err_0)
        }
    } else {
        let r = lex_literal(p, k, seq![]);
        if r is Ok {
            proof {
                lemma_literal_advances(p, k, seq![]);
            }
            prepend(TokenModel::Literal(r->Ok_0.0), scan_from(p, r->Ok_0.1, false))
        } else {
            Err(r->Err_0)
        }
    }
}

/// The tokens of a whole pattern, or the first error in it.
pub open spec fn compile_spec(p: Seq<char>) -> Result<Seq<TokenModel>, ScanError> {
    if p.len() == 0 {
        Err((ErrorType::EmptyPattern, -1))
    } else {
        scan_from(p, 0, false)
    }
}

/// The reported position of a scanning error: the byte offset of the
/// character where it was found, or `usize::MAX` for an empty pattern.
pub open spec fn error_position(p: Seq<char>, e: ScanError) -> usize {
    if e.0 == ErrorType::EmptyPattern {
        usize::MAX
    } else {
        byte_offset(p, e.1) as usize
    }
}

/// A literal run ends at or after its start, within the pattern, and reads
/// at least one character where its first character is not special.
pub proof fn lemma_literal_advances(p: Seq<char>, k: int, acc: Seq<char>)
    ensures
        lex_literal(p, k, acc) is Ok ==> k <= lex_literal(p, k, acc)->Ok_0.1,
        lex_literal(p, k, acc) is Ok && k <= p.len() ==> lex_literal(p, k, acc)->Ok_0.1
            <= p.len(),
        lex_literal(p, k, acc) is Ok && lex_literal(p, k, acc)->Ok_0.1 > k
            ==> lex_literal(p, k, acc)->Ok_0.0.len() > acc.len(),
        0 <= k < p.len() && !(p[k] == '[' || p[k] == '?' || p[k] == '*') && lex_literal(
            p,
            k,
            acc,
        ) is Ok ==> lex_literal(p, k, acc)->Ok_0.1 > k,
    decreases p.len() - k,
{
    if 0 <= k < p.len() && p[k] != ']' && !(p[k] == '[' || p[k] == '?' || p[k] == '*') {
        if p[k] == '\\' {
            if k + 1 < p.len() {
                lemma_literal_advances(p, k + 2, acc.push(p[k + 1]));
            }
        } else {
            lemma_literal_advances(p, k + 1, acc.push(p[k]));
        }
    }
}

/// A class that is read ends after its first member position, within the pattern.
pub proof fn lemma_class_body_advances(
    p: Seq<char>,
    k: int,
    items: Seq<CharClassType>,
    open: int,
)
    ensures
        lex_class_body(p, k, items, open) is Ok ==> k < lex_class_body(p, k, items, open)->Ok_0.1
            <= p.len(),
    decreases p.len() - k,
{
    if 0 <= k < p.len() && p[k] != ']' && p[k] != '-' && !escape_at_end(p, k) {
        let lo = elem_char(p, k);
        let k1 = elem_end(p, k);
        if k1 < p.len() && p[k1] == '-' {
            let k2 = k1 + 1;
            if k2 < p.len() && p[k2] != ']' && p[k2] != '-' && !escape_at_end(p, k2) {
                let hi = elem_char(p, k2);
                if lo <= hi {
                    lemma_class_body_advances(
                        p,
                        elem_end(p, k2),
                        items.push(CharClassType::Range(lo, hi)),
                        open,
                    );
                }
            }
        } else {
            lemma_class_body_advances(p, k1, items.push(CharClassType::Single(lo)), open);
        }
    }
}

proof fn lemma_class_body_wf(p: Seq<char>, k: int, items: Seq<CharClassType>, open: int)
    requires
        forall|i: int| 0 <= i < items.len() ==> (#[trigger] items[i]).wf(),
    ensures
        lex_class_body(p, k, items, open) is Ok ==> {
            let found = lex_class_body(p, k, items, open)->Ok_0.0;
            &&& found.len() > 0
            &&& forall|i: int| 0 <= i < found.len() ==> (#[trigger] found[i]).wf()
        },
    decreases p.len() - k,
{
    if 0 <= k < p.len() && p[k] != ']' && p[k] != '-' && !escape_at_end(p, k) {
        let lo = elem_char(p, k);
        let k1 = elem_end(p, k);
        if k1 < p.len() && p[k1] == '-' {
            let k2 = k1 + 1;
            if k2 < p.len() && p[k2] != ']' && p[k2] != '-' && !escape_at_end(p, k2) {
                let hi = elem_char(p, k2);
                if lo <= hi {
                    let more = items.push(CharClassType::Range(lo, hi));
                    assert(forall|i: int| 0 <= i < more.len() ==> (#[trigger] more[i]).wf());
                    lemma_class_body_wf(p, elem_end(p, k2), more, open);
                }
            }
        } else {
            let more = items.push(CharClassType::Single(lo));
            assert(forall|i: int| 0 <= i < more.len() ==> (#[trigger] more[i]).wf());
            lemma_class_body_wf(p, k1, more, open);
        }
    }
}

/// Every token is well formed and no two sequence wildcards are adjacent.
pub open spec fn tokens_well_formed(ts: Seq<TokenModel>) -> bool {
    &&& forall|i: int| 0 <= i < ts.len() ==> wf_token(#[trigger] ts[i])
    &&& forall|i: int|
        0 <= i < ts.len() - 1 ==> !((#[trigger] ts[i]) is SeqWildcard && ts[i + 1] is SeqWildcard)
}

proof fn lemma_prepend_well_formed(t: TokenModel, rest: Seq<TokenModel>)
    requires
        wf_token(t),
        tokens_well_formed(rest),
        t is SeqWildcard && rest.len() > 0 ==> !(rest[0] is SeqWildcard),
    ensures
        tokens_well_formed(seq![t] + rest),
{
    let ts = seq![t] + rest;
    assert forall|i: int| 0 <= i < ts.len() implies wf_token(#[trigger] ts[i]) by {
        if i > 0 {
            assert(ts[i] == rest[i - 1]);
        }
    }
    assert forall|i: int| 0 <= i < ts.len() - 1 implies !((#[trigger] ts[i]) is SeqWildcard
        && ts[i + 1] is SeqWildcard) by {
        assert(ts[i + 1] == rest[i]);
        if i > 0 {
            assert(ts[i] == rest[i - 1]);
        }
    }
}

proof fn lemma_scan_from_well_formed(p: Seq<char>, k: int, after_star: bool)
    ensures
        scan_from(p, k, after_star) is Ok ==> {
            let ts = scan_from(p, k, after_star)->Ok_0;
            &&& tokens_well_formed(ts)
            &&& after_star && ts.len() > 0 ==> !(ts[0] is SeqWildcard)
            &&& 0 <= k < p.len() && !after_star ==> ts.len() > 0
        },
    decreases p.len() - k,
{
    if 0 <= k < p.len() {
        if p[k] == '*' {
            lemma_scan_from_well_formed(p, k + 1, true);
            if !after_star && scan_from(p, k + 1, true) is Ok {
                lemma_prepend_well_formed(TokenModel::SeqWildcard, scan_from(p, k + 1, true)->Ok_0);
            }
        } else if p[k] == '?' {
            lemma_scan_from_well_formed(p, k + 1, false);
            if scan_from(p, k + 1, false) is Ok {
                lemma_prepend_well_formed(
                    TokenModel::SingleWildcard,
                    scan_from(p, k + 1, false)->Ok_0,
                );
            }
        } else if p[k] == '[' {
            let r = lex_class_body(p, class_start(p, k), seq![], k);
            if r is Ok {
                lemma_class_body_advances(p, class_start(p, k), seq![], k);
                lemma_class_body_wf(p, class_start(p, k), seq![], k);
                lemma_scan_from_well_formed(p, r->Ok_0.1, false);
                if scan_from(p, r->Ok_0.1, false) is Ok {
                    lemma_prepend_well_formed(
                        TokenModel::CharClass(class_negated(p, k), r->Ok_0.0),
                        scan_from(p, r->Ok_0.1, false)->Ok_0,
                    );
                }
            }
        } else {
            let r = lex_literal(p, k, seq![]);
            if r is Ok {
                lemma_literal_advances(p, k, seq![]);
                lemma_scan_from_well_formed(p, r->Ok_0.1, false);
                if scan_from(p, r->Ok_0.1, false) is Ok {
                    lemma_prepend_well_formed(
                        TokenModel::Literal(r->Ok_0.0),
                        scan_from(p, r->Ok_0.1, false)->Ok_0,
                    );
                }
            }
        }
    }
}

/// A compiled pattern is never empty, each of its tokens is well formed, and
/// no two sequence wildcards stand next to each other.
pub proof fn lemma_compiled_well_formed(p: Seq<char>)
    ensures
        compile_spec(p) is Ok ==> compile_spec(p)->Ok_0.len() > 0 && tokens_well_formed(
            compile_spec(p)->Ok_0,
        ),
{
    lemma_scan_from_well_formed(p, 0, false);
}

/// `prefix` before the tokens of `r`, or the error of `r`.
pub open spec fn join(prefix: Seq<TokenModel>, r: Result<Seq<TokenModel>, ScanError>) -> Result<
    Seq<TokenModel>,
    ScanError,
> {
    match r {
        Ok(ts) => Ok(prefix + ts),
        Err(e) => Err(e),
    }
}

/// `x` reports the failure `y` found in the pattern `p`.
pub open spec fn reports(p: Seq<char>, x: Error, y: ScanError) -> bool {
    x@ == (y.0, error_position(p, y))
}

/// `offs` holds the byte offset of every character index of `p`, and of its end.
pub open spec fn offsets_of(p: Seq<char>, offs: Seq<usize>) -> bool {
    &&& offs.len() == p.len() + 1
    &&& forall|i: int| 0 <= i <= p.len() ==> offs[i] == byte_offset(p, i)
}

/// Pushing a token pushes its value.
pub proof fn lemma_tokens_model_push(s: Seq<GlobToken>, t: GlobToken)
    ensures
        tokens_model(s.push(t)) == tokens_model(s).push(t@),
{
    assert(tokens_model(s.push(t)) =~= tokens_model(s).push(t@));
}

/// Reads the run of literal characters that starts at index `start`.
fn scan_literal(p: &Vec<char>, offs: &Vec<usize>, start: usize) -> (r: Result<
    (Vec<char>, usize),
    Error,
>)
    requires
        offsets_of(p@, offs@),
        start < p@.len(),
    ensures
        r is Ok ==> r->Ok_0.1 <= p@.len(),
        match (r, lex_literal(p@, start as int, seq![])) {
            (Ok((s, e)), Ok((t, f))) => s@ == t && e == f,
            (Err(x), Err(y)) => reports(p@, x, y),
            _ => false,
        },
{
    let mut acc: Vec<char> = Vec::new();
    let mut k: usize = start;
    loop
        invariant
            offsets_of(p@, offs@),
            start <= k <= p@.len(),
            lex_literal(p@, start as int, seq![]) == lex_literal(p@, k as int, acc@),
        decreases p@.len() - k,
    {
        if k >= p.len() {
            return Ok((acc, k));
        }
        let c = p[k];
        if c == ']' {
            return Err(Error::new(ErrorType::UnescapedChar(']'), offs[k]));
        }
        if c == '[' || c == '?' || c == '*' {
            return Ok((acc, k));
        }
        if c == '\\' {
            if k + 1 >= p.len() {
                return Err(Error::new(ErrorType::IllegalEscape, offs[k]));
            }
            acc.push(p[k + 1]);
            k += 2;
        } else {
            acc.push(c);
            k += 1;
        }
    }
}

/// Reads one class member at index `k`, escaped or not: its character and
/// the index after it.
fn scan_class_member(p: &Vec<char>, k: usize) -> (r: (char, usize))
    requires
        k < p.len(),
        !escape_at_end(p@, k as int),
    ensures
        r.0 == elem_char(p@, k as int),
        r.1 == elem_end(p@, k as int),
{
    if p[k] == '\\' {
        (p[k + 1], k + 2)
    } else {
        (p[k], k + 1)
    }
}

/// Reads the class whose `[` is at index `open`.
fn scan_class(p: &Vec<char>, offs: &Vec<usize>, open: usize) -> (r: Result<(CharClass, usize), Error>)
    requires
        offsets_of(p@, offs@),
        open < p.len(),
    ensures
        r is Ok ==> r->Ok_0.1 <= p@.len(),
        match (r, lex_class_body(p@, class_start(p@, open as int), seq![], open as int)) {
            (Ok((c, e)), Ok((items, f))) => c@ == (class_negated(p@, open as int), items) && e
                == f,
            (Err(x), Err(y)) => reports(p@, x, y),
            _ => false,
        },
{
    let negated = open + 1 < p.len() && p[open + 1] == '^';
    let mut k: usize = if negated {
        open + 2
    } else {
        open + 1
    };
    let mut items: Vec<CharClassType> = Vec::new();
    loop
        invariant
            offsets_of(p@, offs@),
            open < p@.len(),
            k <= p@.len(),
            negated == class_negated(p@, open as int),
            lex_class_body(p@, class_start(p@, open as int), seq![], open as int)
                == lex_class_body(p@, k as int, items@, open as int),
            forall|i: int| 0 <= i < items@.len() ==> (#[trigger] items@[i]).wf(),
        decreases p@.len() - k,
    {
        if k >= p.len() {
            return Err(Error::new(ErrorType::UnclosedCharClass, offs[open]));
        }
        let c = p[k];
        if c == ']' {
            if items.len() == 0 {
                return Err(Error::new(ErrorType::UnescapedChar(']'), offs[k]));
            }
            return Ok((CharClass::new(negated, items), k + 1));
        }
        if c == '-' {
            return Err(Error::new(ErrorType::UnescapedChar('-'), offs[k]));
        }
        if p[k] == '\\' && k + 1 >= p.len() {
            return Err(Error::new(ErrorType::IllegalEscape, offs[k]));
        }
        let (lo, k1) = scan_class_member(p, k);
        if k1 < p.len() && p[k1] == '-' {
            let k2 = k1 + 1;
            if k2 >= p.len() {
                return Err(Error::new(ErrorType::UnclosedCharClass, offs[open]));
            }
            if p[k2] == ']' {
                return Err(Error::new(ErrorType::UnescapedChar('-'), offs[k1]));
            }
            if p[k2] == '-' {
                return Err(Error::new(ErrorType::UnescapedChar('-'), offs[k2]));
            }
            if p[k2] == '\\' && k2 + 1 >= p.len() {
                return Err(Error::new(ErrorType::IllegalEscape, offs[k2]));
            }
            let (hi, k3) = scan_class_member(p, k2);
            if lo > hi {
                return Err(Error::new(ErrorType::InvalidRangeValues(lo, hi), offs[k2]));
            }
            items.push(CharClassType::Range(lo, hi));
            k = k3;
        } else {
            items.push(CharClassType::Single(lo));
            k = k1;
        }
    }
}

/// Scans `pattern` and appends its tokens to `tokens`: a run of `*` gives one
/// sequence wildcard, each `?` one single wildcard, each `[...]` one class,
/// and each run of other characters one literal. Fails on the first syntax
/// error, with its kind and byte offset, leaving what was appended before it.
pub fn scan_patterns(pattern: &str, tokens: &mut Vec<GlobToken>) -> (r: Result<(), Error>)
    ensures
        match (r, compile_spec(pattern@)) {
            (Ok(()), Ok(ts)) => tokens_model(final(tokens)@) == tokens_model(old(tokens)@) + ts,
            (Err(x), Err(y)) => reports(pattern@, x, y),
            _ => false,
        },
        tokens_model(old(tokens)@).is_prefix_of(tokens_model(final(tokens)@)),
        final(tokens)@.len() <= old(tokens)@.len() + pattern@.len(),
        pattern@.len() == 0 ==> final(tokens)@ == old(tokens)@,
{
    if pattern.is_empty() {
        return Err(Error::empty_pattern());
    }
    let p = chars_of(pattern);
    let offs = byte_offsets(pattern, &p);
    let ghost added: Seq<TokenModel> = seq![];
    let mut k: usize = 0;
    let mut after_star = false;
    assert(tokens_model(old(tokens)@) + added =~= tokens_model(old(tokens)@));
    while k < p.len()
        invariant
            offsets_of(p@, offs@),
            p@ == pattern@,
            p@.len() > 0,
            k <= p@.len(),
            tokens_model(tokens@) == tokens_model(old(tokens)@) + added,
            tokens@.len() == old(tokens)@.len() + added.len(),
            added.len() <= k,
            compile_spec(p@) == join(added, scan_from(p@, k as int, after_star)),
        decreases p@.len() - k,
    {
        let c = p[k];
        if c == '*' {
            if !after_star {
                proof {
                    lemma_tokens_model_push(tokens@, GlobToken::SeqWildcard);
                    assert(added + (seq![TokenModel::SeqWildcard] + scan_from(
                        p@,
                        k + 1,
                        true,
                    )->Ok_0) =~= added.push(TokenModel::SeqWildcard) + scan_from(
                        p@,
                        k + 1,
                        true,
                    )->Ok_0);
                    added = added.push(TokenModel::SeqWildcard);
                }
                tokens.push(GlobToken::SeqWildcard);
            }
            after_star = true;
            k += 1;
        } else if c == '?' {
            proof {
                lemma_tokens_model_push(tokens@, GlobToken::SingleWildcard);
                assert(added + (seq![TokenModel::SingleWildcard] + scan_from(
                    p@,
                    k + 1,
                    false,
                )->Ok_0) =~= added.push(TokenModel::SingleWildcard) + scan_from(
                    p@,
                    k + 1,
                    false,
                )->Ok_0);
                added = added.push(TokenModel::SingleWildcard);
            }
            tokens.push(GlobToken::SingleWildcard);
            after_star = false;
            k += 1;
        } else if c == '[' {
            match scan_class(&p, &offs, k) {
                Ok((cls, e)) => {
                    proof {
                        lemma_class_body_advances(p@, class_start(p@, k as int), seq![], k as int);
                    }
                    let t = GlobToken::CharClass(cls);
                    proof {
                        lemma_tokens_model_push(tokens@, t);
                        assert(added + (seq![t@] + scan_from(p@, e as int, false)->Ok_0)
                            =~= added.push(t@) + scan_from(p@, e as int, false)->Ok_0);
                        added = added.push(t@);
                    }
                    tokens.push(t);
                    after_star = false;
                    k = e;
                },
                Err(x) => {
                    return Err(x);
                },
            }
        } else {
            match scan_literal(&p, &offs, k) {
                Ok((s, e)) => {
                    proof {
                        lemma_literal_advances(p@, k as int, seq![]);
                    }
                    let t = GlobToken::Literal(Literal::from_chars(s));
                    proof {
                        lemma_tokens_model_push(tokens@, t);
                        assert(added + (seq![t@] + scan_from(p@, e as int, false)->Ok_0)
                            =~= added.push(t@) + scan_from(p@, e as int, false)->Ok_0);
                        added = added.push(t@);
                    }
                    tokens.push(t);
                    after_star = false;
                    k = e;
                },
                Err(x) => {
                    return Err(x);
                },
            }
        }
    }
    Ok(())
}

} // verus!
