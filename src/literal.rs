use vstd::prelude::*;

use crate::text::chars_of;

verus! {

/// Whether `s` begins with `p`.
pub open spec fn is_prefix(p: Seq<char>, s: Seq<char>) -> bool {
    p.len() <= s.len() && s.subrange(0, p.len() as int) == p
}

/// A run of characters that must appear exactly.
#[derive(Debug, Clone, PartialEq, Eq)]
pub struct Literal {
    text: Vec<char>,
}

impl View for Literal {
    type V = Seq<char>;

    closed spec fn view(&self) -> Seq<char> {
        self.text@
    }
}

impl Literal {
    /// A literal over the characters of `literal`.
    pub fn new(literal: String) -> (r: Self)
        ensures
            r@ == literal@,
    {
        Literal { text: chars_of(literal.as_str()) }
    }

    /// A literal over the given characters.
    pub fn from_chars(text: Vec<char>) -> (r: Self)
        ensures
            r@ == text@,
    {
        Literal { text }
    }

    /// The rest of `name` after this literal, where `name` begins with it.
    pub fn matches_next<'a>(&self, name: &'a str) -> (r: Option<&'a str>)
        ensures
            match r {
                Some(rest) => is_prefix(self@, name@) && rest@ == name@.skip(self@.len() as int),
                None => !is_prefix(self@, name@),
            },
    {
        let chars = chars_of(name);
        match self.matches_at(chars.as_slice(), 0) {
            Some(end) => {
                assert(chars@.skip(0) =~= chars@);
                Some(name.substring_char(end, chars.len()))
            },
            None => {
                assert(chars@.skip(0) =~= chars@);
                None
            },
        }
    }

    /// The position in `name` just past this literal, where the literal
    /// appears at `pos`.
    pub fn matches_at(&self, name: &[char], pos: usize) -> (r: Option<usize>)
        requires
            pos <= name@.len(),
        ensures
            match r {
                Some(end) => is_prefix(self@, name@.skip(pos as int)) && end == pos + self@.len(),
                None => !is_prefix(self@, name@.skip(pos as int)),
            },
    {
        let n = self.text.len();
        if n > name.len() - pos {
            return None;
        }
        let mut i: usize = 0;
        while i < n
            invariant
                n == self.text@.len(),
                pos + n <= name.len(),
                i <= n,
                forall|k: int| 0 <= k < i ==> name@[pos + k] == self.text@[k],
            decreases n - i,
        {
            if name[pos + i] != self.text[i] {
                assert(name@.skip(pos as int).subrange(0, n as int)[i as int] != self.text@[i as int]);
                return None;
            }
            i += 1;
        }
        assert(name@.skip(pos as int).subrange(0, n as int) =~= self.text@);
        Some(pos + n)
    }
}

/// A literal over the characters of `literal`.
pub fn from_static(literal: &str) -> (r: Literal)
    ensures
        r@ == literal@,
{
    Literal { text: chars_of(literal) }
}

} // verus!
