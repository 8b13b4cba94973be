use vstd::prelude::*;

verus! {

/// One member of a character class: a single character, or an inclusive
/// range of characters from its first bound to its second.
#[derive(Debug, Clone, Copy, PartialEq, Eq, Structural)]
pub enum CharClassType {
    Single(char),
    Range(char, char),
}

impl CharClassType {
    /// A range member is never empty.
    pub open spec fn wf(self) -> bool {
        match self {
            CharClassType::Single(_) => true,
            CharClassType::Range(lo, hi) => lo <= hi,
        }
    }

    /// Whether `c` is this member, or lies within its range.
    pub open spec fn spec_matches(self, c: char) -> bool {
        match self {
            CharClassType::Single(x) => x == c,
            CharClassType::Range(lo, hi) => lo <= c && c <= hi,
        }
    }

    /// Whether `character` is this member, or lies within its range.
    pub fn matches(&self, character: char) -> (r: bool)
        ensures
            r == self.spec_matches(character),
    {
        match self {
            CharClassType::Single(x) => *x == character,
            CharClassType::Range(lo, hi) => *lo <= character && character <= *hi,
        }
    }

    /// The range member from `lo` to `hi`, or `None` where that range is empty.
    pub fn range(lo: char, hi: char) -> (r: Option<CharClassType>)
        ensures
            lo <= hi ==> r == Some(CharClassType::Range(lo, hi)),
            lo > hi ==> r is None,
    {
        if lo <= hi {
            Some(CharClassType::Range(lo, hi))
        } else {
            None
        }
    }
}

impl From<char> for CharClassType {
    fn from(c: char) -> (r: CharClassType) {
        CharClassType::Single(c)
    }
}

impl vstd::std_specs::convert::FromSpecImpl<char> for CharClassType {
    open spec fn obeys_from_spec() -> bool {
        true
    }

    open spec fn from_spec(c: char) -> CharClassType {
        CharClassType::Single(c)
    }
}

/// Whether `c` is accepted by a class with the given negation flag and members:
/// some member matches it, exclusive-or the class is negated.
pub open spec fn class_matches(negated: bool, items: Seq<CharClassType>, c: char) -> bool {
    (exists|i: int| 0 <= i < items.len() && (#[trigger] items[i]).spec_matches(c)) != negated
}

/// A class negated or not, over an ordered list of members.
#[derive(Debug, Clone, PartialEq, Eq)]
pub struct CharClass {
    negated: bool,
    matches: Vec<CharClassType>,
}

impl View for CharClass {
    /// The negation flag and the members in order.
    type V = (bool, Seq<CharClassType>);

    closed spec fn view(&self) -> (bool, Seq<CharClassType>) {
        (self.negated, self.matches@)
    }
}

impl CharClass {
    /// Members are present and every range is non-empty.
    pub open spec fn wf(&self) -> bool {
        &&& self@.1.len() > 0
        &&& forall|i: int| 0 <= i < self@.1.len() ==> (#[trigger] self@.1[i]).wf()
    }

    /// Whether the class accepts `c`.
    pub open spec fn spec_matches_char(&self, c: char) -> bool {
        class_matches(self@.0, self@.1, c)
    }

    /// A class over `matches`, negated or not.
    pub fn new(negated: bool, matches: Vec<CharClassType>) -> (r: Self)
        requires
            matches@.len() > 0,
            forall|i: int| 0 <= i < matches@.len() ==> (#[trigger] matches@[i]).wf(),
        ensures
            r@ == (negated, matches@),
    {
        CharClass { negated, matches }
    }

    /// Whether the class accepts the characters that none of its members match.
    pub fn is_negated(&self) -> (r: bool)
        ensures
            r == self@.0,
    {
        self.negated
    }

    /// The rest of `name` after its first character, where the class accepts
    /// that character.
    pub fn matches_next<'a>(&self, name: &'a str) -> (r: Option<&'a str>)
        ensures
            match r {
                Some(rest) => name@.len() > 0 && self.spec_matches_char(name@[0]) && rest@
                    == name@.drop_first(),
                None => !(name@.len() > 0 && self.spec_matches_char(name@[0])),
            },
    {
        if name.is_empty() {
            return None;
        }
        let c = name.get_char(0);
        if self.matches_char(c) {
            let n = name.unicode_len();
            Some(name.substring_char(1, n))
        } else {
            None
        }
    }

    /// Whether the class accepts `character`.
    pub fn matches_char(&self, character: char) -> (r: bool)
        ensures
            r == self.spec_matches_char(character),
    {
        let mut found = false;
        let mut i: usize = 0;
        while i < self.matches.len()
            invariant
                i <= self.matches@.len(),
                found == exists|k: int| 0 <= k < i && (#[trigger] self.matches@[k]).spec_matches(character),
            decreases self.matches@.len() - i,
        {
            if self.matches[i].matches(character) {
                found = true;
            }
            i += 1;
        }
        found != self.negated
    }
}

/// A class over the members of `matches`, copied.
pub fn from_static(negated: bool, matches: &[CharClassType]) -> (r: CharClass)
    requires
        matches@.len() > 0,
        forall|i: int| 0 <= i < matches@.len() ==> (#[trigger] matches@[i]).wf(),
    ensures
        r@ == (negated, matches@),
{
    let mut v: Vec<CharClassType> = Vec::new();
    let mut i: usize = 0;
    while i < matches.len()
        invariant
            i <= matches@.len(),
            v@ == matches@.take(i as int),
        decreases matches@.len() - i,
    {
        v.push(matches[i]);
        i += 1;
    }
    assert(v@ =~= matches@);
    CharClass::new(negated, v)
}

/// The single-character member `c`.
pub fn type_from_char(c: char) -> (r: CharClassType)
    ensures
        r == CharClassType::Single(c),
{
    CharClassType::Single(c)
}

/// Negating a class turns acceptance of any one character into its opposite.
pub proof fn lemma_negation_complements(items: Seq<CharClassType>, c: char)
    ensures
        class_matches(true, items, c) == !class_matches(false, items, c),
{
}

} // verus!
