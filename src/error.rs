use vstd::prelude::*;
use vstd::string::StringExecFns;

verus! {

/// The kinds of syntax error a pattern can have.
#[derive(Debug, Clone, Copy, PartialEq, Eq, Structural)]
pub enum ErrorType {
    EmptyPattern,
    IllegalEscape,
    InvalidRangeValues(char, char),
    UnclosedCharClass,
    UnescapedChar(char),
}

/// A syntax error, with the byte offset into the pattern where it was found
/// (`usize::MAX` for an empty pattern, which has no such offset).
#[derive(Debug, Clone, Copy, PartialEq, Eq, Structural)]
pub struct Error {
    error_type: ErrorType,
    pos: usize,
}

impl View for Error {
    /// The kind and the position.
    type V = (ErrorType, usize);

    closed spec fn view(&self) -> (ErrorType, usize) {
        (self.error_type, self.pos)
    }
}

impl Error {
    /// An error of kind `error_type` at byte offset `pos`.
    pub fn new(error_type: ErrorType, pos: usize) -> (r: Self)
        ensures
            r@ == (error_type, pos),
    {
        Error { error_type, pos }
    }

    /// The error for an empty pattern, which has no position.
    pub fn empty_pattern() -> (r: Self)
        ensures
            r@ == (ErrorType::EmptyPattern, usize::MAX),
    {
        Error { error_type: ErrorType::EmptyPattern, pos: usize::MAX }
    }

    /// The kind of this error.
    pub fn error_type(&self) -> (r: &ErrorType)
        ensures
            *r == self@.0,
    {
        &self.error_type
    }

    /// The byte offset of this error in the pattern, or `usize::MAX` for an
    /// empty pattern.
    pub fn position(&self) -> (r: usize)
        ensures
            r == self@.1,
    {
        self.pos
    }
}

/// The decimal digit character for `d`, below ten.
pub open spec fn digit_char(d: nat) -> char {
    ((48 + d) as u8) as char
}

/// The decimal writing of `n`, without leading zeros.
pub open spec fn decimal(n: nat) -> Seq<char>
    decreases n,
{
    if n < 10 {
        seq![digit_char(n)]
    } else {
        decimal(n / 10).push(digit_char(n % 10))
    }
}

/// The description of each kind of error, without its position.
pub open spec fn type_desc_spec(t: ErrorType) -> Seq<char> {
    match t {
        ErrorType::EmptyPattern => "empty pattern"@,
        ErrorType::IllegalEscape => "illegal use of '\\': end of pattern"@,
        ErrorType::InvalidRangeValues(_, _) => "invalid character range"@,
        ErrorType::UnclosedCharClass => "character class opened with '[' isn't closed"@,
        ErrorType::UnescapedChar(_) => "special character not escaped with '\\'"@,
    }
}

/// The message for an error of kind `t`, at byte offset `pos` where one is given.
pub open spec fn message_spec(t: ErrorType, pos: Option<usize>) -> Seq<char> {
    match (t, pos) {
        (ErrorType::IllegalEscape, Some(p)) => "illegal use of '\\' at "@ + decimal(p as nat)
            + ": end of pattern"@,
        (ErrorType::InvalidRangeValues(lo, hi), Some(p)) => "invalid character range at "@
            + decimal(p as nat) + ": "@ + seq![lo, '-', hi],
        (ErrorType::InvalidRangeValues(lo, hi), None) => "invalid character range: "@ + seq![
            lo,
            '-',
            hi,
        ],
        (ErrorType::UnclosedCharClass, Some(p)) => "character class opened with '[' at "@
            + decimal(p as nat) + " isn't closed"@,
        (ErrorType::UnescapedChar(c), Some(p)) => "special character "@ + seq![c] + " at "@
            + decimal(p as nat) + " not escaped with '\\'"@,
        (ErrorType::UnescapedChar(c), None) => "special character "@ + seq![c]
            + " not escaped with '\\'"@,
        _ => type_desc_spec(t),
    }
}

/// Relies on `String::push`: the character is appended at the end.
#[verifier::external_body]
fn push_char(s: &mut String, c: char)
    ensures
        final(s)@ == old(s)@.push(c),
{
    s.push(c)
}

/// Appends the decimal writing of `n` to `s`.
fn push_decimal(s: &mut String, n: usize)
    ensures
        final(s)@ == old(s)@ + decimal(n as nat),
    decreases n,
{
    if n >= 10 {
        push_decimal(s, n / 10);
    }
    let d: u8 = (n % 10) as u8;
    let c: char = (48u8 + d) as char;
    push_char(s, c);
    assert(final(s)@ =~= old(s)@ + decimal(n as nat));
}

impl ErrorType {
    /// A description of this kind of error.
    pub fn type_desc(&self) -> (r: &'static str)
        ensures
            r@ == type_desc_spec(*self),
    {
        match self {
            ErrorType::EmptyPattern => "empty pattern",
            ErrorType::IllegalEscape => "illegal use of '\\': end of pattern",
            ErrorType::InvalidRangeValues(_, _) => "invalid character range",
            ErrorType::UnclosedCharClass => "character class opened with '[' isn't closed",
            ErrorType::UnescapedChar(_) => "special character not escaped with '\\'",
        }
    }

    /// The message for this kind of error, without a position.
    pub fn full_desc(&self) -> (r: String)
        ensures
            r@ == message_spec(*self, None),
    {
        self.fmt_with_pos(None)
    }

    /// The message for this kind of error, at byte offset `pos` where one is given.
    pub fn fmt_with_pos(&self, pos: Option<usize>) -> (r: String)
        ensures
            r@ == message_spec(*self, pos),
    {
        match (self, pos) {
            (ErrorType::IllegalEscape, Some(p)) => {
                let mut s = String::from_str("illegal use of '\\' at ");
                push_decimal(&mut s, p);
                s.append(": end of pattern");
                s
            },
            (ErrorType::InvalidRangeValues(lo, hi), Some(p)) => {
                let mut s = String::from_str("invalid character range at ");
                push_decimal(&mut s, p);
                s.append(": ");
                push_char(&mut s, *lo);
                push_char(&mut s, '-');
                push_char(&mut s, *hi);
                assert(s@ =~= message_spec(*self, pos));
                s
            },
            (ErrorType::InvalidRangeValues(lo, hi), None) => {
                let mut s = String::from_str("invalid character range: ");
                push_char(&mut s, *lo);
                push_char(&mut s, '-');
                push_char(&mut s, *hi);
                assert(s@ =~= message_spec(*self, pos));
                s
            },
            (ErrorType::UnclosedCharClass, Some(p)) => {
                let mut s = String::from_str("character class opened with '[' at ");
                push_decimal(&mut s, p);
                s.append(" isn't closed");
                s
            },
            (ErrorType::UnescapedChar(c), Some(p)) => {
                let mut s = String::from_str("special character ");
                push_char(&mut s, *c);
                s.append(" at ");
                push_decimal(&mut s, p);
                s.append(" not escaped with '\\'");
                assert(s@ =~= message_spec(*self, pos));
                s
            },
            (ErrorType::UnescapedChar(c), None) => {
                let mut s = String::from_str("special character ");
                push_char(&mut s, *c);
                s.append(" not escaped with '\\'");
                assert(s@ =~= message_spec(*self, pos));
                s
            },
            _ => String::from_str(self.type_desc()),
        }
    }
}

impl Error {
    /// The message for this error, with its position.
    pub fn message(&self) -> (r: String)
        ensures
            r@ == message_spec(self@.0, Some(self@.1)),
    {
        self.error_type.fmt_with_pos(Some(self.pos))
    }
}

} // verus!
