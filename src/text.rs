use vstd::prelude::*;
use vstd::std_specs::iter::IteratorSpec;
use vstd::utf8::{encode_scalar, encode_utf8};

verus! {

/// Number of bytes of the UTF-8 encoding of the first `i` characters of `s`.
pub open spec fn byte_offset(s: Seq<char>, i: int) -> nat {
    encode_utf8(s.subrange(0, i)).len()
}

/// Number of bytes of the UTF-8 encoding of `c`.
pub open spec fn char_width(c: char) -> nat {
    encode_scalar(c as u32).len()
}

/// Encoding one more character appends that character's encoding.
pub proof fn lemma_encode_push(s: Seq<char>, c: char)
    ensures
        encode_utf8(s.push(c)) == encode_utf8(s) + encode_scalar(c as u32),
    decreases s.len(),
{
    if s.len() == 0 {
        assert(s.push(c).drop_first() =~= Seq::<char>::empty());
        assert(encode_utf8(Seq::<char>::empty()) =~= Seq::<u8>::empty());
        assert(encode_utf8(s.push(c)) =~= encode_scalar(c as u32));
    } else {
        assert(s.push(c).drop_first() =~= s.drop_first().push(c));
        lemma_encode_push(s.drop_first(), c);
        assert(encode_utf8(s.push(c)) =~= encode_utf8(s) + encode_scalar(c as u32));
    }
}

/// Width in bytes of the UTF-8 encoding of `c`.
pub fn utf8_width(c: char) -> (w: usize)
    ensures
        w == char_width(c),
        1 <= w <= 4,
{
    let u = c as u32;
    proof {
        vstd::utf8::char_is_scalar(c);
    }
    if u <= 0x7F {
        1
    } else if u <= 0x7FF {
        2
    } else if u <= 0xFFFF {
        3
    } else {
        4
    }
}

/// The characters of `s`, in order.
pub fn chars_of(s: &str) -> (v: Vec<char>)
    ensures
        v@ == s@,
{
    let mut v: Vec<char> = Vec::new();
    proof {
        vstd::string::axiom_spec_iter(s);
    }
    for c in it: s.chars()
        invariant
            it.seq() == s@,
            v@ == s@.take(it.index() as int),
    {
        v.push(c);
    }
    assert(v@ =~= s@);
    v
}

/// The encoding of the first `i + 1` characters adds the width of the character at `i`.
pub proof fn lemma_byte_offset_step(s: Seq<char>, i: int)
    requires
        0 <= i < s.len(),
    ensures
        byte_offset(s, i + 1) == byte_offset(s, i) + char_width(s[i]),
{
    assert(s.subrange(0, i + 1) =~= s.subrange(0, i).push(s[i]));
    lemma_encode_push(s.subrange(0, i), s[i]);
}

/// Byte offsets grow with the character index.
pub proof fn lemma_byte_offset_mono(s: Seq<char>, i: int, j: int)
    requires
        0 <= i <= j <= s.len(),
    ensures
        byte_offset(s, i) <= byte_offset(s, j),
    decreases j - i,
{
    if i < j {
        lemma_byte_offset_step(s, j - 1);
        lemma_byte_offset_mono(s, i, j - 1);
    }
}

/// The byte offset of every character index of `s`, and of its end.
pub fn byte_offsets(s: &str, chars: &Vec<char>) -> (offs: Vec<usize>)
    requires
        chars@ == s@,
    ensures
        offs@.len() == chars@.len() + 1,
        forall|i: int| 0 <= i <= chars@.len() ==> offs@[i] == byte_offset(chars@, i),
{
    let total = s.as_bytes().len();
    assert(chars@.subrange(0, chars@.len() as int) =~= chars@);
    assert(byte_offset(chars@, chars@.len() as int) == total);
    assert(chars@.subrange(0, 0) =~= Seq::<char>::empty());
    let mut offs: Vec<usize> = Vec::new();
    offs.push(0);
    let mut cur: usize = 0;
    let mut k: usize = 0;
    while k < chars.len()
        invariant
            k <= chars@.len(),
            byte_offset(chars@, chars@.len() as int) == total,
            offs@.len() == k + 1,
            cur == byte_offset(chars@, k as int),
            forall|i: int| 0 <= i <= k ==> offs@[i] == byte_offset(chars@, i),
        decreases chars@.len() - k,
    {
        proof {
            lemma_byte_offset_step(chars@, k as int);
            lemma_byte_offset_mono(chars@, k + 1, chars@.len() as int);
        }
        cur = cur + utf8_width(chars[k]);
        offs.push(cur);
        k += 1;
    }
    offs
}

} // verus!
