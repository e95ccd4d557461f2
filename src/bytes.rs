//! Byte classes and small byte-sequence helpers shared by the scanner.

use vstd::prelude::*;

verus! {

/// ASCII whitespace as std's `u8::is_ascii_whitespace` defines it:
/// space, tab, line feed, form feed and carriage return.
pub open spec fn spec_is_space(b: u8) -> bool {
    b == 0x20u8 || b == 0x09u8 || b == 0x0Au8 || b == 0x0Cu8 || b == 0x0Du8
}

/// ASCII punctuation as std's `u8::is_ascii_punctuation` defines it.
pub open spec fn spec_is_punctuation(b: u8) -> bool {
    (0x21u8 <= b && b <= 0x2Fu8) || (0x3Au8 <= b && b <= 0x40u8) || (0x5Bu8 <= b && b <= 0x60u8)
        || (0x7Bu8 <= b && b <= 0x7Eu8)
}

/// Identifier-like bytes: `_`, or anything that is neither ASCII punctuation
/// nor ASCII whitespace (digits and all non-ASCII bytes included).
pub open spec fn spec_is_identifier_char(b: u8) -> bool {
    b == 0x5Fu8 || (!spec_is_punctuation(b) && !spec_is_space(b))
}

/// Whether `s` occurs in `c` at offset `p`.
pub open spec fn occurs_at(c: Seq<u8>, p: int, s: Seq<u8>) -> bool {
    0 <= p && p + s.len() <= c.len() && c.subrange(p, p + s.len()) == s
}

pub fn is_space(b: u8) -> (r: bool)
    ensures
        r == spec_is_space(b),
{
    b == 0x20u8 || b == 0x09u8 || b == 0x0Au8 || b == 0x0Cu8 || b == 0x0Du8
}

pub fn is_identifier_char(b: u8) -> (r: bool)
    ensures
        r == spec_is_identifier_char(b),
{
    let punctuation = (0x21u8 <= b && b <= 0x2Fu8) || (0x3Au8 <= b && b <= 0x40u8) || (0x5Bu8
        <= b && b <= 0x60u8) || (0x7Bu8 <= b && b <= 0x7Eu8);
    b == 0x5Fu8 || (!punctuation && !is_space(b))
}

/// Whether `s` occurs in `c` at offset `p`.
pub fn starts_with_at(c: &[u8], p: usize, s: &[u8]) -> (r: bool)
    ensures
        r == occurs_at(c@, p as int, s@),
{
    if p > c.len() || s.len() > c.len() - p {
        return false;
    }
    let mut i: usize = 0;
    while i < s.len()
        invariant
            p + s@.len() <= c@.len(),
            c@.len() <= usize::MAX,
            i <= s@.len(),
            forall|j: int| 0 <= j < i ==> c@[p + j] == s@[j],
        decreases s@.len() - i,
    {
        if c[p + i] != s[i] {
            assert(c@.subrange(p as int, p + s@.len())[i as int] != s@[i as int]);
            return false;
        }
        i = i + 1;
    }
    assert(c@.subrange(p as int, p + s@.len()) =~= s@);
    true
}

/// Whether two byte sequences are equal.
pub fn bytes_equal(a: &[u8], b: &[u8]) -> (r: bool)
    ensures
        r == (a@ == b@),
{
    if a.len() != b.len() {
        return false;
    }
    let mut i: usize = 0;
    while i < a.len()
        invariant
            a@.len() == b@.len(),
            i <= a@.len(),
            forall|j: int| 0 <= j < i ==> a@[j] == b@[j],
        decreases a@.len() - i,
    {
        if a[i] != b[i] {
            return false;
        }
        i = i + 1;
    }
    assert(a@ =~= b@);
    true
}

/// Appends `c[from..to]` to `out`.
pub fn push_range(out: &mut Vec<u8>, c: &[u8], from: usize, to: usize)
    requires
        from <= to <= c@.len(),
    ensures
        final(out)@ == old(out)@ + c@.subrange(from as int, to as int),
{
    let mut i: usize = from;
    while i < to
        invariant
            from <= i <= to <= c@.len(),
            out@ == old(out)@ + c@.subrange(from as int, i as int),
        decreases to - i,
    {
        out.push(c[i]);
        i = i + 1;
        assert(out@ =~= old(out)@ + c@.subrange(from as int, i as int));
    }
}

/// Appends all of `s` to `out`.
pub fn push_slice(out: &mut Vec<u8>, s: &[u8])
    ensures
        final(out)@ == old(out)@ + s@,
{
    push_range(out, s, 0, s.len());
    assert(s@.subrange(0, s@.len() as int) =~= s@);
}

/// Whether `s` is the one byte `b`.
pub fn is_single(s: &[u8], b: u8) -> (r: bool)
    ensures
        r == (s@ == seq![b]),
{
    if s.len() == 1 && s[0] == b {
        assert(s@ =~= seq![b]);
        true
    } else {
        false
    }
}

/// A copy of `s`.
pub fn to_owned_bytes(s: &[u8]) -> (r: Vec<u8>)
    ensures
        r@ == s@,
{
    let mut r: Vec<u8> = Vec::new();
    push_slice(&mut r, s);
    assert(r@ =~= s@);
    r
}

} // verus!
