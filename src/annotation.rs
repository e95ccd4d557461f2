//! The annotation reader: the span and dotted name of the next annotation.

use vstd::prelude::*;
use crate::bytes::{occurs_at, push_slice, is_single, starts_with_at};
use crate::scanner::{
    symbol_at, symbol_end, lemma_symbol, next_symbol, find_token_from, find_token_bytes,
    close_paren, lemma_find_token_bound,
};

verus! {

/// The one-byte symbol `.`.
pub open spec fn dot() -> Seq<u8> {
    seq![0x2Eu8]
}

/// The one-byte symbol `(`.
pub open spec fn open_paren() -> Seq<u8> {
    seq![0x28u8]
}

/// The one-byte token `@`.
pub open spec fn at_sign() -> Seq<u8> {
    seq![0x40u8]
}

/// Reads the rest of an annotation's name from `q`, alternating name segments
/// and dots; `end` is where the span ends so far and `name` the name read so
/// far. A `(` where a dot is expected extends the span through its matching
/// `)`; none being found, the annotation is abandoned (`None`). A `.` followed
/// by `..` (a varargs ellipsis) stops the name.
pub open spec fn read_annotation_name(
    c: Seq<u8>,
    q: int,
    end: int,
    expecting_dot: bool,
    name: Seq<u8>,
) -> Option<(int, Seq<u8>)>
    decreases c.len() - q,
{
    if q < 0 || q > c.len() {
        Some((end, name))
    } else {
        let sym = symbol_at(c, q);
        let next = symbol_end(c, q);
        proof {
            lemma_symbol(c, q);
        }
        if sym.len() == 0 {
            Some((end, name))
        } else if sym == dot() && occurs_at(c, next, seq![0x2Eu8, 0x2Eu8]) {
            Some((end, name))
        } else if expecting_dot && sym != dot() {
            if sym == open_paren() {
                let close = find_token_from(c, close_paren(), next, false, 0);
                if close >= c.len() {
                    None
                } else {
                    Some((close + 1, name))
                }
            } else {
                Some((end, name))
            }
        } else {
            read_annotation_name(c, next, next, !expecting_dot, name + sym)
        }
    }
}

/// The next annotation from `p`: where its span starts and ends, and its dotted
/// name. With no further annotation (or an abandoned one) both offsets are the
/// length of `c` and the name is empty.
pub open spec fn annotation_from(c: Seq<u8>, p: int) -> (int, int, Seq<u8>) {
    let at = find_token_from(c, at_sign(), p, false, 0);
    if at >= c.len() {
        (c.len() as int, c.len() as int, Seq::empty())
    } else {
        match read_annotation_name(c, at + 1, symbol_end(c, at + 1), false, Seq::empty()) {
            None => (c.len() as int, c.len() as int, Seq::empty()),
            Some(r) => (at, r.0, r.1),
        }
    }
}

pub proof fn lemma_read_annotation_name(
    c: Seq<u8>,
    q: int,
    end: int,
    expecting_dot: bool,
    name: Seq<u8>,
)
    requires
        0 <= q <= c.len(),
        0 <= end <= c.len(),
    ensures
        read_annotation_name(c, q, end, expecting_dot, name) matches Some(r) ==> r.0 <= c.len() && (
        r.0 >= end || r.0 > q),
    decreases c.len() - q,
{
    lemma_symbol(c, q);
    let sym = symbol_at(c, q);
    let next = symbol_end(c, q);
    if sym.len() != 0 && !(sym == dot() && occurs_at(c, next, seq![0x2Eu8, 0x2Eu8])) {
        if expecting_dot && sym != dot() {
            lemma_find_token_bound(c, close_paren(), next, false, 0);
        } else {
            lemma_read_annotation_name(c, next, next, !expecting_dot, name + sym);
        }
    }
}

/// A found annotation's span lies in the content, after `p`, and is not empty.
pub proof fn lemma_annotation_from(c: Seq<u8>, p: int)
    requires
        0 <= p <= c.len(),
    ensures
        ({
            let (start, end, name) = annotation_from(c, p);
            &&& start <= end <= c.len()
            &&& start < c.len() ==> p <= start < end
            &&& start >= c.len() ==> start == c.len() && end == c.len()
        }),
{
    let at = find_token_from(c, at_sign(), p, false, 0);
    lemma_find_token_bound(c, at_sign(), p, false, 0);
    if at < c.len() {
        lemma_symbol(c, at + 1);
        lemma_read_annotation_name(c, at + 1, symbol_end(c, at + 1), false, Seq::empty());
    }
}

/// Finds the next annotation from `position`: its span as offsets and its
/// dotted name. See `annotation_from`.
pub fn annotation_at(content: &[u8], position: usize) -> (r: (usize, usize, Vec<u8>))
    ensures
        (r.0 as int, r.1 as int, r.2@) == annotation_from(content@, position as int),
{
    let ghost c = content@;
    let len = content.len();
    let at_token: [u8; 1] = [0x40u8];
    assert(at_token@ =~= at_sign());
    let at = find_token_bytes(content, at_token.as_slice(), position, false, 0);
    if at >= len {
        return (len, len, Vec::new());
    }
    let (first, first_end) = next_symbol(content, at + 1);
    let ghost goal = read_annotation_name(c, at + 1, symbol_end(c, at + 1), false, Seq::empty());
    let ghost mut q: int = at + 1;
    let mut symbol: &[u8] = first;
    let mut next: usize = first_end;
    let mut end: usize = first_end;
    let mut expecting_dot = false;
    let mut name: Vec<u8> = Vec::new();
    loop
        invariant
            c == content@,
            len == c.len(),
            0 <= q <= len,
            end <= len,
            symbol@ == symbol_at(c, q),
            next == symbol_end(c, q),
            read_annotation_name(c, q, end as int, expecting_dot, name@) == goal,
            goal == read_annotation_name(c, at + 1, symbol_end(c, at + 1), false, Seq::empty()),
            at < len,
            at as int == find_token_from(c, at_sign(), position as int, false, 0),
        decreases len - q,
    {
        proof {
            lemma_symbol(c, q);
        }
        if symbol.len() == 0 {
            return (at, end, name);
        }
        if is_single(symbol, 0x2Eu8) && starts_with_at(content, next, [0x2Eu8, 0x2Eu8].as_slice()) {
            assert([0x2Eu8, 0x2Eu8]@ =~= seq![0x2Eu8, 0x2Eu8]);
            return (at, end, name);
        }
        if expecting_dot && !is_single(symbol, 0x2Eu8) {
            if is_single(symbol, 0x28u8) {
                let close_token: [u8; 1] = [0x29u8];
                assert(close_token@ =~= close_paren());
                let close = find_token_bytes(content, close_token.as_slice(), next, false, 0);
                if close >= len {
                    return (len, len, Vec::new());
                }
                return (at, close + 1, name);
            }
            return (at, end, name);
        }
        push_slice(&mut name, symbol);
        expecting_dot = !expecting_dot;
        end = next;
        let (s, e) = next_symbol(content, next);
        proof {
            q = next as int;
        }
        symbol = s;
        next = e;
    }
}

/// Finds the next annotation from `position`. Returns its span (from `@`
/// through the name and any parenthesised argument list) and its dotted name,
/// with trivia between segments left out. When no annotation follows, or its
/// argument list never closes, the span is empty and at the end of the content,
/// and the name is empty.
pub fn next_annotation(content: &[u8], position: usize) -> (r: (&[u8], Vec<u8>))
    ensures
        ({
            let (start, end, name) = annotation_from(content@, position as int);
            r.0@ == content@.subrange(start, end) && r.1@ == name
        }),
{
    let (start, end, name) = annotation_at(content, position);
    proof {
        if position <= content@.len() {
            lemma_annotation_from(content@, position as int);
        }
    }
    (&content[start..end], name)
}

} // verus!
