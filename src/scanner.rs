//! The lexical scanner: trivia skipping, symbols, and token location.

use vstd::prelude::*;
use vstd::string::StringSliceAdditionalSpecFns;
use crate::bytes::{
    spec_is_space, spec_is_identifier_char, occurs_at, is_space, is_identifier_char,
    starts_with_at,
};

verus! {

/// End of a line comment whose text starts at `p` (just past `//`): the offset
/// just past the first newline, or the end of `c`.
pub open spec fn line_comment_end(c: Seq<u8>, p: int) -> int
    decreases c.len() - p,
{
    if p >= c.len() {
        c.len() as int
    } else if c[p] == 0x0Au8 {
        p + 1
    } else {
        line_comment_end(c, p + 1)
    }
}

/// End of a block comment whose text starts at `p` (just past `/*`): the offset
/// just past the first `*/`, or the end of `c` when the comment is unterminated.
pub open spec fn block_comment_end(c: Seq<u8>, p: int) -> int
    decreases c.len() - p,
{
    if p + 2 > c.len() {
        c.len() as int
    } else if c[p] == 0x2Au8 && c[p + 1] == 0x2Fu8 {
        p + 2
    } else {
        block_comment_end(c, p + 1)
    }
}

pub proof fn lemma_line_comment_end(c: Seq<u8>, p: int)
    requires
        0 <= p,
    ensures
        p <= line_comment_end(c, p) || p > c.len(),
        line_comment_end(c, p) <= c.len(),
        p <= c.len() ==> p <= line_comment_end(c, p),
    decreases c.len() - p,
{
    if p < c.len() && c[p] != 0x0Au8 {
        lemma_line_comment_end(c, p + 1);
    }
}

pub proof fn lemma_block_comment_end(c: Seq<u8>, p: int)
    requires
        0 <= p,
    ensures
        line_comment_end(c, p) <= c.len(),
        block_comment_end(c, p) <= c.len(),
        p <= c.len() ==> p <= block_comment_end(c, p),
    decreases c.len() - p,
{
    lemma_line_comment_end(c, p);
    if p + 2 <= c.len() && !(c[p] == 0x2Au8 && c[p + 1] == 0x2Fu8) {
        lemma_block_comment_end(c, p + 1);
    }
}

/// Whether a line comment (`//`) starts at `p`.
pub open spec fn line_comment_at(c: Seq<u8>, p: int) -> bool {
    0 <= p && p + 2 <= c.len() && c[p] == 0x2Fu8 && c[p + 1] == 0x2Fu8
}

/// Whether a block comment (`/*`) starts at `p`.
pub open spec fn block_comment_at(c: Seq<u8>, p: int) -> bool {
    0 <= p && p + 2 <= c.len() && c[p] == 0x2Fu8 && c[p + 1] == 0x2Au8
}

/// The offset reached from `p` by skipping whitespace, line comments (through
/// their newline) and block comments (through their `*/`), in any order.
pub open spec fn skip_trivia(c: Seq<u8>, p: int) -> int
    decreases c.len() - p,
{
    if p < 0 || p >= c.len() {
        p
    } else if spec_is_space(c[p]) {
        skip_trivia(c, p + 1)
    } else if line_comment_at(c, p) {
        proof {
            lemma_line_comment_end(c, p + 2);
        }
        skip_trivia(c, line_comment_end(c, p + 2))
    } else if block_comment_at(c, p) {
        proof {
            lemma_block_comment_end(c, p + 2);
        }
        skip_trivia(c, block_comment_end(c, p + 2))
    } else {
        p
    }
}

/// What skipping trivia returns: a position no earlier than the start, within
/// the content, and not itself the start of trivia.
pub proof fn lemma_skip_trivia(c: Seq<u8>, p: int)
    requires
        0 <= p <= c.len(),
    ensures
        p <= skip_trivia(c, p) <= c.len(),
        skip_trivia(c, p) < c.len() ==> {
            let q = skip_trivia(c, p);
            !spec_is_space(c[q]) && !line_comment_at(c, q) && !block_comment_at(c, q)
        },
    decreases c.len() - p,
{
    if p < c.len() {
        if spec_is_space(c[p]) {
            lemma_skip_trivia(c, p + 1);
        } else if line_comment_at(c, p) {
            lemma_line_comment_end(c, p + 2);
            lemma_skip_trivia(c, line_comment_end(c, p + 2));
        } else if block_comment_at(c, p) {
            lemma_block_comment_end(c, p + 2);
            lemma_skip_trivia(c, block_comment_end(c, p + 2));
        }
    }
}

/// Advances `position` past consecutive whitespace, line comments and block
/// comments.
pub fn ignore_whitespace_comments(content: &[u8], position: usize) -> (r: usize)
    requires
        position <= content@.len(),
    ensures
        r == skip_trivia(content@, position as int),
{
    let c = Ghost(content@);
    let mut p: usize = position;
    while p < content.len()
        invariant
            p <= content@.len(),
            c@ == content@,
            skip_trivia(c@, p as int) == skip_trivia(c@, position as int),
        decreases content@.len() - p,
    {
        if is_space(content[p]) {
            p = p + 1;
        } else if content.len() - p >= 2 && content[p] == 0x2Fu8 && content[p + 1] == 0x2Fu8 {
            let start: Ghost<int> = Ghost(p + 2);
            p = p + 2;
            while p < content.len() && content[p] != 0x0Au8
                invariant
                    start@ <= p <= content@.len(),
                    c@ == content@,
                    line_comment_end(c@, p as int) == line_comment_end(c@, start@),
                decreases content@.len() - p,
            {
                p = p + 1;
            }
            if p < content.len() {
                p = p + 1;
            }
            assert(p == line_comment_end(c@, start@));
        } else if content.len() - p >= 2 && content[p] == 0x2Fu8 && content[p + 1] == 0x2Au8 {
            let start: Ghost<int> = Ghost(p + 2);
            p = p + 2;
            while content.len() - p >= 2 && !(content[p] == 0x2Au8 && content[p + 1] == 0x2Fu8)
                invariant
                    start@ <= p <= content@.len(),
                    c@ == content@,
                    block_comment_end(c@, p as int) == block_comment_end(c@, start@),
                decreases content@.len() - p,
            {
                p = p + 1;
            }
            if content.len() - p >= 2 {
                p = p + 2;
            } else {
                p = content.len();
            }
            assert(p == block_comment_end(c@, start@));
        } else {
            return p;
        }
    }
    p
}

/// End of the identifier-like run that starts at `p`.
pub open spec fn identifier_run_end(c: Seq<u8>, p: int) -> int
    decreases c.len() - p,
{
    if 0 <= p < c.len() && spec_is_identifier_char(c[p]) {
        identifier_run_end(c, p + 1)
    } else {
        p
    }
}

pub proof fn lemma_identifier_run_end(c: Seq<u8>, p: int)
    requires
        0 <= p <= c.len(),
    ensures
        p <= identifier_run_end(c, p) <= c.len(),
        forall|i: int| p <= i < identifier_run_end(c, p) ==> spec_is_identifier_char(#[trigger] c[i]),
    decreases c.len() - p,
{
    if p < c.len() && spec_is_identifier_char(c[p]) {
        lemma_identifier_run_end(c, p + 1);
    }
}

/// Where the symbol read from `p` starts: just past the trivia there.
pub open spec fn symbol_start(c: Seq<u8>, p: int) -> int {
    skip_trivia(c, p)
}

/// Where the symbol read from `p` ends: after the maximal identifier-like run,
/// or after one other byte; at the end of `c` the symbol is empty.
pub open spec fn symbol_end(c: Seq<u8>, p: int) -> int {
    let s = skip_trivia(c, p);
    if s < c.len() {
        if spec_is_identifier_char(c[s]) {
            identifier_run_end(c, s + 1)
        } else {
            s + 1
        }
    } else {
        s
    }
}

/// The symbol read from `p`.
pub open spec fn symbol_at(c: Seq<u8>, p: int) -> Seq<u8> {
    c.subrange(symbol_start(c, p), symbol_end(c, p))
}

pub proof fn lemma_symbol(c: Seq<u8>, p: int)
    requires
        0 <= p <= c.len(),
    ensures
        p <= symbol_start(c, p) <= symbol_end(c, p) <= c.len(),
        symbol_at(c, p).len() == symbol_end(c, p) - symbol_start(c, p),
        symbol_at(c, p).len() == 0 <==> symbol_end(c, p) == c.len() && symbol_start(c, p)
            == c.len(),
        symbol_at(c, p).len() > 0 ==> p < symbol_end(c, p),
{
    lemma_skip_trivia(c, p);
    let s = skip_trivia(c, p);
    if s < c.len() && spec_is_identifier_char(c[s]) {
        lemma_identifier_run_end(c, s + 1);
    }
}

/// Reads one symbol from `position`: skips trivia, then takes the maximal
/// identifier-like run or a single other byte. At the end of the content the
/// symbol is empty and the returned offset is the content's length.
pub fn next_symbol(content: &[u8], position: usize) -> (r: (&[u8], usize))
    requires
        position <= content@.len(),
    ensures
        r.0@ == symbol_at(content@, position as int),
        r.1 == symbol_end(content@, position as int),
        r.1 <= content@.len(),
        r.0@.len() == 0 ==> r.1 == content@.len(),
        r.0@.len() > 0 ==> position < r.1,
{
    proof {
        lemma_symbol(content@, position as int);
    }
    let start = ignore_whitespace_comments(content, position);
    let mut end: usize = start;
    if start < content.len() {
        end = start + 1;
        if is_identifier_char(content[start]) {
            while end < content.len() && is_identifier_char(content[end])
                invariant
                    start < end <= content@.len(),
                    identifier_run_end(content@, end as int) == identifier_run_end(
                        content@,
                        start + 1,
                    ),
                decreases content@.len() - end,
            {
                end = end + 1;
            }
        }
    }
    (&content[start..end], end)
}

/// First offset at or after `p` that is past the content or holds a `'`.
pub open spec fn char_literal_close(c: Seq<u8>, p: int) -> int
    decreases c.len() - p,
{
    if p < 0 || p >= c.len() || c[p] == 0x27u8 {
        p
    } else {
        char_literal_close(c, p + 1)
    }
}

/// Whether a backslash at `p` escapes a following backslash or `"`.
pub open spec fn string_escape_at(c: Seq<u8>, p: int) -> bool {
    0 <= p && p + 1 < c.len() && c[p] == 0x5Cu8 && (c[p + 1] == 0x5Cu8 || c[p + 1] == 0x22u8)
}

/// Offset of the `"` closing a string literal whose text starts at `p`, or an
/// offset at or past the end of the content when it is unterminated.
pub open spec fn string_literal_close(c: Seq<u8>, p: int) -> int
    decreases c.len() - p,
{
    if p < 0 || p >= c.len() || c[p] == 0x22u8 {
        p
    } else if string_escape_at(c, p) {
        string_literal_close(c, p + 2)
    } else {
        string_literal_close(c, p + 1)
    }
}

pub proof fn lemma_literal_close(c: Seq<u8>, p: int)
    requires
        0 <= p <= c.len(),
    ensures
        p <= char_literal_close(c, p) <= c.len(),
        p <= string_literal_close(c, p) <= c.len(),
    decreases c.len() - p,
{
    if p < c.len() {
        if c[p] != 0x27u8 {
            lemma_literal_close(c, p + 1);
        }
        if c[p] != 0x22u8 {
            if string_escape_at(c, p) {
                lemma_literal_close(c, p + 2);
            } else {
                lemma_literal_close(c, p + 1);
            }
        }
    }
}

/// The four bytes `'\''`: a char literal holding an escaped quote.
pub open spec fn escaped_quote_literal() -> Seq<u8> {
    seq![0x27u8, 0x5Cu8, 0x27u8, 0x27u8]
}

/// The one-byte token `)`.
pub open spec fn close_paren() -> Seq<u8> {
    seq![0x29u8]
}

/// Whether `t` counts as found at `q`, at parenthesis depth `depth`.
pub open spec fn token_found_at(c: Seq<u8>, t: Seq<u8>, q: int, whole_word: bool, depth: nat) -> bool {
    &&& (t != close_paren() || depth == 0)
    &&& occurs_at(c, q, t)
    &&& !(whole_word && ((q > 0 && spec_is_identifier_char(c[q - 1])) || (q + t.len() < c.len()
        && spec_is_identifier_char(c[q + t.len()]))))
}

/// Offset just past the char literal that opens at `q`.
pub open spec fn after_char_literal(c: Seq<u8>, q: int) -> int {
    if occurs_at(c, q, escaped_quote_literal()) {
        q + 4
    } else {
        char_literal_close(c, q + 1) + 1
    }
}

/// Offset just past the string literal that opens at `q`.
pub open spec fn after_string_literal(c: Seq<u8>, q: int) -> int {
    string_literal_close(c, q + 1) + 1
}

/// Where a search for `t` from `p` at parenthesis depth `depth` stops: the
/// first offset, outside trivia and literals, where the token counts as found;
/// or the length of `c` when there is none.
pub open spec fn find_token_from(c: Seq<u8>, t: Seq<u8>, p: int, whole_word: bool, depth: nat) -> int
    decreases c.len() + 1 - p,
{
    if p < 0 || p + t.len() > c.len() {
        c.len() as int
    } else {
        let q = skip_trivia(c, p);
        proof {
            lemma_skip_trivia(c, p);
        }
        if q >= c.len() {
            c.len() as int
        } else if token_found_at(c, t, q, whole_word, depth) {
            q
        } else if c[q] == 0x27u8 {
            proof {
                lemma_literal_close(c, q + 1);
            }
            find_token_from(c, t, after_char_literal(c, q), whole_word, depth)
        } else if c[q] == 0x22u8 {
            proof {
                lemma_literal_close(c, q + 1);
            }
            find_token_from(c, t, after_string_literal(c, q), whole_word, depth)
        } else if depth != 0 && c[q] == 0x29u8 {
            find_token_from(c, t, q + 1, whole_word, (depth - 1) as nat)
        } else if c[q] == 0x28u8 {
            find_token_from(c, t, q + 1, whole_word, depth + 1)
        } else {
            find_token_from(c, t, q + 1, whole_word, depth)
        }
    }
}

pub proof fn lemma_find_token_bound(c: Seq<u8>, t: Seq<u8>, p: int, whole_word: bool, depth: nat)
    requires
        0 <= p,
    ensures
        find_token_from(c, t, p, whole_word, depth) <= c.len(),
        find_token_from(c, t, p, whole_word, depth) < c.len() ==> occurs_at(
            c,
            find_token_from(c, t, p, whole_word, depth),
            t,
        ),
        find_token_from(c, t, p, whole_word, depth) < c.len() ==> p <= find_token_from(
            c,
            t,
            p,
            whole_word,
            depth,
        ),
    decreases c.len() + 1 - p,
{
    if p + t.len() <= c.len() {
        lemma_skip_trivia(c, p);
        let q = skip_trivia(c, p);
        if q < c.len() && !token_found_at(c, t, q, whole_word, depth) {
            lemma_literal_close(c, q + 1);
            if c[q] == 0x27u8 {
                lemma_find_token_bound(c, t, after_char_literal(c, q), whole_word, depth);
            } else if c[q] == 0x22u8 {
                lemma_find_token_bound(c, t, after_string_literal(c, q), whole_word, depth);
            } else if depth != 0 && c[q] == 0x29u8 {
                lemma_find_token_bound(c, t, q + 1, whole_word, (depth - 1) as nat);
            } else if c[q] == 0x28u8 {
                lemma_find_token_bound(c, t, q + 1, whole_word, depth + 1);
            } else {
                lemma_find_token_bound(c, t, q + 1, whole_word, depth);
            }
        }
    }
}

/// Searches for `token` from `position`, as `find_token` does, with the token
/// given as bytes.
pub fn find_token_bytes(
    content: &[u8],
    token: &[u8],
    position: usize,
    whole_word: bool,
    paren_depth: usize,
) -> (r: usize)
    requires
        paren_depth + content@.len() <= usize::MAX,
    ensures
        r == find_token_from(content@, token@, position as int, whole_word, paren_depth as nat),
        r <= content@.len(),
{
    let ghost c = content@;
    let ghost t = token@;
    let ghost goal = find_token_from(c, t, position as int, whole_word, paren_depth as nat);
    proof {
        lemma_find_token_bound(c, t, position as int, whole_word, paren_depth as nat);
    }
    let len = content.len();
    let is_close_paren = token.len() == 1 && token[0] == 0x29u8;
    let quote_literal: [u8; 4] = [0x27u8, 0x5Cu8, 0x27u8, 0x27u8];
    proof {
        if t.len() == 1 && t[0] == 0x29u8 {
            assert(t =~= close_paren());
        }
    }
    let mut p: usize = position;
    let mut depth: usize = paren_depth;
    while p <= len && token.len() <= len - p
        invariant
            c == content@,
            t == token@,
            len == c.len(),
            quote_literal@ == escaped_quote_literal(),
            is_close_paren == (t == close_paren()),
            depth <= paren_depth + p,
            paren_depth + len <= usize::MAX,
            find_token_from(c, t, p as int, whole_word, depth as nat) == goal,
            goal == find_token_from(c, t, position as int, whole_word, paren_depth as nat),
        decreases len + 1 - p,
    {
        proof {
            lemma_skip_trivia(c, p as int);
            if t.len() == 1 && t[0] == 0x29u8 {
                assert(t =~= close_paren());
            }
        }
        let q = ignore_whitespace_comments(content, p);
        if q == len {
            assert(find_token_from(c, t, p as int, whole_word, depth as nat) == len);
            return len;
        }
        let found = (!is_close_paren || depth == 0) && starts_with_at(content, q, token) && !(
        whole_word && ((q > 0 && is_identifier_char(content[q - 1])) || (token.len() < len - q
            && is_identifier_char(content[q + token.len()]))));
        if found {
            assert(token_found_at(c, t, q as int, whole_word, depth as nat));
            assert(find_token_from(c, t, p as int, whole_word, depth as nat) == q);
            return q;
        }
        let b = content[q];
        if b == 0x27u8 {
            proof {
                lemma_literal_close(c, q + 1);
            }
            if starts_with_at(content, q, quote_literal.as_slice()) {
                p = q + 4;
            } else {
                let mut k: usize = q + 1;
                while k < len && content[k] != 0x27u8
                    invariant
                        c == content@,
                        len == c.len(),
                        q < k <= len,
                        char_literal_close(c, k as int) == char_literal_close(c, q + 1),
                    decreases len - k,
                {
                    k = k + 1;
                }
                if k >= len {
                    assert(after_char_literal(c, q as int) == k + 1);
                    assert(find_token_from(c, t, k + 1, whole_word, depth as nat) == len);
                    return len;
                }
                p = k + 1;
            }
        } else if b == 0x22u8 {
            proof {
                lemma_literal_close(c, q + 1);
            }
            let mut k: usize = q + 1;
            while k < len && content[k] != 0x22u8
                invariant
                    c == content@,
                    len == c.len(),
                    q < k <= len,
                    string_literal_close(c, k as int) == string_literal_close(c, q + 1),
                decreases len - k,
            {
                if content[k] == 0x5Cu8 && k + 1 < len && (content[k + 1] == 0x5Cu8 || content[k
                    + 1] == 0x22u8) {
                    k = k + 2;
                } else {
                    k = k + 1;
                }
            }
            if k >= len {
                assert(after_string_literal(c, q as int) == k + 1);
                assert(find_token_from(c, t, k + 1, whole_word, depth as nat) == len);
                return len;
            }
            p = k + 1;
        } else if depth != 0 && b == 0x29u8 {
            depth = depth - 1;
            p = q + 1;
        } else if b == 0x28u8 {
            depth = depth + 1;
            p = q + 1;
        } else {
            p = q + 1;
        }
    }
    len
}

/// Searches `content` from `position` for `token`, skipping trivia and treating
/// char and string literals as opaque. When the token is `)`, each `)` met
/// while `paren_depth` (raised by each `(` met) is positive lowers it instead of
/// matching. With `whole_word`, an occurrence next to an identifier-like byte on
/// either side is rejected. Returns the offset found, or the content's length.
pub fn find_token(content: &[u8], token: &str, position: usize, whole_word: bool, paren_depth: usize) -> (r: usize)
    requires
        paren_depth + content@.len() <= usize::MAX,
    ensures
        r == find_token_from(content@, token.spec_bytes(), position as int, whole_word, paren_depth as nat),
        r <= content@.len(),
{
    find_token_bytes(content, token.as_bytes(), position, whole_word, paren_depth)
}

} // verus!
