//! The match engine: whether a dotted name is selected by the configured
//! simple names, the alias map, or the patterns.

use vstd::prelude::*;
use crate::names::{NameSet, AliasMap};
use crate::pattern::{Pattern, regex_matches, pattern_sources};
use crate::bytes::bytes_equal;

verus! {

/// Offset of the last `.` in `n[..k]`, or -1.
pub open spec fn last_dot_before(n: Seq<u8>, k: int) -> int
    decreases k,
{
    if k <= 0 {
        -1
    } else if n[k - 1] == 0x2Eu8 {
        k - 1
    } else {
        last_dot_before(n, k - 1)
    }
}

/// Offset of the last `.` in `n`, or -1.
pub open spec fn last_dot(n: Seq<u8>) -> int {
    last_dot_before(n, n.len() as int)
}

/// The part of a dotted name after its last dot (the whole name if it has none).
pub open spec fn simple_name(n: Seq<u8>) -> Seq<u8> {
    n.subrange(last_dot(n) + 1, n.len() as int)
}

/// The part of a dotted name before its last dot.
pub open spec fn owner_name(n: Seq<u8>) -> Seq<u8> {
    n.subrange(0, last_dot(n))
}

pub proof fn lemma_last_dot_before(n: Seq<u8>, k: int)
    requires
        0 <= k <= n.len(),
    ensures
        -1 <= last_dot_before(n, k) < k,
        last_dot_before(n, k) >= 0 ==> n[last_dot_before(n, k)] == 0x2Eu8,
        forall|i: int| last_dot_before(n, k) < i < k ==> n[i] != 0x2Eu8,
    decreases k,
{
    if k > 0 && n[k - 1] != 0x2Eu8 {
        lemma_last_dot_before(n, k - 1);
    }
}

/// Offset of the last `.` in `name`, if any.
pub fn find_last_dot(name: &[u8]) -> (r: Option<usize>)
    ensures
        match r {
            Some(i) => i as int == last_dot(name@),
            None => last_dot(name@) == -1,
        },
{
    let mut k: usize = name.len();
    while k > 0
        invariant
            k <= name@.len(),
            last_dot_before(name@, k as int) == last_dot(name@),
        decreases k,
    {
        if name[k - 1] == 0x2Eu8 {
            return Some(k - 1);
        }
        k = k - 1;
    }
    None
}

/// The part of `name` after its last dot.
pub fn simple_name_of(name: &[u8]) -> (r: &[u8])
    ensures
        r@ == simple_name(name@),
{
    proof {
        lemma_last_dot_before(name@, name@.len() as int);
    }
    let len = name.len();
    let start = match find_last_dot(name) {
        Some(i) => {
            assert(i < len);
            i + 1
        },
        None => 0,
    };
    &name[start..len]
}

/// Why a name matched.
#[derive(Clone, Copy, Debug)]
pub enum MatchCause {
    /// Its simple name is one of the configured names.
    Name,
    /// Its simple name is a key of the alias map, and the name is that simple
    /// name or the qualified name the key maps to.
    Alias,
    /// The pattern at this index matches it (the first such pattern).
    Pattern(usize),
}

/// Index of the first pattern from `from` on that matches `name`.
pub open spec fn first_pattern_match(patterns: Seq<Seq<char>>, name: Seq<u8>, from: int) -> Option<int>
    decreases patterns.len() - from,
{
    if from < 0 || from >= patterns.len() {
        None
    } else if regex_matches(patterns[from], name) {
        Some(from)
    } else {
        first_pattern_match(patterns, name, from + 1)
    }
}

pub proof fn lemma_first_pattern_match(patterns: Seq<Seq<char>>, name: Seq<u8>, from: int)
    requires
        0 <= from,
    ensures
        match first_pattern_match(patterns, name, from) {
            Some(i) => from <= i < patterns.len() && regex_matches(patterns[i], name),
            None => forall|i: int| from <= i < patterns.len() ==> !regex_matches(#[trigger] patterns[i], name),
        },
    decreases patterns.len() - from,
{
    if from < patterns.len() && !regex_matches(patterns[from], name) {
        lemma_first_pattern_match(patterns, name, from + 1);
    }
}

/// Whether, and why, `name` matches: its simple name is a configured name;
/// else its simple name is an alias and the name is that simple name or the
/// alias's qualified name; else the first pattern that matches the whole name.
pub open spec fn match_cause(
    name: Seq<u8>,
    patterns: Seq<Seq<char>>,
    names: Set<Seq<u8>>,
    aliases: Map<Seq<u8>, Seq<u8>>,
) -> Option<MatchCause> {
    let s = simple_name(name);
    if names.contains(s) {
        Some(MatchCause::Name)
    } else if aliases.contains_key(s) && (name == s || aliases[s] == name) {
        Some(MatchCause::Alias)
    } else {
        match first_pattern_match(patterns, name, 0) {
            Some(i) => Some(MatchCause::Pattern(i as usize)),
            None => None,
        }
    }
}

/// Decides whether, and why, `name` matches; see `match_cause`.
pub fn match_name(name: &[u8], patterns: &[Pattern], names: &NameSet, aliases: &AliasMap) -> (r:
    Option<MatchCause>)
    ensures
        r == match_cause(name@, pattern_sources(patterns@), names@, aliases@),
{
    proof {
        lemma_last_dot_before(name@, name@.len() as int);
    }
    let simple = simple_name_of(name);
    let start = name.len() - simple.len();
    if names.contains(simple) {
        return Some(MatchCause::Name);
    }
    match aliases.get(simple) {
        Some(qualified) => {
            if start == 0 || bytes_equal(qualified.as_slice(), name) {
                assert(start == 0 ==> simple@ =~= name@);
                return Some(MatchCause::Alias);
            }
            assert(simple@.len() < name@.len());
        },
        None => {},
    }
    let ghost sources = pattern_sources(patterns@);
    let ghost by_pattern = match first_pattern_match(sources, name@, 0) {
        Some(i) => Some(MatchCause::Pattern(i as usize)),
        None => None,
    };
    assert(match_cause(name@, sources, names@, aliases@) == by_pattern);
    let mut i: usize = 0;
    while i < patterns.len()
        invariant
            i <= patterns@.len(),
            sources == pattern_sources(patterns@),
            match_cause(name@, sources, names@, aliases@) == by_pattern,
            by_pattern == match first_pattern_match(sources, name@, 0) {
                Some(i) => Some(MatchCause::Pattern(i as usize)),
                None => None,
            },
            first_pattern_match(sources, name@, i as int) == first_pattern_match(sources, name@, 0),
        decreases patterns@.len() - i,
    {
        assert(sources[i as int] == patterns@[i as int]@);
        if patterns[i].search(name) {
            return Some(MatchCause::Pattern(i));
        }
        i = i + 1;
    }
    None
}

} // verus!
