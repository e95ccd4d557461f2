//! The import remover: deletes matching `import` statements and reports the
//! aliases they leave behind.

use vstd::prelude::*;
use crate::bytes::{spec_is_space, is_space, push_range, push_slice, bytes_equal, is_single, to_owned_bytes};
use crate::scanner::{symbol_at, symbol_end, lemma_symbol, next_symbol, find_token_from, find_token_bytes, lemma_find_token_bound};
use crate::matching::{MatchCause, match_cause, simple_name, owner_name, last_dot, match_name, find_last_dot, simple_name_of, lemma_last_dot_before};
use crate::names::{NameSet, AliasMap};
use crate::pattern::{Pattern, pattern_sources};
use crate::strict::{StrictMode, Hits, record_cause, no_hits};

verus! {

/// The keyword `import`.
pub open spec fn import_keyword() -> Seq<u8> {
    seq![0x69u8, 0x6Du8, 0x70u8, 0x6Fu8, 0x72u8, 0x74u8]
}

/// The keyword `static`.
pub open spec fn static_keyword() -> Seq<u8> {
    seq![0x73u8, 0x74u8, 0x61u8, 0x74u8, 0x69u8, 0x63u8]
}

/// The symbol `;`.
pub open spec fn semicolon() -> Seq<u8> {
    seq![0x3Bu8]
}

/// Reads an import's name from `p` through the terminating `;`: the
/// concatenated symbols before it and the offset just past it, or `None` when
/// the content ends first.
pub open spec fn import_name_from(c: Seq<u8>, p: int) -> Option<(Seq<u8>, int)>
    decreases c.len() - p,
{
    if p < 0 || p > c.len() {
        None
    } else {
        let sym = symbol_at(c, p);
        let next = symbol_end(c, p);
        proof {
            lemma_symbol(c, p);
        }
        if sym == semicolon() {
            Some((Seq::empty(), next))
        } else if sym.len() == 0 {
            None
        } else {
            match import_name_from(c, next) {
                Some(r) => Some((sym + r.0, r.1)),
                None => None,
            }
        }
    }
}

pub proof fn lemma_import_name_from(c: Seq<u8>, p: int)
    requires
        0 <= p <= c.len(),
    ensures
        import_name_from(c, p) matches Some(r) ==> p < r.1 <= c.len(),
    decreases c.len() - p,
{
    lemma_symbol(c, p);
    let sym = symbol_at(c, p);
    if sym != semicolon() && sym.len() != 0 {
        lemma_import_name_from(c, symbol_end(c, p));
    }
}

/// Just past the first newline of the whitespace run at `p`, when that run
/// holds a newline.
pub open spec fn blank_newline_end(c: Seq<u8>, p: int) -> Option<int>
    decreases c.len() - p,
{
    if 0 <= p < c.len() && spec_is_space(c[p]) {
        if c[p] == 0x0Au8 {
            Some(p + 1)
        } else {
            blank_newline_end(c, p + 1)
        }
    } else {
        None
    }
}

pub proof fn lemma_blank_newline_end(c: Seq<u8>, p: int)
    requires
        0 <= p,
    ensures
        blank_newline_end(c, p) matches Some(q) ==> p < q <= c.len(),
    decreases c.len() - p,
{
    if 0 <= p < c.len() && spec_is_space(c[p]) && c[p] != 0x0Au8 {
        lemma_blank_newline_end(c, p + 1);
    }
}

/// Where a statement ending at `e` ends once the trailing whitespace through
/// at most one newline is absorbed.
pub open spec fn absorb_line_end(c: Seq<u8>, e: int) -> int {
    match blank_newline_end(c, e) {
        Some(q) => q,
        None => e,
    }
}

/// The next import statement from a position.
pub enum ImportScan {
    /// No further `import` keyword.
    Absent,
    /// An `import` keyword whose statement never reaches `;`.
    Malformed,
    /// A statement spanning `start..end` (trailing line break included).
    Statement { start: int, end: int, is_static: bool, name: Seq<u8> },
}

/// The next import statement from `p`: the first whole-word `import` outside
/// trivia and literals, an optional `static`, and the name up to `;`.
pub open spec fn import_at(c: Seq<u8>, p: int) -> ImportScan {
    let k = find_token_from(c, import_keyword(), p, true, 0);
    if k >= c.len() {
        ImportScan::Absent
    } else {
        let is_static = symbol_at(c, k + 6) == static_keyword();
        let from = if is_static {
            symbol_end(c, k + 6)
        } else {
            k + 6
        };
        match import_name_from(c, from) {
            None => ImportScan::Malformed,
            Some(r) => ImportScan::Statement {
                start: k,
                end: absorb_line_end(c, r.1),
                is_static,
                name: r.0,
            },
        }
    }
}

pub proof fn lemma_import_at(c: Seq<u8>, p: int)
    requires
        0 <= p <= c.len(),
    ensures
        import_at(c, p) matches ImportScan::Statement { start, end, is_static, name } ==> p <= start
            < end <= c.len(),
{
    let k = find_token_from(c, import_keyword(), p, true, 0);
    lemma_find_token_bound(c, import_keyword(), p, true, 0);
    if k < c.len() {
        if p + 6 > c.len() {
            assert(k == c.len());
        }
        assert(k + 6 <= c.len());
        lemma_symbol(c, k + 6);
        let from = if symbol_at(c, k + 6) == static_keyword() {
            symbol_end(c, k + 6)
        } else {
            k + 6
        };
        lemma_import_name_from(c, from);
        if let Some(r) = import_name_from(c, from) {
            lemma_blank_newline_end(c, r.1);
        }
    }
}

/// Whether a name ends in `*`.
pub open spec fn is_wildcard(name: Seq<u8>) -> bool {
    name.len() > 0 && name.last() == 0x2Au8
}

/// Whether an import of `name` matches, and if so which name was tested and
/// why: the name itself (without the configured names when the import is
/// static); then, for a static import, the name without its last segment.
pub open spec fn import_match(
    name: Seq<u8>,
    is_static: bool,
    patterns: Seq<Seq<char>>,
    names: Set<Seq<u8>>,
) -> Option<(Seq<u8>, MatchCause)> {
    let primary = match_cause(
        name,
        patterns,
        if is_static {
            Set::empty()
        } else {
            names
        },
        Map::empty(),
    );
    if primary is Some {
        Some((name, primary->0))
    } else if is_static && last_dot(name) >= 0 {
        match match_cause(owner_name(name), patterns, names, Map::empty()) {
            Some(cause) => Some((owner_name(name), cause)),
            None => None,
        }
    } else {
        None
    }
}

/// The alias map after removing an import of `name`: a non-static,
/// non-wildcard import maps its simple name to its name.
pub open spec fn alias_after(
    aliases: Map<Seq<u8>, Seq<u8>>,
    name: Seq<u8>,
    is_static: bool,
) -> Map<Seq<u8>, Seq<u8>> {
    if !is_wildcard(name) && !is_static {
        aliases.insert(simple_name(name), name)
    } else {
        aliases
    }
}

/// The import pass from `p`, with `out` written and `aliases` and `hits`
/// gathered so far. The first component is `None` when a malformed import
/// aborts the pass; the hits recorded before it stay.
pub open spec fn imports_from(
    c: Seq<u8>,
    patterns: Seq<Seq<char>>,
    names: Set<Seq<u8>>,
    p: int,
    out: Seq<u8>,
    aliases: Map<Seq<u8>, Seq<u8>>,
    hits: Hits,
) -> (Option<(Seq<u8>, Map<Seq<u8>, Seq<u8>>)>, Hits)
    decreases c.len() - p,
{
    if p < 0 || p >= c.len() {
        (Some((out, aliases)), hits)
    } else {
        proof {
            lemma_import_at(c, p);
        }
        match import_at(c, p) {
            ImportScan::Absent => (Some((out + c.subrange(p, c.len() as int), aliases)), hits),
            ImportScan::Malformed => (None, hits),
            ImportScan::Statement { start, end, is_static, name } => {
                match import_match(name, is_static, patterns, names) {
                    Some(m) => imports_from(
                        c,
                        patterns,
                        names,
                        end,
                        out + c.subrange(p, start),
                        alias_after(aliases, name, is_static),
                        record_cause(hits, m.0, m.1),
                    ),
                    None => imports_from(
                        c,
                        patterns,
                        names,
                        end,
                        out + c.subrange(p, end),
                        aliases,
                        hits,
                    ),
                }
            },
        }
    }
}

/// The result of the import pass over `c`: the rewritten content and the alias
/// map; on a malformed import, `c` unchanged and no aliases.
pub open spec fn removed_imports(c: Seq<u8>, patterns: Seq<Seq<char>>, names: Set<Seq<u8>>) -> (
    Seq<u8>,
    Map<Seq<u8>, Seq<u8>>,
) {
    match imports_from(c, patterns, names, 0, Seq::empty(), Map::empty(), no_hits()).0 {
        Some(r) => r,
        None => (c, Map::empty()),
    }
}

/// The hits that the import pass over `c` adds to `hits`.
pub open spec fn import_hits(
    c: Seq<u8>,
    patterns: Seq<Seq<char>>,
    names: Set<Seq<u8>>,
    hits: Hits,
) -> Hits {
    imports_from(c, patterns, names, 0, Seq::empty(), Map::empty(), hits).1
}

/// The recorded hits do not change what the import pass writes.
pub proof fn lemma_imports_from_hits(
    c: Seq<u8>,
    patterns: Seq<Seq<char>>,
    names: Set<Seq<u8>>,
    p: int,
    out: Seq<u8>,
    aliases: Map<Seq<u8>, Seq<u8>>,
    h1: Hits,
    h2: Hits,
)
    ensures
        imports_from(c, patterns, names, p, out, aliases, h1).0 == imports_from(
            c,
            patterns,
            names,
            p,
            out,
            aliases,
            h2,
        ).0,
    decreases c.len() - p,
{
    if 0 <= p < c.len() {
        lemma_import_at(c, p);
        if let ImportScan::Statement { start, end, is_static, name } = import_at(c, p) {
            match import_match(name, is_static, patterns, names) {
                Some(m) => lemma_imports_from_hits(
                    c,
                    patterns,
                    names,
                    end,
                    out + c.subrange(p, start),
                    alias_after(aliases, name, is_static),
                    record_cause(h1, m.0, m.1),
                    record_cause(h2, m.0, m.1),
                ),
                None => lemma_imports_from_hits(
                    c,
                    patterns,
                    names,
                    end,
                    out + c.subrange(p, end),
                    aliases,
                    h1,
                    h2,
                ),
            }
        }
    }
}

/// The import pass never writes more than it reads.
pub proof fn lemma_imports_from_length(
    c: Seq<u8>,
    patterns: Seq<Seq<char>>,
    names: Set<Seq<u8>>,
    p: int,
    out: Seq<u8>,
    aliases: Map<Seq<u8>, Seq<u8>>,
    hits: Hits,
)
    requires
        0 <= p <= c.len(),
    ensures
        imports_from(c, patterns, names, p, out, aliases, hits).0 matches Some(r) ==> r.0.len()
            <= out.len() + c.len() - p,
    decreases c.len() - p,
{
    if p < c.len() {
        lemma_import_at(c, p);
        if let ImportScan::Statement { start, end, is_static, name } = import_at(c, p) {
            match import_match(name, is_static, patterns, names) {
                Some(m) => lemma_imports_from_length(
                    c,
                    patterns,
                    names,
                    end,
                    out + c.subrange(p, start),
                    alias_after(aliases, name, is_static),
                    record_cause(hits, m.0, m.1),
                ),
                None => lemma_imports_from_length(
                    c,
                    patterns,
                    names,
                    end,
                    out + c.subrange(p, end),
                    aliases,
                    hits,
                ),
            }
        }
    }
}

/// The import pass never lengthens its input.
pub proof fn lemma_removed_imports_length(c: Seq<u8>, patterns: Seq<Seq<char>>, names: Set<Seq<u8>>)
    ensures
        removed_imports(c, patterns, names).0.len() <= c.len(),
{
    lemma_imports_from_length(c, patterns, names, 0, Seq::empty(), Map::empty(), no_hits());
}

/// Whether each alias maps the simple name of a non-wildcard qualified name to
/// that name.
pub open spec fn aliases_well_formed(aliases: Map<Seq<u8>, Seq<u8>>) -> bool {
    forall|k: Seq<u8>|
        #[trigger] aliases.contains_key(k) ==> k == simple_name(aliases[k]) && !is_wildcard(aliases[k])
}

proof fn lemma_imports_from_aliases(
    c: Seq<u8>,
    patterns: Seq<Seq<char>>,
    names: Set<Seq<u8>>,
    p: int,
    out: Seq<u8>,
    aliases: Map<Seq<u8>, Seq<u8>>,
    hits: Hits,
)
    requires
        0 <= p <= c.len(),
        aliases_well_formed(aliases),
    ensures
        imports_from(c, patterns, names, p, out, aliases, hits).0 matches Some(r) ==> aliases_well_formed(r.1),
    decreases c.len() - p,
{
    if p < c.len() {
        lemma_import_at(c, p);
        if let ImportScan::Statement { start, end, is_static, name } = import_at(c, p) {
            match import_match(name, is_static, patterns, names) {
                Some(m) => lemma_imports_from_aliases(
                    c,
                    patterns,
                    names,
                    end,
                    out + c.subrange(p, start),
                    alias_after(aliases, name, is_static),
                    record_cause(hits, m.0, m.1),
                ),
                None => lemma_imports_from_aliases(
                    c,
                    patterns,
                    names,
                    end,
                    out + c.subrange(p, end),
                    aliases,
                    hits,
                ),
            }
        }
    }
}

/// The alias map of the import pass maps simple names to the non-wildcard
/// qualified names they end, as only deleted non-static, non-wildcard imports
/// add to it.
pub proof fn lemma_removed_imports_aliases(c: Seq<u8>, patterns: Seq<Seq<char>>, names: Set<Seq<u8>>)
    ensures
        aliases_well_formed(removed_imports(c, patterns, names).1),
{
    lemma_imports_from_aliases(c, patterns, names, 0, Seq::empty(), Map::empty(), no_hits());
}

/// Reads an import's name from `position` through its `;`; see
/// `import_name_from`.
fn read_import_name(content: &[u8], position: usize) -> (r: Option<(Vec<u8>, usize)>)
    requires
        position <= content@.len(),
    ensures
        match (r, import_name_from(content@, position as int)) {
            (Some(x), Some(y)) => x.0@ == y.0 && x.1 as int == y.1,
            (None, None) => true,
            _ => false,
        },
{
    let ghost c = content@;
    let mut name: Vec<u8> = Vec::new();
    let mut p: usize = position;
    loop
        invariant
            c == content@,
            p <= c.len(),
            import_name_from(c, position as int) == match import_name_from(c, p as int) {
                Some(r) => Some((name@ + r.0, r.1)),
                None => None,
            },
        decreases c.len() - p,
    {
        let (sym, next) = next_symbol(content, p);
        proof {
            lemma_symbol(c, p as int);
        }
        if is_single(sym, 0x3Bu8) {
            assert(name@ + Seq::<u8>::empty() =~= name@);
            return Some((name, next));
        }
        if sym.len() == 0 {
            return None;
        }
        let ghost before = name@;
        push_slice(&mut name, sym);
        proof {
            if let Some(r) = import_name_from(c, next as int) {
                assert(before + (sym@ + r.0) =~= name@ + r.0);
            }
        }
        p = next;
    }
}

/// Where a statement ending at `end` ends once trailing whitespace through at
/// most one newline is absorbed; see `absorb_line_end`.
fn line_end_after(content: &[u8], end: usize) -> (r: usize)
    requires
        end <= content@.len(),
    ensures
        r as int == absorb_line_end(content@, end as int),
{
    let mut s: usize = end;
    while s < content.len() && is_space(content[s]) && content[s] != 0x0Au8
        invariant
            end <= s <= content@.len(),
            blank_newline_end(content@, s as int) == blank_newline_end(content@, end as int),
        decreases content@.len() - s,
    {
        s = s + 1;
    }
    if s < content.len() && content[s] == 0x0Au8 {
        s + 1
    } else {
        end
    }
}

/// The next import statement, as `ImportScan` describes it.
pub enum FoundImport {
    Absent,
    Malformed,
    Statement { start: usize, end: usize, is_static: bool, name: Vec<u8> },
}

/// Finds the next import statement from `position`; see `import_at`.
pub fn next_import(content: &[u8], position: usize) -> (r: FoundImport)
    requires
        position <= content@.len(),
    ensures
        match (r, import_at(content@, position as int)) {
            (FoundImport::Absent, ImportScan::Absent) => true,
            (FoundImport::Malformed, ImportScan::Malformed) => true,
            (
                FoundImport::Statement { start, end, is_static, name },
                ImportScan::Statement { start: s, end: e, is_static: st, name: n },
            ) => start as int == s && end as int == e && is_static == st && name@ == n,
            _ => false,
        },
{
    let ghost c = content@;
    let keyword: [u8; 6] = [0x69u8, 0x6Du8, 0x70u8, 0x6Fu8, 0x72u8, 0x74u8];
    let static_word: [u8; 6] = [0x73u8, 0x74u8, 0x61u8, 0x74u8, 0x69u8, 0x63u8];
    assert(keyword@ =~= import_keyword());
    assert(static_word@ =~= static_keyword());
    let len = content.len();
    let k = find_token_bytes(content, keyword.as_slice(), position, true, 0);
    proof {
        lemma_find_token_bound(c, import_keyword(), position as int, true, 0);
    }
    if k >= content.len() {
        return FoundImport::Absent;
    }
    let (first, after) = next_symbol(content, k + 6);
    let is_static = bytes_equal(first, static_word.as_slice());
    let from = if is_static {
        after
    } else {
        k + 6
    };
    match read_import_name(content, from) {
        None => FoundImport::Malformed,
        Some((name, e)) => {
            proof {
                lemma_import_name_from(c, from as int);
            }
            let end = line_end_after(content, e);
            FoundImport::Statement { start: k, end, is_static, name }
        },
    }
}

/// Decides whether an import of `name` matches and records the cause; see
/// `import_match`.
fn import_matches(
    name: &[u8],
    is_static: bool,
    patterns: &[Pattern],
    names: &NameSet,
    strict: &mut StrictMode,
) -> (r: bool)
    ensures
        r == import_match(name@, is_static, pattern_sources(patterns@), names@) is Some,
        final(strict).hits() == match import_match(name@, is_static, pattern_sources(patterns@), names@) {
            Some(m) => record_cause(old(strict).hits(), m.0, m.1),
            None => old(strict).hits(),
        },
        final(strict).any_annotation_removed == old(strict).any_annotation_removed,
        final(strict).files_truncated@ == old(strict).files_truncated@,
{
    let no_names = NameSet::new();
    let no_aliases = AliasMap::new();
    let primary = if is_static {
        match_name(name, patterns, &no_names, &no_aliases)
    } else {
        match_name(name, patterns, names, &no_aliases)
    };
    match primary {
        Some(cause) => {
            strict.note(name, cause);
            true
        },
        None => {
            if !is_static {
                return false;
            }
            proof {
                lemma_last_dot_before(name@, name@.len() as int);
            }
            match find_last_dot(name) {
                None => false,
                Some(d) => {
                    let owner = &name[0..d];
                    match match_name(owner, patterns, names, &no_aliases) {
                        Some(cause) => {
                            strict.note(owner, cause);
                            true
                        },
                        None => false,
                    }
                },
            }
        },
    }
}

/// The import pass, recording in `strict` which configured name or pattern
/// caused each removal.
pub fn remove_imports_noting(
    content: &[u8],
    patterns: &[Pattern],
    names: &NameSet,
    strict: &mut StrictMode,
) -> (r: (Vec<u8>, AliasMap))
    ensures
        (r.0@, r.1@) == removed_imports(content@, pattern_sources(patterns@), names@),
        final(strict).hits() == import_hits(content@, pattern_sources(patterns@), names@, old(strict).hits()),
        final(strict).any_annotation_removed == old(strict).any_annotation_removed,
        final(strict).files_truncated@ == old(strict).files_truncated@,
{
    let ghost c = content@;
    let ghost pats = pattern_sources(patterns@);
    let ghost h0 = old(strict).hits();
    let ghost goal = imports_from(c, pats, names@, 0, Seq::empty(), Map::empty(), h0);
    proof {
        lemma_imports_from_hits(c, pats, names@, 0, Seq::empty(), Map::empty(), h0, no_hits());
    }
    let len = content.len();
    let mut out: Vec<u8> = Vec::new();
    let mut aliases = AliasMap::new();
    let mut pos: usize = 0;
    loop
        invariant
            c == content@,
            len == c.len(),
            pats == pattern_sources(patterns@),
            pos <= len,
            imports_from(c, pats, names@, pos as int, out@, aliases@, strict.hits()) == goal,
            goal == imports_from(c, pats, names@, 0, Seq::empty(), Map::empty(), h0),
            h0 == old(strict).hits(),
            goal.0 == imports_from(c, pats, names@, 0, Seq::empty(), Map::empty(), no_hits()).0,
            strict.any_annotation_removed == old(strict).any_annotation_removed,
            strict.files_truncated@ == old(strict).files_truncated@,
        decreases len - pos,
    {
        if pos >= len {
            return (out, aliases);
        }
        proof {
            lemma_import_at(c, pos as int);
        }
        match next_import(content, pos) {
            FoundImport::Absent => {
                push_range(&mut out, content, pos, len);
                return (out, aliases);
            },
            FoundImport::Malformed => {
                let mut whole: Vec<u8> = Vec::new();
                push_range(&mut whole, content, 0, len);
                assert(whole@ =~= c);
                return (whole, AliasMap::new());
            },
            FoundImport::Statement { start, end, is_static, name } => {
                if import_matches(name.as_slice(), is_static, patterns, names, strict) {
                    push_range(&mut out, content, pos, start);
                    if !(name.len() > 0 && name[name.len() - 1] == 0x2Au8) && !is_static {
                        let simple = to_owned_bytes(simple_name_of(name.as_slice()));
                        aliases.insert(simple, name);
                    }
                } else {
                    push_range(&mut out, content, pos, end);
                }
                pos = end;
            },
        }
    }
}

/// Deletes every `import` statement whose name matches: its simple name is one
/// of `names` (not for static imports), or a pattern matches its name; for a
/// static import, also when its name without the last segment matches. A
/// deleted statement takes its trailing whitespace through one newline with
/// it. Returns the rewritten content and the map from the simple name of each
/// deleted non-static, non-wildcard import to its name. An import that never
/// reaches `;` leaves the content unchanged, with no aliases.
pub fn remove_imports(content: &[u8], patterns: &[Pattern], names: &NameSet) -> (r: (Vec<u8>, AliasMap))
    ensures
        (r.0@, r.1@) == removed_imports(content@, pattern_sources(patterns@), names@),
        r.0@.len() <= content@.len(),
        aliases_well_formed(r.1@),
{
    proof {
        lemma_removed_imports_length(content@, pattern_sources(patterns@), names@);
        lemma_removed_imports_aliases(content@, pattern_sources(patterns@), names@);
    }
    let mut strict = StrictMode::new(0, 0);
    remove_imports_noting(content, patterns, names, &mut strict)
}

} // verus!
