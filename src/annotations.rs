//! The annotation remover: deletes matching annotation applications.

use vstd::prelude::*;
use crate::bytes::{spec_is_space, is_space, push_range, bytes_equal};
use crate::annotation::{annotation_from, annotation_at, lemma_annotation_from};
use crate::matching::{MatchCause, match_cause, match_name};
use crate::names::{NameSet, AliasMap};
use crate::pattern::{Pattern, pattern_sources};
use crate::strict::{StrictMode, Hits, record_cause, no_hits};

verus! {

/// The word `interface`, which never names a removable annotation.
pub open spec fn interface_keyword() -> Seq<u8> {
    seq![0x69u8, 0x6Eu8, 0x74u8, 0x65u8, 0x72u8, 0x66u8, 0x61u8, 0x63u8, 0x65u8]
}

/// End of the whitespace run that starts at `p`.
pub open spec fn blank_run_end(c: Seq<u8>, p: int) -> int
    decreases c.len() - p,
{
    if 0 <= p < c.len() && spec_is_space(c[p]) {
        blank_run_end(c, p + 1)
    } else {
        p
    }
}

pub proof fn lemma_blank_run_end(c: Seq<u8>, p: int)
    requires
        0 <= p <= c.len(),
    ensures
        p <= blank_run_end(c, p) <= c.len(),
    decreases c.len() - p,
{
    if p < c.len() && spec_is_space(c[p]) {
        lemma_blank_run_end(c, p + 1);
    }
}

/// Whether, and why, an annotation named `name` is removed: never for
/// `interface`, else as the match engine decides.
pub open spec fn annotation_match(
    name: Seq<u8>,
    patterns: Seq<Seq<char>>,
    names: Set<Seq<u8>>,
    aliases: Map<Seq<u8>, Seq<u8>>,
) -> Option<MatchCause> {
    if name == interface_keyword() {
        None
    } else {
        match_cause(name, patterns, names, aliases)
    }
}

/// Where copying resumes after removing an annotation whose span ends at
/// `end`: past the following whitespace, unless that runs to the end.
pub open spec fn resume_after(c: Seq<u8>, end: int) -> int {
    if blank_run_end(c, end) < c.len() {
        blank_run_end(c, end)
    } else {
        end
    }
}

/// The annotation pass from `p`, with `out` written and `hits` gathered so far.
pub open spec fn annotations_from(
    c: Seq<u8>,
    patterns: Seq<Seq<char>>,
    names: Set<Seq<u8>>,
    aliases: Map<Seq<u8>, Seq<u8>>,
    p: int,
    out: Seq<u8>,
    hits: Hits,
) -> (Seq<u8>, Hits)
    decreases c.len() - p,
{
    if p < 0 || p >= c.len() {
        (out, hits)
    } else {
        let (start, end, name) = annotation_from(c, p);
        proof {
            lemma_annotation_from(c, p);
            lemma_blank_run_end(c, end);
        }
        if start >= c.len() {
            (out + c.subrange(p, c.len() as int), hits)
        } else {
            match annotation_match(name, patterns, names, aliases) {
                Some(cause) => annotations_from(
                    c,
                    patterns,
                    names,
                    aliases,
                    resume_after(c, end),
                    out + c.subrange(p, start),
                    record_cause(hits, name, cause),
                ),
                None => annotations_from(
                    c,
                    patterns,
                    names,
                    aliases,
                    end,
                    out + c.subrange(p, end),
                    hits,
                ),
            }
        }
    }
}

/// The content after the annotation pass over `c`.
pub open spec fn removed_annotations(
    c: Seq<u8>,
    patterns: Seq<Seq<char>>,
    names: Set<Seq<u8>>,
    aliases: Map<Seq<u8>, Seq<u8>>,
) -> Seq<u8> {
    annotations_from(c, patterns, names, aliases, 0, Seq::empty(), no_hits()).0
}

/// The hits that the annotation pass over `c` adds to `hits`.
pub open spec fn annotation_hits(
    c: Seq<u8>,
    patterns: Seq<Seq<char>>,
    names: Set<Seq<u8>>,
    aliases: Map<Seq<u8>, Seq<u8>>,
    hits: Hits,
) -> Hits {
    annotations_from(c, patterns, names, aliases, 0, Seq::empty(), hits).1
}

/// The recorded hits do not change what the annotation pass writes.
pub proof fn lemma_annotations_from_hits(
    c: Seq<u8>,
    patterns: Seq<Seq<char>>,
    names: Set<Seq<u8>>,
    aliases: Map<Seq<u8>, Seq<u8>>,
    p: int,
    out: Seq<u8>,
    h1: Hits,
    h2: Hits,
)
    ensures
        annotations_from(c, patterns, names, aliases, p, out, h1).0 == annotations_from(
            c,
            patterns,
            names,
            aliases,
            p,
            out,
            h2,
        ).0,
    decreases c.len() - p,
{
    if 0 <= p < c.len() {
        let (start, end, name) = annotation_from(c, p);
        lemma_annotation_from(c, p);
        lemma_blank_run_end(c, end);
        if start < c.len() {
            match annotation_match(name, patterns, names, aliases) {
                Some(cause) => lemma_annotations_from_hits(
                    c,
                    patterns,
                    names,
                    aliases,
                    resume_after(c, end),
                    out + c.subrange(p, start),
                    record_cause(h1, name, cause),
                    record_cause(h2, name, cause),
                ),
                None => lemma_annotations_from_hits(
                    c,
                    patterns,
                    names,
                    aliases,
                    end,
                    out + c.subrange(p, end),
                    h1,
                    h2,
                ),
            }
        }
    }
}

/// The annotation pass never writes more than it reads.
pub proof fn lemma_annotations_from_length(
    c: Seq<u8>,
    patterns: Seq<Seq<char>>,
    names: Set<Seq<u8>>,
    aliases: Map<Seq<u8>, Seq<u8>>,
    p: int,
    out: Seq<u8>,
    hits: Hits,
)
    requires
        0 <= p <= c.len(),
    ensures
        annotations_from(c, patterns, names, aliases, p, out, hits).0.len() <= out.len() + c.len() - p,
    decreases c.len() - p,
{
    if p < c.len() {
        let (start, end, name) = annotation_from(c, p);
        lemma_annotation_from(c, p);
        lemma_blank_run_end(c, end);
        if start < c.len() {
            match annotation_match(name, patterns, names, aliases) {
                Some(cause) => lemma_annotations_from_length(
                    c,
                    patterns,
                    names,
                    aliases,
                    resume_after(c, end),
                    out + c.subrange(p, start),
                    record_cause(hits, name, cause),
                ),
                None => lemma_annotations_from_length(
                    c,
                    patterns,
                    names,
                    aliases,
                    end,
                    out + c.subrange(p, end),
                    hits,
                ),
            }
        }
    }
}

/// The annotation pass never lengthens its input.
pub proof fn lemma_removed_annotations_length(
    c: Seq<u8>,
    patterns: Seq<Seq<char>>,
    names: Set<Seq<u8>>,
    aliases: Map<Seq<u8>, Seq<u8>>,
)
    ensures
        removed_annotations(c, patterns, names, aliases).len() <= c.len(),
{
    lemma_annotations_from_length(c, patterns, names, aliases, 0, Seq::empty(), no_hits());
}

/// The annotation pass, recording in `strict` which configured name or
/// pattern caused each removal.
pub fn remove_annotations_noting(
    content: &[u8],
    patterns: &[Pattern],
    names: &NameSet,
    imported_names: &AliasMap,
    strict: &mut StrictMode,
) -> (r: Vec<u8>)
    ensures
        r@ == removed_annotations(content@, pattern_sources(patterns@), names@, imported_names@),
        final(strict).hits() == annotation_hits(
            content@,
            pattern_sources(patterns@),
            names@,
            imported_names@,
            old(strict).hits(),
        ),
        final(strict).any_annotation_removed == old(strict).any_annotation_removed,
        final(strict).files_truncated@ == old(strict).files_truncated@,
{
    let ghost c = content@;
    let ghost pats = pattern_sources(patterns@);
    let ghost h0 = old(strict).hits();
    let ghost goal = annotations_from(c, pats, names@, imported_names@, 0, Seq::empty(), h0);
    proof {
        lemma_annotations_from_hits(c, pats, names@, imported_names@, 0, Seq::empty(), h0, no_hits());
    }
    let interface: [u8; 9] = [0x69u8, 0x6Eu8, 0x74u8, 0x65u8, 0x72u8, 0x66u8, 0x61u8, 0x63u8, 0x65u8];
    assert(interface@ =~= interface_keyword());
    let len = content.len();
    let mut out: Vec<u8> = Vec::new();
    let mut pos: usize = 0;
    while pos < len
        invariant
            c == content@,
            len == c.len(),
            pats == pattern_sources(patterns@),
            interface@ == interface_keyword(),
            pos <= len,
            annotations_from(c, pats, names@, imported_names@, pos as int, out@, strict.hits()) == goal,
            goal == annotations_from(c, pats, names@, imported_names@, 0, Seq::empty(), h0),
            goal.0 == annotations_from(c, pats, names@, imported_names@, 0, Seq::empty(), no_hits()).0,
            h0 == old(strict).hits(),
            strict.any_annotation_removed == old(strict).any_annotation_removed,
            strict.files_truncated@ == old(strict).files_truncated@,
        decreases len - pos,
    {
        proof {
            lemma_annotation_from(c, pos as int);
        }
        let (start, end, name) = annotation_at(content, pos);
        proof {
            lemma_blank_run_end(c, end as int);
        }
        if start >= len {
            push_range(&mut out, content, pos, len);
            pos = len;
        } else {
            let cause = if bytes_equal(name.as_slice(), interface.as_slice()) {
                None
            } else {
                match_name(name.as_slice(), patterns, names, imported_names)
            };
            match cause {
                Some(cause) => {
                    strict.note(name.as_slice(), cause);
                    push_range(&mut out, content, pos, start);
                    let mut skip: usize = end;
                    while skip < len && is_space(content[skip])
                        invariant
                            c == content@,
                            len == c.len(),
                            end <= skip <= len,
                            blank_run_end(c, skip as int) == blank_run_end(c, end as int),
                        decreases len - skip,
                    {
                        skip = skip + 1;
                    }
                    pos = if skip < len {
                        skip
                    } else {
                        end
                    };
                },
                None => {
                    push_range(&mut out, content, pos, end);
                    pos = end;
                },
            }
        }
    }
    out
}

/// Deletes every annotation whose dotted name matches (see `match_cause`, with
/// `imported_names` as the alias map), except one named `interface`, together
/// with the whitespace that follows it (unless that whitespace runs to the
/// end). Everything else is copied unchanged.
pub fn remove_annotations(
    content: &[u8],
    patterns: &[Pattern],
    names: &NameSet,
    imported_names: &AliasMap,
) -> (r: Vec<u8>)
    ensures
        r@ == removed_annotations(content@, pattern_sources(patterns@), names@, imported_names@),
        r@.len() <= content@.len(),
{
    proof {
        lemma_removed_annotations_length(content@, pattern_sources(patterns@), names@, imported_names@);
    }
    let mut strict = StrictMode::new(0, 0);
    remove_annotations_noting(content, patterns, names, imported_names, &mut strict)
}

} // verus!
