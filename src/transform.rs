//! The per-file transform: the import pass, then optionally the annotation
//! pass fed with the aliases the first one produced.

use vstd::prelude::*;
use crate::names::NameSet;
use crate::pattern::{Pattern, pattern_sources};
use crate::imports::{removed_imports, import_hits, remove_imports_noting, lemma_removed_imports_length};
use crate::annotations::{removed_annotations, annotation_hits, remove_annotations_noting, lemma_removed_annotations_length};
use crate::strict::StrictMode;

verus! {

/// The configuration of a run.
pub struct Parameters {
    pub patterns: Vec<Pattern>,
    pub names: NameSet,
    pub also_remove_annotations: bool,
    pub in_place: bool,
    pub strict_mode: bool,
}

/// What the transform makes of `c`.
pub open spec fn transformed(
    c: Seq<u8>,
    patterns: Seq<Seq<char>>,
    names: Set<Seq<u8>>,
    also_remove_annotations: bool,
) -> Seq<u8> {
    let (without_imports, aliases) = removed_imports(c, patterns, names);
    if also_remove_annotations {
        removed_annotations(without_imports, patterns, names, aliases)
    } else {
        without_imports
    }
}

/// The transform never lengthens its input: the output of the import pass is
/// no longer than the input, nor is the output of the annotation pass.
pub proof fn lemma_no_growth(
    c: Seq<u8>,
    patterns: Seq<Seq<char>>,
    names: Set<Seq<u8>>,
    also_remove_annotations: bool,
)
    ensures
        transformed(c, patterns, names, also_remove_annotations).len() <= c.len(),
{
    lemma_removed_imports_length(c, patterns, names);
    let (without_imports, aliases) = removed_imports(c, patterns, names);
    lemma_removed_annotations_length(without_imports, patterns, names, aliases);
}

/// Runs the import pass and, when configured, the annotation pass over
/// `content`, recording in `strict` which names and patterns caused removals
/// and whether the annotation pass removed anything.
pub fn handle_content(content: &[u8], parameters: &Parameters, strict: &mut StrictMode) -> (r: Vec<u8>)
    ensures
        ({
            let pats = pattern_sources(parameters.patterns@);
            let names = parameters.names@;
            let (without_imports, aliases) = removed_imports(content@, pats, names);
            let after_imports = import_hits(content@, pats, names, old(strict).hits());
            &&& r@ == transformed(content@, pats, names, parameters.also_remove_annotations)
            &&& final(strict).hits() == if parameters.also_remove_annotations {
                annotation_hits(without_imports, pats, names, aliases, after_imports)
            } else {
                after_imports
            }
            &&& final(strict).any_annotation_removed == (old(strict).any_annotation_removed || (
            parameters.also_remove_annotations && removed_annotations(
                without_imports,
                pats,
                names,
                aliases,
            ).len() < without_imports.len()))
            &&& final(strict).files_truncated@ == old(strict).files_truncated@
        }),
        r@.len() <= content@.len(),
{
    proof {
        lemma_no_growth(
            content@,
            pattern_sources(parameters.patterns@),
            parameters.names@,
            parameters.also_remove_annotations,
        );
    }
    let (new_content, removed_classes) = remove_imports_noting(
        content,
        parameters.patterns.as_slice(),
        &parameters.names,
        strict,
    );
    if parameters.also_remove_annotations {
        let result = remove_annotations_noting(
            new_content.as_slice(),
            parameters.patterns.as_slice(),
            &parameters.names,
            &removed_classes,
            strict,
        );
        if result.len() < new_content.len() {
            strict.any_annotation_removed = true;
        }
        result
    } else {
        new_content
    }
}

} // verus!
