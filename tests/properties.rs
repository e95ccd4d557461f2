use jurand::{
    find_token, handle_content, ignore_whitespace_comments, next_annotation, next_symbol,
    remove_annotations, remove_imports, AliasMap, NameSet, Parameters, Pattern, StrictMode,
};

fn names_of(list: &[&str]) -> NameSet {
    let mut names = NameSet::new();
    for name in list {
        names.insert(name.as_bytes().to_vec());
    }
    names
}

fn patterns_of(list: &[&str]) -> Vec<Pattern> {
    list.iter().map(|p| Pattern::new(p).unwrap()).collect()
}

fn parameters(patterns: &[&str], names: &[&str], also_remove_annotations: bool) -> Parameters {
    Parameters {
        patterns: patterns_of(patterns),
        names: names_of(names),
        also_remove_annotations,
        in_place: false,
        strict_mode: false,
    }
}

fn transform(content: &[u8], parameters: &Parameters) -> Vec<u8> {
    let mut strict = StrictMode::new(parameters.patterns.len(), 0);
    handle_content(content, parameters, &mut strict)
}

#[test]
fn whole_word_rejects_adjacent_identifier_bytes() {
    assert_eq!(8, find_token(b"noimport", "import", 0, true, 0));
    assert_eq!(7, find_token(b"import_", "import", 0, true, 0));
    assert_eq!(9, find_token(b"importnot", "import", 0, true, 0));
    assert_eq!(10, find_token(b"importnot import", "import", 0, true, 0));
    assert_eq!(2, find_token(b"noimport", "import", 0, false, 0));
}

#[test]
fn string_literal_hides_comment_opener() {
    assert_eq!(4, find_token(b"\"//\"@", "@", 0, false, 0));
}

#[test]
fn line_comment_skipped_through_newline() {
    assert_eq!(4, ignore_whitespace_comments(b"//a\n", 0));
    assert_eq!(4, ignore_whitespace_comments(b"//a\n", 4));
    assert_eq!(9, ignore_whitespace_comments(b" /* x */ y", 0));
    assert_eq!(6, ignore_whitespace_comments(b"/* x *", 0));
}

#[test]
fn paren_depth_finds_unbalanced_close() {
    assert_eq!(4, find_token(b"(()))", ")", 0, false, 0));
    assert_eq!(3, find_token(b"a)b)", ")", 0, false, 1));
    assert_eq!(3, find_token(b"a)b", ")", 0, false, 1));
}

#[test]
fn next_symbol_end_positions() {
    assert_eq!((&b"foo"[..], 4), next_symbol(b" foo.bar", 0));
    assert_eq!((&b"."[..], 5), next_symbol(b" foo.bar", 4));
    assert_eq!((&b""[..], 3), next_symbol(b"// ", 0));
    assert_eq!((&b"a1\xc3\xa9"[..], 4), next_symbol(b"a1\xc3\xa9;", 0));
}

#[test]
fn import_deletion_by_literal_name() {
    let (out, aliases) = remove_imports(
        b"import java.lang.Runnable;\nimport java.util.List;\n",
        &[],
        &names_of(&["Runnable"]),
    );
    assert_eq!(b"import java.util.List;\n", out.as_slice());
    assert_eq!(Some(&b"java.lang.Runnable".to_vec()), aliases.get(b"Runnable"));
    assert!(aliases.get(b"List").is_none());
}

#[test]
fn static_imports_ignore_literal_names() {
    let content = b"import static java.util.*;";
    for name in ["*", "java", "Runnable", "static"] {
        let (out, aliases) = remove_imports(content, &[], &names_of(&[name]));
        assert_eq!(content, out.as_slice());
        assert!(aliases.is_empty());
    }
    let (out, aliases) = remove_imports(
        b"import static java.lang.String.valueOf;",
        &patterns_of(&["java.lang.String"]),
        &NameSet::new(),
    );
    assert_eq!(b"", out.as_slice());
    assert!(aliases.is_empty());
}

#[test]
fn static_import_owner_matches_literal_name() {
    let (out, _) = remove_imports(b"import static java.lang.String.valueOf;\n", &[], &names_of(&["String"]));
    assert_eq!(b"", out.as_slice());
}

#[test]
fn wildcard_import_leaves_no_alias() {
    let (out, aliases) = remove_imports(b"import java.util.*;\nclass A {}", &patterns_of(&["java"]), &NameSet::new());
    assert_eq!(b"class A {}", out.as_slice());
    assert!(aliases.is_empty());
}

#[test]
fn undotted_import_aliases_itself() {
    let (out, aliases) = remove_imports(b"import Bar;", &[], &names_of(&["Bar"]));
    assert_eq!(b"", out.as_slice());
    assert_eq!(Some(&b"Bar".to_vec()), aliases.get(b"Bar"));
}

#[test]
fn malformed_import_leaves_content_unchanged() {
    let content = b"import a.B;\nimport c.D";
    let (out, aliases) = remove_imports(content, &patterns_of(&["."]), &NameSet::new());
    assert_eq!(content, out.as_slice());
    assert!(aliases.is_empty());
}

#[test]
fn import_keeps_blank_lines_between_statements() {
    let (out, _) = remove_imports(b"import a.B;\n\nimport c.D;\n", &[], &names_of(&["B"]));
    assert_eq!(b"\nimport c.D;\n", out.as_slice());
}

#[test]
fn alias_resolves_later_annotations() {
    let params = parameters(&[], &["Bar"], true);
    assert_eq!(b"class A {}", transform(b"import foo.Bar;\n@Bar class A {}", &params).as_slice());
    assert_eq!(b"class A {}", transform(b"import foo.Bar;\n@foo.Bar class A {}", &params).as_slice());

    let by_pattern = parameters(&["^foo[.]Bar$"], &[], true);
    assert_eq!(b"class A {}", transform(b"import foo.Bar;\n@Bar class A {}", &by_pattern).as_slice());
    assert_eq!(
        b"@other.Bar class A {}",
        transform(b"import foo.Bar;\n@other.Bar class A {}", &by_pattern).as_slice()
    );
}

#[test]
fn interface_declarations_are_kept() {
    let params = parameters(&["interface", "Bar", "."], &["interface", "Bar"], true);
    assert_eq!(b"@interface Bar {}", transform(b"import foo.Bar;\n@interface Bar {}", &params).as_slice());
}

#[test]
fn annotations_only_when_configured() {
    let params = parameters(&["Nullable"], &[], false);
    assert_eq!(b"@Nullable Object o;", transform(b"@Nullable Object o;", &params).as_slice());
}

#[test]
fn unterminated_annotation_arguments_are_abandoned() {
    let (span, name) = next_annotation(b"@A(value = 1", 0);
    assert_eq!(b"", span);
    assert_eq!(b"", name.as_slice());
    assert_eq!(
        b"@A(value = 1",
        remove_annotations(b"@A(value = 1", &patterns_of(&["A"]), &NameSet::new(), &AliasMap::new()).as_slice()
    );
}

#[test]
fn varargs_ellipsis_ends_annotation_name() {
    let (span, name) = next_annotation(b"String@A... args", 0);
    assert_eq!(b"@A", span);
    assert_eq!(b"A", name.as_slice());
}

#[test]
fn output_never_grows() {
    let inputs: [&[u8]; 4] = [
        b"import a.B;\n@B\nclass C {}\n",
        b"@A(x = \")\") @B class C {}",
        b"import static a.b.C.d;\nimport e.F;",
        b"",
    ];
    let params = parameters(&["B", "C", "A"], &["F"], true);
    for input in inputs {
        assert!(transform(input, &params).len() <= input.len());
    }
}

#[test]
fn second_pass_changes_nothing() {
    let params = parameters(&["Nullable"], &["Runnable", "Bar"], true);
    let input = b"import java.lang.Runnable;\nimport foo.Bar;\nimport a.C;\n@Bar\n@Nullable class A {}\n";
    let once = transform(input, &params);
    assert_eq!(b"import a.C;\nclass A {}\n", once.as_slice());
    let twice = transform(&once, &params);
    assert_eq!(once, twice);
}

#[test]
fn invalid_pattern_is_an_error() {
    assert!(Pattern::new("(").is_err());
    assert_eq!("a+", Pattern::new("a+").unwrap().as_str());
}

#[test]
fn strict_mode_records_causes() {
    let params = Parameters {
        patterns: patterns_of(&["Nullable", "Never", "valueOf"]),
        names: names_of(&["Runnable", "Unused"]),
        also_remove_annotations: true,
        in_place: true,
        strict_mode: true,
    };
    let mut strict = StrictMode::new(3, 1);
    let out = handle_content(
        b"import java.lang.Runnable;\nimport static a.B.valueOf;\n@Nullable class A {}",
        &params,
        &mut strict,
    );
    assert_eq!(b"class A {}", out.as_slice());
    assert_eq!(vec![true, false, true], strict.patterns_matched);
    assert!(strict.names_matched.contains(b"Runnable"));
    assert!(!strict.names_matched.contains(b"Unused"));
    assert!(strict.any_annotation_removed);
    assert_eq!(vec![false], strict.files_truncated);

    let mut total = StrictMode::new(3, 1);
    total.files_truncated[0] = true;
    total.merge(&strict);
    assert_eq!(vec![true, false, true], total.patterns_matched);
    assert_eq!(vec![true], total.files_truncated);
    assert!(total.names_matched.contains(b"Runnable"));
    assert!(total.any_annotation_removed);
}

#[test]
fn strict_mode_without_annotation_removal() {
    let params = parameters(&["Missing"], &[], true);
    let mut strict = StrictMode::new(1, 0);
    let out = handle_content(b"@Present class A {}", &params, &mut strict);
    assert_eq!(b"@Present class A {}", out.as_slice());
    assert!(!strict.any_annotation_removed);
    assert_eq!(vec![false], strict.patterns_matched);
}

#[test]
fn removal_can_join_a_line_comment() {
    // Deleting the first import joins two slashes into a line comment, which
    // ends the string literal that hid the second import from the first pass.
    let params = parameters(&[], &["A", "C"], false);
    let input = b"/import A;/ \"\nimport C;\n\"";
    let once = transform(input, &params);
    assert_eq!(b"// \"\nimport C;\n\"", once.as_slice());
    let twice = transform(&once, &params);
    assert_eq!(b"// \"\n\"", twice.as_slice());
}
