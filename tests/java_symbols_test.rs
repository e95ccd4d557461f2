use jurand::{
    find_token, ignore_whitespace_comments, next_annotation, next_symbol, remove_annotations,
    remove_imports, AliasMap, NameSet, Pattern,
};

fn patterns(source: &str) -> Vec<Pattern> {
    vec![Pattern::new(source).unwrap()]
}

fn check_annotation(expected_annotation: &str, expected_annotation_name: &str, expression: &str) {
    let (annotation, annotation_name) = next_annotation(expression.as_bytes(), 0);
    assert_eq!(expected_annotation.as_bytes(), annotation);
    assert_eq!(expected_annotation_name.as_bytes(), annotation_name.as_slice());
}

#[test]
fn test_ignore_whitespace_comments() {
    assert_eq!(0, ignore_whitespace_comments(b"a", 0));
    assert_eq!(1, ignore_whitespace_comments(b"ab", 1));
    assert_eq!(0, ignore_whitespace_comments(b"/", 0));
    assert_eq!(0, ignore_whitespace_comments(b"*", 0));
    assert_eq!(2, ignore_whitespace_comments(b"//", 0));
    assert_eq!(4, ignore_whitespace_comments(b"/**/", 0));
    assert_eq!(7, ignore_whitespace_comments(b"/* a */", 0));
    assert_eq!(5, ignore_whitespace_comments(b"/**/ a", 0));
    assert_eq!(4, ignore_whitespace_comments(b"//a\n", 0));
}

#[test]
fn test_next_symbol() {
    assert_eq!(b"", next_symbol(b"", 0).0);
    assert_eq!(b"", next_symbol(b" ", 0).0);
    assert_eq!(b"(", next_symbol(b"(foo", 0).0);
    assert_eq!(b"foo", next_symbol(b"foo", 0).0);
    assert_eq!(b"foo", next_symbol(b" foo ", 0).0);
    assert_eq!(b"foo", next_symbol(b"//\n\nfoo", 0).0);
    assert_eq!(b"foo", next_symbol(b"/* */ foo ", 0).0);
}

#[test]
fn test_find_token() {
    assert_eq!(0, find_token(b"@", "@", 0, false, 0));
    assert_eq!(1, find_token(b" @", "@", 0, false, 0));
    assert_eq!(1, find_token(b"(@)", "@", 0, false, 0));
    assert_eq!(3, find_token(b"//\n@", "@", 0, false, 0));
    assert_eq!(6, find_token(b"/*\n*/\n@", "@", 0, false, 0));

    assert_eq!(3, find_token(b"' '@", "@", 0, false, 0));
    assert_eq!(4, find_token(b"'\''@", "@", 0, false, 0));
    assert_eq!(8, find_token(b"'\\uFFFE'@", "@", 0, false, 0));
    assert_eq!(4, find_token(b"\"//\"@", "@", 0, false, 0));
    assert_eq!(4, find_token(b"\"/*\"@", "@", 0, false, 0));

    assert_eq!(2, find_token(b"())", ")", 0, false, 0));
    assert_eq!(1, find_token(b"()", ")", 1, false, 0));
    assert_eq!(4, find_token(b"(()))", ")", 0, false, 0));
    assert_eq!(3, find_token(b"'\"'@", "@", 0, false, 0));

    assert_eq!(4, find_token(b"// @", "@", 0, false, 0));
    assert_eq!(5, find_token(b"// @\n", "@", 0, false, 0));

    assert_eq!(5, find_token(b"/*@*/", "@", 0, false, 0));
    assert_eq!(7, find_token(b"/* @ */", "@", 0, false, 0));
    assert_eq!(7, find_token(b"/*\n@ */", "@", 0, false, 0));
    assert_eq!(6, find_token(b"// /*@", "@", 0, false, 0));
    assert_eq!(10, find_token(b"/**//*@ */", "@", 0, false, 0));
    assert_eq!(7, find_token(b"/**///@", "@", 0, false, 0));
    assert_eq!(3, find_token(b"'@'", "@", 0, false, 0));

    assert_eq!(8, find_token(b"'\\uFFFE'", "\\u", 0, false, 0));
    assert_eq!(4, find_token(b"'\\''", "\\'", 0, false, 0));
    assert_eq!(3, find_token(b"\"@\"", "@", 0, false, 0));
    assert_eq!(5, find_token(b"\"\"\"@\"", "@", 0, false, 0));
    assert_eq!(6, find_token(b"\"\" \"@\"", "@", 0, false, 0));
    assert_eq!(8, find_token(b"\"\\\\\" \"@\"", "@", 0, false, 0));
    assert_eq!(10, find_token(b"\"\\\\\\\"\" \"@\"", "@", 0, false, 0));

    assert_eq!(2, find_token(b"()", ")", 0, false, 0));
    assert_eq!(4, find_token(b"(())", ")", 0, false, 0));

    assert_eq!(8, find_token(b"noimport", "import", 0, true, 0));
    assert_eq!(7, find_token(b"_import", "import", 0, true, 0));
    assert_eq!(1, find_token(b"/import", "import", 0, true, 0));
    assert_eq!(1, find_token(b"+import", "import", 0, true, 0));

    assert_eq!(9, find_token(b"importnot", "import", 0, true, 0));
    assert_eq!(7, find_token(b"import_", "import", 0, true, 0));
    assert_eq!(0, find_token(b"import/", "import", 0, true, 0));
    assert_eq!(0, find_token(b"import+", "import", 0, true, 0));
}

#[test]
fn test_next_annotation() {
    check_annotation("@A", "A", "@A");
    check_annotation("@A", "A", "@A\n");
    check_annotation("@A()", "A", "@A()");

    check_annotation("@A", "A", "@A class B {}");

    check_annotation("@A(a = ')')", "A", "@A(a = ')')");
    check_annotation("@A(a = ')')", "A", "@A(a = ')') class B {}");

    check_annotation("@A(a = \")\")", "A", "@A(a = \")\")");
    check_annotation("@A(a = \")))\" /*)))*/)", "A", "@A(a = \")))\" /*)))*/) class B {}");
    check_annotation("@A(/* ) */)", "A", "@A(/* ) */)");
    check_annotation("@A", "A", "method(@A Object o)");

    check_annotation("@A(\nvalue = \")\" /* ) */\n// )\n)", "A", "@A(\nvalue = \")\" /* ) */\n// )\n)\n");

    check_annotation("@D", "D", " // @A\n/* @B */\nvalue = \"@C\";\n@D");

    check_annotation("@a.b.C", "a.b.C", "@a.b.C");
    check_annotation("@a/**/.B", "a.B", "@a/**/.B");

    check_annotation("@A(value = /* ) */ \")\")", "A", "@A(value = /* ) */ \")\")//)");
}

#[test]
fn test_remove_imports() {
    let input_content = b"
import java.lang.Runnable;
import java.util.List;
import static java.util.*;
import static java.lang.String.valueOf;
import com.google.common.util.concurrent.Service;
";

    assert_eq!(
        b"
import java.util.List;
import static java.util.*;
import static java.lang.String.valueOf;
import com.google.common.util.concurrent.Service;
",
        remove_imports(input_content, &patterns("Runnable"), &NameSet::new()).0.as_slice()
    );

    assert_eq!(
        b"
import java.lang.Runnable;
import java.util.List;
import static java.lang.String.valueOf;
import com.google.common.util.concurrent.Service;
",
        remove_imports(input_content, &patterns("[*]"), &NameSet::new()).0.as_slice()
    );

    assert_eq!(
        b"
import java.lang.Runnable;
import static java.lang.String.valueOf;
import com.google.common.util.concurrent.Service;
",
        remove_imports(input_content, &patterns("java[.]util"), &NameSet::new()).0.as_slice()
    );

    assert_eq!(
        b"
import java.lang.Runnable;
import static java.lang.String.valueOf;
",
        remove_imports(input_content, &patterns("util"), &NameSet::new()).0.as_slice()
    );

    assert_eq!(
        b"
import com.google.common.util.concurrent.Service;
",
        remove_imports(input_content, &patterns("java"), &NameSet::new()).0.as_slice()
    );

    assert_eq!(
        input_content,
        remove_imports(input_content, &patterns("static"), &NameSet::new()).0.as_slice()
    );

    assert_eq!(b"", remove_imports(b"import A ;", &patterns("A"), &NameSet::new()).0.as_slice());
    assert_eq!(b" ", remove_imports(b"import A ; ", &patterns("A"), &NameSet::new()).0.as_slice());
    assert_eq!(b"", remove_imports(b"import/**/A;", &patterns("A"), &NameSet::new()).0.as_slice());
    assert_eq!(
        b"/**/",
        remove_imports(b"import/**/A/**/;/**/", &patterns("A"), &NameSet::new()).0.as_slice()
    );
    assert_eq!(b"", remove_imports(b"import//\nA;", &patterns("A"), &NameSet::new()).0.as_slice());
    assert_eq!(
        b"",
        remove_imports(b"import A./*B;*/C;", &patterns("A[.]C"), &NameSet::new()).0.as_slice()
    );
    assert_eq!(b"", remove_imports(b"import static A;", &patterns("A"), &NameSet::new()).0.as_slice());
    assert_eq!(
        b"",
        remove_imports(b"import static a . b /**/ . A;", &patterns("A"), &NameSet::new()).0.as_slice()
    );
    assert_eq!(
        b"",
        remove_imports(b"import xstatic .A;", &patterns("static"), &NameSet::new()).0.as_slice()
    );
    assert_eq!(
        b"",
        remove_imports(b"import staticx.A;", &patterns("static"), &NameSet::new()).0.as_slice()
    );
    assert_eq!(
        b"",
        remove_imports(b"import static/**/A;", &patterns("A"), &NameSet::new()).0.as_slice()
    );
    assert_eq!(
        b"",
        remove_imports(b"import/**/static/**/A;", &patterns("A"), &NameSet::new()).0.as_slice()
    );
    assert_eq!(
        b"import/* A */B;",
        remove_imports(b"import/* A */B;", &patterns("A"), &NameSet::new()).0.as_slice()
    );
}

#[test]
fn test_remove_annotations() {
    assert_eq!(
        b"new Object[initialCapacity];",
        remove_annotations(
            b"new @Nullable Object[initialCapacity];",
            &patterns("Nullable"),
            &NameSet::new(),
            &AliasMap::new()
        )
        .as_slice()
    );

    assert_eq!(
        b"//)",
        remove_annotations(
            b"@A(value = /* ) */ \")\")//)",
            &patterns("A"),
            &NameSet::new(),
            &AliasMap::new()
        )
        .as_slice()
    );

    assert_eq!(
        b"\nclass C {}",
        remove_annotations(b"
@A
class C {}", &patterns("A"), &NameSet::new(), &AliasMap::new())
        .as_slice()
    );

    assert_eq!(
        b"\n	class C {}",
        remove_annotations(b"
	@A
	class C {}", &patterns("A"), &NameSet::new(), &AliasMap::new())
        .as_slice()
    );

    assert_eq!(
        b"@a/*A*/.B",
        remove_annotations(b"@a/*A*/.B", &patterns("A"), &NameSet::new(), &AliasMap::new()).as_slice()
    );
    assert_eq!(
        b"",
        remove_annotations(b"@a/*A*/.B", &patterns("B"), &NameSet::new(), &AliasMap::new()).as_slice()
    );
    assert_eq!(
        b"",
        remove_annotations(b"@ A", &patterns("A"), &NameSet::new(), &AliasMap::new()).as_slice()
    );
    assert_eq!(
        b"",
        remove_annotations(b"@//\nA", &patterns("A"), &NameSet::new(), &AliasMap::new()).as_slice()
    );
    assert_eq!(
        b"@A/*(B)*/",
        remove_annotations(b"@A/*(B)*/", &patterns("B"), &NameSet::new(), &AliasMap::new()).as_slice()
    );

    let input_content = b"
@SuppressWarnings
@SuppressFBWarnings(value = {\"EI_EXPOSE_REP\", \"EI_EXPOSE_REP2\"})
@org.junit.Test
@org.junit.jupiter.api.Test
";

    assert_eq!(
        b"
@SuppressFBWarnings(value = {\"EI_EXPOSE_REP\", \"EI_EXPOSE_REP2\"})
@org.junit.Test
@org.junit.jupiter.api.Test
",
        remove_annotations(input_content, &patterns("SuppressWarnings"), &NameSet::new(), &AliasMap::new())
            .as_slice()
    );

    assert_eq!(
        b"
@org.junit.Test
@org.junit.jupiter.api.Test
",
        remove_annotations(input_content, &patterns("Suppress"), &NameSet::new(), &AliasMap::new())
            .as_slice()
    );

    assert_eq!(
        b"
@SuppressWarnings
@SuppressFBWarnings(value = {\"EI_EXPOSE_REP\", \"EI_EXPOSE_REP2\"})
@org.junit.jupiter.api.Test
",
        remove_annotations(input_content, &patterns("org[.]junit[.]Test"), &NameSet::new(), &AliasMap::new())
            .as_slice()
    );

    assert_eq!(
        b"
@SuppressWarnings
@SuppressFBWarnings(value = {\"EI_EXPOSE_REP\", \"EI_EXPOSE_REP2\"})

",
        remove_annotations(input_content, &patterns("Test"), &NameSet::new(), &AliasMap::new())
            .as_slice()
    );
}
