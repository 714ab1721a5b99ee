use code_index::extract::CodeElementPointer;
use code_index::extract::StatefulClassConnection;
use code_index::graph::evaluate;
use code_index::imports::resolve_import_paths;
use code_index::imports::Import;
use code_index::scopes::build_scope_tree;
use code_index::scopes::ScopeKind;

fn one_file(name: &str, text: &str) -> (Vec<Vec<u8>>, Vec<Option<Vec<u8>>>, Vec<Vec<usize>>) {
    (
        vec![name.as_bytes().to_vec()],
        vec![Some(text.as_bytes().to_vec())],
        vec![vec![]],
    )
}

#[test]
fn balanced_text_one_scope_per_opener() {
    // matched {}()[] only: one scope per opener plus the root, none
    // force-closed at the end of the text
    let text = b"a{b(c)[d]}";
    let (scopes, dangling) = build_scope_tree(text);
    assert_eq!(scopes.len(), 4);
    assert!(dangling.is_empty());
    for s in scopes.iter().skip(1) {
        assert!(s.end < text.len());
        let b = text[s.end];
        assert!(b == b')' || b == b'}' || b == b']');
    }
    assert_eq!(scopes[0].kind, ScopeKind::Root);
    assert_eq!(scopes[1].start, 1);
    assert_eq!(scopes[1].end, 9);
    assert_eq!(scopes[2].start, 3);
    assert_eq!(scopes[2].end, 5);
    assert_eq!(scopes[3].start, 6);
    assert_eq!(scopes[3].end, 8);
}

#[test]
fn nesting_strict_inside_parent() {
    // every non-root scope starts after its parent and ends no later
    let text = b"x{a(b)[c{d}]}y(z)";
    let (scopes, _) = build_scope_tree(text);
    for (i, s) in scopes.iter().enumerate().skip(1) {
        let p = &scopes[s.parent];
        assert!(s.start > p.start, "scope {} start", i);
        assert!(s.end <= p.end, "scope {} end", i);
    }
}

#[test]
fn dangling_closer_is_reported_and_walk_goes_on() {
    // one extra unmatched closer: logged, not an abort; the remainder
    // still yields correct scopes
    let text = b"{ } } { }";
    let (scopes, dangling) = build_scope_tree(text);
    assert_eq!(dangling, vec![4]);
    assert_eq!(scopes.len(), 3);
    assert_eq!((scopes[1].start, scopes[1].end), (0, 2));
    assert_eq!((scopes[2].start, scopes[2].end), (6, 8));
}

#[test]
fn unclosed_scope_force_closed_at_eof() {
    let text = b"{ (";
    let (scopes, dangling) = build_scope_tree(text);
    assert!(dangling.is_empty());
    assert_eq!(scopes.len(), 3);
    assert_eq!(scopes[1].end, text.len());
    assert_eq!(scopes[2].end, text.len());
}

#[test]
fn primitive_object_resolves_to_data_type() {
    // `int x = 5;` in a .cpp file: Object x's type becomes the
    // primitive `int`, independent of any import
    let (files, texts, imports) = one_file("a.cpp", "int x = 5;");
    let (_facts, avail) = evaluate(&files, &texts, &imports);
    let root_table = &avail.scoped_connectables[0][0];
    let entry = root_table
        .iter()
        .find(|(n, _)| n == b"x")
        .expect("object x is in the root scope table");
    match &entry.1 {
        StatefulClassConnection::DataType(i, n) => {
            assert_eq!(*i, 10); // position of `int` in the registry
            assert_eq!(n, b"int");
        }
        other => panic!("x should resolve to a primitive, got {:?}", other),
    }
}

#[test]
fn cross_file_class_resolves_to_definition() {
    // file A declares `class Foo {};`; file B imports A and declares
    // `Foo bar;` at file scope: bar resolves to (A, Foo)
    let files = vec![b"A.cpp".to_vec(), b"B.cpp".to_vec()];
    let texts = vec![
        Some(b"class Foo {};".to_vec()),
        Some(b"Foo bar;".to_vec()),
    ];
    let imports = vec![vec![], vec![0]];
    let (_facts, avail) = evaluate(&files, &texts, &imports);
    let b_root = &avail.scoped_connectables[1][0];
    let entry = b_root
        .iter()
        .find(|(n, _)| n == b"bar")
        .expect("object bar is in B's root scope table");
    match &entry.1 {
        StatefulClassConnection::Connected(f, t, n) => {
            assert_eq!(*f, 0);
            assert_eq!(*t, 0);
            assert_eq!(n, b"Foo");
        }
        other => panic!("bar should resolve to A's Foo, got {:?}", other),
    }
    assert_eq!(avail.custom_classes[0], vec![(b"Foo".to_vec(), 1usize)]);
}

#[test]
fn unreachable_type_stays_unresolved() {
    // `class Bar { Baz b; };` with no reachable Baz: b's type stays
    // unresolved and is reported, not dropped
    let (files, texts, imports) = one_file("a.cpp", "class Bar { Baz b; };");
    let (_facts, avail) = evaluate(&files, &texts, &imports);
    let mut found = false;
    for table in &avail.scoped_connectables[0] {
        for (n, conn) in table {
            if n == b"b" {
                found = true;
                assert_eq!(
                    conn,
                    &StatefulClassConnection::Undiscovered(b"Baz".to_vec())
                );
            }
        }
    }
    assert!(found, "the unresolved reference is reported");
}

#[test]
fn sibling_import_wins_over_project_root() {
    // a relative import existing both beside the importing file and at
    // the project root resolves to the sibling path
    let r = resolve_import_paths(
        b"x.h",
        Some(b"src/x.h".to_vec()),
        Some(b"root/x.h".to_vec()),
    );
    assert_eq!(r, Import::File(b"src/x.h".to_vec()));
}

#[test]
fn missing_import_stays_opaque_package() {
    let r = resolve_import_paths(b"vector", None, None);
    assert_eq!(r, Import::Package(b"vector".to_vec()));
}

#[test]
fn project_root_import_used_when_no_sibling() {
    let r = resolve_import_paths(b"x.h", None, Some(b"root/x.h".to_vec()));
    assert_eq!(r, Import::File(b"root/x.h".to_vec()));
}

#[test]
fn rebuild_on_unchanged_input_is_byte_identical() {
    // the full pipeline twice on an unchanged file set: identical scope
    // trees, tag tables and import graphs
    let files = vec![b"A.cpp".to_vec(), b"B.cpp".to_vec()];
    let texts = vec![
        Some(b"class Foo { int go() { return 1; } };".to_vec()),
        Some(b"Foo bar;\nint n = 2;".to_vec()),
    ];
    let imports = vec![vec![], vec![0]];
    let (facts1, avail1) = evaluate(&files, &texts, &imports);
    let (facts2, avail2) = evaluate(&files, &texts, &imports);
    assert_eq!(facts1, facts2);
    assert_eq!(avail1.custom_classes, avail2.custom_classes);
    assert_eq!(avail1.accessible_scopes, avail2.accessible_scopes);
    assert_eq!(avail1.scoped_connectables, avail2.scoped_connectables);
}

#[test]
fn class_extraction_finds_name_and_parents() {
    let (files, texts, imports) = one_file("a.cpp", "class Foo : public Base {};");
    let (facts, _avail) = evaluate(&files, &texts, &imports);
    let classes = &facts[0].classes;
    assert_eq!(classes.len(), 1);
    assert_eq!(classes[0].name, b"Foo");
    assert_eq!(
        classes[0].parents,
        vec![(b"public".to_vec(), b"Base".to_vec())]
    );
}

#[test]
fn function_extraction_splits_type_name_args() {
    let (files, texts, imports) = one_file("a.cpp", "int add2(int a, int b) { return 0; }");
    let (facts, _avail) = evaluate(&files, &texts, &imports);
    let funs = &facts[0].functions;
    assert!(!funs.is_empty());
    let f = &funs[0];
    assert_eq!(f.name, b"add2");
    assert_eq!(f.ret_type, b"int");
    assert_eq!(f.args.len(), 2);
    assert_eq!(f.args[0].1, b"a");
    assert_eq!(f.args[1].1, b"b");
}

#[test]
fn unregistered_language_yields_nothing() {
    let files = vec![b"a.xyz".to_vec()];
    let texts = vec![Some(b"class Foo {};".to_vec())];
    let imports = vec![vec![]];
    let (facts, avail) = evaluate(&files, &texts, &imports);
    assert!(facts[0].scopes.is_empty());
    assert!(avail.scoped_connectables[0].is_empty());
}

#[test]
fn scope_content_is_text_between_delimiters() {
    let (scopes, _) = build_scope_tree(b"foo(a);");
    assert_eq!(scopes.len(), 2);
    assert_eq!(scopes[1].content, b"a".to_vec());
    // the whole-file scope keeps the bytes after its first offset
    assert_eq!(scopes[0].content, b"oo(a);".to_vec());
}

#[test]
fn assignment_spans_carry_absolute_offsets() {
    let (files, texts, imports) = one_file("a.cpp", "int x = 5;");
    let (facts, _) = evaluate(&files, &texts, &imports);
    let eqs = &facts[0].equations;
    assert!(!eqs.is_empty());
    assert_eq!(eqs[0].lhs, (4, b"x ".to_vec()));
    assert_eq!(eqs[0].rhs, (8, b"5".to_vec()));
}

#[test]
fn call_sites_capture_their_argument_scope() {
    let (files, texts, imports) = one_file("a.cpp", "foo(a);\nbar.baz(b);");
    let (facts, _) = evaluate(&files, &texts, &imports);
    let calls = &facts[0].calls;
    assert_eq!(calls.len(), 2);
    assert_eq!(calls[0].name, b"foo");
    assert_eq!(calls[0].start, 0);
    assert_eq!(
        calls[0].vars,
        vec![CodeElementPointer::Ambiguous(0, 4, b"a".to_vec())]
    );
}

#[test]
fn access_chain_walks_names_and_calls() {
    let (files, texts, imports) = one_file("a.cpp", "foo(a);\nbar.baz(b);");
    let (facts, _) = evaluate(&files, &texts, &imports);
    let accesses = &facts[0].accesses;
    assert_eq!(accesses.len(), 1);
    let a = &accesses[0];
    assert_eq!(a.start, 8);
    assert_eq!(a.end, 18);
    assert_eq!(a.route.len(), 2);
    assert_eq!(a.route[0], CodeElementPointer::Object(0, b"bar".to_vec()));
    assert_eq!(a.route[1], CodeElementPointer::FuncCall(0, 1));
}

#[test]
fn lambda_captures_and_parameters_are_argument_lists() {
    let (files, texts, imports) = one_file("a.cpp", "[int x](int y) { }");
    let (facts, _) = evaluate(&files, &texts, &imports);
    let lams = &facts[0].lambdas;
    assert_eq!(lams.len(), 1);
    assert_eq!(lams[0].imports.len(), 1);
    assert_eq!(lams[0].imports[0].1, b"x");
    assert_eq!(lams[0].args.len(), 1);
    assert_eq!(lams[0].args[0].1, b"y");
}

#[test]
fn visibility_keyword_objects_are_false_positives() {
    let (files, texts, imports) = one_file("a.cpp", "public x = 1;\nint y = 2;");
    let (facts, _) = evaluate(&files, &texts, &imports);
    let objs = &facts[0].objects;
    assert!(objs.iter().all(|o| o.type_str != b"public".to_vec()));
    assert!(objs.iter().any(|o| o.name == b"y".to_vec()));
}
