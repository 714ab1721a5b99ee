use code_index::bytes::find_sub;
use code_index::bytes::split_lines;
use code_index::bytes::trim;
use code_index::extract::extract_args;
use code_index::graph::evaluate_all_hard_data;
use code_index::graph::primitive_index;
use code_index::graph::ClassType;
use code_index::graph::ProgramTag;
use code_index::imports::extract_import_targets;
use code_index::imports::extract_imports_c_cpp;
use code_index::imports::extract_imports_java;
use code_index::imports::extract_imports_js_ts;
use code_index::imports::extract_imports_php;
use code_index::imports::extract_imports_python;
use code_index::imports::extract_imports_rust;
use code_index::imports::candidate_path;
use code_index::imports::format_path;
use code_index::imports::read_all_imports;
use code_index::imports::Import;
use code_index::imports::ImportError;
use code_index::lang::get_data_types;
use code_index::lang::get_language;
use code_index::lang::get_regex_class;
use code_index::lang::get_regex_interface;
use code_index::project::jsonify_evaluated_data;
use code_index::project::usize_digits;
use code_index::project::ProjectStore;
use code_index::project::create_project_data;
use code_index::rx::pattern_matches_or_empty;
use code_index::tags::get_all_files;
use code_index::tags::get_all_hard_data;
use code_index::tags::get_tags_data;

#[test]
fn language_is_the_extension() {
    assert_eq!(get_language(b"src/foo.cpp"), Some(b"cpp".to_vec()));
    assert_eq!(get_language(b"foo.c"), Some(b"c".to_vec()));
    assert_eq!(get_language(b"noext"), None);
    assert_eq!(get_language(b"dir.d/noext"), None);
    assert_eq!(get_language(b".hidden"), None);
}

#[test]
fn data_types_registry_is_fixed() {
    let dts = get_data_types(b"a.cpp").expect("cpp is registered");
    assert_eq!(dts.len(), 30);
    assert_eq!(dts[0], "void");
    assert_eq!(dts[10], "int");
    assert_eq!(dts[29], "long double");
    assert!(get_data_types(b"a.xyz").is_none());
    assert_eq!(primitive_index(b"a.c", b"int"), Some(10));
    assert_eq!(primitive_index(b"a.c", b"Foo"), None);
}

#[test]
fn interface_bank_is_not_registered() {
    let (lang, bank) = get_regex_interface(b"a.cpp");
    assert!(lang.is_some());
    assert!(bank.is_none());
    let (lang2, bank2) = get_regex_class(b"a.cpp");
    assert!(lang2.is_some());
    assert_eq!(bank2.unwrap().len(), 1);
}

#[test]
fn malformed_pattern_is_skipped_not_fatal() {
    let hits = pattern_matches_or_empty(r"(", b"(((");
    assert!(hits.is_empty());
}

#[test]
fn pattern_search_really_searches() {
    // a wrapper that handed anything back unchanged could not produce
    // these offsets
    let hits = pattern_matches_or_empty(r"ab+", b"xx abb ab");
    assert_eq!(hits.len(), 2);
    assert_eq!((hits[0].start, hits[0].end), (3, 6));
    assert_eq!((hits[1].start, hits[1].end), (7, 9));
    assert_eq!(hits[0].groups[0], Some((3, 6)));
}

#[test]
fn argument_lists_split_at_rightmost_space() {
    let args = extract_args(b"int a, unsigned long b , Foo *p");
    assert_eq!(
        args,
        vec![
            (b"int".to_vec(), b"a".to_vec()),
            (b"unsigned long".to_vec(), b"b".to_vec()),
            (b"Foo *p".to_vec()[..3].to_vec(), b"*p".to_vec()),
        ]
    );
}

#[test]
fn argument_piece_without_space_is_dropped() {
    let args = extract_args(b"void, int n");
    assert_eq!(args, vec![(b"int".to_vec(), b"n".to_vec())]);
}

#[test]
fn tag_listing_parses_and_skips_comments() {
    let text = b"!comment line\nname\tf.cpp\t/^int name$/;\"\tf\nshort\tbad\n";
    let tags = get_tags_data(text);
    assert_eq!(tags.len(), 1);
    assert_eq!(tags[0].tag_name, b"name");
    assert_eq!(tags[0].file_name, b"f.cpp");
    assert_eq!(tags[0].reg_ex, b"int name");
    assert_eq!(tags[0].tag, b"f");
    assert_eq!(tags[0].context, b"");
}

#[test]
fn file_list_dedups_in_first_occurrence_order() {
    let text = b"a\tB.cpp\t/^aaaaaa$/;\"\tf\nb\tA.cpp\t/^bbbbbb$/;\"\tf\nc\tB.cpp\t/^cccccc$/;\"\tm\n";
    let tags = get_tags_data(text);
    let files = get_all_files(&tags);
    assert_eq!(files, vec![b"B.cpp".to_vec(), b"A.cpp".to_vec()]);
}

#[test]
fn walk_anchors_listed_tags_to_brace_scopes() {
    let listing = b"Foo\tA.cpp\t/^class Foo$/;\"\tc\ngo\tA.cpp\t/^int go()$/;\"\tf\n";
    let tags = get_tags_data(listing);
    let files = get_all_files(&tags);
    let texts = vec![Some(b"class Foo\n{\nint go()\n{\n}\n}\n".to_vec())];
    let hard = get_all_hard_data(&files, &tags, &texts);
    assert_eq!(hard.len(), 1);
    let (scopes, classes, funs, _objs) = &hard[0];
    assert_eq!(scopes.len(), 3);
    assert_eq!(classes.len(), 1);
    assert_eq!(classes[0].name, b"Foo");
    assert_eq!(classes[0].class_scope, 1);
    assert_eq!(funs.len(), 1);
    assert_eq!(funs[0].name, b"go");
    assert_eq!(funs[0].function_scope, 2);
}

#[test]
fn tag_graph_connects_across_imports() {
    let listing =
        b"Foo\tA.cpp\t/^class Foo$/;\"\tc\nbar\tB.cpp\t/^Foo bar$/;\"\tm\n";
    let tags = get_tags_data(listing);
    let files = get_all_files(&tags);
    let texts = vec![
        Some(b"class Foo\n{\n}\n".to_vec()),
        Some(b"Foo bar;\n".to_vec()),
    ];
    let hard = get_all_hard_data(&files, &tags, &texts);
    let raw_imports = vec![vec![], vec![0]];
    let (all_tags, _children) = evaluate_all_hard_data(&files, &hard, &raw_imports);
    assert_eq!(all_tags[0].len(), 1);
    assert_eq!(all_tags[1].len(), 1);
    match &all_tags[1][0] {
        ProgramTag::Object { name, class } => {
            assert_eq!(name, b"bar");
            assert_eq!(class, &ClassType::Connected(0, 0));
        }
        other => panic!("expected an object tag, got {:?}", other),
    }
}

#[test]
fn rust_imports_shed_semicolon() {
    let text = b"mod foo;\nfn main() {}\n";
    assert_eq!(extract_imports_rust(text), vec![b"foo".to_vec()]);
    // the extractor takes the line's second token, so an external-crate
    // declaration yields the keyword itself, as the walk always has
    let line2 = format!("ext{} crate serde;\n", "ern");
    assert_eq!(
        extract_imports_rust(line2.as_bytes()),
        vec![b"crate".to_vec()]
    );
}

#[test]
fn python_imports_keep_target() {
    let text = b"import os\nfrom sys import path\nx = 1\n";
    assert_eq!(
        extract_imports_python(text),
        vec![b"os".to_vec(), b"sys".to_vec()]
    );
}

#[test]
fn js_imports_shed_quotes_and_braces() {
    let text = b"import {a} from 'm'\nimport \"n\"\n";
    assert_eq!(
        extract_imports_js_ts(text),
        vec![b"a".to_vec(), b"n".to_vec()]
    );
}

#[test]
fn java_imports_shed_semicolon() {
    let text = b"import java.util.List;\n";
    assert_eq!(extract_imports_java(text), vec![b"java.util.List".to_vec()]);
}

#[test]
fn c_includes_shed_quotes_and_angles() {
    let text = format!("#inc{} <vector>\n#inc{} \"x.h\"\n", "lude", "lude");
    assert_eq!(
        extract_imports_c_cpp(text.as_bytes()),
        vec![b"vector".to_vec(), b"x.h".to_vec()]
    );
}

#[test]
fn php_imports_shed_quotes_and_semicolon() {
    let text = format!("inc{} 'a.php';\nrequire \"b.php\";\n", "lude");
    assert_eq!(
        extract_imports_php(text.as_bytes()),
        vec![b"a.php".to_vec(), b"b.php".to_vec()]
    );
}

#[test]
fn import_errors_name_their_cause() {
    assert_eq!(
        extract_import_targets(b"noext", b""),
        Err(ImportError::NoExtension)
    );
    assert_eq!(
        extract_import_targets(b"a.xyz", b""),
        Err(ImportError::UnsupportedLanguage)
    );
    assert!(extract_import_targets(b"a.c", b"").is_ok());
    // the third cause is the caller's: a file that cannot be read
    assert_ne!(ImportError::FileUnreadable, ImportError::NoExtension);
}

#[test]
fn candidate_paths_join_on_parent_dir() {
    assert_eq!(candidate_path(b"src/a/b.cpp", b"x.h"), b"src/a/x.h".to_vec());
    assert_eq!(candidate_path(b"b.cpp", b"x.h"), b"x.h".to_vec());
}

#[test]
fn verbatim_prefix_is_shed() {
    assert_eq!(format_path(b"\\\\?\\C:/a", ), b"C:/a".to_vec());
    assert_eq!(format_path(b"/plain"), b"/plain".to_vec());
}

#[test]
fn import_graph_maps_targets_to_indices() {
    let files = vec![b"A.cpp".to_vec(), b"B.cpp".to_vec()];
    let resolved = vec![
        vec![Import::Package(b"vector".to_vec())],
        vec![Import::File(b"A.cpp".to_vec())],
    ];
    let graph = read_all_imports(&files, &resolved);
    assert_eq!(graph, vec![vec![], vec![0]]);
}

#[test]
fn digits_render_decimal() {
    assert_eq!(usize_digits(0), b"0".to_vec());
    assert_eq!(usize_digits(7), b"7".to_vec());
    assert_eq!(usize_digits(12345), b"12345".to_vec());
}

#[test]
fn jsonify_keys_are_decimal_indices() {
    let raw_imports = vec![vec![1usize], vec![]];
    let all_tags: Vec<Vec<ProgramTag>> = vec![vec![], vec![]];
    let children = vec![((0usize, 3usize), vec![(0usize, 4usize)])];
    let (imp, tags, kids) = jsonify_evaluated_data(&raw_imports, &all_tags, &children);
    assert_eq!(imp[0].0, b"0".to_vec());
    assert_eq!(imp[0].1, vec![b"1".to_vec()]);
    assert_eq!(imp[1].0, b"1".to_vec());
    assert_eq!(tags.len(), 2);
    assert_eq!(kids[0].0, b"[0,3]".to_vec());
    assert_eq!(kids[0].1, vec![(b"0".to_vec(), b"4".to_vec())]);
}

#[test]
fn repository_holds_one_whole_snapshot() {
    let mut store = ProjectStore::new();
    assert!(store.get_project_data().is_none());
    let listing = b"x\tA.cpp\t/^int x =$/;\"\tm\n";
    let tags = get_tags_data(listing);
    let files = get_all_files(&tags);
    let texts = vec![Some(b"int x = 5;".to_vec())];
    let resolved: Vec<Vec<Import>> = vec![vec![]];
    let data = create_project_data(tags, files, &texts, &resolved);
    assert_eq!(data.all_files, vec![b"A.cpp".to_vec()]);
    assert_eq!(data.all_tags[0].len(), 1);
    store.set_project_data(data);
    assert!(store.get_project_data().is_some());
    store.clear_project_data();
    assert!(store.get_project_data().is_none());
}

#[test]
fn byte_helpers_match_their_contracts() {
    assert_eq!(trim(b"  a b \t"), b"a b".to_vec());
    assert_eq!(find_sub(b"hello", b"ll"), Some(2));
    assert_eq!(find_sub(b"hello", b"zz"), None);
    let lines = split_lines(b"a\r\nb\nc");
    assert_eq!(lines, vec![b"a".to_vec(), b"b".to_vec(), b"c".to_vec()]);
}

#[test]
fn walk_force_closes_every_open_scope_at_eof() {
    let listing = b"Foo\tA.cpp\t/^class Foo$/;\"\tc\n";
    let tags = get_tags_data(listing);
    let files = get_all_files(&tags);
    // two scopes opened, neither closed: both end at the final line
    let texts = vec![Some(b"class Foo\n{\n{\n".to_vec())];
    let hard = get_all_hard_data(&files, &tags, &texts);
    let (scopes, _classes, _funs, _objs) = &hard[0];
    assert_eq!(scopes.len(), 3);
    for s in scopes.iter() {
        assert_eq!(s.end_line, 3);
        assert_eq!(s.end_col, u128::MAX);
    }
}

#[test]
fn put_class_data_connects_by_slot_and_first_offer() {
    let mut class_tag = ProgramTag::Class {
        name: b"Foo".to_vec(),
        parents: vec![
            ClassType::Undiscovered(b"A".to_vec()),
            ClassType::Undiscovered(b"B".to_vec()),
        ],
    };
    // two connections to slot 1: the later one wins; slot 9 is ignored
    class_tag.put_class_data(&vec![(1, 3, 4), (1, 5, 6), (9, 7, 8)]);
    match &class_tag {
        ProgramTag::Class { parents, .. } => {
            assert_eq!(parents[0], ClassType::Undiscovered(b"A".to_vec()));
            assert_eq!(parents[1], ClassType::Connected(5, 6));
        }
        other => panic!("still a class tag, got {:?}", other),
    }
    let mut fun_tag = ProgramTag::Function {
        name: b"go".to_vec(),
        class: ClassType::Undiscovered(b"A".to_vec()),
    };
    // a function takes the first recorded connection
    fun_tag.put_class_data(&vec![(0, 1, 2), (0, 3, 4)]);
    match &fun_tag {
        ProgramTag::Function { class, .. } => {
            assert_eq!(class, &ClassType::Connected(1, 2));
        }
        other => panic!("still a function tag, got {:?}", other),
    }
}

#[test]
fn store_returns_the_snapshot_it_holds() {
    let mut store = ProjectStore::new();
    let listing = b"x\tA.cpp\t/^int x =$/;\"\tm\n";
    let tags = get_tags_data(listing);
    let files = get_all_files(&tags);
    let texts = vec![Some(b"int x = 5;".to_vec())];
    let resolved: Vec<Vec<Import>> = vec![vec![]];
    let data = create_project_data(tags, files, &texts, &resolved);
    let files_before = data.all_files.clone();
    store.set_project_data(data);
    let held = store.get_project_data().expect("snapshot is held");
    assert_eq!(held.all_files, files_before);
}
