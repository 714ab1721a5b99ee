//! Language profile registry.
//!
//! A static per-extension pattern bank: one ordered list of patterns per
//! entity kind, plus the list of built-in primitive type names.  Adding a
//! language means extending these tables; they are configuration, not
//! per-codebase logic.

use vstd::prelude::*;

use crate::bytes::bytes_eq;
use crate::bytes::rfind_byte;
use crate::bytes::spec_rfind_byte;
use vstd::string::StringSliceAdditionalSpecFns;

verus! {

/// The language of a file: the bytes of its extension, the part of the
/// file name after the last dot (provided the dot is inside the final
/// path component and not its first byte).
pub open spec fn spec_get_language(path: Seq<u8>) -> Option<Seq<u8>> {
    let comp = match spec_rfind_byte(path, 47, path.len() as int) {
        Some(k) => k + 1,
        None => 0,
    };
    match spec_rfind_byte(path, 46, path.len() as int) {
        Some(d) => if d > comp {
            Some(path.subrange(d + 1, path.len() as int))
        } else {
            None
        },
        None => None,
    }
}

/// Extension of a file path, as `spec_get_language` describes it.
pub fn get_language(file_path: &[u8]) -> (r: Option<Vec<u8>>)
    ensures
        match r {
            Some(e) => spec_get_language(file_path@) == Some(e@),
            None => spec_get_language(file_path@) is None,
        },
{
    let comp = match rfind_byte(file_path, 47, file_path.len()) {
        Some(k) => k + 1,
        None => 0,
    };
    match rfind_byte(file_path, 46, file_path.len()) {
        Some(d) => {
            if d > comp {
                Some(crate::bytes::copy_range(file_path, d + 1, file_path.len()))
            } else {
                None
            }
        },
        None => None,
    }
}

/// Language family of a file: `1` for C, `2` for the C++ extension
/// family, `0` for anything else.
pub open spec fn spec_family(path: Seq<u8>) -> int {
    match spec_get_language(path) {
        Some(e) => {
            if e == "c".spec_bytes() {
                1
            } else if e == "cpp".spec_bytes() || e == "cc".spec_bytes() || e == "cxx".spec_bytes()
                || e == "h".spec_bytes() || e == "hpp".spec_bytes() {
                2
            } else {
                0
            }
        },
        None => 0,
    }
}

pub fn family_of(file_path: &[u8]) -> (r: u8)
    ensures
        r as int == spec_family(file_path@),
{
    match get_language(file_path) {
        Some(e) => {
            if bytes_eq(e.as_slice(), "c".as_bytes()) {
                1
            } else if bytes_eq(e.as_slice(), "cpp".as_bytes()) || bytes_eq(
                e.as_slice(),
                "cc".as_bytes(),
            ) || bytes_eq(e.as_slice(), "cxx".as_bytes()) || bytes_eq(
                e.as_slice(),
                "h".as_bytes(),
            ) || bytes_eq(e.as_slice(), "hpp".as_bytes()) {
                2
            } else {
                0
            }
        },
        None => 0,
    }
}

/// The primitive type names of the C and C++ profiles (the two lists are
/// identical), in registry order.
pub open spec fn spec_data_types() -> Seq<Seq<char>> {
    seq![
        "void"@,
        "char"@,
        "signed char"@,
        "unsigned char"@,
        "short"@,
        "short int"@,
        "signed short"@,
        "signed short int"@,
        "unsigned short"@,
        "unsigned short int"@,
        "int"@,
        "signed"@,
        "signed int"@,
        "unsigned"@,
        "unsigned int"@,
        "long"@,
        "long int"@,
        "signed long"@,
        "signed long int"@,
        "unsigned long"@,
        "unsigned long int"@,
        "long long"@,
        "long long int"@,
        "signed long long"@,
        "signed long long int"@,
        "unsigned long long"@,
        "unsigned long long int"@,
        "float"@,
        "double"@,
        "long double"@,
    ]
}

fn data_types_list() -> (r: Vec<&'static str>)
    ensures
        r.deep_view() == spec_data_types(),
{
    let mut v: Vec<&'static str> = Vec::new();
    v.push("void");
    v.push("char");
    v.push("signed char");
    v.push("unsigned char");
    v.push("short");
    v.push("short int");
    v.push("signed short");
    v.push("signed short int");
    v.push("unsigned short");
    v.push("unsigned short int");
    v.push("int");
    v.push("signed");
    v.push("signed int");
    v.push("unsigned");
    v.push("unsigned int");
    v.push("long");
    v.push("long int");
    v.push("signed long");
    v.push("signed long int");
    v.push("unsigned long");
    v.push("unsigned long int");
    v.push("long long");
    v.push("long long int");
    v.push("signed long long");
    v.push("signed long long int");
    v.push("unsigned long long");
    v.push("unsigned long long int");
    v.push("float");
    v.push("double");
    v.push("long double");
    proof {
        assert(v.deep_view() =~= spec_data_types());
    }
    v
}

/// The primitive type names of a file's language, when the language is
/// in the registry.
pub fn get_data_types(file_path: &[u8]) -> (r: Option<Vec<&'static str>>)
    ensures
        r is Some <==> spec_family(file_path@) != 0,
        r is Some ==> r->Some_0.deep_view() == spec_data_types(),
{
    let fam = family_of(file_path);
    if fam == 1 || fam == 2 {
        Some(data_types_list())
    } else {
        None
    }
}

/// The extension as the registry reports it beside each pattern list:
/// present exactly for the recognised extensions.
fn lang_tag(file_path: &[u8]) -> (r: Option<Vec<u8>>)
    ensures
        r is Some <==> spec_family(file_path@) != 0,
        r is Some ==> spec_get_language(file_path@) == Some(r->Some_0@),
{
    let fam = family_of(file_path);
    if fam == 1 || fam == 2 {
        get_language(file_path)
    } else {
        None
    }
}

/// Class declarations: `class Name { … }` with an optional `: parents`
/// list captured in group 1.
pub open spec fn spec_class_patterns() -> Seq<Seq<char>> {
    seq![r"class\s+[a-zA-Z_][a-zA-Z0-9_]*(?:\s*:\s*([\w\s,]+))?\s*\{"@]
}

pub fn get_regex_class(file_path: &[u8]) -> (r: (Option<Vec<u8>>, Option<Vec<&'static str>>))
    ensures
        r.1 is Some <==> spec_family(file_path@) != 0,
        r.1 is Some ==> r.1->Some_0.deep_view() == spec_class_patterns(),
        r.0 is Some <==> spec_family(file_path@) != 0,
{
    let tag = lang_tag(file_path);
    if tag.is_some() {
        let mut v: Vec<&'static str> = Vec::new();
        v.push(r"class\s+[a-zA-Z_][a-zA-Z0-9_]*(?:\s*:\s*([\w\s,]+))?\s*\{");
        proof {
            assert(v.deep_view() =~= spec_class_patterns());
        }
        (tag, Some(v))
    } else {
        (None, None)
    }
}

/// Function definitions: `<type> <name>(<args>) {`, with a trailing
/// `const`/`const override` tolerated for the C++ family.
pub open spec fn spec_fun_patterns(family: int) -> Seq<Seq<char>> {
    if family == 1 {
        seq![r"(\w[\w\s\*&:<>]*)\s+(\w+)\s*\([^)(]*\)\s*\{"@]
    } else {
        seq![r"(\w[\w\s\*&:<>]*)\s+(\w+)\s*\([^)(]*\)\s*(const override|const|)\s*\{"@]
    }
}

pub fn get_regex_fun(file_path: &[u8]) -> (r: (Option<Vec<u8>>, Option<Vec<&'static str>>))
    ensures
        r.1 is Some <==> spec_family(file_path@) != 0,
        r.1 is Some ==> r.1->Some_0.deep_view() == spec_fun_patterns(spec_family(file_path@)),
        r.0 is Some <==> spec_family(file_path@) != 0,
{
    let tag = lang_tag(file_path);
    let fam = family_of(file_path);
    if fam == 1 {
        let mut v: Vec<&'static str> = Vec::new();
        v.push(r"(\w[\w\s\*&:<>]*)\s+(\w+)\s*\([^)(]*\)\s*\{");
        proof {
            assert(v.deep_view() =~= spec_fun_patterns(1));
        }
        (tag, Some(v))
    } else if fam == 2 {
        let mut v: Vec<&'static str> = Vec::new();
        v.push(r"(\w[\w\s\*&:<>]*)\s+(\w+)\s*\([^)(]*\)\s*(const override|const|)\s*\{");
        proof {
            assert(v.deep_view() =~= spec_fun_patterns(2));
        }
        (tag, Some(v))
    } else {
        (None, None)
    }
}

/// Object declarations: a typed name followed by `=`, `,`, `;` or `)`.
pub open spec fn spec_object_patterns(family: int) -> Seq<Seq<char>> {
    if family == 1 {
        seq![r"(\w[\w\s\*&:<>]*)\s+(\w+)\s*=.*;"@]
    } else {
        seq![r"([a-zA-Z_][a-zA-Z0-9_]*\s+)+[a-zA-Z_][a-zA-Z0-9_]*\s*(,|=|;|\))"@]
    }
}

pub fn get_regex_object(file_path: &[u8]) -> (r: (Option<Vec<u8>>, Option<Vec<&'static str>>))
    ensures
        r.1 is Some <==> spec_family(file_path@) != 0,
        r.1 is Some ==> r.1->Some_0.deep_view() == spec_object_patterns(spec_family(file_path@)),
        r.0 is Some <==> spec_family(file_path@) != 0,
{
    let tag = lang_tag(file_path);
    let fam = family_of(file_path);
    if fam == 1 {
        let mut v: Vec<&'static str> = Vec::new();
        v.push(r"(\w[\w\s\*&:<>]*)\s+(\w+)\s*=.*;");
        proof {
            assert(v.deep_view() =~= spec_object_patterns(1));
        }
        (tag, Some(v))
    } else if fam == 2 {
        let mut v: Vec<&'static str> = Vec::new();
        v.push(r"([a-zA-Z_][a-zA-Z0-9_]*\s+)+[a-zA-Z_][a-zA-Z0-9_]*\s*(,|=|;|\))");
        proof {
            assert(v.deep_view() =~= spec_object_patterns(2));
        }
        (tag, Some(v))
    } else {
        (None, None)
    }
}

/// Assignments: a simple `name = …;` form, then a member-access chain on
/// both sides of the `=`.
pub open spec fn spec_assignment_patterns() -> Seq<Seq<char>> {
    seq![
        r"(\w+)\s*=\s*.*;"@,
        r"([a-zA-Z_][a-zA-Z0-9_]*\([^)(]*\)|[a-zA-Z_][a-zA-Z0-9_]*)\s*(\s*\.\s*([a-zA-Z_][a-zA-Z0-9_]*\([^)(]*\)|[a-zA-Z_][a-zA-Z0-9_]*)|->\s*([a-zA-Z_][a-zA-Z0-9_]*\([^)(]*\)|[a-zA-Z_][a-zA-Z0-9_]*)\s*)+\s*=\s*([a-zA-Z_][a-zA-Z0-9_]*\([^)(]*\)|[a-zA-Z_][a-zA-Z0-9_]*)\s*(\s*\.\s*([a-zA-Z_][a-zA-Z0-9_]*\([^)(]*\)|[a-zA-Z_][a-zA-Z0-9_]*)|->\s*([a-zA-Z_][a-zA-Z0-9_]*\([^)(]*\)|[a-zA-Z_][a-zA-Z0-9_]*)\s*)+\s*;"@,
    ]
}

pub fn get_regex_assignments(file_path: &[u8]) -> (r: (Option<Vec<u8>>, Option<Vec<&'static str>>))
    ensures
        r.1 is Some <==> spec_family(file_path@) != 0,
        r.1 is Some ==> r.1->Some_0.deep_view() == spec_assignment_patterns(),
        r.0 is Some <==> spec_family(file_path@) != 0,
{
    let tag = lang_tag(file_path);
    if tag.is_some() {
        let mut v: Vec<&'static str> = Vec::new();
        v.push(r"(\w+)\s*=\s*.*;");
        v.push(
            r"([a-zA-Z_][a-zA-Z0-9_]*\([^)(]*\)|[a-zA-Z_][a-zA-Z0-9_]*)\s*(\s*\.\s*([a-zA-Z_][a-zA-Z0-9_]*\([^)(]*\)|[a-zA-Z_][a-zA-Z0-9_]*)|->\s*([a-zA-Z_][a-zA-Z0-9_]*\([^)(]*\)|[a-zA-Z_][a-zA-Z0-9_]*)\s*)+\s*=\s*([a-zA-Z_][a-zA-Z0-9_]*\([^)(]*\)|[a-zA-Z_][a-zA-Z0-9_]*)\s*(\s*\.\s*([a-zA-Z_][a-zA-Z0-9_]*\([^)(]*\)|[a-zA-Z_][a-zA-Z0-9_]*)|->\s*([a-zA-Z_][a-zA-Z0-9_]*\([^)(]*\)|[a-zA-Z_][a-zA-Z0-9_]*)\s*)+\s*;",
        );
        proof {
            assert(v.deep_view() =~= spec_assignment_patterns());
        }
        (tag, Some(v))
    } else {
        (None, None)
    }
}

/// Call sites: an identifier directly followed by an opening parenthesis.
pub open spec fn spec_function_call_patterns() -> Seq<Seq<char>> {
    seq![r"[a-zA-Z_][a-zA-Z0-9_]*\s*\("@]
}

pub fn get_regex_function_call(file_path: &[u8]) -> (r: (
    Option<Vec<u8>>,
    Option<Vec<&'static str>>,
))
    ensures
        r.1 is Some <==> spec_family(file_path@) != 0,
        r.1 is Some ==> r.1->Some_0.deep_view() == spec_function_call_patterns(),
        r.0 is Some <==> spec_family(file_path@) != 0,
{
    let tag = lang_tag(file_path);
    if tag.is_some() {
        let mut v: Vec<&'static str> = Vec::new();
        v.push(r"[a-zA-Z_][a-zA-Z0-9_]*\s*\(");
        proof {
            assert(v.deep_view() =~= spec_function_call_patterns());
        }
        (tag, Some(v))
    } else {
        (None, None)
    }
}

/// Member-access chains: a call or name followed by `.` or `->` steps.
pub open spec fn spec_access_child_patterns() -> Seq<Seq<char>> {
    seq![
        r"([a-zA-Z_][a-zA-Z0-9_]*\([^)(]*\)|[a-zA-Z_][a-zA-Z0-9_]*)\s*(\s*\.\s*([a-zA-Z_][a-zA-Z0-9_]*\([^)(]*\)|[a-zA-Z_][a-zA-Z0-9_]*)|->\s*([a-zA-Z_][a-zA-Z0-9_]*\([^)(]*\)|[a-zA-Z_][a-zA-Z0-9_]*)\s*)+"@,
    ]
}

pub fn get_regex_access_child(file_path: &[u8]) -> (r: (
    Option<Vec<u8>>,
    Option<Vec<&'static str>>,
))
    ensures
        r.1 is Some <==> spec_family(file_path@) != 0,
        r.1 is Some ==> r.1->Some_0.deep_view() == spec_access_child_patterns(),
        r.0 is Some <==> spec_family(file_path@) != 0,
{
    let tag = lang_tag(file_path);
    if tag.is_some() {
        let mut v: Vec<&'static str> = Vec::new();
        v.push(
            r"([a-zA-Z_][a-zA-Z0-9_]*\([^)(]*\)|[a-zA-Z_][a-zA-Z0-9_]*)\s*(\s*\.\s*([a-zA-Z_][a-zA-Z0-9_]*\([^)(]*\)|[a-zA-Z_][a-zA-Z0-9_]*)|->\s*([a-zA-Z_][a-zA-Z0-9_]*\([^)(]*\)|[a-zA-Z_][a-zA-Z0-9_]*)\s*)+",
        );
        proof {
            assert(v.deep_view() =~= spec_access_child_patterns());
        }
        (tag, Some(v))
    } else {
        (None, None)
    }
}

/// Lambdas: a bracketed capture list, a parenthesised parameter list and
/// an opening brace.
pub open spec fn spec_lambda_patterns() -> Seq<Seq<char>> {
    seq![
        r"\[(|(\&*\**\s*([a-zA-Z_][a-zA-Z0-9_]*\s+)+[a-zA-Z_][a-zA-Z0-9_]*)(\s*,\s*(\&*\**\s*([a-zA-Z_][a-zA-Z0-9_]*\s+)+[a-zA-Z_][a-zA-Z0-9_]*))*)\]\((|(\&*\**\s*([a-zA-Z_][a-zA-Z0-9_]*\s+)+[a-zA-Z_][a-zA-Z0-9_]*)(\s*,\s*(\&*\**\s*([a-zA-Z_][a-zA-Z0-9_]*\s+)+[a-zA-Z_][a-zA-Z0-9_]*))*)\)\s*\{"@,
    ]
}

pub fn get_regex_lambda(file_path: &[u8]) -> (r: (Option<Vec<u8>>, Option<Vec<&'static str>>))
    ensures
        r.1 is Some <==> spec_family(file_path@) != 0,
        r.1 is Some ==> r.1->Some_0.deep_view() == spec_lambda_patterns(),
        r.0 is Some <==> spec_family(file_path@) != 0,
{
    let tag = lang_tag(file_path);
    if tag.is_some() {
        let mut v: Vec<&'static str> = Vec::new();
        v.push(
            r"\[(|(\&*\**\s*([a-zA-Z_][a-zA-Z0-9_]*\s+)+[a-zA-Z_][a-zA-Z0-9_]*)(\s*,\s*(\&*\**\s*([a-zA-Z_][a-zA-Z0-9_]*\s+)+[a-zA-Z_][a-zA-Z0-9_]*))*)\]\((|(\&*\**\s*([a-zA-Z_][a-zA-Z0-9_]*\s+)+[a-zA-Z_][a-zA-Z0-9_]*)(\s*,\s*(\&*\**\s*([a-zA-Z_][a-zA-Z0-9_]*\s+)+[a-zA-Z_][a-zA-Z0-9_]*))*)\)\s*\{",
        );
        proof {
            assert(v.deep_view() =~= spec_lambda_patterns());
        }
        (tag, Some(v))
    } else {
        (None, None)
    }
}

/// No interface patterns are registered for any language; the slot keeps
/// the registry's shape so a bank can be added beside the others.
pub fn get_regex_interface(file_path: &[u8]) -> (r: (Option<Vec<u8>>, Option<Vec<&'static str>>))
    ensures
        r.1 is None,
        r.0 is Some <==> spec_family(file_path@) != 0,
{
    let tag = lang_tag(file_path);
    (tag, None)
}

} // verus!
