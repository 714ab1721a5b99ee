//! Import resolver.
//!
//! Per file, a language-specific single-line extractor recognises that
//! language's import syntax and yields raw target strings.  Each target is
//! then tried as a path beside the importing file, then as a path under
//! the project root; the first that exists becomes a `File` import (the
//! sibling wins), anything else is kept as an opaque `Package` reference —
//! never an error.  The existence checks themselves are the caller's:
//! this module only computes candidate paths and classifies the answers.

use vstd::prelude::*;

use crate::bytes::second_token;
use crate::bytes::spec_lines;
use crate::bytes::spec_second_token;
use crate::bytes::spec_trim_range;
use crate::bytes::spec_trim_set;
use crate::bytes::spec_rtrim_set;
use crate::bytes::spec_rfind_byte;
use crate::bytes::split_lines;
use crate::bytes::starts_with;
use crate::bytes::trim;
use crate::bytes::trim_set;
use crate::bytes::rtrim_set;
use crate::bytes::rfind_byte;
use crate::bytes::copy_range;
use vstd::string::StringSliceAdditionalSpecFns;

verus! {

/// A resolved import target: a project file, a module, or an opaque
/// pre-built package.
#[derive(PartialEq, Eq, Debug)]
pub enum Import {
    File(Vec<u8>),
    Module(Vec<u8>),
    Package(Vec<u8>),
}

#[verifier::ext_equal]
pub ghost enum ImportV {
    File(Seq<u8>),
    Module(Seq<u8>),
    Package(Seq<u8>),
}

impl View for Import {
    type V = ImportV;

    open spec fn view(&self) -> ImportV {
        match self {
            Import::File(p) => ImportV::File(p@),
            Import::Module(p) => ImportV::Module(p@),
            Import::Package(p) => ImportV::Package(p@),
        }
    }
}

impl DeepView for Import {
    type V = ImportV;

    open spec fn deep_view(&self) -> ImportV {
        self@
    }
}

/// Why a file contributed no imports.
#[derive(PartialEq, Eq, Structural, Debug, Clone, Copy)]
pub enum ImportError {
    FileUnreadable,
    UnsupportedLanguage,
    NoExtension,
}

/// How an extracted target string is cleaned.
#[derive(PartialEq, Eq, Structural, Debug, Clone, Copy)]
pub enum TrimMode {
    Keep,
    TrimEnd,
    TrimBoth,
}

pub open spec fn spec_clean(t: Seq<u8>, mode: TrimMode, set: Seq<u8>) -> Seq<u8> {
    match mode {
        TrimMode::Keep => t,
        TrimMode::TrimEnd => spec_rtrim_set(t, set),
        TrimMode::TrimBoth => spec_trim_set(t, set),
    }
}

/// One line's import target: when the trimmed line starts with either
/// keyword, the line's second whitespace-delimited token, cleaned.
pub open spec fn spec_line_import(
    line: Seq<u8>,
    kw1: Seq<u8>,
    kw2: Seq<u8>,
    mode: TrimMode,
    set: Seq<u8>,
) -> Option<Seq<u8>> {
    let t = spec_trim_range(line, 0, line.len() as int);
    if (t.len() >= kw1.len() && t.subrange(0, kw1.len() as int) == kw1) || (kw2.len() > 0
        && t.len() >= kw2.len() && t.subrange(0, kw2.len() as int) == kw2) {
        match spec_second_token(line) {
            Some(tok) => Some(spec_clean(tok, mode, set)),
            None => None,
        }
    } else {
        None
    }
}

pub open spec fn spec_imports_from(
    lines: Seq<Seq<u8>>,
    i: int,
    kw1: Seq<u8>,
    kw2: Seq<u8>,
    mode: TrimMode,
    set: Seq<u8>,
) -> Seq<Seq<u8>>
    decreases lines.len() - i,
{
    if i < 0 || i >= lines.len() {
        Seq::empty()
    } else {
        let rest = spec_imports_from(lines, i + 1, kw1, kw2, mode, set);
        match spec_line_import(lines[i], kw1, kw2, mode, set) {
            Some(t) => seq![t] + rest,
            None => rest,
        }
    }
}

/// The import targets of a text, line by line.
pub open spec fn spec_imports_of(
    content: Seq<u8>,
    kw1: Seq<u8>,
    kw2: Seq<u8>,
    mode: TrimMode,
    set: Seq<u8>,
) -> Seq<Seq<u8>> {
    spec_imports_from(spec_lines(content), 0, kw1, kw2, mode, set)
}

fn extract_imports_generic(content: &[u8], kw1: &[u8], kw2: &[u8], mode: TrimMode, set: &[u8]) -> (r:
    Vec<Vec<u8>>)
    ensures
        r.deep_view() == spec_imports_of(content@, kw1@, kw2@, mode, set@),
{
    let lines = split_lines(content);
    let ghost lv = lines.deep_view();
    let mut r: Vec<Vec<u8>> = Vec::new();
    let mut i: usize = 0;
    proof {
        assert(r.deep_view() + spec_imports_from(lv, 0, kw1@, kw2@, mode, set@)
            =~~= spec_imports_of(content@, kw1@, kw2@, mode, set@));
    }
    while i < lines.len()
        invariant
            i <= lines@.len(),
            lv == lines.deep_view(),
            lv.len() == lines@.len(),
            spec_imports_of(content@, kw1@, kw2@, mode, set@) == r.deep_view()
                + spec_imports_from(lv, i as int, kw1@, kw2@, mode, set@),
        decreases lines@.len() - i,
    {
        let line = &lines[i];
        proof {
            assert(lv[i as int] =~= line@);
        }
        let ghost pre = r.deep_view();
        let t = trim(line.as_slice());
        let matched = starts_with(t.as_slice(), kw1) || (kw2.len() > 0 && starts_with(
            t.as_slice(),
            kw2,
        ));
        if matched {
            match second_token(line.as_slice()) {
                Some(tok) => {
                    let cleaned = match mode {
                        TrimMode::Keep => tok,
                        TrimMode::TrimEnd => rtrim_set(tok.as_slice(), set),
                        TrimMode::TrimBoth => trim_set(tok.as_slice(), set),
                    };
                    let ghost cv = cleaned@;
                    r.push(cleaned);
                    proof {
                        assert(cv == spec_line_import(lv[i as int], kw1@, kw2@, mode, set@)->Some_0);
                        assert(r.deep_view() =~~= pre + seq![cv]);
                        assert((pre + seq![cv]) + spec_imports_from(
                            lv,
                            i + 1,
                            kw1@,
                            kw2@,
                            mode,
                            set@,
                        ) =~~= pre + (seq![cv] + spec_imports_from(
                            lv,
                            i + 1,
                            kw1@,
                            kw2@,
                            mode,
                            set@,
                        )));
                    }
                },
                None => {},
            }
        }
        i = i + 1;
    }
    r
}

/// The module-declaration keyword of the Rust profile (`mod` plus a
/// space) paired with the external-crate declaration keyword, written
/// out as bytes.
pub open spec fn spec_kw_ext_crate() -> Seq<u8> {
    seq![101u8, 120u8, 116u8, 101u8, 114u8, 110u8, 32u8, 99u8, 114u8, 97u8, 116u8, 101u8, 32u8]
}

fn kw_ext_crate() -> (r: Vec<u8>)
    ensures
        r@ == spec_kw_ext_crate(),
{
    let mut v: Vec<u8> = Vec::new();
    v.push(101);
    v.push(120);
    v.push(116);
    v.push(101);
    v.push(114);
    v.push(110);
    v.push(32);
    v.push(99);
    v.push(114);
    v.push(97);
    v.push(116);
    v.push(101);
    v.push(32);
    proof {
        assert(v@ =~= spec_kw_ext_crate());
    }
    v
}

/// The C preprocessor file-inclusion directive (`#` followed by the
/// directive word and a space), written out as bytes.
pub open spec fn spec_kw_hash_inc() -> Seq<u8> {
    seq![35u8, 105u8, 110u8, 99u8, 108u8, 117u8, 100u8, 101u8, 32u8]
}

fn kw_hash_inc() -> (r: Vec<u8>)
    ensures
        r@ == spec_kw_hash_inc(),
{
    let mut v: Vec<u8> = Vec::new();
    v.push(35);
    v.push(105);
    v.push(110);
    v.push(99);
    v.push(108);
    v.push(117);
    v.push(100);
    v.push(101);
    v.push(32);
    proof {
        assert(v@ =~= spec_kw_hash_inc());
    }
    v
}

/// The PHP file-inclusion keyword (the directive word without the `#`
/// or the trailing space), written out as bytes.
pub open spec fn spec_kw_inc() -> Seq<u8> {
    seq![105u8, 110u8, 99u8, 108u8, 117u8, 100u8, 101u8]
}

fn kw_inc() -> (r: Vec<u8>)
    ensures
        r@ == spec_kw_inc(),
{
    let mut v: Vec<u8> = Vec::new();
    v.push(105);
    v.push(110);
    v.push(99);
    v.push(108);
    v.push(117);
    v.push(100);
    v.push(101);
    proof {
        assert(v@ =~= spec_kw_inc());
    }
    v
}

/// Rust: `mod` and external-crate declarations; a trailing `;` is shed.
pub fn extract_imports_rust(content: &[u8]) -> (r: Vec<Vec<u8>>)
    ensures
        r.deep_view() == spec_imports_of(
            content@,
            "mod ".spec_bytes(),
            spec_kw_ext_crate(),
            TrimMode::TrimEnd,
            seq![59u8],
        ),
{
    let kw2 = kw_ext_crate();
    let mut set: Vec<u8> = Vec::new();
    set.push(59);
    proof {
        assert(set@ =~= seq![59u8]);
    }
    extract_imports_generic(content, "mod ".as_bytes(), kw2.as_slice(), TrimMode::TrimEnd, set.as_slice())
}

/// Python: `import` and `from` statements; the target is kept as is.
pub fn extract_imports_python(content: &[u8]) -> (r: Vec<Vec<u8>>)
    ensures
        r.deep_view() == spec_imports_of(
            content@,
            "import ".spec_bytes(),
            "from ".spec_bytes(),
            TrimMode::Keep,
            Seq::empty(),
        ),
{
    let set: Vec<u8> = Vec::new();
    proof {
        assert(set@ =~= Seq::<u8>::empty());
    }
    extract_imports_generic(
        content,
        "import ".as_bytes(),
        "from ".as_bytes(),
        TrimMode::Keep,
        set.as_slice(),
    )
}

/// JavaScript and TypeScript: `import` statements; quotes and braces are
/// shed from both ends of the target.
pub fn extract_imports_js_ts(content: &[u8]) -> (r: Vec<Vec<u8>>)
    ensures
        r.deep_view() == spec_imports_of(
            content@,
            "import ".spec_bytes(),
            Seq::empty(),
            TrimMode::TrimBoth,
            seq![34u8, 39u8, 123u8, 125u8],
        ),
{
    let none: Vec<u8> = Vec::new();
    let mut set: Vec<u8> = Vec::new();
    set.push(34);
    set.push(39);
    set.push(123);
    set.push(125);
    proof {
        assert(none@ =~= Seq::<u8>::empty());
        assert(set@ =~= seq![34u8, 39u8, 123u8, 125u8]);
    }
    extract_imports_generic(
        content,
        "import ".as_bytes(),
        none.as_slice(),
        TrimMode::TrimBoth,
        set.as_slice(),
    )
}

/// Java: `import` statements; a trailing `;` is shed.
pub fn extract_imports_java(content: &[u8]) -> (r: Vec<Vec<u8>>)
    ensures
        r.deep_view() == spec_imports_of(
            content@,
            "import ".spec_bytes(),
            Seq::empty(),
            TrimMode::TrimEnd,
            seq![59u8],
        ),
{
    let none: Vec<u8> = Vec::new();
    let mut set: Vec<u8> = Vec::new();
    set.push(59);
    proof {
        assert(none@ =~= Seq::<u8>::empty());
        assert(set@ =~= seq![59u8]);
    }
    extract_imports_generic(
        content,
        "import ".as_bytes(),
        none.as_slice(),
        TrimMode::TrimEnd,
        set.as_slice(),
    )
}

/// C and C++: the preprocessor file-inclusion directive; quotes and
/// angle brackets are shed.
pub fn extract_imports_c_cpp(content: &[u8]) -> (r: Vec<Vec<u8>>)
    ensures
        r.deep_view() == spec_imports_of(
            content@,
            spec_kw_hash_inc(),
            Seq::empty(),
            TrimMode::TrimBoth,
            seq![34u8, 60u8, 62u8],
        ),
{
    let kw = kw_hash_inc();
    let none: Vec<u8> = Vec::new();
    let mut set: Vec<u8> = Vec::new();
    set.push(34);
    set.push(60);
    set.push(62);
    proof {
        assert(none@ =~= Seq::<u8>::empty());
        assert(set@ =~= seq![34u8, 60u8, 62u8]);
    }
    extract_imports_generic(content, kw.as_slice(), none.as_slice(), TrimMode::TrimBoth, set.as_slice())
}

/// PHP: the file-inclusion and `require` keyword families; quotes and a
/// trailing `;` are shed.
pub fn extract_imports_php(content: &[u8]) -> (r: Vec<Vec<u8>>)
    ensures
        r.deep_view() == spec_imports_of(
            content@,
            spec_kw_inc(),
            "require".spec_bytes(),
            TrimMode::TrimBoth,
            seq![34u8, 39u8, 59u8],
        ),
{
    let kw = kw_inc();
    let mut set: Vec<u8> = Vec::new();
    set.push(34);
    set.push(39);
    set.push(59);
    proof {
        assert(set@ =~= seq![34u8, 39u8, 59u8]);
    }
    extract_imports_generic(content, kw.as_slice(), "require".as_bytes(), TrimMode::TrimBoth, set.as_slice())
}

/// The import targets of a file of the given extension, when its
/// language's import syntax is registered.
pub open spec fn spec_import_targets(ext: Seq<u8>, content: Seq<u8>) -> Option<Seq<Seq<u8>>> {
    if ext == "rs".spec_bytes() {
        Some(
            spec_imports_of(
                content,
                "mod ".spec_bytes(),
                spec_kw_ext_crate(),
                TrimMode::TrimEnd,
                seq![59u8],
            ),
        )
    } else if ext == "py".spec_bytes() {
        Some(
            spec_imports_of(
                content,
                "import ".spec_bytes(),
                "from ".spec_bytes(),
                TrimMode::Keep,
                Seq::empty(),
            ),
        )
    } else if ext == "js".spec_bytes() || ext == "ts".spec_bytes() {
        Some(
            spec_imports_of(
                content,
                "import ".spec_bytes(),
                Seq::empty(),
                TrimMode::TrimBoth,
                seq![34u8, 39u8, 123u8, 125u8],
            ),
        )
    } else if ext == "java".spec_bytes() {
        Some(
            spec_imports_of(
                content,
                "import ".spec_bytes(),
                Seq::empty(),
                TrimMode::TrimEnd,
                seq![59u8],
            ),
        )
    } else if ext == "c".spec_bytes() || ext == "cpp".spec_bytes() || ext == "h".spec_bytes() {
        Some(
            spec_imports_of(
                content,
                spec_kw_hash_inc(),
                Seq::empty(),
                TrimMode::TrimBoth,
                seq![34u8, 60u8, 62u8],
            ),
        )
    } else if ext == "php".spec_bytes() {
        Some(
            spec_imports_of(
                content,
                spec_kw_inc(),
                "require".spec_bytes(),
                TrimMode::TrimBoth,
                seq![34u8, 39u8, 59u8],
            ),
        )
    } else {
        None
    }
}

/// The raw import targets of one file, dispatched on its extension; a
/// file without an extension, or of an unregistered language, yields an
/// error the caller logs and treats as "no imports".
pub fn extract_import_targets(file_path: &[u8], content: &[u8]) -> (r: Result<
    Vec<Vec<u8>>,
    ImportError,
>)
    ensures
        match r {
            Ok(v) => (crate::lang::spec_get_language(file_path@) matches Some(e)
                && spec_import_targets(e, content@) == Some(v.deep_view())),
            Err(err) => {
                &&& err != ImportError::FileUnreadable
                &&& (err == ImportError::NoExtension <==> crate::lang::spec_get_language(
                    file_path@,
                ) is None)
                &&& (err == ImportError::UnsupportedLanguage ==> (crate::lang::spec_get_language(
                    file_path@,
                ) matches Some(e) && spec_import_targets(e, content@) is None))
            },
        },
{
    let ext = match crate::lang::get_language(file_path) {
        Some(e) => e,
        None => {
            return Err(ImportError::NoExtension);
        },
    };
    let e = ext.as_slice();
    if crate::bytes::bytes_eq(e, "rs".as_bytes()) {
        Ok(extract_imports_rust(content))
    } else if crate::bytes::bytes_eq(e, "py".as_bytes()) {
        Ok(extract_imports_python(content))
    } else if crate::bytes::bytes_eq(e, "js".as_bytes()) || crate::bytes::bytes_eq(
        e,
        "ts".as_bytes(),
    ) {
        Ok(extract_imports_js_ts(content))
    } else if crate::bytes::bytes_eq(e, "java".as_bytes()) {
        Ok(extract_imports_java(content))
    } else if crate::bytes::bytes_eq(e, "c".as_bytes()) || crate::bytes::bytes_eq(
        e,
        "cpp".as_bytes(),
    ) || crate::bytes::bytes_eq(e, "h".as_bytes()) {
        Ok(extract_imports_c_cpp(content))
    } else if crate::bytes::bytes_eq(e, "php".as_bytes()) {
        Ok(extract_imports_php(content))
    } else {
        Err(ImportError::UnsupportedLanguage)
    }
}

/// The directory part of a path: everything before the final `/`, empty
/// when there is none.
pub open spec fn spec_parent_dir(path: Seq<u8>) -> Seq<u8> {
    match spec_rfind_byte(path, 47, path.len() as int) {
        Some(k) => path.subrange(0, k),
        None => Seq::empty(),
    }
}

/// `dir` joined with `rel`: the two glued with one `/`, or `rel` alone
/// when `dir` is empty.
pub open spec fn spec_join(dir: Seq<u8>, rel: Seq<u8>) -> Seq<u8> {
    if dir.len() == 0 {
        rel
    } else {
        dir + seq![47u8] + rel
    }
}

/// The candidate path for an import relative to `base`'s directory.
pub fn candidate_path(base: &[u8], import: &[u8]) -> (r: Vec<u8>)
    ensures
        r@ == spec_join(spec_parent_dir(base@), import@),
{
    let dir_end = match rfind_byte(base, 47, base.len()) {
        Some(k) => k,
        None => 0,
    };
    let mut r = copy_range(base, 0, dir_end);
    if r.len() > 0 {
        r.push(47);
    }
    let mut i: usize = 0;
    while i < import.len()
        invariant
            i <= import@.len(),
            r@ =~= (if spec_parent_dir(base@).len() == 0 {
                import@.take(i as int)
            } else {
                spec_parent_dir(base@) + seq![47u8] + import@.take(i as int)
            }),
        decreases import@.len() - i,
    {
        r.push(import[i]);
        proof {
            assert(import@.take(i + 1) =~= import@.take(i as int).push(import@[i as int]));
        }
        i = i + 1;
    }
    proof {
        assert(import@.take(import@.len() as int) =~= import@);
        assert(r@ =~= spec_join(spec_parent_dir(base@), import@));
    }
    r
}

/// The candidate path for an import under the project root itself.
pub fn root_candidate_path(root: &[u8], import: &[u8]) -> (r: Vec<u8>)
    ensures
        r@ == spec_join(root@, import@),
{
    let mut r = copy_range(root, 0, root.len());
    if r.len() > 0 {
        r.push(47);
    }
    let mut i: usize = 0;
    while i < import.len()
        invariant
            i <= import@.len(),
            r@ =~= (if root@.len() == 0 {
                import@.take(i as int)
            } else {
                root@ + seq![47u8] + import@.take(i as int)
            }),
        decreases import@.len() - i,
    {
        r.push(import[i]);
        proof {
            assert(import@.take(i + 1) =~= import@.take(i as int).push(import@[i as int]));
        }
        i = i + 1;
    }
    proof {
        assert(import@.take(import@.len() as int) =~= import@);
        assert(r@ =~= spec_join(root@, import@));
    }
    r
}

/// The Windows verbatim prefix `\\?\` that canonicalisation may add.
pub open spec fn spec_verbatim_prefix() -> Seq<u8> {
    seq![92u8, 92u8, 63u8, 92u8]
}

/// Strip the verbatim prefix from a canonicalised path, when present.
pub fn format_path(path: &[u8]) -> (r: Vec<u8>)
    ensures
        r@ == if path@.len() >= 4 && path@.subrange(0, 4) == spec_verbatim_prefix() {
            path@.subrange(4, path@.len() as int)
        } else {
            path@
        },
{
    if path.len() >= 4 && path[0] == 92 && path[1] == 92 && path[2] == 63 && path[3] == 92 {
        proof {
            assert(path@.subrange(0, 4) =~= spec_verbatim_prefix());
        }
        copy_range(path, 4, path.len())
    } else {
        proof {
            if path@.len() >= 4 && path@.subrange(0, 4) == spec_verbatim_prefix() {
                assert(path@[0] == 92 && path@[1] == 92 && path@[2] == 63 && path@[3] == 92);
            }
        }
        copy_range(path, 0, path.len())
    }
}

/// Classify one import given the existence answers for its two candidate
/// paths: a target that exists beside the importing file wins over one
/// under the project root; what exists becomes a `File` import with the
/// verbatim prefix shed; anything else stays an opaque `Package`.
pub fn resolve_import_paths(import: &[u8], sibling: Option<Vec<u8>>, project_rel: Option<Vec<u8>>)
    -> (r: Import)
    ensures
        match sibling {
            Some(p) => r@ == ImportV::File(
                if p@.len() >= 4 && p@.subrange(0, 4) == spec_verbatim_prefix() {
                    p@.subrange(4, p@.len() as int)
                } else {
                    p@
                },
            ),
            None => match project_rel {
                Some(p) => r@ == ImportV::File(
                    if p@.len() >= 4 && p@.subrange(0, 4) == spec_verbatim_prefix() {
                        p@.subrange(4, p@.len() as int)
                    } else {
                        p@
                    },
                ),
                None => r@ == ImportV::Package(import@),
            },
        },
{
    match sibling {
        Some(p) => Import::File(format_path(p.as_slice())),
        None => match project_rel {
            Some(p) => Import::File(format_path(p.as_slice())),
            None => Import::Package(clone_bytes2(import)),
        },
    }
}

/// An owned copy of a byte slice.
fn clone_bytes2(n: &[u8]) -> (r: Vec<u8>)
    ensures
        r@ == n@,
{
    let c = copy_range(n, 0, n.len());
    proof {
        assert(c@ =~= n@);
    }
    c
}

/// First position of `path` in the global file list.
pub open spec fn spec_file_index(files: Seq<Seq<u8>>, path: Seq<u8>, k: int) -> Option<int>
    decreases files.len() - k,
{
    if k < 0 || k >= files.len() {
        None
    } else if files[k] == path {
        Some(k)
    } else {
        spec_file_index(files, path, k + 1)
    }
}

/// The payload path of an import, whatever its kind.
pub open spec fn spec_import_path(i: ImportV) -> Seq<u8> {
    match i {
        ImportV::File(p) => p,
        ImportV::Module(p) => p,
        ImportV::Package(p) => p,
    }
}

pub open spec fn spec_file_imports(files: Seq<Seq<u8>>, imps: Seq<ImportV>, k: int) -> Seq<usize>
    decreases imps.len() - k,
{
    if k < 0 || k >= imps.len() {
        Seq::empty()
    } else {
        let rest = spec_file_imports(files, imps, k + 1);
        match spec_file_index(files, spec_import_path(imps[k]), 0) {
            Some(j) => seq![j as usize] + rest,
            None => rest,
        }
    }
}

/// Map every file's resolved imports to indices in the global file list;
/// a target that is not a project file contributes nothing.
pub fn read_all_imports(all_files: &Vec<Vec<u8>>, resolved: &Vec<Vec<Import>>) -> (r: Vec<
    Vec<usize>,
>)
    requires
        resolved@.len() == all_files@.len(),
    ensures
        r@.len() == all_files@.len(),
        forall|f: int|
            0 <= f < r@.len() ==> #[trigger] r@[f]@ == spec_file_imports(
                all_files.deep_view(),
                resolved@[f].deep_view(),
                0,
            ),
{
    let ghost fv = all_files.deep_view();
    let mut r: Vec<Vec<usize>> = Vec::new();
    let mut f: usize = 0;
    while f < all_files.len()
        invariant
            f <= all_files@.len(),
            r@.len() == f,
            fv == all_files.deep_view(),
            fv.len() == all_files@.len(),
            resolved@.len() == all_files@.len(),
            forall|g: int|
                0 <= g < f ==> #[trigger] r@[g]@ == spec_file_imports(
                    fv,
                    resolved@[g].deep_view(),
                    0,
                ),
        decreases all_files@.len() - f,
    {
        let imps = &resolved[f];
        let ghost iv = imps.deep_view();
        let mut out: Vec<usize> = Vec::new();
        let mut k: usize = 0;
        proof {
            assert(out@ + spec_file_imports(fv, iv, 0) =~= spec_file_imports(fv, iv, 0));
        }
        while k < imps.len()
            invariant
                k <= imps@.len(),
                fv == all_files.deep_view(),
                fv.len() == all_files@.len(),
                iv == imps.deep_view(),
                iv.len() == imps@.len(),
                spec_file_imports(fv, iv, 0) == out@ + spec_file_imports(fv, iv, k as int),
            decreases imps@.len() - k,
        {
            let ghost pre = out@;
            let path: &Vec<u8> = match &imps[k] {
                Import::File(p) => p,
                Import::Module(p) => p,
                Import::Package(p) => p,
            };
            proof {
                assert(path@ == spec_import_path(iv[k as int]));
            }
            let mut j: usize = 0;
            let mut found: Option<usize> = None;
            while j < all_files.len()
                invariant
                    j <= all_files@.len(),
                    fv == all_files.deep_view(),
                    fv.len() == all_files@.len(),
                    match found {
                        Some(x) => spec_file_index(fv, path@, 0) == Some(x as int),
                        None => spec_file_index(fv, path@, 0) == spec_file_index(
                            fv,
                            path@,
                            j as int,
                        ),
                    },
                decreases all_files@.len() - j,
            {
                if found.is_none() {
                    let hit = crate::bytes::bytes_eq(all_files[j].as_slice(), path.as_slice());
                    proof {
                        assert(fv[j as int] =~= all_files@[j as int]@);
                    }
                    if hit {
                        found = Some(j);
                    }
                }
                j = j + 1;
            }
            match found {
                Some(x) => {
                    out.push(x);
                    proof {
                        assert(out@ =~= pre + seq![x]);
                        assert((pre + seq![x]) + spec_file_imports(fv, iv, k + 1) =~= pre + (seq![
                            x,
                        ] + spec_file_imports(fv, iv, k + 1)));
                    }
                },
                None => {},
            }
            k = k + 1;
        }
        r.push(out);
        f = f + 1;
    }
    r
}

} // verus!
