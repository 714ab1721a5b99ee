//! Tag extractor.
//!
//! Applies a language's pattern bank to the raw text of one file and anchors
//! every match to a scope of its scope tree, yielding typed entity records:
//! classes, functions, objects, lambdas, call sites, assignments and
//! member-access chains.  A candidate whose body scope cannot be located is
//! discarded; a pattern the engine rejects contributes no matches; neither
//! aborts the run.

use vstd::prelude::*;

use crate::bytes::copy_range;
use crate::bytes::find_byte;
use crate::bytes::rfind_byte;
use crate::bytes::spec_find_byte;
use crate::bytes::spec_rfind_byte;
use crate::bytes::spec_trim_range;
use crate::bytes::starts_with;
use crate::bytes::trim_range;
use crate::rx::Hit;
use crate::rx::hit_wf;
use crate::rx::pattern_hits;
use crate::rx::pattern_ok;
use crate::rx::pattern_matches_or_empty;
use crate::scopes::SCOPE;
use crate::scopes::ScopeV;
use crate::scopes::spec_find_parent;
use crate::scopes::find_parent;
use vstd::string::StringSliceAdditionalSpecFns;

verus! {

/// The tri-state, monotonic resolution of a referenced type name: still
/// unresolved, connected to a class definition `(file, tag, name)`, or a
/// built-in primitive type `(index, name)`.
#[derive(PartialEq, Eq, Debug)]
pub enum StatefulClassConnection {
    Undiscovered(Vec<u8>),
    Connected(usize, usize, Vec<u8>),
    DataType(usize, Vec<u8>),
}

/// Mathematical image of a `StatefulClassConnection`.
#[verifier::ext_equal]
pub ghost enum ConnV {
    Undiscovered(Seq<u8>),
    Connected(int, int, Seq<u8>),
    DataType(int, Seq<u8>),
}

impl View for StatefulClassConnection {
    type V = ConnV;

    open spec fn view(&self) -> ConnV {
        match self {
            StatefulClassConnection::Undiscovered(n) => ConnV::Undiscovered(n@),
            StatefulClassConnection::Connected(f, t, n) => ConnV::Connected(
                *f as int,
                *t as int,
                n@,
            ),
            StatefulClassConnection::DataType(i, n) => ConnV::DataType(*i as int, n@),
        }
    }
}

impl DeepView for StatefulClassConnection {
    type V = ConnV;

    open spec fn deep_view(&self) -> ConnV {
        self@
    }
}

impl StatefulClassConnection {
    /// The referenced type name, whatever the resolution state.
    pub fn get_name(&self) -> (r: &Vec<u8>)
        ensures
            r@ == self.spec_name(),
    {
        match self {
            StatefulClassConnection::Undiscovered(n) => n,
            StatefulClassConnection::Connected(_, _, n) => n,
            StatefulClassConnection::DataType(_, n) => n,
        }
    }

    pub open spec fn spec_name(&self) -> Seq<u8> {
        match self@ {
            ConnV::Undiscovered(n) => n,
            ConnV::Connected(_, _, n) => n,
            ConnV::DataType(_, n) => n,
        }
    }

    pub fn clone(&self) -> (r: Self)
        ensures
            r@ == self@,
    {
        match self {
            StatefulClassConnection::Undiscovered(n) => {
                let c = crate::bytes::copy_range(n.as_slice(), 0, n.len());
                proof {
                    assert(c@ =~= n@);
                }
                StatefulClassConnection::Undiscovered(c)
            },
            StatefulClassConnection::Connected(f, t, n) => {
                let c = crate::bytes::copy_range(n.as_slice(), 0, n.len());
                proof {
                    assert(c@ =~= n@);
                }
                StatefulClassConnection::Connected(*f, *t, c)
            },
            StatefulClassConnection::DataType(i, n) => {
                let c = crate::bytes::copy_range(n.as_slice(), 0, n.len());
                proof {
                    assert(c@ =~= n@);
                }
                StatefulClassConnection::DataType(*i, c)
            },
        }
    }
}

/// An owned copy of a byte string.
pub fn clone_bytes(n: &Vec<u8>) -> (r: Vec<u8>)
    ensures
        r@ == n@,
{
    let c = crate::bytes::copy_range(n.as_slice(), 0, n.len());
    proof {
        assert(c@ =~= n@);
    }
    c
}

/// A class: its body scope index, its name, and its `(type, name)` parent
/// references.
#[derive(PartialEq, Eq, Debug)]
pub struct CLASS {
    pub scope: usize,
    pub name: Vec<u8>,
    pub parents: Vec<(Vec<u8>, Vec<u8>)>,
}

#[verifier::ext_equal]
pub ghost struct ClassV {
    pub scope: int,
    pub name: Seq<u8>,
    pub parents: Seq<(Seq<u8>, Seq<u8>)>,
}

impl View for CLASS {
    type V = ClassV;

    open spec fn view(&self) -> ClassV {
        ClassV { scope: self.scope as int, name: self.name@, parents: self.parents.deep_view() }
    }
}

impl DeepView for CLASS {
    type V = ClassV;

    open spec fn deep_view(&self) -> ClassV {
        self@
    }
}

/// An object (variable) declaration: its owning scope, name and declared
/// type token.
#[derive(PartialEq, Eq, Debug)]
pub struct OBJECT {
    pub parent_scope: usize,
    pub name: Vec<u8>,
    pub type_str: Vec<u8>,
}

#[verifier::ext_equal]
pub ghost struct ObjectV {
    pub parent_scope: int,
    pub name: Seq<u8>,
    pub type_str: Seq<u8>,
}

impl View for OBJECT {
    type V = ObjectV;

    open spec fn view(&self) -> ObjectV {
        ObjectV {
            parent_scope: self.parent_scope as int,
            name: self.name@,
            type_str: self.type_str@,
        }
    }
}

impl DeepView for OBJECT {
    type V = ObjectV;

    open spec fn deep_view(&self) -> ObjectV {
        self@
    }
}

/// A function definition: its body scope, name, return-type token, ordered
/// `(type-reference, name)` parameters, and the text offset of its name
/// (used to tell call sites from the declaration itself).
#[derive(PartialEq, Eq, Debug)]
pub struct FUNCTION {
    pub scope: usize,
    pub name: Vec<u8>,
    pub ret_type: Vec<u8>,
    pub args: Vec<(StatefulClassConnection, Vec<u8>)>,
    pub name_pos: usize,
}

#[verifier::ext_equal]
pub ghost struct FunctionV {
    pub scope: int,
    pub name: Seq<u8>,
    pub ret_type: Seq<u8>,
    pub args: Seq<(ConnV, Seq<u8>)>,
    pub name_pos: int,
}

impl View for FUNCTION {
    type V = FunctionV;

    open spec fn view(&self) -> FunctionV {
        FunctionV {
            scope: self.scope as int,
            name: self.name@,
            ret_type: self.ret_type@,
            args: self.args.deep_view(),
            name_pos: self.name_pos as int,
        }
    }
}

impl DeepView for FUNCTION {
    type V = FunctionV;

    open spec fn deep_view(&self) -> FunctionV {
        self@
    }
}

/// A lambda: its body scope, its captures and its parameters.
#[derive(PartialEq, Eq, Debug)]
pub struct LAMBDA {
    pub scope: usize,
    pub imports: Vec<(StatefulClassConnection, Vec<u8>)>,
    pub args: Vec<(StatefulClassConnection, Vec<u8>)>,
}

#[verifier::ext_equal]
pub ghost struct LambdaV {
    pub scope: int,
    pub imports: Seq<(ConnV, Seq<u8>)>,
    pub args: Seq<(ConnV, Seq<u8>)>,
}

impl View for LAMBDA {
    type V = LambdaV;

    open spec fn view(&self) -> LambdaV {
        LambdaV {
            scope: self.scope as int,
            imports: self.imports.deep_view(),
            args: self.args.deep_view(),
        }
    }
}

impl DeepView for LAMBDA {
    type V = LambdaV;

    open spec fn deep_view(&self) -> LambdaV {
        self@
    }
}

/// A reference found inside a call's arguments or an access chain.
#[derive(PartialEq, Eq, Debug)]
pub enum CodeElementPointer {
    Object(usize, Vec<u8>),
    FuncCall(usize, usize),
    Ambiguous(usize, usize, Vec<u8>),
}

#[verifier::ext_equal]
pub ghost enum PtrV {
    Object(int, Seq<u8>),
    FuncCall(int, int),
    Ambiguous(int, int, Seq<u8>),
}

impl View for CodeElementPointer {
    type V = PtrV;

    open spec fn view(&self) -> PtrV {
        match self {
            CodeElementPointer::Object(f, n) => PtrV::Object(*f as int, n@),
            CodeElementPointer::FuncCall(f, c) => PtrV::FuncCall(*f as int, *c as int),
            CodeElementPointer::Ambiguous(f, p, n) => PtrV::Ambiguous(*f as int, *p as int, n@),
        }
    }
}

impl DeepView for CodeElementPointer {
    type V = PtrV;

    open spec fn deep_view(&self) -> PtrV {
        self@
    }
}

/// A call site: its text offset, callee name, the index of its argument
/// scope, and the references found inside that scope.
#[derive(PartialEq, Eq, Debug)]
pub struct FUNCTIONCALL {
    pub start: usize,
    pub name: Vec<u8>,
    pub vars_scope: usize,
    pub vars: Vec<CodeElementPointer>,
}

#[verifier::ext_equal]
pub ghost struct CallV {
    pub start: int,
    pub name: Seq<u8>,
    pub vars_scope: int,
    pub vars: Seq<PtrV>,
}

impl View for FUNCTIONCALL {
    type V = CallV;

    open spec fn view(&self) -> CallV {
        CallV {
            start: self.start as int,
            name: self.name@,
            vars_scope: self.vars_scope as int,
            vars: self.vars.deep_view(),
        }
    }
}

impl DeepView for FUNCTIONCALL {
    type V = CallV;

    open spec fn deep_view(&self) -> CallV {
        self@
    }
}

/// An assignment: the absolute offset and text of its left- and right-hand
/// spans.
#[derive(PartialEq, Eq, Debug)]
pub struct EQUATION {
    pub lhs: (usize, Vec<u8>),
    pub rhs: (usize, Vec<u8>),
}

#[verifier::ext_equal]
pub ghost struct EquationV {
    pub lhs: (int, Seq<u8>),
    pub rhs: (int, Seq<u8>),
}

impl View for EQUATION {
    type V = EquationV;

    open spec fn view(&self) -> EquationV {
        EquationV {
            lhs: (self.lhs.0 as int, self.lhs.1@),
            rhs: (self.rhs.0 as int, self.rhs.1@),
        }
    }
}

impl DeepView for EQUATION {
    type V = EquationV;

    open spec fn deep_view(&self) -> EquationV {
        self@
    }
}

/// A member-access chain: its start offset, the offset it stopped at, and
/// the references it walked over.
#[derive(PartialEq, Eq, Debug)]
pub struct CHILDACCESS {
    pub start: usize,
    pub end: usize,
    pub route: Vec<CodeElementPointer>,
}

#[verifier::ext_equal]
pub ghost struct AccessV {
    pub start: int,
    pub end: int,
    pub route: Seq<PtrV>,
}

impl View for CHILDACCESS {
    type V = AccessV;

    open spec fn view(&self) -> AccessV {
        AccessV { start: self.start as int, end: self.end as int, route: self.route.deep_view() }
    }
}

impl DeepView for CHILDACCESS {
    type V = AccessV;

    open spec fn deep_view(&self) -> AccessV {
        self@
    }
}

/// Greedy comma split of an argument list, each piece split at its
/// rightmost space into `(type, name)`; a piece without a space yields
/// nothing.
pub open spec fn spec_split_type_str(piece: Seq<u8>) -> Option<(Seq<u8>, Seq<u8>)> {
    match spec_rfind_byte(piece, 32, piece.len() as int) {
        Some(sp) => Some(
            (
                spec_trim_range(piece, 0, sp),
                spec_trim_range(piece, sp + 1, piece.len() as int),
            ),
        ),
        None => None,
    }
}

pub open spec fn spec_extract_args_from(s: Seq<u8>, from: int) -> Seq<(Seq<u8>, Seq<u8>)>
    decreases s.len() - from,
{
    if from < 0 || from > s.len() {
        Seq::empty()
    } else {
        match spec_find_byte(s, 44, from) {
            Some(c) => {
                if from <= c < s.len() {
                    let piece = spec_trim_range(s, from, c);
                    let rest = spec_extract_args_from(s, c + 1);
                    match spec_split_type_str(piece) {
                        Some(tn) => seq![tn] + rest,
                        None => rest,
                    }
                } else {
                    Seq::empty()
                }
            },
            None => {
                let piece = spec_trim_range(s, from, s.len() as int);
                match spec_split_type_str(piece) {
                    Some(tn) => seq![tn],
                    None => Seq::empty(),
                }
            },
        }
    }
}

pub open spec fn spec_extract_args(s: Seq<u8>) -> Seq<(Seq<u8>, Seq<u8>)> {
    spec_extract_args_from(s, 0)
}

/// Split a comma-separated argument list into `(type, name)` pairs: each
/// piece is trimmed and split at its rightmost space; a piece without a
/// space contributes no pair.
pub fn extract_args(args_str: &[u8]) -> (r: Vec<(Vec<u8>, Vec<u8>)>)
    ensures
        r.deep_view() == spec_extract_args(args_str@),
{
    let total = args_str.len();
    let mut r: Vec<(Vec<u8>, Vec<u8>)> = Vec::new();
    let mut from: usize = 0;
    let mut done = false;
    proof {
        assert(r.deep_view() + spec_extract_args_from(args_str@, 0) =~~= spec_extract_args(
            args_str@,
        ));
    }
    while !done
        invariant
            from <= total,
            total == args_str@.len(),
            !done ==> spec_extract_args(args_str@) == r.deep_view() + spec_extract_args_from(
                args_str@,
                from as int,
            ),
            done ==> spec_extract_args(args_str@) == r.deep_view(),
        decreases total - from + (if done {
            0int
        } else {
            1int
        }),
    {
        let ghost pre = r.deep_view();
        let ghost rest = spec_extract_args_from(args_str@, from as int);
        let cut = find_byte(args_str, 44, from);
        let hi = match cut {
            Some(c) => c,
            None => args_str.len(),
        };
        let piece = trim_range(args_str, from, hi);
        let ghost tn_opt = spec_split_type_str(piece@);
        match rfind_byte(piece.as_slice(), 32, piece.len()) {
            Some(sp) => {
                let t = trim_range(piece.as_slice(), 0, sp);
                let n = trim_range(piece.as_slice(), sp + 1, piece.len());
                r.push((t, n));
                proof {
                    assert(r.deep_view() =~~= pre + seq![tn_opt->Some_0]);
                }
            },
            None => {},
        }
        match cut {
            Some(c) => {
                from = c + 1;
                proof {
                    let tail = spec_extract_args_from(args_str@, from as int);
                    assert(rest == match tn_opt {
                        Some(tn) => seq![tn] + tail,
                        None => tail,
                    });
                    if tn_opt is Some {
                        assert((pre + (seq![tn_opt->Some_0] + tail)) =~~= ((pre + seq![
                            tn_opt->Some_0,
                        ]) + tail));
                    }
                }
            },
            None => {
                done = true;
                proof {
                    assert(rest == match tn_opt {
                        Some(tn) => seq![tn],
                        None => Seq::<(Seq<u8>, Seq<u8>)>::empty(),
                    });
                    if tn_opt is None {
                        assert(pre + rest =~~= pre);
                    }
                }
            },
        }
    }
    r
}

/// First scope whose start offset is exactly `pos`.
pub open spec fn spec_find_scope_at(scopes: Seq<ScopeV>, pos: int, j: int) -> Option<int>
    decreases scopes.len() - j,
{
    if j < 0 || j >= scopes.len() {
        None
    } else if scopes[j].start == pos {
        Some(j)
    } else {
        spec_find_scope_at(scopes, pos, j + 1)
    }
}

pub fn find_scope_at(scopes: &Vec<SCOPE>, pos: usize) -> (r: Option<usize>)
    ensures
        match r {
            Some(j) => j < scopes@.len() && spec_find_scope_at(scopes.deep_view(), pos as int, 0)
                == Some(j as int),
            None => spec_find_scope_at(scopes.deep_view(), pos as int, 0) is None,
        },
{
    let ghost sv = scopes.deep_view();
    let mut j: usize = 0;
    while j < scopes.len()
        invariant
            sv == scopes.deep_view(),
            sv.len() == scopes@.len(),
            j <= scopes@.len(),
            spec_find_scope_at(sv, pos as int, 0) == spec_find_scope_at(sv, pos as int, j as int),
        decreases scopes@.len() - j,
    {
        if scopes[j].start == pos {
            return Some(j);
        }
        j = j + 1;
    }
    None
}


/// Argument pairs with their type tokens wrapped as unresolved
/// references.
pub open spec fn wrap_view(s: Seq<(Seq<u8>, Seq<u8>)>) -> Seq<(ConnV, Seq<u8>)> {
    Seq::new(s.len(), |i: int| (ConnV::Undiscovered(s[i].0), s[i].1))
}

/// The text of a hit's capture group `g`, empty when the group is absent
/// or its span falls outside the text.
pub open spec fn spec_group_text(
    text: Seq<u8>,
    h: (usize, usize, Seq<Option<(usize, usize)>>),
    g: int,
) -> Seq<u8> {
    if 0 <= g < h.2.len() && h.2[g] is Some {
        let (a, b) = h.2[g]->Some_0;
        if a <= b <= text.len() {
            text.subrange(a as int, b as int)
        } else {
            Seq::empty()
        }
    } else {
        Seq::empty()
    }
}

/// Parse one class match: the name is the text between `class` and the
/// `:` (or the final `{`); the optional group 1 carries the parent list;
/// the body scope must start exactly where the match ends, or the
/// candidate is discarded.
pub open spec fn spec_parse_class(
    text: Seq<u8>,
    scopes: Seq<ScopeV>,
    h: (usize, usize, Seq<Option<(usize, usize)>>),
) -> Option<ClassV> {
    if !(h.0 <= h.1 <= text.len()) || h.1 < 1 {
        None
    } else {
        let sub = text.subrange(h.0 as int, h.1 as int);
        let colon = spec_find_byte(sub, 58, 0);
        let cut = match colon {
            Some(c) => c,
            None => if sub.len() > 0 {
                sub.len() - 1
            } else {
                0
            },
        };
        let part = spec_trim_range(sub, 0, cut);
        let kw = "class".spec_bytes();
        let name = if part.len() >= kw.len() && part.subrange(0, kw.len() as int) == kw {
            spec_trim_range(part, kw.len() as int, part.len() as int)
        } else {
            Seq::<u8>::empty()
        };
        let parents = if colon is Some {
            spec_extract_args(spec_group_text(text, h, 1))
        } else {
            Seq::<(Seq<u8>, Seq<u8>)>::empty()
        };
        match spec_find_scope_at(scopes, h.1 - 1, 0) {
            Some(sc) => Some(ClassV { scope: sc, name, parents }),
            None => None,
        }
    }
}

/// The capture group `g` of a hit, copied out of the text.
fn group_text(text: &[u8], h: &Hit, g: usize) -> (r: Vec<u8>)
    ensures
        r@ == spec_group_text(text@, h@, g as int),
{
    if g < h.groups.len() {
        match h.groups[g] {
            Some((a, b)) => {
                if a <= b && b <= text.len() {
                    copy_range(text, a, b)
                } else {
                    Vec::new()
                }
            },
            None => Vec::new(),
        }
    } else {
        Vec::new()
    }
}

fn parse_class(text: &[u8], scopes: &Vec<SCOPE>, h: &Hit) -> (r: Option<CLASS>)
    ensures
        match r {
            Some(c) => spec_parse_class(text@, scopes.deep_view(), h@) == Some(c.deep_view()),
            None => spec_parse_class(text@, scopes.deep_view(), h@) is None,
        },
{
    if !(h.start <= h.end && h.end <= text.len()) || h.end < 1 {
        return None;
    }
    let sub = copy_range(text, h.start, h.end);
    let colon = find_byte(sub.as_slice(), 58, 0);
    let cut = match colon {
        Some(c) => c,
        None => if sub.len() > 0 {
            sub.len() - 1
        } else {
            0
        },
    };
    let part = trim_range(sub.as_slice(), 0, if cut <= sub.len() {
        cut
    } else {
        sub.len()
    });
    proof {
        if colon is Some {
            crate::bytes::lemma_find_byte_bounds(sub@, 58, 0);
        }
    }
    let kw = "class".as_bytes();
    let name = if starts_with(part.as_slice(), kw) {
        trim_range(part.as_slice(), kw.len(), part.len())
    } else {
        Vec::new()
    };
    let parents = if colon.is_some() {
        let g1 = group_text(text, h, 1);
        extract_args(g1.as_slice())
    } else {
        Vec::new()
    };
    match find_scope_at(scopes, h.end - 1) {
        Some(sc) => {
            let c = CLASS { scope: sc, name, parents };
            proof {
                assert(c.deep_view().parents =~~= spec_parse_class(
                    text@,
                    scopes.deep_view(),
                    h@,
                )->Some_0.parents);
                assert(c.deep_view() =~~= spec_parse_class(text@, scopes.deep_view(), h@)->Some_0);
            }
            Some(c)
        },
        None => None,
    }
}

/// Parse one object match: drop the trailing delimiter, trim, split at the
/// rightmost space into type and name; a visibility keyword in type
/// position is a false positive and is discarded; the owning scope is the
/// innermost scope starting before the match.
pub open spec fn spec_parse_object(
    text: Seq<u8>,
    scopes: Seq<ScopeV>,
    h: (usize, usize, Seq<Option<(usize, usize)>>),
) -> Option<ObjectV> {
    if !(h.0 < h.1 <= text.len()) {
        None
    } else {
        let m = spec_trim_range(text, h.0 as int, h.1 - 1);
        match spec_rfind_byte(m, 32, m.len() as int) {
            Some(sp) => {
                let t = spec_trim_range(m, 0, sp);
                if t == "public".spec_bytes() || t == "private".spec_bytes() {
                    None
                } else {
                    Some(
                        ObjectV {
                            parent_scope: spec_find_parent(scopes, h.0 as int, 0, 0),
                            name: spec_trim_range(m, sp, m.len() as int),
                            type_str: t,
                        },
                    )
                }
            },
            None => None,
        }
    }
}

fn parse_object(text: &[u8], scopes: &Vec<SCOPE>, h: &Hit) -> (r: Option<OBJECT>)
    requires
        scopes@.len() >= 1,
    ensures
        match r {
            Some(o) => spec_parse_object(text@, scopes.deep_view(), h@) == Some(o.deep_view()),
            None => spec_parse_object(text@, scopes.deep_view(), h@) is None,
        },
{
    if !(h.start < h.end && h.end <= text.len()) {
        return None;
    }
    let m = trim_range(text, h.start, h.end - 1);
    match rfind_byte(m.as_slice(), 32, m.len()) {
        Some(sp) => {
            let t = trim_range(m.as_slice(), 0, sp);
            if crate::bytes::bytes_eq(t.as_slice(), "public".as_bytes()) || crate::bytes::bytes_eq(
                t.as_slice(),
                "private".as_bytes(),
            ) {
                return None;
            }
            let parent = find_parent(h.start, scopes);
            let name = trim_range(m.as_slice(), sp, m.len());
            Some(OBJECT { parent_scope: parent, name, type_str: t })
        },
        None => None,
    }
}

/// Parse one capture group of a function match: split the text before the
/// parenthesis at its rightmost space into return type and name, split
/// the parenthesised text into arguments, and anchor the body scope where
/// the group ends; a group without both parentheses, or whose body scope
/// is missing, is discarded.
pub open spec fn spec_parse_fun_group(
    text: Seq<u8>,
    scopes: Seq<ScopeV>,
    g: Option<(usize, usize)>,
) -> Option<FunctionV> {
    match g {
        None => None,
        Some((ga, gb)) => {
            if !(ga <= gb <= text.len()) || gb < 1 {
                None
            } else {
                let def = text.subrange(ga as int, gb as int);
                let bo_o = spec_find_byte(def, 40, 0);
                let bc_o = spec_rfind_byte(def, 41, def.len() as int);
                if bo_o is None || bc_o is None {
                    None
                } else {
                    let bo = bo_o->Some_0;
                    let bc = bc_o->Some_0;
                    let tan = def.subrange(0, if 0 <= bo <= def.len() {
                        bo
                    } else {
                        0
                    });
                    let sep = match spec_rfind_byte(tan, 32, tan.len() as int) {
                        Some(x) => x,
                        None => 0,
                    };
                    if sep + 1 > tan.len() {
                        None
                    } else {
                        let inside = if 0 <= bo + 1 <= bc <= def.len() {
                            def.subrange(bo + 1, bc)
                        } else {
                            Seq::<u8>::empty()
                        };
                        match spec_find_scope_at(scopes, gb - 1, 0) {
                            Some(sc) => Some(
                                FunctionV {
                                    scope: sc,
                                    name: tan.subrange(sep + 1, tan.len() as int),
                                    ret_type: tan.subrange(0, sep),
                                    args: wrap_view(spec_extract_args(inside)),
                                    name_pos: ga + sep + 1,
                                },
                            ),
                            None => None,
                        }
                    }
                }
            }
        },
    }
}

fn parse_fun_group(text: &[u8], scopes: &Vec<SCOPE>, g: &Option<(usize, usize)>) -> (r: Option<
    FUNCTION,
>)
    ensures
        match r {
            Some(f) => spec_parse_fun_group(text@, scopes.deep_view(), *g) == Some(f.deep_view()),
            None => spec_parse_fun_group(text@, scopes.deep_view(), *g) is None,
        },
{
    let (ga, gb) = match g {
        Some(p) => *p,
        None => {
            return None;
        },
    };
    if !(ga <= gb && gb <= text.len()) || gb < 1 {
        return None;
    }
    let def = copy_range(text, ga, gb);
    let bo = match find_byte(def.as_slice(), 40, 0) {
        Some(x) => x,
        None => {
            return None;
        },
    };
    let bc = match rfind_byte(def.as_slice(), 41, def.len()) {
        Some(x) => x,
        None => {
            return None;
        },
    };
    let tan = copy_range(def.as_slice(), 0, bo);
    let sep = match rfind_byte(tan.as_slice(), 32, tan.len()) {
        Some(x) => x,
        None => 0,
    };
    if sep + 1 > tan.len() {
        return None;
    }
    let inside: Vec<u8> = if bo + 1 <= bc && bc <= def.len() {
        copy_range(def.as_slice(), bo + 1, bc)
    } else {
        Vec::new()
    };
    let plain = extract_args(inside.as_slice());
    let args = wrap_args(&plain);
    match find_scope_at(scopes, gb - 1) {
        Some(sc) => {
            let f = FUNCTION {
                scope: sc,
                name: copy_range(tan.as_slice(), sep + 1, tan.len()),
                ret_type: copy_range(tan.as_slice(), 0, sep),
                args,
                name_pos: ga + sep + 1,
            };
            proof {
                assert(f.deep_view() =~~= spec_parse_fun_group(
                    text@,
                    scopes.deep_view(),
                    *g,
                )->Some_0);
            }
            Some(f)
        },
        None => None,
    }
}

/// Parse one lambda match: the bracketed capture list and the
/// parenthesised parameter list are both argument lists; the body scope
/// must start where the match ends.
pub open spec fn spec_parse_lambda(
    text: Seq<u8>,
    scopes: Seq<ScopeV>,
    h: (usize, usize, Seq<Option<(usize, usize)>>),
) -> Option<LambdaV> {
    if !(h.0 <= h.1 <= text.len()) || h.1 < 1 {
        None
    } else {
        let sub = text.subrange(h.0 as int, h.1 as int);
        let ie_o = spec_find_byte(sub, 93, 0);
        let as_o = spec_find_byte(sub, 40, 0);
        let ae_o = spec_rfind_byte(sub, 41, sub.len() as int);
        if ie_o is None || as_o is None || ae_o is None {
            None
        } else {
            let ie = ie_o->Some_0;
            let astart = as_o->Some_0;
            let aend = ae_o->Some_0;
            if !(1 <= ie <= sub.len()) || !(0 <= astart + 1 <= aend <= sub.len()) {
                None
            } else {
                match spec_find_scope_at(scopes, h.1 - 1, 0) {
                    Some(sc) => Some(
                        LambdaV {
                            scope: sc,
                            imports: wrap_view(spec_extract_args(sub.subrange(1, ie))),
                            args: wrap_view(spec_extract_args(sub.subrange(astart + 1, aend))),
                        },
                    ),
                    None => None,
                }
            }
        }
    }
}

fn wrap_args(plain: &Vec<(Vec<u8>, Vec<u8>)>) -> (r: Vec<(StatefulClassConnection, Vec<u8>)>)
    ensures
        r.deep_view() == wrap_view(plain.deep_view()),
{
    let mut args: Vec<(StatefulClassConnection, Vec<u8>)> = Vec::new();
    let mut k: usize = 0;
    while k < plain.len()
        invariant
            k <= plain@.len(),
            args.deep_view() =~~= wrap_view(plain.deep_view().take(k as int)),
        decreases plain@.len() - k,
    {
        let (t, n) = (clone_bytes(&plain[k].0), clone_bytes(&plain[k].1));
        let ghost tv = t@;
        let ghost nv = n@;
        let ghost before = args.deep_view();
        args.push((StatefulClassConnection::Undiscovered(t), n));
        proof {
            let pd = plain.deep_view();
            assert(args.deep_view()[k as int] == (ConnV::Undiscovered(tv), nv));
            assert(args.deep_view()[k as int] =~~= wrap_view(pd.take(k + 1))[k as int]);
            assert forall|i: int| 0 <= i < k implies args.deep_view()[i] == wrap_view(
                pd.take(k + 1),
            )[i] by {
                assert(args.deep_view()[i] == before[i]);
                assert(before[i] == wrap_view(pd.take(k as int))[i]);
                assert(pd.take(k as int)[i] == pd[i]);
                assert(pd.take(k + 1)[i] == pd[i]);
            }
            assert(args.deep_view() =~~= wrap_view(pd.take(k + 1)));
        }
        k = k + 1;
    }
    proof {
        assert(plain.deep_view().take(plain@.len() as int) =~~= plain.deep_view());
        assert(args.deep_view() =~~= wrap_view(plain.deep_view()));
    }
    args
}

fn parse_lambda(text: &[u8], scopes: &Vec<SCOPE>, h: &Hit) -> (r: Option<LAMBDA>)
    ensures
        match r {
            Some(l) => spec_parse_lambda(text@, scopes.deep_view(), h@) == Some(l.deep_view()),
            None => spec_parse_lambda(text@, scopes.deep_view(), h@) is None,
        },
{
    if !(h.start <= h.end && h.end <= text.len()) || h.end < 1 {
        return None;
    }
    let sub = copy_range(text, h.start, h.end);
    let ie = match find_byte(sub.as_slice(), 93, 0) {
        Some(x) => x,
        None => {
            return None;
        },
    };
    let astart = match find_byte(sub.as_slice(), 40, 0) {
        Some(x) => x,
        None => {
            return None;
        },
    };
    let aend = match rfind_byte(sub.as_slice(), 41, sub.len()) {
        Some(x) => x,
        None => {
            return None;
        },
    };
    if !(1 <= ie && ie <= sub.len()) || !(astart + 1 <= aend && aend <= sub.len()) {
        return None;
    }
    let imports_p = {
        let seg = copy_range(sub.as_slice(), 1, ie);
        extract_args(seg.as_slice())
    };
    let args_p = {
        let seg = copy_range(sub.as_slice(), astart + 1, aend);
        extract_args(seg.as_slice())
    };
    match find_scope_at(scopes, h.end - 1) {
        Some(sc) => {
            let l = LAMBDA { scope: sc, imports: wrap_args(&imports_p), args: wrap_args(&args_p) };
            proof {
                assert(l.deep_view() =~~= spec_parse_lambda(text@, scopes.deep_view(), h@)->Some_0);
            }
            Some(l)
        },
        None => None,
    }
}


/// The matches of a pattern, empty when the engine rejects it.
pub open spec fn spec_hits_of(pattern: Seq<char>, text: Seq<u8>) -> Seq<
    (usize, usize, Seq<Option<(usize, usize)>>),
> {
    if pattern_ok(pattern) {
        pattern_hits(pattern, text)
    } else {
        Seq::empty()
    }
}

pub open spec fn spec_classes_in_hits(
    text: Seq<u8>,
    scopes: Seq<ScopeV>,
    hits: Seq<(usize, usize, Seq<Option<(usize, usize)>>)>,
    m: int,
) -> Seq<ClassV>
    decreases hits.len() - m,
{
    if m < 0 || m >= hits.len() {
        Seq::empty()
    } else {
        let rest = spec_classes_in_hits(text, scopes, hits, m + 1);
        match spec_parse_class(text, scopes, hits[m]) {
            Some(c) => seq![c] + rest,
            None => rest,
        }
    }
}

pub open spec fn spec_classes_in_bank(
    text: Seq<u8>,
    scopes: Seq<ScopeV>,
    bank: Seq<Seq<char>>,
    p: int,
) -> Seq<ClassV>
    decreases bank.len() - p,
{
    if p < 0 || p >= bank.len() {
        Seq::empty()
    } else {
        spec_classes_in_hits(text, scopes, spec_hits_of(bank[p], text), 0)
            + spec_classes_in_bank(text, scopes, bank, p + 1)
    }
}

/// Every class the bank's patterns find in the text, in match order.
pub fn extract_classes(text: &[u8], scopes: &Vec<SCOPE>, bank: &Vec<&str>) -> (r: Vec<CLASS>)
    ensures
        r.deep_view() == spec_classes_in_bank(text@, scopes.deep_view(), bank.deep_view(), 0),
{
    let ghost sv = scopes.deep_view();
    let ghost bv = bank.deep_view();
    let mut r: Vec<CLASS> = Vec::new();
    let mut p: usize = 0;
    proof {
        assert(r.deep_view() + spec_classes_in_bank(text@, sv, bv, 0) =~~= spec_classes_in_bank(
            text@,
            sv,
            bv,
            0,
        ));
    }
    while p < bank.len()
        invariant
            p <= bank@.len(),
            sv == scopes.deep_view(),
            bv == bank.deep_view(),
            bv.len() == bank@.len(),
            spec_classes_in_bank(text@, sv, bv, 0) == r.deep_view() + spec_classes_in_bank(
                text@,
                sv,
                bv,
                p as int,
            ),
        decreases bank@.len() - p,
    {
        let hits = pattern_matches_or_empty(bank[p], text);
        let ghost hv = hits.deep_view();
        proof {
            assert(hv == spec_hits_of(bv[p as int], text@));
        }
        let mut m: usize = 0;
        while m < hits.len()
            invariant
                m <= hits@.len(),
                sv == scopes.deep_view(),
                bv == bank.deep_view(),
                p < bv.len(),
                hv == hits.deep_view(),
                hv.len() == hits@.len(),
                spec_classes_in_bank(text@, sv, bv, 0) == r.deep_view() + spec_classes_in_hits(
                    text@,
                    sv,
                    hv,
                    m as int,
                ) + spec_classes_in_bank(text@, sv, bv, p + 1),
            decreases hits@.len() - m,
        {
            let ghost pre = r.deep_view();
            match parse_class(text, scopes, &hits[m]) {
                Some(c) => {
                    let ghost cv = c.deep_view();
                    r.push(c);
                    proof {
                        assert(r.deep_view() =~~= pre + seq![cv]);
                        assert((pre + seq![cv]) + (spec_classes_in_hits(text@, sv, hv, m + 1)
                            + spec_classes_in_bank(text@, sv, bv, p + 1)) =~~= (pre + (seq![cv]
                            + spec_classes_in_hits(text@, sv, hv, m + 1)) + spec_classes_in_bank(
                            text@,
                            sv,
                            bv,
                            p + 1,
                        )));
                    }
                },
                None => {},
            }
            m = m + 1;
        }
        p = p + 1;
    }
    proof {
        assert(r.deep_view() + spec_classes_in_bank(text@, sv, bv, bv.len() as int)
            =~~= r.deep_view());
    }
    r
}

pub open spec fn spec_objects_in_hits(
    text: Seq<u8>,
    scopes: Seq<ScopeV>,
    hits: Seq<(usize, usize, Seq<Option<(usize, usize)>>)>,
    m: int,
) -> Seq<ObjectV>
    decreases hits.len() - m,
{
    if m < 0 || m >= hits.len() {
        Seq::empty()
    } else {
        let rest = spec_objects_in_hits(text, scopes, hits, m + 1);
        match spec_parse_object(text, scopes, hits[m]) {
            Some(o) => seq![o] + rest,
            None => rest,
        }
    }
}

pub open spec fn spec_objects_in_bank(
    text: Seq<u8>,
    scopes: Seq<ScopeV>,
    bank: Seq<Seq<char>>,
    p: int,
) -> Seq<ObjectV>
    decreases bank.len() - p,
{
    if p < 0 || p >= bank.len() {
        Seq::empty()
    } else {
        spec_objects_in_hits(text, scopes, spec_hits_of(bank[p], text), 0)
            + spec_objects_in_bank(text, scopes, bank, p + 1)
    }
}

/// Every object declaration the bank's patterns find, except visibility
/// false positives, anchored to its innermost enclosing scope.
pub fn extract_objects(text: &[u8], scopes: &Vec<SCOPE>, bank: &Vec<&str>) -> (r: Vec<OBJECT>)
    requires
        scopes@.len() >= 1,
    ensures
        r.deep_view() == spec_objects_in_bank(text@, scopes.deep_view(), bank.deep_view(), 0),
{
    let ghost sv = scopes.deep_view();
    let ghost bv = bank.deep_view();
    let mut r: Vec<OBJECT> = Vec::new();
    let mut p: usize = 0;
    proof {
        assert(r.deep_view() + spec_objects_in_bank(text@, sv, bv, 0) =~~= spec_objects_in_bank(
            text@,
            sv,
            bv,
            0,
        ));
    }
    while p < bank.len()
        invariant
            p <= bank@.len(),
            sv == scopes.deep_view(),
            bv == bank.deep_view(),
            bv.len() == bank@.len(),
            scopes@.len() >= 1,
            spec_objects_in_bank(text@, sv, bv, 0) == r.deep_view() + spec_objects_in_bank(
                text@,
                sv,
                bv,
                p as int,
            ),
        decreases bank@.len() - p,
    {
        let hits = pattern_matches_or_empty(bank[p], text);
        let ghost hv = hits.deep_view();
        let mut m: usize = 0;
        while m < hits.len()
            invariant
                m <= hits@.len(),
                sv == scopes.deep_view(),
                bv == bank.deep_view(),
                p < bv.len(),
                hv == hits.deep_view(),
                hv.len() == hits@.len(),
                scopes@.len() >= 1,
                spec_objects_in_bank(text@, sv, bv, 0) == r.deep_view() + spec_objects_in_hits(
                    text@,
                    sv,
                    hv,
                    m as int,
                ) + spec_objects_in_bank(text@, sv, bv, p + 1),
            decreases hits@.len() - m,
        {
            let ghost pre = r.deep_view();
            match parse_object(text, scopes, &hits[m]) {
                Some(o) => {
                    let ghost ov = o.deep_view();
                    r.push(o);
                    proof {
                        assert(r.deep_view() =~~= pre + seq![ov]);
                        assert((pre + seq![ov]) + (spec_objects_in_hits(text@, sv, hv, m + 1)
                            + spec_objects_in_bank(text@, sv, bv, p + 1)) =~~= (pre + (seq![ov]
                            + spec_objects_in_hits(text@, sv, hv, m + 1)) + spec_objects_in_bank(
                            text@,
                            sv,
                            bv,
                            p + 1,
                        )));
                    }
                },
                None => {},
            }
            m = m + 1;
        }
        p = p + 1;
    }
    proof {
        assert(r.deep_view() + spec_objects_in_bank(text@, sv, bv, bv.len() as int)
            =~~= r.deep_view());
    }
    r
}

pub open spec fn spec_funs_in_groups(
    text: Seq<u8>,
    scopes: Seq<ScopeV>,
    groups: Seq<Option<(usize, usize)>>,
    g: int,
) -> Seq<FunctionV>
    decreases groups.len() - g,
{
    if g < 0 || g >= groups.len() {
        Seq::empty()
    } else {
        let rest = spec_funs_in_groups(text, scopes, groups, g + 1);
        match spec_parse_fun_group(text, scopes, groups[g]) {
            Some(f) => seq![f] + rest,
            None => rest,
        }
    }
}

pub open spec fn spec_funs_in_hits(
    text: Seq<u8>,
    scopes: Seq<ScopeV>,
    hits: Seq<(usize, usize, Seq<Option<(usize, usize)>>)>,
    m: int,
) -> Seq<FunctionV>
    decreases hits.len() - m,
{
    if m < 0 || m >= hits.len() {
        Seq::empty()
    } else {
        spec_funs_in_groups(text, scopes, hits[m].2, 0) + spec_funs_in_hits(
            text,
            scopes,
            hits,
            m + 1,
        )
    }
}

pub open spec fn spec_funs_in_bank(
    text: Seq<u8>,
    scopes: Seq<ScopeV>,
    bank: Seq<Seq<char>>,
    p: int,
) -> Seq<FunctionV>
    decreases bank.len() - p,
{
    if p < 0 || p >= bank.len() {
        Seq::empty()
    } else {
        spec_funs_in_hits(text, scopes, spec_hits_of(bank[p], text), 0) + spec_funs_in_bank(
            text,
            scopes,
            bank,
            p + 1,
        )
    }
}

/// Every function definition the bank's patterns find; every capture
/// group of a match is tried as a candidate, so a greedy pattern may
/// contribute more than one record per match.
pub fn extract_functions(text: &[u8], scopes: &Vec<SCOPE>, bank: &Vec<&str>) -> (r: Vec<FUNCTION>)
    ensures
        r.deep_view() == spec_funs_in_bank(text@, scopes.deep_view(), bank.deep_view(), 0),
{
    let ghost sv = scopes.deep_view();
    let ghost bv = bank.deep_view();
    let mut r: Vec<FUNCTION> = Vec::new();
    let mut p: usize = 0;
    proof {
        assert(r.deep_view() + spec_funs_in_bank(text@, sv, bv, 0) =~~= spec_funs_in_bank(
            text@,
            sv,
            bv,
            0,
        ));
    }
    while p < bank.len()
        invariant
            p <= bank@.len(),
            sv == scopes.deep_view(),
            bv == bank.deep_view(),
            bv.len() == bank@.len(),
            spec_funs_in_bank(text@, sv, bv, 0) == r.deep_view() + spec_funs_in_bank(
                text@,
                sv,
                bv,
                p as int,
            ),
        decreases bank@.len() - p,
    {
        let hits = pattern_matches_or_empty(bank[p], text);
        let ghost hv = hits.deep_view();
        let mut m: usize = 0;
        while m < hits.len()
            invariant
                m <= hits@.len(),
                sv == scopes.deep_view(),
                bv == bank.deep_view(),
                p < bv.len(),
                hv == hits.deep_view(),
                hv.len() == hits@.len(),
                spec_funs_in_bank(text@, sv, bv, 0) == r.deep_view() + spec_funs_in_hits(
                    text@,
                    sv,
                    hv,
                    m as int,
                ) + spec_funs_in_bank(text@, sv, bv, p + 1),
            decreases hits@.len() - m,
        {
            let groups = &hits[m].groups;
            let ghost gv = hv[m as int].2;
            proof {
                assert(gv == groups@);
            }
            let mut g: usize = 0;
            while g < groups.len()
                invariant
                    g <= groups@.len(),
                    sv == scopes.deep_view(),
                    bv == bank.deep_view(),
                    gv == groups@,
                    spec_funs_in_bank(text@, sv, bv, 0) == r.deep_view() + spec_funs_in_groups(
                        text@,
                        sv,
                        gv,
                        g as int,
                    ) + spec_funs_in_hits(text@, sv, hv, m + 1) + spec_funs_in_bank(
                        text@,
                        sv,
                        bv,
                        p + 1,
                    ),
                decreases groups@.len() - g,
            {
                let ghost pre = r.deep_view();
                match parse_fun_group(text, scopes, &groups[g]) {
                    Some(f) => {
                        let ghost fv = f.deep_view();
                        r.push(f);
                        proof {
                            assert(r.deep_view() =~~= pre + seq![fv]);
                            let t1 = spec_funs_in_groups(text@, sv, gv, g + 1);
                            let t2 = spec_funs_in_hits(text@, sv, hv, m + 1);
                            let t3 = spec_funs_in_bank(text@, sv, bv, p + 1);
                            assert((pre + seq![fv]) + t1 + t2 + t3 =~~= pre + (seq![fv] + t1) + t2
                                + t3);
                        }
                    },
                    None => {},
                }
                g = g + 1;
            }
            m = m + 1;
        }
        p = p + 1;
    }
    proof {
        assert(r.deep_view() + spec_funs_in_bank(text@, sv, bv, bv.len() as int)
            =~~= r.deep_view());
    }
    r
}

pub open spec fn spec_lambdas_in_hits(
    text: Seq<u8>,
    scopes: Seq<ScopeV>,
    hits: Seq<(usize, usize, Seq<Option<(usize, usize)>>)>,
    m: int,
) -> Seq<LambdaV>
    decreases hits.len() - m,
{
    if m < 0 || m >= hits.len() {
        Seq::empty()
    } else {
        let rest = spec_lambdas_in_hits(text, scopes, hits, m + 1);
        match spec_parse_lambda(text, scopes, hits[m]) {
            Some(l) => seq![l] + rest,
            None => rest,
        }
    }
}

pub open spec fn spec_lambdas_in_bank(
    text: Seq<u8>,
    scopes: Seq<ScopeV>,
    bank: Seq<Seq<char>>,
    p: int,
) -> Seq<LambdaV>
    decreases bank.len() - p,
{
    if p < 0 || p >= bank.len() {
        Seq::empty()
    } else {
        spec_lambdas_in_hits(text, scopes, spec_hits_of(bank[p], text), 0)
            + spec_lambdas_in_bank(text, scopes, bank, p + 1)
    }
}

/// Every lambda the bank's patterns find.
pub fn extract_lambdas(text: &[u8], scopes: &Vec<SCOPE>, bank: &Vec<&str>) -> (r: Vec<LAMBDA>)
    ensures
        r.deep_view() == spec_lambdas_in_bank(text@, scopes.deep_view(), bank.deep_view(), 0),
{
    let ghost sv = scopes.deep_view();
    let ghost bv = bank.deep_view();
    let mut r: Vec<LAMBDA> = Vec::new();
    let mut p: usize = 0;
    proof {
        assert(r.deep_view() + spec_lambdas_in_bank(text@, sv, bv, 0) =~~= spec_lambdas_in_bank(
            text@,
            sv,
            bv,
            0,
        ));
    }
    while p < bank.len()
        invariant
            p <= bank@.len(),
            sv == scopes.deep_view(),
            bv == bank.deep_view(),
            bv.len() == bank@.len(),
            spec_lambdas_in_bank(text@, sv, bv, 0) == r.deep_view() + spec_lambdas_in_bank(
                text@,
                sv,
                bv,
                p as int,
            ),
        decreases bank@.len() - p,
    {
        let hits = pattern_matches_or_empty(bank[p], text);
        let ghost hv = hits.deep_view();
        let mut m: usize = 0;
        while m < hits.len()
            invariant
                m <= hits@.len(),
                sv == scopes.deep_view(),
                bv == bank.deep_view(),
                p < bv.len(),
                hv == hits.deep_view(),
                hv.len() == hits@.len(),
                spec_lambdas_in_bank(text@, sv, bv, 0) == r.deep_view() + spec_lambdas_in_hits(
                    text@,
                    sv,
                    hv,
                    m as int,
                ) + spec_lambdas_in_bank(text@, sv, bv, p + 1),
            decreases hits@.len() - m,
        {
            let ghost pre = r.deep_view();
            match parse_lambda(text, scopes, &hits[m]) {
                Some(l) => {
                    let ghost lv = l.deep_view();
                    r.push(l);
                    proof {
                        assert(r.deep_view() =~~= pre + seq![lv]);
                        assert((pre + seq![lv]) + (spec_lambdas_in_hits(text@, sv, hv, m + 1)
                            + spec_lambdas_in_bank(text@, sv, bv, p + 1)) =~~= (pre + (seq![lv]
                            + spec_lambdas_in_hits(text@, sv, hv, m + 1)) + spec_lambdas_in_bank(
                            text@,
                            sv,
                            bv,
                            p + 1,
                        )));
                    }
                },
                None => {},
            }
            m = m + 1;
        }
        p = p + 1;
    }
    proof {
        assert(r.deep_view() + spec_lambdas_in_bank(text@, sv, bv, bv.len() as int)
            =~~= r.deep_view());
    }
    r
}

/// Parse one assignment match: the first capture group whose text holds
/// `=` decides; the text before the `=` is the left span, the text after
/// it is trimmed and stripped of its trailing delimiter; both spans carry
/// absolute offsets.  A group whose right side is empty after trimming
/// yields nothing, and later groups are not consulted.
pub open spec fn spec_parse_equation(
    text: Seq<u8>,
    groups: Seq<Option<(usize, usize)>>,
    g: int,
) -> Option<EquationV>
    decreases groups.len() - g,
{
    if g < 0 || g >= groups.len() {
        None
    } else {
        match groups[g] {
            Some((a, b)) => {
                if a <= b && b <= text.len() {
                    let sub = text.subrange(a as int, b as int);
                    match spec_find_byte(sub, 61, 0) {
                        Some(eq_pos) => {
                            let lhs = sub.subrange(0, eq_pos);
                            let rwc = spec_trim_range(sub, eq_pos + 1, sub.len() as int);
                            if rwc.len() >= 1 {
                                let rhs = spec_trim_range(rwc, 0, rwc.len() - 1);
                                let off = crate::bytes::spec_skip_ws(sub, eq_pos + 1);
                                Some(
                                    EquationV {
                                        lhs: (a as int, lhs),
                                        rhs: (a + off, rhs),
                                    },
                                )
                            } else {
                                None
                            }
                        },
                        None => spec_parse_equation(text, groups, g + 1),
                    }
                } else {
                    spec_parse_equation(text, groups, g + 1)
                }
            },
            None => spec_parse_equation(text, groups, g + 1),
        }
    }
}

pub open spec fn spec_equations_in_hits(
    text: Seq<u8>,
    hits: Seq<(usize, usize, Seq<Option<(usize, usize)>>)>,
    m: int,
) -> Seq<EquationV>
    decreases hits.len() - m,
{
    if m < 0 || m >= hits.len() {
        Seq::empty()
    } else {
        let rest = spec_equations_in_hits(text, hits, m + 1);
        match spec_parse_equation(text, hits[m].2, 0) {
            Some(e) => seq![e] + rest,
            None => rest,
        }
    }
}

pub open spec fn spec_equations_in_bank(text: Seq<u8>, bank: Seq<Seq<char>>, p: int) -> Seq<
    EquationV,
>
    decreases bank.len() - p,
{
    if p < 0 || p >= bank.len() {
        Seq::empty()
    } else {
        spec_equations_in_hits(text, spec_hits_of(bank[p], text), 0) + spec_equations_in_bank(
            text,
            bank,
            p + 1,
        )
    }
}

fn parse_equation(text: &[u8], h: &Hit) -> (r: Option<EQUATION>)
    ensures
        match r {
            Some(e) => spec_parse_equation(text@, h@.2, 0) == Some(e.deep_view()),
            None => spec_parse_equation(text@, h@.2, 0) is None,
        },
{
    let mut g: usize = 0;
    while g < h.groups.len()
        invariant
            g <= h.groups@.len(),
            spec_parse_equation(text@, h@.2, 0) == spec_parse_equation(text@, h@.2, g as int),
        decreases h.groups@.len() - g,
    {
        match h.groups[g] {
            Some((a, b)) => {
                if a <= b && b <= text.len() {
                    let sub = copy_range(text, a, b);
                    match find_byte(sub.as_slice(), 61, 0) {
                        Some(eq_pos) => {
                            let lhs = copy_range(sub.as_slice(), 0, eq_pos);
                            let rwc = trim_range(sub.as_slice(), eq_pos + 1, sub.len());
                            if rwc.len() >= 1 {
                                let rhs = trim_range(rwc.as_slice(), 0, rwc.len() - 1);
                                let off = crate::bytes::skip_ws(sub.as_slice(), eq_pos + 1);
                                proof {
                                    crate::bytes::lemma_skip_ws_bounds(sub@, eq_pos + 1);
                                }
                                let e = EQUATION { lhs: (a, lhs), rhs: (a + off, rhs) };
                                proof {
                                    assert(e.deep_view() =~~= spec_parse_equation(
                                        text@,
                                        h@.2,
                                        g as int,
                                    )->Some_0);
                                }
                                return Some(e);
                            } else {
                                return None;
                            }
                        },
                        None => {},
                    }
                }
            },
            None => {},
        }
        g = g + 1;
    }
    None
}

/// Assignments found by the bank: for each match, the first capture group
/// whose text holds `=` is split at that `=`; the right span is trimmed
/// and stripped of its trailing delimiter.  Both spans carry absolute
/// offsets into the text.
pub fn extract_equations(text: &[u8], bank: &Vec<&str>) -> (r: Vec<EQUATION>)
    ensures
        r.deep_view() == spec_equations_in_bank(text@, bank.deep_view(), 0),
{
    let ghost bv = bank.deep_view();
    let mut r: Vec<EQUATION> = Vec::new();
    let mut p: usize = 0;
    proof {
        assert(r.deep_view() + spec_equations_in_bank(text@, bv, 0) =~~= spec_equations_in_bank(
            text@,
            bv,
            0,
        ));
    }
    while p < bank.len()
        invariant
            p <= bank@.len(),
            bv == bank.deep_view(),
            bv.len() == bank@.len(),
            spec_equations_in_bank(text@, bv, 0) == r.deep_view() + spec_equations_in_bank(
                text@,
                bv,
                p as int,
            ),
        decreases bank@.len() - p,
    {
        let hits = pattern_matches_or_empty(bank[p], text);
        let ghost hv = hits.deep_view();
        let mut m: usize = 0;
        while m < hits.len()
            invariant
                m <= hits@.len(),
                bv == bank.deep_view(),
                p < bv.len(),
                hv == hits.deep_view(),
                hv.len() == hits@.len(),
                spec_equations_in_bank(text@, bv, 0) == r.deep_view() + spec_equations_in_hits(
                    text@,
                    hv,
                    m as int,
                ) + spec_equations_in_bank(text@, bv, p + 1),
            decreases hits@.len() - m,
        {
            let ghost pre = r.deep_view();
            match parse_equation(text, &hits[m]) {
                Some(e) => {
                    let ghost ev = e.deep_view();
                    r.push(e);
                    proof {
                        assert(r.deep_view() =~~= pre + seq![ev]);
                        assert((pre + seq![ev]) + (spec_equations_in_hits(text@, hv, m + 1)
                            + spec_equations_in_bank(text@, bv, p + 1)) =~~= (pre + (seq![ev]
                            + spec_equations_in_hits(text@, hv, m + 1)) + spec_equations_in_bank(
                            text@,
                            bv,
                            p + 1,
                        )));
                    }
                },
                None => {},
            }
            m = m + 1;
        }
        p = p + 1;
    }
    proof {
        assert(r.deep_view() + spec_equations_in_bank(text@, bv, bv.len() as int)
            =~~= r.deep_view());
    }
    r
}

/// Whether some extracted function's name offset is exactly `pos`: such
/// a position is the declaration itself, not a call site.
pub open spec fn spec_decl_at(funs: Seq<FunctionV>, pos: int, k: int) -> bool
    decreases funs.len() - k,
{
    if k < 0 || k >= funs.len() {
        false
    } else if funs[k].name_pos == pos {
        true
    } else {
        spec_decl_at(funs, pos, k + 1)
    }
}

/// The single ambiguous reference a call's argument scope yields: its
/// content from the first non-whitespace byte to the end, at its
/// absolute offset.
pub open spec fn spec_call_vars(scopes: Seq<ScopeV>, vs: int, file_i: int) -> Seq<PtrV> {
    if 0 <= vs < scopes.len() {
        let content = scopes[vs].content;
        let cur0 = crate::bytes::spec_skip_ws(content, 0);
        if 0 <= cur0 < content.len() && scopes[vs].start + 1 + cur0 <= usize::MAX {
            seq![
                PtrV::Ambiguous(
                    file_i,
                    scopes[vs].start + 1 + cur0,
                    content.subrange(cur0, content.len() as int),
                ),
            ]
        } else {
            Seq::empty()
        }
    } else {
        Seq::empty()
    }
}

/// Parse one call-site match: a match starting at a known declaration's
/// name offset is skipped; the callee name is the matched text minus its
/// trailing byte; the argument scope is the scope starting exactly where
/// the match ends, or the candidate is dropped.
pub open spec fn spec_parse_call(
    text: Seq<u8>,
    scopes: Seq<ScopeV>,
    funs: Seq<FunctionV>,
    file_i: int,
    h: (usize, usize, Seq<Option<(usize, usize)>>),
) -> Option<CallV> {
    if spec_decl_at(funs, h.0 as int, 0) {
        None
    } else if !(h.0 < h.1 && h.1 <= text.len()) {
        None
    } else {
        match spec_find_scope_at(scopes, h.1 - 1, 0) {
            Some(vs) => Some(
                CallV {
                    start: h.0 as int,
                    name: text.subrange(h.0 as int, h.1 - 1),
                    vars_scope: vs,
                    vars: spec_call_vars(scopes, vs, file_i),
                },
            ),
            None => None,
        }
    }
}

pub open spec fn spec_calls_in_hits(
    text: Seq<u8>,
    scopes: Seq<ScopeV>,
    funs: Seq<FunctionV>,
    file_i: int,
    hits: Seq<(usize, usize, Seq<Option<(usize, usize)>>)>,
    m: int,
) -> Seq<CallV>
    decreases hits.len() - m,
{
    if m < 0 || m >= hits.len() {
        Seq::empty()
    } else {
        let rest = spec_calls_in_hits(text, scopes, funs, file_i, hits, m + 1);
        match spec_parse_call(text, scopes, funs, file_i, hits[m]) {
            Some(c) => seq![c] + rest,
            None => rest,
        }
    }
}

pub open spec fn spec_calls_in_bank(
    text: Seq<u8>,
    scopes: Seq<ScopeV>,
    funs: Seq<FunctionV>,
    bank: Seq<Seq<char>>,
    file_i: int,
    p: int,
) -> Seq<CallV>
    decreases bank.len() - p,
{
    if p < 0 || p >= bank.len() {
        Seq::empty()
    } else {
        spec_calls_in_hits(text, scopes, funs, file_i, spec_hits_of(bank[p], text), 0)
            + spec_calls_in_bank(text, scopes, funs, bank, file_i, p + 1)
    }
}

fn parse_call(
    text: &[u8],
    scopes: &Vec<SCOPE>,
    functions: &Vec<FUNCTION>,
    file_i: usize,
    h: &Hit,
) -> (r: Option<FUNCTIONCALL>)
    requires
        h@.0 <= h@.1 <= text@.len(),
    ensures
        match r {
            Some(c) => spec_parse_call(
                text@,
                scopes.deep_view(),
                functions.deep_view(),
                file_i as int,
                h@,
            ) == Some(c.deep_view()) && 0 <= c.deep_view().vars_scope < scopes@.len(),
            None => spec_parse_call(
                text@,
                scopes.deep_view(),
                functions.deep_view(),
                file_i as int,
                h@,
            ) is None,
        },
{
    let ghost fv = functions.deep_view();
    let mut is_declaration = false;
    let mut f: usize = 0;
    while f < functions.len()
        invariant
            f <= functions@.len(),
            fv == functions.deep_view(),
            fv.len() == functions@.len(),
            is_declaration ==> spec_decl_at(fv, h@.0 as int, 0),
            !is_declaration ==> spec_decl_at(fv, h@.0 as int, 0) == spec_decl_at(
                fv,
                h@.0 as int,
                f as int,
            ),
        decreases functions@.len() - f,
    {
        if !is_declaration && functions[f].name_pos == h.start {
            is_declaration = true;
        }
        f = f + 1;
    }
    if is_declaration {
        return None;
    }
    if !(h.start < h.end && h.end <= text.len()) {
        return None;
    }
    match find_scope_at(scopes, h.end - 1) {
        Some(vs) => {
            let name = copy_range(text, h.start, h.end - 1);
            let sc_start = scopes[vs].start;
            let content = &scopes[vs].content;
            let mut vars: Vec<CodeElementPointer> = Vec::new();
            let cur0 = crate::bytes::skip_ws(content.as_slice(), 0);
            proof {
                crate::bytes::lemma_skip_ws_bounds(content@, 0);
            }
            if cur0 < content.len() && sc_start <= usize::MAX - 1 - cur0 {
                let blob = copy_range(content.as_slice(), cur0, content.len());
                vars.push(CodeElementPointer::Ambiguous(file_i, sc_start + 1 + cur0, blob));
            }
            let c = FUNCTIONCALL { start: h.start, name, vars_scope: vs, vars };
            proof {
                assert(c.deep_view().vars =~~= spec_call_vars(
                    scopes.deep_view(),
                    vs as int,
                    file_i as int,
                ));
                assert(c.deep_view() =~~= spec_parse_call(
                    text@,
                    scopes.deep_view(),
                    fv,
                    file_i as int,
                    h@,
                )->Some_0);
            }
            Some(c)
        },
        None => None,
    }
}

/// Call sites found by the bank: a match starting exactly at a known
/// function declaration's name offset is the declaration itself and is
/// skipped; a call whose argument scope cannot be located is dropped; the
/// argument text is kept as one ambiguous reference.
pub fn extract_function_calls(
    text: &[u8],
    scopes: &Vec<SCOPE>,
    functions: &Vec<FUNCTION>,
    bank: &Vec<&str>,
    file_i: usize,
) -> (r: Vec<FUNCTIONCALL>)
    ensures
        r.deep_view() == spec_calls_in_bank(
            text@,
            scopes.deep_view(),
            functions.deep_view(),
            bank.deep_view(),
            file_i as int,
            0,
        ),
        forall|i: int|
            0 <= i < r.deep_view().len() ==> 0 <= #[trigger] r.deep_view()[i].vars_scope
                < scopes@.len(),
{
    let ghost sv = scopes.deep_view();
    let ghost fv = functions.deep_view();
    let ghost bv = bank.deep_view();
    let mut r: Vec<FUNCTIONCALL> = Vec::new();
    let mut p: usize = 0;
    proof {
        assert(r.deep_view() + spec_calls_in_bank(text@, sv, fv, bv, file_i as int, 0)
            =~~= spec_calls_in_bank(text@, sv, fv, bv, file_i as int, 0));
    }
    while p < bank.len()
        invariant
            p <= bank@.len(),
            sv == scopes.deep_view(),
            sv.len() == scopes@.len(),
            fv == functions.deep_view(),
            bv == bank.deep_view(),
            bv.len() == bank@.len(),
            spec_calls_in_bank(text@, sv, fv, bv, file_i as int, 0) == r.deep_view()
                + spec_calls_in_bank(text@, sv, fv, bv, file_i as int, p as int),
            forall|i: int|
                0 <= i < r.deep_view().len() ==> 0 <= #[trigger] r.deep_view()[i].vars_scope
                    < scopes@.len(),
        decreases bank@.len() - p,
    {
        let hits = pattern_matches_or_empty(bank[p], text);
        let ghost hv = hits.deep_view();
        let mut m: usize = 0;
        while m < hits.len()
            invariant
                m <= hits@.len(),
                sv == scopes.deep_view(),
                sv.len() == scopes@.len(),
                fv == functions.deep_view(),
                bv == bank.deep_view(),
                p < bv.len(),
                hv == hits.deep_view(),
                hv.len() == hits@.len(),
                forall|k: int|
                    0 <= k < hv.len() ==> hit_wf(#[trigger] hv[k], text@.len() as int),
                spec_calls_in_bank(text@, sv, fv, bv, file_i as int, 0) == r.deep_view()
                    + spec_calls_in_hits(text@, sv, fv, file_i as int, hv, m as int)
                    + spec_calls_in_bank(text@, sv, fv, bv, file_i as int, p + 1),
                forall|i: int|
                    0 <= i < r.deep_view().len() ==> 0 <= #[trigger] r.deep_view()[i].vars_scope
                        < scopes@.len(),
            decreases hits@.len() - m,
        {
            proof {
                assert(hit_wf(hv[m as int], text@.len() as int));
            }
            let ghost pre = r.deep_view();
            match parse_call(text, scopes, functions, file_i, &hits[m]) {
                Some(c) => {
                    let ghost cv = c.deep_view();
                    r.push(c);
                    proof {
                        assert(r.deep_view() =~~= pre + seq![cv]);
                        assert((pre + seq![cv]) + (spec_calls_in_hits(
                            text@,
                            sv,
                            fv,
                            file_i as int,
                            hv,
                            m + 1,
                        ) + spec_calls_in_bank(text@, sv, fv, bv, file_i as int, p + 1)) =~~= (pre
                            + (seq![cv] + spec_calls_in_hits(
                            text@,
                            sv,
                            fv,
                            file_i as int,
                            hv,
                            m + 1,
                        )) + spec_calls_in_bank(text@, sv, fv, bv, file_i as int, p + 1)));
                        assert forall|i: int| 0 <= i < r.deep_view().len() implies 0
                            <= #[trigger] r.deep_view()[i].vars_scope < scopes@.len() by {
                            if i < pre.len() {
                                assert(r.deep_view()[i] == pre[i]);
                            }
                        }
                    }
                },
                None => {},
            }
            m = m + 1;
        }
        p = p + 1;
    }
    proof {
        assert(r.deep_view() + spec_calls_in_bank(
            text@,
            sv,
            fv,
            bv,
            file_i as int,
            bv.len() as int,
        ) =~~= r.deep_view());
    }
    r
}

/// First position at or after `i` that is not an access separator
/// (whitespace, `.`, or the two-byte arrow).
pub open spec fn spec_skip_seps(text: Seq<u8>, i: int) -> int
    decreases text.len() - i,
{
    if i < 0 {
        i
    } else if i >= text.len() {
        text.len() as int
    } else if crate::bytes::spec_is_ws(text[i]) || text[i] == 46 {
        spec_skip_seps(text, i + 1)
    } else if text[i] == 45 && i + 1 < text.len() && text[i + 1] == 62 {
        spec_skip_seps(text, i + 2)
    } else {
        i
    }
}

/// Which bytes an access chain steps over between its references.
fn skip_access_seps(text: &[u8], from: usize) -> (r: usize)
    requires
        from <= text@.len(),
    ensures
        r == spec_skip_seps(text@, from as int),
        from <= r <= text@.len(),
{
    let mut i = from;
    while i < text.len()
        invariant
            from <= i <= text@.len(),
            spec_skip_seps(text@, from as int) == spec_skip_seps(text@, i as int),
        decreases text@.len() - i,
    {
        let b = text[i];
        if crate::bytes::is_ws(b) || b == 46 {
            i = i + 1;
        } else if b == 45 && i + 1 < text.len() && text[i + 1] == 62 {
            i = i + 2;
        } else {
            return i;
        }
    }
    i
}

/// End of the maximal identifier run (letters, digits, underscore)
/// starting at `i`.
pub open spec fn spec_word_end(text: Seq<u8>, i: int) -> int
    decreases text.len() - i,
{
    if i < 0 {
        i
    } else if i >= text.len() {
        text.len() as int
    } else if (48 <= text[i] && text[i] <= 57) || (65 <= text[i] && text[i] <= 90) || (97
        <= text[i] && text[i] <= 122) || text[i] == 95 {
        spec_word_end(text, i + 1)
    } else {
        i
    }
}

/// A maximal identifier run starting at `from`.
fn take_word(text: &[u8], from: usize) -> (r: (Vec<u8>, usize))
    requires
        from <= text@.len(),
    ensures
        r.1 == spec_word_end(text@, from as int),
        from <= r.1 <= text@.len(),
        r.0@ == text@.subrange(from as int, r.1 as int),
{
    let mut i = from;
    while i < text.len()
        invariant
            from <= i <= text@.len(),
            spec_word_end(text@, from as int) == spec_word_end(text@, i as int),
        decreases text@.len() - i,
    {
        let b = text[i];
        let is_word = (48 <= b && b <= 57) || (65 <= b && b <= 90) || (97 <= b && b <= 122) || b
            == 95;
        if !is_word {
            return (copy_range(text, from, i), i);
        }
        i = i + 1;
    }
    (copy_range(text, from, i), i)
}

/// First call site starting exactly at `pos`.
pub open spec fn spec_call_at(calls: Seq<CallV>, pos: int, k: int) -> Option<int>
    decreases calls.len() - k,
{
    if k < 0 || k >= calls.len() {
        None
    } else if calls[k].start == pos {
        Some(k)
    } else {
        spec_call_at(calls, pos, k + 1)
    }
}

fn find_call_at(calls: &Vec<FUNCTIONCALL>, pos: usize) -> (r: Option<usize>)
    ensures
        match r {
            Some(k) => k < calls@.len() && spec_call_at(calls.deep_view(), pos as int, 0) == Some(
                k as int,
            ),
            None => spec_call_at(calls.deep_view(), pos as int, 0) is None,
        },
{
    let ghost cv = calls.deep_view();
    let mut k: usize = 0;
    while k < calls.len()
        invariant
            k <= calls@.len(),
            cv == calls.deep_view(),
            cv.len() == calls@.len(),
            spec_call_at(cv, pos as int, 0) == spec_call_at(cv, pos as int, k as int),
        decreases calls@.len() - k,
    {
        if calls[k].start == pos {
            return Some(k);
        }
        k = k + 1;
    }
    None
}

/// One step's landing point after a recorded call: past the call's
/// argument scope when that scope is known, otherwise unchanged.
pub open spec fn spec_jump_after_call(
    text: Seq<u8>,
    scopes: Seq<ScopeV>,
    calls: Seq<CallV>,
    ci: int,
    cur: int,
) -> int {
    let vs = calls[ci].vars_scope;
    if 0 <= vs < scopes.len() {
        let e = scopes[vs].end;
        if e > cur && e < text.len() {
            e + 1
        } else if e >= text.len() {
            text.len() as int
        } else {
            cur
        }
    } else {
        cur
    }
}

/// The walk of one access chain from `cur` with last separator-skip
/// landing `prev`: repeatedly skip separators, stop at the end of the
/// text, `;`, `=` or as soon as an iteration makes no progress; record a
/// known call site (jumping past its argument scope) or a maximal
/// identifier run (an empty run also stops the walk).  Yields the
/// references in order and the offset the walk stopped at.
pub open spec fn spec_access_walk(
    text: Seq<u8>,
    scopes: Seq<ScopeV>,
    calls: Seq<CallV>,
    file_i: int,
    cur: int,
    prev: int,
) -> (Seq<PtrV>, int)
    decreases text.len() - prev,
{
    if !(0 <= prev && prev <= cur && cur <= text.len()) {
        (Seq::empty(), cur)
    } else {
        let skipped = spec_skip_seps(text, cur);
        if skipped == prev {
            (Seq::empty(), cur)
        } else if !(prev < skipped && skipped <= text.len()) {
            (Seq::empty(), cur)
        } else if skipped >= text.len() || text[skipped] == 59 || text[skipped] == 61 {
            (Seq::empty(), skipped)
        } else {
            match spec_call_at(calls, skipped, 0) {
                Some(ci) => {
                    let ptr = PtrV::FuncCall(file_i, ci);
                    let next = spec_jump_after_call(text, scopes, calls, ci, skipped);
                    let rest = spec_access_walk(text, scopes, calls, file_i, next, skipped);
                    (seq![ptr] + rest.0, rest.1)
                },
                None => {
                    let w = spec_word_end(text, skipped);
                    let ptr = PtrV::Object(file_i, text.subrange(skipped, w));
                    if w == skipped {
                        (seq![ptr], skipped)
                    } else {
                        let rest = spec_access_walk(text, scopes, calls, file_i, w, skipped);
                        (seq![ptr] + rest.0, rest.1)
                    }
                },
            }
        }
    }
}

/// One access chain per match: the walk starts at the match offset with
/// no progress made yet.
pub open spec fn spec_parse_access(
    text: Seq<u8>,
    scopes: Seq<ScopeV>,
    calls: Seq<CallV>,
    file_i: int,
    h: (usize, usize, Seq<Option<(usize, usize)>>),
) -> AccessV {
    let walk = spec_access_walk(text, scopes, calls, file_i, h.0 as int, 0);
    AccessV { start: h.0 as int, end: walk.1, route: walk.0 }
}

pub open spec fn spec_accesses_in_hits(
    text: Seq<u8>,
    scopes: Seq<ScopeV>,
    calls: Seq<CallV>,
    file_i: int,
    hits: Seq<(usize, usize, Seq<Option<(usize, usize)>>)>,
    m: int,
) -> Seq<AccessV>
    decreases hits.len() - m,
{
    if m < 0 || m >= hits.len() {
        Seq::empty()
    } else {
        seq![spec_parse_access(text, scopes, calls, file_i, hits[m])] + spec_accesses_in_hits(
            text,
            scopes,
            calls,
            file_i,
            hits,
            m + 1,
        )
    }
}

pub open spec fn spec_accesses_in_bank(
    text: Seq<u8>,
    scopes: Seq<ScopeV>,
    calls: Seq<CallV>,
    bank: Seq<Seq<char>>,
    file_i: int,
    p: int,
) -> Seq<AccessV>
    decreases bank.len() - p,
{
    if p < 0 || p >= bank.len() {
        Seq::empty()
    } else {
        spec_accesses_in_hits(text, scopes, calls, file_i, spec_hits_of(bank[p], text), 0)
            + spec_accesses_in_bank(text, scopes, calls, bank, file_i, p + 1)
    }
}

fn parse_access(
    text: &[u8],
    scopes: &Vec<SCOPE>,
    calls: &Vec<FUNCTIONCALL>,
    file_i: usize,
    h: &Hit,
) -> (r: CHILDACCESS)
    requires
        h@.0 <= h@.1 <= text@.len(),
    ensures
        r.deep_view() == spec_parse_access(
            text@,
            scopes.deep_view(),
            calls.deep_view(),
            file_i as int,
            h@,
        ),
        r.start <= r.end <= text@.len(),
{
    let ghost sv = scopes.deep_view();
    let ghost cv = calls.deep_view();
    let ghost full = spec_access_walk(text@, sv, cv, file_i as int, h@.0 as int, 0);
    let start = h.start;
    let mut pointers: Vec<CodeElementPointer> = Vec::new();
    let mut cur = start;
    let mut prev: usize = 0;
    let mut stop = false;
    proof {
        assert(pointers.deep_view() + full.0 =~~= full.0);
    }
    while !stop
        invariant
            start <= cur <= text@.len(),
            prev <= cur,
            sv == scopes.deep_view(),
            sv.len() == scopes@.len(),
            cv == calls.deep_view(),
            cv.len() == calls@.len(),
            full == spec_access_walk(text@, sv, cv, file_i as int, h@.0 as int, 0),
            !stop ==> {
                let rest = spec_access_walk(text@, sv, cv, file_i as int, cur as int, prev as int);
                full.0 == pointers.deep_view() + rest.0 && full.1 == rest.1
            },
            stop ==> full.0 == pointers.deep_view() && full.1 == cur as int,
        decreases text@.len() - prev + (if stop {
            0int
        } else {
            1int
        }),
    {
        let ghost rest = spec_access_walk(text@, sv, cv, file_i as int, cur as int, prev as int);
        let skipped = skip_access_seps(text, cur);
        if skipped == prev {
            stop = true;
            proof {
                assert(rest.0 =~~= Seq::<PtrV>::empty());
                assert(pointers.deep_view() + rest.0 =~~= pointers.deep_view());
            }
        } else if skipped >= text.len() || text[skipped] == 59 || text[skipped] == 61 {
            let ghost old_prev = prev;
            prev = skipped;
            cur = skipped;
            stop = true;
            proof {
                assert(rest.0 =~~= Seq::<PtrV>::empty());
                assert(pointers.deep_view() + rest.0 =~~= pointers.deep_view());
            }
        } else {
            let ghost old_prev = prev;
            prev = skipped;
            cur = skipped;
            match find_call_at(calls, cur) {
                Some(ci) => {
                    let ghost pre = pointers.deep_view();
                    pointers.push(CodeElementPointer::FuncCall(file_i, ci));
                    let vs = calls[ci].vars_scope;
                    if vs < scopes.len() {
                        let e = scopes[vs].end;
                        if e > cur && e < text.len() {
                            cur = e + 1;
                        } else if e >= text.len() {
                            cur = text.len();
                        }
                    }
                    proof {
                        assert(cur as int == spec_jump_after_call(
                            text@,
                            sv,
                            cv,
                            ci as int,
                            skipped as int,
                        ));
                        assert(pointers.deep_view() =~~= pre + seq![
                            PtrV::FuncCall(file_i as int, ci as int),
                        ]);
                        let rest2 = spec_access_walk(
                            text@,
                            sv,
                            cv,
                            file_i as int,
                            cur as int,
                            prev as int,
                        );
                        assert((pre + seq![PtrV::FuncCall(file_i as int, ci as int)]) + rest2.0
                            =~~= pre + (seq![PtrV::FuncCall(file_i as int, ci as int)]
                            + rest2.0));
                    }
                },
                None => {
                    let (w, wend) = take_word(text, cur);
                    let blob_len = w.len();
                    let ghost wv = w@;
                    let ghost pre = pointers.deep_view();
                    pointers.push(CodeElementPointer::Object(file_i, w));
                    proof {
                        assert(pointers.deep_view() =~~= pre + seq![
                            PtrV::Object(file_i as int, wv),
                        ]);
                    }
                    if blob_len == 0 {
                        stop = true;
                        proof {
                            assert(pointers.deep_view() =~~= pre + seq![
                                PtrV::Object(file_i as int, wv),
                            ]);
                        }
                    } else {
                        cur = wend;
                        proof {
                            let rest2 = spec_access_walk(
                                text@,
                                sv,
                                cv,
                                file_i as int,
                                cur as int,
                                prev as int,
                            );
                            assert((pre + seq![PtrV::Object(file_i as int, wv)]) + rest2.0
                                =~~= pre + (seq![PtrV::Object(file_i as int, wv)] + rest2.0));
                        }
                    }
                },
            }
        }
    }
    let r = CHILDACCESS { start, end: cur, route: pointers };
    proof {
        assert(r.deep_view() =~~= spec_parse_access(text@, sv, cv, file_i as int, h@));
    }
    r
}

/// Member-access chains found by the bank: from each match start the
/// walker repeatedly skips whitespace, `.` and `->`, stops at `;`, `=` or
/// the end of the text, records a known call site (jumping past its
/// argument scope) or a maximal identifier run, and stops as soon as it
/// makes no progress.
pub fn extract_access_children(
    text: &[u8],
    scopes: &Vec<SCOPE>,
    calls: &Vec<FUNCTIONCALL>,
    bank: &Vec<&str>,
    file_i: usize,
) -> (r: Vec<CHILDACCESS>)
    ensures
        r.deep_view() == spec_accesses_in_bank(
            text@,
            scopes.deep_view(),
            calls.deep_view(),
            bank.deep_view(),
            file_i as int,
            0,
        ),
        forall|i: int|
            0 <= i < r.deep_view().len() ==> #[trigger] r.deep_view()[i].start
                <= r.deep_view()[i].end <= text@.len(),
{
    let ghost sv = scopes.deep_view();
    let ghost cv = calls.deep_view();
    let ghost bv = bank.deep_view();
    let mut r: Vec<CHILDACCESS> = Vec::new();
    let mut p: usize = 0;
    proof {
        assert(r.deep_view() + spec_accesses_in_bank(text@, sv, cv, bv, file_i as int, 0)
            =~~= spec_accesses_in_bank(text@, sv, cv, bv, file_i as int, 0));
    }
    while p < bank.len()
        invariant
            p <= bank@.len(),
            sv == scopes.deep_view(),
            cv == calls.deep_view(),
            bv == bank.deep_view(),
            bv.len() == bank@.len(),
            spec_accesses_in_bank(text@, sv, cv, bv, file_i as int, 0) == r.deep_view()
                + spec_accesses_in_bank(text@, sv, cv, bv, file_i as int, p as int),
            forall|i: int|
                0 <= i < r.deep_view().len() ==> #[trigger] r.deep_view()[i].start
                    <= r.deep_view()[i].end <= text@.len(),
        decreases bank@.len() - p,
    {
        let hits = pattern_matches_or_empty(bank[p], text);
        let ghost hv = hits.deep_view();
        let mut m: usize = 0;
        while m < hits.len()
            invariant
                m <= hits@.len(),
                sv == scopes.deep_view(),
                cv == calls.deep_view(),
                bv == bank.deep_view(),
                p < bv.len(),
                hv == hits.deep_view(),
                hv.len() == hits@.len(),
                forall|k: int|
                    0 <= k < hv.len() ==> hit_wf(#[trigger] hv[k], text@.len() as int),
                spec_accesses_in_bank(text@, sv, cv, bv, file_i as int, 0) == r.deep_view()
                    + spec_accesses_in_hits(text@, sv, cv, file_i as int, hv, m as int)
                    + spec_accesses_in_bank(text@, sv, cv, bv, file_i as int, p + 1),
                forall|i: int|
                    0 <= i < r.deep_view().len() ==> #[trigger] r.deep_view()[i].start
                        <= r.deep_view()[i].end <= text@.len(),
            decreases hits@.len() - m,
        {
            proof {
                assert(hit_wf(hv[m as int], text@.len() as int));
            }
            let ghost pre = r.deep_view();
            let a = parse_access(text, scopes, calls, file_i, &hits[m]);
            let ghost av = a.deep_view();
            r.push(a);
            proof {
                assert(r.deep_view() =~~= pre + seq![av]);
                assert((pre + seq![av]) + (spec_accesses_in_hits(
                    text@,
                    sv,
                    cv,
                    file_i as int,
                    hv,
                    m + 1,
                ) + spec_accesses_in_bank(text@, sv, cv, bv, file_i as int, p + 1)) =~~= (pre + (
                seq![av] + spec_accesses_in_hits(text@, sv, cv, file_i as int, hv, m + 1))
                    + spec_accesses_in_bank(text@, sv, cv, bv, file_i as int, p + 1)));
                assert forall|i: int| 0 <= i < r.deep_view().len() implies #[trigger] r.deep_view(
                )[i].start <= r.deep_view()[i].end <= text@.len() by {
                    if i < pre.len() {
                        assert(r.deep_view()[i] == pre[i]);
                    }
                }
            }
            m = m + 1;
        }
        p = p + 1;
    }
    proof {
        assert(r.deep_view() + spec_accesses_in_bank(
            text@,
            sv,
            cv,
            bv,
            file_i as int,
            bv.len() as int,
        ) =~~= r.deep_view());
    }
    r
}

/// Everything extracted from one file: its scope tree, the dangling
/// closers met while building it, and the per-kind entity records.
#[derive(PartialEq, Eq, Debug)]
pub struct FileFacts {
    pub scopes: Vec<SCOPE>,
    pub dangling: Vec<usize>,
    pub accesses: Vec<CHILDACCESS>,
    pub equations: Vec<EQUATION>,
    pub classes: Vec<CLASS>,
    pub functions: Vec<FUNCTION>,
    pub calls: Vec<FUNCTIONCALL>,
    pub lambdas: Vec<LAMBDA>,
    pub objects: Vec<OBJECT>,
}

/// The scope list of a text, as the builder yields it.
pub open spec fn spec_scopes_of(text: Seq<u8>) -> Seq<ScopeV> {
    crate::scopes::spec_build_scopes(text).0
}

/// Analyse one file in depth: build its scope tree, then run every
/// pattern bank of its language over the raw text and anchor each match
/// to a scope.  Yields nothing when the language is not in the registry;
/// an unreadable file is handed in as empty text and yields empty record
/// sets, so failures stay per-file.
/// Everything `language_file_intense_extract` pins about one file's
/// records, as a single predicate over the inputs.
pub open spec fn spec_facts_ok(file_i: int, file_path: Seq<u8>, text: Seq<u8>, facts: FileFacts) -> bool {
    let sv = spec_scopes_of(text);

            &&& facts.scopes.deep_view() == sv
            &&& crate::scopes::scopes_wf(text, facts.scopes.deep_view())
            &&& facts.dangling@.map_values(|d: usize| d as int) == crate::scopes::spec_build_scopes(
                text,
            ).1
            &&& facts.classes.deep_view() == spec_classes_in_bank(
                text,
                sv,
                crate::lang::spec_class_patterns(),
                0,
            )
            &&& facts.functions.deep_view() == spec_funs_in_bank(
                text,
                sv,
                crate::lang::spec_fun_patterns(crate::lang::spec_family(file_path)),
                0,
            )
            &&& facts.objects.deep_view() == spec_objects_in_bank(
                text,
                sv,
                crate::lang::spec_object_patterns(crate::lang::spec_family(file_path)),
                0,
            )
            &&& facts.lambdas.deep_view() == spec_lambdas_in_bank(
                text,
                sv,
                crate::lang::spec_lambda_patterns(),
                0,
            )
            &&& facts.equations.deep_view() == spec_equations_in_bank(
                text,
                crate::lang::spec_assignment_patterns(),
                0,
            )
            &&& facts.calls.deep_view() == spec_calls_in_bank(
                text,
                sv,
                spec_funs_in_bank(
                    text,
                    sv,
                    crate::lang::spec_fun_patterns(crate::lang::spec_family(file_path)),
                    0,
                ),
                crate::lang::spec_function_call_patterns(),
                file_i,
                0,
            )
            &&& facts.accesses.deep_view() == spec_accesses_in_bank(
                text,
                sv,
                spec_calls_in_bank(
                    text,
                    sv,
                    spec_funs_in_bank(
                        text,
                        sv,
                        crate::lang::spec_fun_patterns(crate::lang::spec_family(file_path)),
                        0,
                    ),
                    crate::lang::spec_function_call_patterns(),
                    file_i,
                    0,
                ),
                crate::lang::spec_access_child_patterns(),
                file_i,
                0,
            )
            &&& forall|i: int|
                0 <= i < facts.calls.deep_view().len() ==> 0 <= #[trigger] facts.calls.deep_view()[i].vars_scope < facts.scopes@.len()
            &&& forall|i: int|
                0 <= i < facts.accesses.deep_view().len() ==> #[trigger] facts.accesses.deep_view()[i].start <= facts.accesses.deep_view()[i].end <= text.len()
}

pub fn language_file_intense_extract(file_i: usize, file_path: &[u8], text: &[u8]) -> (r: Option<
    FileFacts,
>)
    ensures
        r is Some <==> crate::lang::spec_family(file_path@) != 0,
        r is Some ==> spec_facts_ok(file_i as int, file_path@, text@, r->Some_0),
{
    let access_bank = match crate::lang::get_regex_access_child(file_path).1 {
        Some(b) => b,
        None => {
            return None;
        },
    };
    let call_bank = match crate::lang::get_regex_function_call(file_path).1 {
        Some(b) => b,
        None => {
            return None;
        },
    };
    let assign_bank = match crate::lang::get_regex_assignments(file_path).1 {
        Some(b) => b,
        None => {
            return None;
        },
    };
    let class_bank = match crate::lang::get_regex_class(file_path).1 {
        Some(b) => b,
        None => {
            return None;
        },
    };
    let fun_bank = match crate::lang::get_regex_fun(file_path).1 {
        Some(b) => b,
        None => {
            return None;
        },
    };
    let lambda_bank = match crate::lang::get_regex_lambda(file_path).1 {
        Some(b) => b,
        None => {
            return None;
        },
    };
    let object_bank = match crate::lang::get_regex_object(file_path).1 {
        Some(b) => b,
        None => {
            return None;
        },
    };
    let (scopes, dangling) = crate::scopes::build_scope_tree(text);
    let equations = extract_equations(text, &assign_bank);
    let classes = extract_classes(text, &scopes, &class_bank);
    let functions = extract_functions(text, &scopes, &fun_bank);
    let lambdas = extract_lambdas(text, &scopes, &lambda_bank);
    let objects = extract_objects(text, &scopes, &object_bank);
    let calls = extract_function_calls(text, &scopes, &functions, &call_bank, file_i);
    let accesses = extract_access_children(text, &scopes, &calls, &access_bank, file_i);
    Some(
        FileFacts {
            scopes,
            dangling,
            accesses,
            equations,
            classes,
            functions,
            calls,
            lambdas,
            objects,
        },
    )
}

} // verus!
