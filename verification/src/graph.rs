//! Symbol graph builder.
//!
//! Aggregates every file's tag records into a global per-file tag table,
//! computes which scopes a lookup starting at a (file, scope) pair may
//! search, and resolves each referenced type name to a class definition, a
//! built-in primitive type, or an explicit unresolved marker.  Every table
//! is index-based (arena plus integer index) and is walked in one fixed,
//! documented order: a scope's own ancestor chain innermost-first, then the
//! root scopes of the imported files in declaration order.

use vstd::prelude::*;

use crate::bytes::bytes_eq;
use crate::extract::clone_bytes;
use crate::extract::ConnV;
use crate::extract::FileFacts;
use crate::extract::StatefulClassConnection;
use crate::lang::spec_data_types;
use crate::lang::spec_family;
use crate::scopes::SCOPE;
use crate::tags::ClassEntry;
use crate::tags::FunctionEntry;
use crate::tags::ObjectEntry;
use crate::tags::ScopeEntry;
use vstd::string::StringSliceAdditionalSpecFns;
use vstd::utf8::encode_utf8;

verus! {

/// First primitive type of the language registry whose name has exactly
/// these bytes, searched from position `i`.
pub open spec fn spec_prim_idx_from(name: Seq<u8>, i: int) -> Option<int>
    decreases spec_data_types().len() - i,
{
    if i < 0 || i >= spec_data_types().len() {
        None
    } else if name == encode_utf8(spec_data_types()[i]) {
        Some(i)
    } else {
        spec_prim_idx_from(name, i + 1)
    }
}

/// The primitive-type index of a name for a file's language, when the
/// language is registered and the name is one of its primitives.
pub open spec fn spec_primitive_index(path: Seq<u8>, name: Seq<u8>) -> Option<int> {
    if spec_family(path) != 0 {
        spec_prim_idx_from(name, 0)
    } else {
        None
    }
}

/// Position of `name` in the primitive list of `file_path`'s language.
pub fn primitive_index(file_path: &[u8], name: &[u8]) -> (r: Option<usize>)
    ensures
        match r {
            Some(i) => spec_primitive_index(file_path@, name@) == Some(i as int),
            None => spec_primitive_index(file_path@, name@) is None,
        },
{
    let dts_opt = crate::lang::get_data_types(file_path);
    proof {
        assert(dts_opt is Some <==> spec_family(file_path@) != 0);
    }
    match dts_opt {
        Some(dts) => {
            let mut i: usize = 0;
            while i < dts.len()
                invariant
                    i <= dts@.len(),
                    spec_family(file_path@) != 0,
                    dts.deep_view() == spec_data_types(),
                    dts.deep_view().len() == dts@.len(),
                    spec_prim_idx_from(name@, 0) == spec_prim_idx_from(name@, i as int),
                decreases dts@.len() - i,
            {
                let hit = bytes_eq(name, dts[i].as_bytes());
                proof {
                    assert(dts.deep_view()[i as int] == dts@[i as int]@);
                    assert(dts@[i as int].spec_bytes() == encode_utf8(spec_data_types()[i as int]))
                        by {
                        assert(dts@[i as int]@ == spec_data_types()[i as int]);
                    }
                }
                if hit {
                    proof {
                        assert(name@ == encode_utf8(spec_data_types()[i as int]));
                        assert(spec_prim_idx_from(name@, i as int) == Some(i as int));
                        assert(spec_family(file_path@) != 0);
                        assert(spec_prim_idx_from(name@, 0) == Some(i as int));
                        assert(spec_primitive_index(file_path@, name@) == Some(i as int));
                    }
                    return Some(i);
                }
                i = i + 1;
            }
            None
        },
        None => None,
    }
}

/// The tri-state resolution of a class reference in the tag-listing
/// pipeline: unresolved, connected to `(file, tag)`, or primitive.
#[derive(PartialEq, Eq, Debug)]
pub enum ClassType {
    Undiscovered(Vec<u8>),
    Connected(usize, usize),
    DataType(usize),
}

#[verifier::ext_equal]
pub ghost enum ClassTypeV {
    Undiscovered(Seq<u8>),
    Connected(int, int),
    DataType(int),
}

impl View for ClassType {
    type V = ClassTypeV;

    open spec fn view(&self) -> ClassTypeV {
        match self {
            ClassType::Undiscovered(n) => ClassTypeV::Undiscovered(n@),
            ClassType::Connected(f, t) => ClassTypeV::Connected(*f as int, *t as int),
            ClassType::DataType(i) => ClassTypeV::DataType(*i as int),
        }
    }
}

impl DeepView for ClassType {
    type V = ClassTypeV;

    open spec fn deep_view(&self) -> ClassTypeV {
        self@
    }
}

/// What a fresh reference resolves to before any cross-file lookup: the
/// language's primitive list is consulted at once.
pub open spec fn spec_class_type_new(path: Seq<u8>, class: Seq<u8>) -> ClassTypeV {
    match spec_primitive_index(path, class) {
        Some(i) => ClassTypeV::DataType(i),
        None => ClassTypeV::Undiscovered(class),
    }
}

impl ClassType {
    /// A reference to `class` seen in `path`: primitive when the name is
    /// one of the language's built-in types, unresolved otherwise.
    pub fn new(path: &[u8], class: Vec<u8>) -> (r: ClassType)
        ensures
            r@ == spec_class_type_new(path@, class@),
    {
        match primitive_index(path, class.as_slice()) {
            Some(i) => ClassType::DataType(i),
            None => ClassType::Undiscovered(class),
        }
    }

    /// The name this reference still waits on, when unresolved.
    pub fn needed_class(&self) -> (r: Option<&Vec<u8>>)
        ensures
            match r {
                Some(n) => self@ is Undiscovered && self@->Undiscovered_0 == n@,
                None => !(self@ is Undiscovered),
            },
    {
        if let ClassType::Undiscovered(name) = self {
            Some(name)
        } else {
            None
        }
    }

    /// Re-check the primitive list: resolves the reference in place when
    /// the name is a built-in type and reports whether it did.
    pub fn set_as_data_type(&mut self, path: &[u8], class: &[u8]) -> (r: bool)
        ensures
            r == (spec_primitive_index(path@, class@) is Some),
            r ==> final(self)@ == ClassTypeV::DataType(spec_primitive_index(path@, class@)->Some_0),
            !r ==> *final(self) == *old(self),
    {
        match primitive_index(path, class) {
            Some(i) => {
                *self = ClassType::DataType(i);
                true
            },
            None => false,
        }
    }

    /// Resolve the reference to the class `(file, t)`.
    pub fn set_class(&mut self, file: usize, t: usize)
        ensures
            final(self)@ == ClassTypeV::Connected(file as int, t as int),
    {
        *self = ClassType::Connected(file, t);
    }

    pub fn clone(&self) -> (r: ClassType)
        ensures
            r@ == self@,
    {
        match self {
            ClassType::Undiscovered(n) => ClassType::Undiscovered(clone_bytes(n)),
            ClassType::Connected(f, t) => ClassType::Connected(*f, *t),
            ClassType::DataType(i) => ClassType::DataType(*i),
        }
    }
}

/// A tagged program entity of the global tag table.
#[derive(PartialEq, Eq, Debug)]
pub enum ProgramTag {
    Class { name: Vec<u8>, parents: Vec<ClassType> },
    Function { name: Vec<u8>, class: ClassType },
    Object { name: Vec<u8>, class: ClassType },
}

#[verifier::ext_equal]
pub ghost enum ProgramTagV {
    Class { name: Seq<u8>, parents: Seq<ClassTypeV> },
    Function { name: Seq<u8>, class: ClassTypeV },
    Object { name: Seq<u8>, class: ClassTypeV },
}

impl View for ProgramTag {
    type V = ProgramTagV;

    open spec fn view(&self) -> ProgramTagV {
        match self {
            ProgramTag::Class { name, parents } => ProgramTagV::Class {
                name: name@,
                parents: parents.deep_view(),
            },
            ProgramTag::Function { name, class } => ProgramTagV::Function {
                name: name@,
                class: class@,
            },
            ProgramTag::Object { name, class } => ProgramTagV::Object {
                name: name@,
                class: class@,
            },
        }
    }
}

impl DeepView for ProgramTag {
    type V = ProgramTagV;

    open spec fn deep_view(&self) -> ProgramTagV {
        self@
    }
}

pub open spec fn spec_tag_name(t: ProgramTagV) -> Seq<u8> {
    match t {
        ProgramTagV::Class { name, .. } => name,
        ProgramTagV::Function { name, .. } => name,
        ProgramTagV::Object { name, .. } => name,
    }
}

/// One `(slot, file, tag)` connection applied to a class's parents.
pub open spec fn spec_apply_slot(
    parents: Seq<ClassTypeV>,
    ch: (usize, usize, usize),
) -> Seq<ClassTypeV> {
    if (ch.0 as int) < parents.len() {
        parents.update(ch.0 as int, ClassTypeV::Connected(ch.1 as int, ch.2 as int))
    } else {
        parents
    }
}

pub open spec fn spec_apply_slots(
    parents: Seq<ClassTypeV>,
    chs: Seq<(usize, usize, usize)>,
    k: int,
) -> Seq<ClassTypeV>
    decreases chs.len() - k,
{
    if k < 0 || k >= chs.len() {
        parents
    } else {
        spec_apply_slots(spec_apply_slot(parents, chs[k]), chs, k + 1)
    }
}

/// What a batch of recorded connections turns a tag into.
pub open spec fn spec_put_class_data(
    t: ProgramTagV,
    chs: Seq<(usize, usize, usize)>,
) -> ProgramTagV {
    match t {
        ProgramTagV::Class { name, parents } => ProgramTagV::Class {
            name,
            parents: spec_apply_slots(parents, chs, 0),
        },
        ProgramTagV::Function { name, class } => ProgramTagV::Function {
            name,
            class: if chs.len() > 0 {
                ClassTypeV::Connected(chs[0].1 as int, chs[0].2 as int)
            } else {
                class
            },
        },
        ProgramTagV::Object { name, class } => ProgramTagV::Object {
            name,
            class: if chs.len() > 0 {
                ClassTypeV::Connected(chs[0].1 as int, chs[0].2 as int)
            } else {
                class
            },
        },
    }
}

impl ProgramTag {
    /// The entity's name.
    pub fn get_name(&self) -> (r: &Vec<u8>)
        ensures
            r@ == spec_tag_name(self@),
    {
        match self {
            ProgramTag::Class { name, .. } => name,
            ProgramTag::Function { name, .. } => name,
            ProgramTag::Object { name, .. } => name,
        }
    }

    pub fn is_class(&self) -> (r: bool)
        ensures
            r == (self@ is Class),
    {
        matches!(self, ProgramTag::Class { .. })
    }

    /// The still-unresolved type names this entity references: one per
    /// parent for a class, the single declared type otherwise.
    pub fn needed_class(&self) -> (r: Vec<Option<&Vec<u8>>>)
        ensures
            match self@ {
                ProgramTagV::Class { parents, .. } => r@.len() == parents.len(),
                ProgramTagV::Function { .. } => r@.len() == 1,
                ProgramTagV::Object { .. } => r@.len() == 1,
            },
            forall|i: int|
                0 <= i < r@.len() ==> ((#[trigger] r@[i] is Some) <==> match self@ {
                    ProgramTagV::Class { parents, .. } => parents[i] is Undiscovered,
                    ProgramTagV::Function { class, .. } => class is Undiscovered,
                    ProgramTagV::Object { class, .. } => class is Undiscovered,
                }),
            forall|i: int|
                0 <= i < r@.len() ==> (#[trigger] r@[i] matches Some(n) ==> match self@ {
                    ProgramTagV::Class { parents, .. } => parents[i] is Undiscovered
                        && parents[i]->Undiscovered_0 == n@,
                    ProgramTagV::Function { class, .. } => class is Undiscovered
                        && class->Undiscovered_0 == n@,
                    ProgramTagV::Object { class, .. } => class is Undiscovered
                        && class->Undiscovered_0 == n@,
                }),
    {
        match self {
            ProgramTag::Class { parents, .. } => {
                let mut r: Vec<Option<&Vec<u8>>> = Vec::new();
                let mut i: usize = 0;
                while i < parents.len()
                    invariant
                        i <= parents@.len(),
                        r@.len() == i,
                        parents.deep_view().len() == parents@.len(),
                        forall|k: int|
                            0 <= k < i ==> ((#[trigger] r@[k] is Some)
                                <==> parents.deep_view()[k] is Undiscovered),
                        forall|k: int|
                            0 <= k < i ==> (#[trigger] r@[k] matches Some(n) ==> parents.deep_view()[k] is Undiscovered && parents.deep_view()[k]->Undiscovered_0 == n@),
                    decreases parents@.len() - i,
                {
                    r.push(parents[i].needed_class());
                    i = i + 1;
                }
                r
            },
            ProgramTag::Function { class, .. } => {
                let mut r: Vec<Option<&Vec<u8>>> = Vec::new();
                r.push(class.needed_class());
                r
            },
            ProgramTag::Object { class, .. } => {
                let mut r: Vec<Option<&Vec<u8>>> = Vec::new();
                r.push(class.needed_class());
                r
            },
        }
    }

    /// Apply resolved `(slot, file, tag)` connections to this entity: for
    /// a class each connection rewrites the parent its slot names
    /// (out-of-range slots are ignored, and a later connection to the
    /// same slot overrides an earlier one); for a function or an object
    /// the first connection wins.
    pub fn put_class_data(&mut self, file_tag_i: &Vec<(usize, usize, usize)>)
        ensures
            final(self)@ == spec_put_class_data(old(self)@, file_tag_i@),
    {
        match self {
            ProgramTag::Class { parents, .. } => {
                let ghost chs = file_tag_i@;
                let mut k: usize = 0;
                while k < file_tag_i.len()
                    invariant
                        k <= chs.len(),
                        chs == file_tag_i@,
                        spec_apply_slots(parents.deep_view(), chs, k as int)
                            == spec_apply_slots(old(self)@->Class_parents, chs, 0),
                    decreases file_tag_i@.len() - k,
                {
                    let (slot, f, t) = file_tag_i[k];
                    let ghost before = parents.deep_view();
                    if slot < parents.len() {
                        parents.set(slot, ClassType::Connected(f, t));
                        proof {
                            assert(parents.deep_view() =~~= spec_apply_slot(
                                before,
                                chs[k as int],
                            ));
                        }
                    } else {
                        proof {
                            assert(parents.deep_view() =~~= spec_apply_slot(
                                before,
                                chs[k as int],
                            ));
                        }
                    }
                    k = k + 1;
                }
                proof {
                    assert(self@ =~~= spec_put_class_data(old(self)@, chs));
                }
            },
            ProgramTag::Function { class, .. } => {
                if file_tag_i.len() > 0 {
                    let (_, f, t) = file_tag_i[0];
                    class.set_class(f, t);
                }
            },
            ProgramTag::Object { class, .. } => {
                if file_tag_i.len() > 0 {
                    let (_, f, t) = file_tag_i[0];
                    class.set_class(f, t);
                }
            },
        }
    }
}
/// One class of the walk as a tag: its parents are references seeded
/// against the file's primitive list.
pub open spec fn spec_class_tag(path: Seq<u8>, c: crate::tags::ClassEntryV) -> ProgramTagV {
    ProgramTagV::Class {
        name: c.name,
        parents: Seq::new(c.parents.len(), |i: int| spec_class_type_new(path, c.parents[i])),
    }
}

pub open spec fn spec_fun_tag(path: Seq<u8>, f: crate::tags::FunctionEntryV) -> ProgramTagV {
    ProgramTagV::Function { name: f.name, class: spec_class_type_new(path, f.class_name) }
}

pub open spec fn spec_obj_tag(path: Seq<u8>, o: crate::tags::ObjectEntryV) -> ProgramTagV {
    ProgramTagV::Object { name: o.name, class: spec_class_type_new(path, o.class_name) }
}

/// One file's tag table: its classes, then its functions, then its
/// objects, in declaration order.
pub open spec fn spec_file_tags(
    path: Seq<u8>,
    cs: Seq<crate::tags::ClassEntryV>,
    fs: Seq<crate::tags::FunctionEntryV>,
    os: Seq<crate::tags::ObjectEntryV>,
) -> Seq<ProgramTagV> {
    Seq::new(cs.len(), |i: int| spec_class_tag(path, cs[i])) + Seq::new(
        fs.len(),
        |i: int| spec_fun_tag(path, fs[i]),
    ) + Seq::new(os.len(), |i: int| spec_obj_tag(path, os[i]))
}

/// The body-scope index of each class, beside its tag index.
pub open spec fn spec_scope_map(cs: Seq<crate::tags::ClassEntryV>) -> Seq<(usize, usize)> {
    Seq::new(cs.len(), |i: int| (cs[i].class_scope, i as usize))
}

/// First value recorded for a key in the scope map.
pub open spec fn spec_map_get(m: Seq<(usize, usize)>, key: usize, k: int) -> Option<usize>
    decreases m.len() - k,
{
    if k < 0 || k >= m.len() {
        None
    } else if m[k].0 == key {
        Some(m[k].1)
    } else {
        spec_map_get(m, key, k + 1)
    }
}

/// The image of a grouped children table.
pub open spec fn kids_view(s: Seq<(usize, Vec<usize>)>) -> Seq<(usize, Seq<usize>)> {
    Seq::new(s.len(), |k: int| (s[k].0, s[k].1@))
}

/// Append one child under a class key: an existing key keeps its
/// position, a new key goes to the end.
pub open spec fn spec_kids_idx(ch: Seq<(usize, Seq<usize>)>, ci: usize, k: int) -> Option<int>
    decreases ch.len() - k,
{
    if k < 0 || k >= ch.len() {
        None
    } else if ch[k].0 == ci {
        Some(k)
    } else {
        spec_kids_idx(ch, ci, k + 1)
    }
}

pub open spec fn spec_add_child(ch: Seq<(usize, Seq<usize>)>, ci: usize, tag: usize) -> Seq<
    (usize, Seq<usize>),
> {
    match spec_kids_idx(ch, ci, 0) {
        Some(j) => ch.update(j, (ci, ch[j].1.push(tag))),
        None => ch.push((ci, seq![tag])),
    }
}

/// Record `tag` as a child of the class whose body scope is
/// `parent_scope`, when the scope map knows one.
pub open spec fn spec_push_child(
    ch: Seq<(usize, Seq<usize>)>,
    m: Seq<(usize, usize)>,
    parent_scope: usize,
    tag: usize,
) -> Seq<(usize, Seq<usize>)> {
    match spec_map_get(m, parent_scope, 0) {
        Some(ci) => spec_add_child(ch, ci, tag),
        None => ch,
    }
}

pub open spec fn spec_children_funs(
    ch: Seq<(usize, Seq<usize>)>,
    m: Seq<(usize, usize)>,
    fs: Seq<crate::tags::FunctionEntryV>,
    base: int,
    k: int,
) -> Seq<(usize, Seq<usize>)>
    decreases fs.len() - k,
{
    if k < 0 || k >= fs.len() {
        ch
    } else {
        spec_children_funs(
            spec_push_child(ch, m, fs[k].parent_scope, (base + k) as usize),
            m,
            fs,
            base,
            k + 1,
        )
    }
}

pub open spec fn spec_children_objs(
    ch: Seq<(usize, Seq<usize>)>,
    m: Seq<(usize, usize)>,
    os: Seq<crate::tags::ObjectEntryV>,
    base: int,
    k: int,
) -> Seq<(usize, Seq<usize>)>
    decreases os.len() - k,
{
    if k < 0 || k >= os.len() {
        ch
    } else {
        spec_children_objs(
            spec_push_child(ch, m, os[k].parent_scope, (base + k) as usize),
            m,
            os,
            base,
            k + 1,
        )
    }
}

/// One file's containment edges: each function and object whose owning
/// scope is a class's body scope, grouped under that class's tag index.
pub open spec fn spec_file_children(
    cs: Seq<crate::tags::ClassEntryV>,
    fs: Seq<crate::tags::FunctionEntryV>,
    os: Seq<crate::tags::ObjectEntryV>,
) -> Seq<(usize, Seq<usize>)> {
    let m = spec_scope_map(cs);
    spec_children_objs(
        spec_children_funs(Seq::empty(), m, fs, cs.len() as int, 0),
        m,
        os,
        cs.len() + fs.len() as int,
        0,
    )
}

/// An owned copy of a list of tag indices.
fn clone_usizes(v: &Vec<usize>) -> (r: Vec<usize>)
    ensures
        r@ == v@,
{
    let mut r: Vec<usize> = Vec::new();
    let mut i: usize = 0;
    while i < v.len()
        invariant
            i <= v@.len(),
            r@ == v@.take(i as int),
        decreases v@.len() - i,
    {
        r.push(v[i]);
        proof {
            assert(r@ =~= v@.take(i + 1));
        }
        i = i + 1;
    }
    proof {
        assert(v@.take(v@.len() as int) =~= v@);
    }
    r
}

/// Exec mirror of `spec_push_child`.
fn push_child(
    children: &mut Vec<(usize, Vec<usize>)>,
    scope_to_class: &Vec<(usize, usize)>,
    parent_scope: usize,
    tag_idx: usize,
)
    ensures
        kids_view(final(children)@) == spec_push_child(
            kids_view(old(children)@),
            scope_to_class@,
            parent_scope,
            tag_idx,
        ),
{
    let ghost chv = kids_view(children@);
    let mut s: usize = 0;
    let mut class_idx: Option<usize> = None;
    while s < scope_to_class.len()
        invariant
            s <= scope_to_class@.len(),
            match class_idx {
                Some(ci) => spec_map_get(scope_to_class@, parent_scope, 0) == Some(ci),
                None => spec_map_get(scope_to_class@, parent_scope, 0) == spec_map_get(
                    scope_to_class@,
                    parent_scope,
                    s as int,
                ),
            },
        decreases scope_to_class@.len() - s,
    {
        if class_idx.is_none() && scope_to_class[s].0 == parent_scope {
            class_idx = Some(scope_to_class[s].1);
        }
        s = s + 1;
    }
    if let Some(ci) = class_idx {
        let mut k: usize = 0;
        while k < children.len()
            invariant
                k <= children@.len(),
                children@ == old(children)@,
                chv == kids_view(children@),
                chv.len() == children@.len(),
                spec_map_get(scope_to_class@, parent_scope, 0) == Some(ci),
                spec_kids_idx(chv, ci, 0) == spec_kids_idx(chv, ci, k as int),
            decreases children@.len() - k,
        {
            if children[k].0 == ci {
                let mut kids = clone_usizes(&children[k].1);
                kids.push(tag_idx);
                children.set(k, (ci, kids));
                proof {
                    assert(kids_view(children@) =~~= spec_add_child(chv, ci, tag_idx));
                }
                return ;
            }
            k = k + 1;
        }
        let mut kids: Vec<usize> = Vec::new();
        kids.push(tag_idx);
        proof {
            assert(kids@ =~= seq![tag_idx]);
        }
        children.push((ci, kids));
        proof {
            assert(kids_view(children@) =~~= spec_add_child(chv, ci, tag_idx));
        }
    }
}

/// Collection pass over one file's walk records: its classes, then its
/// functions, then its objects, each with its type references seeded
/// against the file's primitive list; beside the table, the containment
/// edges from each class to the functions and objects whose owning scope
/// is that class's body scope.
fn collect_file_tags(
    file_path: &[u8],
    classes: &Vec<ClassEntry>,
    functions: &Vec<FunctionEntry>,
    objects: &Vec<ObjectEntry>,
) -> (r: (Vec<ProgramTag>, Vec<(usize, usize)>, Vec<(usize, Vec<usize>)>))
    ensures
        r.0.deep_view() == spec_file_tags(
            file_path@,
            classes.deep_view(),
            functions.deep_view(),
            objects.deep_view(),
        ),
        r.1@ == spec_scope_map(classes.deep_view()),
        kids_view(r.2@) == spec_file_children(
            classes.deep_view(),
            functions.deep_view(),
            objects.deep_view(),
        ),
{
    let ghost cv = classes.deep_view();
    let ghost fv = functions.deep_view();
    let ghost ov = objects.deep_view();
    let ghost m = spec_scope_map(cv);
    let mut tags: Vec<ProgramTag> = Vec::new();
    let mut scope_to_class: Vec<(usize, usize)> = Vec::new();
    let mut i: usize = 0;
    while i < classes.len()
        invariant
            i <= classes@.len(),
            cv == classes.deep_view(),
            cv.len() == classes@.len(),
            tags@.len() == i,
            scope_to_class@.len() == i,
            forall|t: int|
                0 <= t < i ==> #[trigger] tags.deep_view()[t] == spec_class_tag(
                    file_path@,
                    cv[t],
                ),
            forall|t: int|
                0 <= t < i ==> #[trigger] scope_to_class@[t] == (cv[t].class_scope, t as usize),
        decreases classes@.len() - i,
    {
        let c = &classes[i];
        proof {
            assert(c.deep_view() == cv[i as int]);
        }
        let mut parents: Vec<ClassType> = Vec::new();
        let mut k: usize = 0;
        while k < c.parents.len()
            invariant
                k <= c.parents@.len(),
                parents@.len() == k,
                c.parents.deep_view().len() == c.parents@.len(),
                forall|j: int|
                    0 <= j < k ==> #[trigger] parents.deep_view()[j] == spec_class_type_new(
                        file_path@,
                        c.parents.deep_view()[j],
                    ),
            decreases c.parents@.len() - k,
        {
            let p = ClassType::new(file_path, clone_bytes(&c.parents[k]));
            let ghost pv = p@;
            let ghost pre = parents.deep_view();
            parents.push(p);
            proof {
                assert(c.parents.deep_view()[k as int] =~= c.parents@[k as int]@);
                assert(parents.deep_view()[k as int] == pv);
                assert forall|j: int| 0 <= j < k implies #[trigger] parents.deep_view()[j]
                    == spec_class_type_new(file_path@, c.parents.deep_view()[j]) by {
                    assert(parents.deep_view()[j] == pre[j]);
                }
            }
            k = k + 1;
        }
        let t = ProgramTag::Class { name: clone_bytes(&c.name), parents };
        let ghost tv = t@;
        let ghost pre_tags = tags.deep_view();
        proof {
            assert(tv->Class_parents =~~= spec_class_tag(file_path@, cv[i as int])->Class_parents);
            assert(tv =~~= spec_class_tag(file_path@, cv[i as int]));
        }
        tags.push(t);
        scope_to_class.push((c.class_scope, i));
        proof {
            assert(tags.deep_view()[i as int] == tv);
            assert forall|t2: int| 0 <= t2 < i implies #[trigger] tags.deep_view()[t2]
                == spec_class_tag(file_path@, cv[t2]) by {
                assert(tags.deep_view()[t2] == pre_tags[t2]);
            }
        }
        i = i + 1;
    }
    proof {
        assert(scope_to_class@ =~= m);
    }
    let ghost ncs = classes@.len() as int;
    let mut children: Vec<(usize, Vec<usize>)> = Vec::new();
    proof {
        assert(kids_view(children@) =~~= Seq::<(usize, Seq<usize>)>::empty());
    }
    let mut f: usize = 0;
    while f < functions.len()
        invariant
            f <= functions@.len(),
            cv == classes.deep_view(),
            fv == functions.deep_view(),
            fv.len() == functions@.len(),
            ncs == classes@.len() as int,
            cv.len() == ncs,
            tags@.len() == ncs + f,
            scope_to_class@ == m,
            forall|t: int|
                0 <= t < ncs ==> #[trigger] tags.deep_view()[t] == spec_class_tag(
                    file_path@,
                    cv[t],
                ),
            forall|j: int|
                0 <= j < f ==> #[trigger] tags.deep_view()[ncs + j] == spec_fun_tag(
                    file_path@,
                    fv[j],
                ),
            spec_children_funs(Seq::empty(), m, fv, ncs, 0) == spec_children_funs(
                kids_view(children@),
                m,
                fv,
                ncs,
                f as int,
            ),
        decreases functions@.len() - f,
    {
        let fun = &functions[f];
        proof {
            assert(fun.deep_view() == fv[f as int]);
        }
        let t = ProgramTag::Function {
            name: clone_bytes(&fun.name),
            class: ClassType::new(file_path, clone_bytes(&fun.class_name)),
        };
        let ghost tv = t@;
        let ghost pre_tags = tags.deep_view();
        proof {
            assert(tv =~~= spec_fun_tag(file_path@, fv[f as int]));
        }
        tags.push(t);
        let tag_idx = tags.len() - 1;
        push_child(&mut children, &scope_to_class, fun.parent_scope, tag_idx);
        proof {
            assert(tags.deep_view()[ncs + f] == tv);
            assert forall|t2: int| 0 <= t2 < ncs + f implies #[trigger] tags.deep_view()[t2]
                == pre_tags[t2] by {}
        }
        f = f + 1;
    }
    let ghost nfs = functions@.len() as int;
    let ghost ch_after_funs = spec_children_funs(Seq::empty(), m, fv, ncs, 0);
    proof {
        assert(kids_view(children@) == ch_after_funs);
    }
    let mut o: usize = 0;
    while o < objects.len()
        invariant
            o <= objects@.len(),
            cv == classes.deep_view(),
            fv == functions.deep_view(),
            ov == objects.deep_view(),
            ov.len() == objects@.len(),
            ncs == classes@.len() as int,
            nfs == functions@.len() as int,
            cv.len() == ncs,
            fv.len() == nfs,
            tags@.len() == ncs + nfs + o,
            scope_to_class@ == m,
            forall|t: int|
                0 <= t < ncs ==> #[trigger] tags.deep_view()[t] == spec_class_tag(
                    file_path@,
                    cv[t],
                ),
            forall|j: int|
                0 <= j < nfs ==> #[trigger] tags.deep_view()[ncs + j] == spec_fun_tag(
                    file_path@,
                    fv[j],
                ),
            forall|j: int|
                0 <= j < o ==> #[trigger] tags.deep_view()[ncs + nfs + j] == spec_obj_tag(
                    file_path@,
                    ov[j],
                ),
            spec_children_objs(ch_after_funs, m, ov, ncs + nfs, 0) == spec_children_objs(
                kids_view(children@),
                m,
                ov,
                ncs + nfs,
                o as int,
            ),
        decreases objects@.len() - o,
    {
        let ob = &objects[o];
        proof {
            assert(ob.deep_view() == ov[o as int]);
        }
        let t = ProgramTag::Object {
            name: clone_bytes(&ob.name),
            class: ClassType::new(file_path, clone_bytes(&ob.class_name)),
        };
        let ghost tv = t@;
        let ghost pre_tags = tags.deep_view();
        proof {
            assert(tv =~~= spec_obj_tag(file_path@, ov[o as int]));
        }
        tags.push(t);
        let tag_idx = tags.len() - 1;
        push_child(&mut children, &scope_to_class, ob.parent_scope, tag_idx);
        proof {
            assert(tags.deep_view()[ncs + nfs + o] == tv);
            assert forall|t2: int| 0 <= t2 < ncs + nfs + o implies #[trigger] tags.deep_view()[t2]
                == pre_tags[t2] by {}
        }
        o = o + 1;
    }
    proof {
        let full = spec_file_tags(file_path@, cv, fv, ov);
        let pa = Seq::new(cv.len(), |i: int| spec_class_tag(file_path@, cv[i]));
        let pb = Seq::new(fv.len(), |i: int| spec_fun_tag(file_path@, fv[i]));
        let pc = Seq::new(ov.len(), |i: int| spec_obj_tag(file_path@, ov[i]));
        assert(full == pa + pb + pc);
        assert(pa.len() == ncs && pb.len() == nfs && pc.len() == ov.len());
        assert(tags.deep_view().len() == full.len());
        assert forall|t2: int| 0 <= t2 < full.len() implies tags.deep_view()[t2] == full[t2] by {
            if t2 < ncs {
                assert((pa + pb)[t2] == pa[t2]);
                assert(full[t2] == pa[t2]);
                assert(pa[t2] == spec_class_tag(file_path@, cv[t2]));
            } else if t2 < ncs + nfs {
                assert((pa + pb)[t2] == pb[t2 - ncs]);
                assert(full[t2] == pb[t2 - ncs]);
                assert(pb[t2 - ncs] == spec_fun_tag(file_path@, fv[t2 - ncs]));
                assert(tags.deep_view()[ncs + (t2 - ncs)] == spec_fun_tag(
                    file_path@,
                    fv[t2 - ncs],
                ));
            } else {
                assert(full[t2] == pc[t2 - ncs - nfs]);
                assert(pc[t2 - ncs - nfs] == spec_obj_tag(file_path@, ov[t2 - ncs - nfs]));
                assert(tags.deep_view()[ncs + nfs + (t2 - ncs - nfs)] == spec_obj_tag(
                    file_path@,
                    ov[t2 - ncs - nfs],
                ));
            }
        }
        assert(tags.deep_view() =~~= full);
        assert(kids_view(children@) == spec_file_children(cv, fv, ov));
    }
    (tags, scope_to_class, children)
}

/// First class tag named `name`, scanning forward from `t`.
pub open spec fn spec_class_named(tags: Seq<ProgramTagV>, name: Seq<u8>, t: int) -> Option<int>
    decreases tags.len() - t,
{
    if t < 0 || t >= tags.len() {
        None
    } else if tags[t] is Class && spec_tag_name(tags[t]) == name {
        Some(t)
    } else {
        spec_class_named(tags, name, t + 1)
    }
}

/// Last class tag named `name`, scanning backward from `t`.
pub open spec fn spec_class_named_last(tags: Seq<ProgramTagV>, name: Seq<u8>, t: int) -> Option<
    int,
>
    decreases t + 1,
{
    if t < 0 || t >= tags.len() {
        None
    } else if tags[t] is Class && spec_tag_name(tags[t]) == name {
        Some(t)
    } else {
        spec_class_named_last(tags, name, t - 1)
    }
}

/// The first class named `name` offered by the import list, in import
/// order and tag order: the connection a function's or an object's
/// reference takes.
pub open spec fn spec_first_import_class(
    all: Seq<Seq<ProgramTagV>>,
    imps: Seq<usize>,
    name: Seq<u8>,
    i: int,
) -> Option<(usize, int)>
    decreases imps.len() - i,
{
    if i < 0 || i >= imps.len() {
        None
    } else {
        let imp = imps[i];
        if imp < all.len() {
            match spec_class_named(all[imp as int], name, 0) {
                Some(t) => Some((imp, t)),
                None => spec_first_import_class(all, imps, name, i + 1),
            }
        } else {
            spec_first_import_class(all, imps, name, i + 1)
        }
    }
}

/// The last class named `name` offered by the import list: connections
/// to a class's parents are recorded per slot in offer order, so the
/// last offer wins.
pub open spec fn spec_last_import_class(
    all: Seq<Seq<ProgramTagV>>,
    imps: Seq<usize>,
    name: Seq<u8>,
    i: int,
) -> Option<(usize, int)>
    decreases i + 1,
{
    if i < 0 || i >= imps.len() {
        None
    } else {
        let imp = imps[i];
        if imp < all.len() {
            match spec_class_named_last(all[imp as int], name, all[imp as int].len() - 1) {
                Some(t) => Some((imp, t)),
                None => spec_last_import_class(all, imps, name, i - 1),
            }
        } else {
            spec_last_import_class(all, imps, name, i - 1)
        }
    }
}

/// One parent reference after the cross-file pass.
pub open spec fn spec_connect_parent(
    all: Seq<Seq<ProgramTagV>>,
    imps: Seq<usize>,
    p: ClassTypeV,
) -> ClassTypeV {
    match p {
        ClassTypeV::Undiscovered(qn) => match spec_last_import_class(
            all,
            imps,
            qn,
            imps.len() - 1,
        ) {
            Some((a, b)) => ClassTypeV::Connected(a as int, b),
            None => p,
        },
        _ => p,
    }
}

/// One tag after the cross-file pass: a still-unresolved reference takes
/// the class a directly imported file defines under the same name; an
/// already-resolved reference is untouched, and a name no import defines
/// stays unresolved — reported, never dropped.
pub open spec fn spec_connect_tag(
    all: Seq<Seq<ProgramTagV>>,
    imps: Seq<usize>,
    t: ProgramTagV,
) -> ProgramTagV {
    match t {
        ProgramTagV::Class { name, parents } => ProgramTagV::Class {
            name,
            parents: Seq::new(parents.len(), |s: int| spec_connect_parent(all, imps, parents[s])),
        },
        ProgramTagV::Function { name, class } => ProgramTagV::Function {
            name,
            class: match class {
                ClassTypeV::Undiscovered(qn) => match spec_first_import_class(
                    all,
                    imps,
                    qn,
                    0,
                ) {
                    Some((a, b)) => ClassTypeV::Connected(a as int, b),
                    None => class,
                },
                _ => class,
            },
        },
        ProgramTagV::Object { name, class } => ProgramTagV::Object {
            name,
            class: match class {
                ClassTypeV::Undiscovered(qn) => match spec_first_import_class(
                    all,
                    imps,
                    qn,
                    0,
                ) {
                    Some((a, b)) => ClassTypeV::Connected(a as int, b),
                    None => class,
                },
                _ => class,
            },
        },
    }
}

/// The collected (pre-connection) tag tables of every file.
pub open spec fn spec_collected_tags(
    files: Seq<Vec<u8>>,
    hard: Seq<(Vec<ScopeEntry>, Vec<ClassEntry>, Vec<FunctionEntry>, Vec<ObjectEntry>)>,
) -> Seq<Seq<ProgramTagV>> {
    Seq::new(
        hard.len(),
        |f: int|
            spec_file_tags(
                files[f]@,
                hard[f].1.deep_view(),
                hard[f].2.deep_view(),
                hard[f].3.deep_view(),
            ),
    )
}

/// The image of the flat containment table.
pub open spec fn ch_tbl_view(s: Seq<((usize, usize), Vec<(usize, usize)>)>) -> Seq<
    ((usize, usize), Seq<(usize, usize)>),
> {
    Seq::new(s.len(), |k: int| (s[k].0, s[k].1@))
}

/// One file's grouped children, flattened with its file index.
pub open spec fn spec_map_file_children(f: usize, ch: Seq<(usize, Seq<usize>)>) -> Seq<
    ((usize, usize), Seq<(usize, usize)>),
> {
    Seq::new(
        ch.len(),
        |k: int| ((f, ch[k].0), Seq::new(ch[k].1.len(), |j: int| (f, ch[k].1[j]))),
    )
}

pub open spec fn spec_all_children(
    files: Seq<Vec<u8>>,
    hard: Seq<(Vec<ScopeEntry>, Vec<ClassEntry>, Vec<FunctionEntry>, Vec<ObjectEntry>)>,
    f: int,
) -> Seq<((usize, usize), Seq<(usize, usize)>)>
    decreases hard.len() - f,
{
    if f < 0 || f >= hard.len() {
        Seq::empty()
    } else {
        spec_map_file_children(
            f as usize,
            spec_file_children(hard[f].1.deep_view(), hard[f].2.deep_view(), hard[f].3.deep_view()),
        ) + spec_all_children(files, hard, f + 1)
    }
}

/// First class named `name` in a directly imported file.
fn find_first_import_class(
    all_tags: &Vec<Vec<ProgramTag>>,
    imports: &Vec<usize>,
    name: &[u8],
) -> (r: Option<(usize, usize)>)
    ensures
        match r {
            Some((a, b)) => spec_first_import_class(all_tags.deep_view(), imports@, name@, 0)
                == Some((a, b as int)),
            None => spec_first_import_class(all_tags.deep_view(), imports@, name@, 0) is None,
        },
{
    let ghost av = all_tags.deep_view();
    let mut i: usize = 0;
    while i < imports.len()
        invariant
            i <= imports@.len(),
            av == all_tags.deep_view(),
            av.len() == all_tags@.len(),
            spec_first_import_class(av, imports@, name@, 0) == spec_first_import_class(
                av,
                imports@,
                name@,
                i as int,
            ),
        decreases imports@.len() - i,
    {
        let imp = imports[i];
        if imp < all_tags.len() {
            let tags = &all_tags[imp];
            let ghost tv = av[imp as int];
            proof {
                assert(tv =~~= tags.deep_view());
            }
            let mut t: usize = 0;
            while t < tags.len()
                invariant
                    t <= tags@.len(),
                    i < imports@.len(),
                    imp == imports@[i as int],
                    (imp as int) < av.len(),
                    av == all_tags.deep_view(),
                    tv == av[imp as int],
                    tv == tags.deep_view(),
                    tv.len() == tags@.len(),
                    spec_first_import_class(av, imports@, name@, 0) == spec_first_import_class(
                        av,
                        imports@,
                        name@,
                        i as int,
                    ),
                    spec_class_named(tv, name@, 0) == spec_class_named(tv, name@, t as int),
                decreases tags@.len() - t,
            {
                let hit = tags[t].is_class() && crate::bytes::bytes_eq(
                    tags[t].get_name().as_slice(),
                    name,
                );
                proof {
                    assert(tags.deep_view()[t as int] == tags@[t as int]@);
                }
                if hit {
                    proof {
                        assert(spec_class_named(tv, name@, t as int) == Some(t as int));
                        assert(spec_first_import_class(av, imports@, name@, i as int) == Some(
                            (imp, t as int),
                        ));
                    }
                    return Some((imp, t));
                }
                t = t + 1;
            }
        }
        i = i + 1;
    }
    None
}

/// Last class named `name` in a directly imported file, in reverse
/// offer order.
fn find_last_import_class(
    all_tags: &Vec<Vec<ProgramTag>>,
    imports: &Vec<usize>,
    name: &[u8],
) -> (r: Option<(usize, usize)>)
    ensures
        match r {
            Some((a, b)) => spec_last_import_class(
                all_tags.deep_view(),
                imports@,
                name@,
                imports@.len() - 1,
            ) == Some((a, b as int)),
            None => spec_last_import_class(
                all_tags.deep_view(),
                imports@,
                name@,
                imports@.len() - 1,
            ) is None,
        },
{
    let ghost av = all_tags.deep_view();
    let mut i: usize = imports.len();
    while i > 0
        invariant
            i <= imports@.len(),
            av == all_tags.deep_view(),
            av.len() == all_tags@.len(),
            spec_last_import_class(av, imports@, name@, imports@.len() - 1)
                == spec_last_import_class(av, imports@, name@, i - 1),
        decreases i,
    {
        i = i - 1;
        let imp = imports[i];
        if imp < all_tags.len() {
            let tags = &all_tags[imp];
            let ghost tv = av[imp as int];
            proof {
                assert(tv =~~= tags.deep_view());
            }
            let mut t: usize = tags.len();
            while t > 0
                invariant
                    t <= tags@.len(),
                    i < imports@.len(),
                    imp == imports@[i as int],
                    (imp as int) < av.len(),
                    av == all_tags.deep_view(),
                    tv == av[imp as int],
                    tv == tags.deep_view(),
                    tv.len() == tags@.len(),
                    spec_last_import_class(av, imports@, name@, imports@.len() - 1)
                        == spec_last_import_class(av, imports@, name@, i as int),
                    spec_class_named_last(tv, name@, tv.len() - 1) == spec_class_named_last(
                        tv,
                        name@,
                        t - 1,
                    ),
                decreases t,
            {
                t = t - 1;
                let hit = tags[t].is_class() && crate::bytes::bytes_eq(
                    tags[t].get_name().as_slice(),
                    name,
                );
                proof {
                    assert(tags.deep_view()[t as int] == tags@[t as int]@);
                }
                if hit {
                    proof {
                        assert(spec_class_named_last(tv, name@, t as int) == Some(t as int));
                        assert(spec_last_import_class(av, imports@, name@, i as int) == Some(
                            (imp, t as int),
                        ));
                    }
                    return Some((imp, t));
                }
            }
        }
    }
    None
}

/// One tag carried through the cross-file pass, reading the frozen
/// pre-pass snapshot `all_tags`.
fn connect_tag(
    all_tags: &Vec<Vec<ProgramTag>>,
    imports: &Vec<usize>,
    t: &ProgramTag,
) -> (r: ProgramTag)
    ensures
        r.deep_view() == spec_connect_tag(all_tags.deep_view(), imports@, t.deep_view()),
{
    let ghost av = all_tags.deep_view();
    match t {
        ProgramTag::Class { name, parents } => {
            let mut ps: Vec<ClassType> = Vec::new();
            let mut s: usize = 0;
            while s < parents.len()
                invariant
                    s <= parents@.len(),
                    ps@.len() == s,
                    av == all_tags.deep_view(),
                    parents.deep_view().len() == parents@.len(),
                    forall|j: int|
                        0 <= j < s ==> #[trigger] ps.deep_view()[j] == spec_connect_parent(
                            av,
                            imports@,
                            parents.deep_view()[j],
                        ),
                decreases parents@.len() - s,
            {
                let p = match &parents[s] {
                    ClassType::Undiscovered(qn) => {
                        match find_last_import_class(all_tags, imports, qn.as_slice()) {
                            Some((a, b)) => ClassType::Connected(a, b),
                            None => parents[s].clone(),
                        }
                    },
                    _ => parents[s].clone(),
                };
                let ghost pv = p@;
                let ghost pre = ps.deep_view();
                proof {
                    assert(parents.deep_view()[s as int] == parents@[s as int]@);
                    assert(pv == spec_connect_parent(av, imports@, parents.deep_view()[s as int]));
                }
                ps.push(p);
                proof {
                    assert(ps.deep_view()[s as int] == pv);
                    assert forall|j: int| 0 <= j < s implies #[trigger] ps.deep_view()[j]
                        == spec_connect_parent(av, imports@, parents.deep_view()[j]) by {
                        assert(ps.deep_view()[j] == pre[j]);
                    }
                }
                s = s + 1;
            }
            let r = ProgramTag::Class { name: clone_bytes(name), parents: ps };
            proof {
                assert(r@->Class_parents =~~= spec_connect_tag(
                    av,
                    imports@,
                    t.deep_view(),
                )->Class_parents);
                assert(r@ =~~= spec_connect_tag(av, imports@, t.deep_view()));
            }
            r
        },
        ProgramTag::Function { name, class } => {
            let c = match class {
                ClassType::Undiscovered(qn) => {
                    match find_first_import_class(all_tags, imports, qn.as_slice()) {
                        Some((a, b)) => ClassType::Connected(a, b),
                        None => class.clone(),
                    }
                },
                _ => class.clone(),
            };
            let r = ProgramTag::Function { name: clone_bytes(name), class: c };
            proof {
                assert(r@ =~~= spec_connect_tag(av, imports@, t.deep_view()));
            }
            r
        },
        ProgramTag::Object { name, class } => {
            let c = match class {
                ClassType::Undiscovered(qn) => {
                    match find_first_import_class(all_tags, imports, qn.as_slice()) {
                        Some((a, b)) => ClassType::Connected(a, b),
                        None => class.clone(),
                    }
                },
                _ => class.clone(),
            };
            let r = ProgramTag::Object { name: clone_bytes(name), class: c };
            proof {
                assert(r@ =~~= spec_connect_tag(av, imports@, t.deep_view()));
            }
            r
        },
    }
}

/// Pass 1 of the graph build: gather every file's walk records into a
/// global per-file tag table, in file order and declaration order, with
/// every type reference seeded against the file's primitive list, and
/// build the containment table `(file, class tag) -> [(file, tag)]`.
/// Then the cross-file pass: every still-unresolved reference takes the
/// class a directly imported file defines under the same name (first
/// offer for functions and objects, last offer per parent slot for
/// classes), computed against the frozen collected snapshot and applied
/// as one batch, so no connection made here unlocks another in the same
/// call.
pub fn evaluate_all_hard_data(
    all_files: &Vec<Vec<u8>>,
    hard_data: &Vec<(Vec<ScopeEntry>, Vec<ClassEntry>, Vec<FunctionEntry>, Vec<ObjectEntry>)>,
    raw_imports: &Vec<Vec<usize>>,
) -> (r: (Vec<Vec<ProgramTag>>, Vec<((usize, usize), Vec<(usize, usize)>)>))
    requires
        hard_data@.len() == all_files@.len(),
        raw_imports@.len() == all_files@.len(),
    ensures
        r.0@.len() == all_files@.len(),
        forall|f: int|
            0 <= f < all_files@.len() ==> {
                let collected = spec_collected_tags(all_files@, hard_data@);
                #[trigger] r.0@[f].deep_view() == Seq::new(
                    collected[f].len(),
                    |t: int| spec_connect_tag(collected, raw_imports@[f]@, collected[f][t]),
                )
            },
        ch_tbl_view(r.1@) == spec_all_children(all_files@, hard_data@, 0),
{
    let ghost collected = spec_collected_tags(all_files@, hard_data@);
    let n = all_files.len();
    let mut all_tags: Vec<Vec<ProgramTag>> = Vec::new();
    let mut children_tags: Vec<((usize, usize), Vec<(usize, usize)>)> = Vec::new();
    let mut f: usize = 0;
    proof {
        assert(ch_tbl_view(children_tags@) + spec_all_children(all_files@, hard_data@, 0)
            =~~= spec_all_children(all_files@, hard_data@, 0));
    }
    while f < n
        invariant
            all_tags@.len() == f,
            f <= n,
            n == all_files@.len(),
            hard_data@.len() == n,
            collected == spec_collected_tags(all_files@, hard_data@),
            forall|g: int|
                0 <= g < f ==> #[trigger] all_tags@[g].deep_view() == collected[g],
            spec_all_children(all_files@, hard_data@, 0) == ch_tbl_view(children_tags@)
                + spec_all_children(all_files@, hard_data@, f as int),
        decreases n - f,
    {
        let (tags, _stc, children) = collect_file_tags(
            all_files[f].as_slice(),
            &hard_data[f].1,
            &hard_data[f].2,
            &hard_data[f].3,
        );
        let ghost chv = kids_view(children@);
        let ghost mapped = spec_map_file_children(f, chv);
        let ghost pre_ch = ch_tbl_view(children_tags@);
        let mut k: usize = 0;
        while k < children.len()
            invariant
                k <= children@.len(),
                f < n,
                chv == kids_view(children@),
                chv.len() == children@.len(),
                mapped == spec_map_file_children(f, chv),
                ch_tbl_view(children_tags@) =~~= pre_ch + mapped.take(k as int),
            decreases children@.len() - k,
        {
            let ci = children[k].0;
            let kids_src = &children[k].1;
            let mut kids: Vec<(usize, usize)> = Vec::new();
            let mut j: usize = 0;
            while j < kids_src.len()
                invariant
                    j <= kids_src@.len(),
                    k < children@.len(),
                    kids_src == children@[k as int].1,
                    kids@.len() == j,
                    forall|x: int| 0 <= x < j ==> #[trigger] kids@[x] == (f, kids_src@[x]),
                decreases kids_src@.len() - j,
            {
                kids.push((f, kids_src[j]));
                j = j + 1;
            }
            let ghost kv = kids@;
            let ghost pre2 = ch_tbl_view(children_tags@);
            children_tags.push(((f, ci), kids));
            proof {
                assert(kv =~= mapped[k as int].1);
                assert(ch_tbl_view(children_tags@)[pre2.len() as int] == ((f, ci), kv));
                assert(ch_tbl_view(children_tags@) =~~= pre2.push(mapped[k as int]));
                assert(pre_ch + mapped.take(k + 1) =~~= (pre_ch + mapped.take(k as int)).push(
                    mapped[k as int],
                ));
            }
            k = k + 1;
        }
        proof {
            assert(mapped.take(children@.len() as int) =~~= mapped);
            assert(collected[f as int] =~~= tags.deep_view());
            assert(spec_all_children(all_files@, hard_data@, f as int) =~~= mapped
                + spec_all_children(all_files@, hard_data@, f + 1));
            assert(pre_ch + mapped + spec_all_children(all_files@, hard_data@, f + 1)
                =~~= pre_ch + (mapped + spec_all_children(all_files@, hard_data@, f + 1)));
        }
        all_tags.push(tags);
        f = f + 1;
    }
    // cross-file pass: read the frozen collected snapshot, write a new
    // table wholesale
    let mut new_tags: Vec<Vec<ProgramTag>> = Vec::new();
    let mut f2: usize = 0;
    while f2 < n
        invariant
            new_tags@.len() == f2,
            f2 <= n,
            n == all_files@.len(),
            all_tags@.len() == n,
            raw_imports@.len() == n,
            collected == spec_collected_tags(all_files@, hard_data@),
            hard_data@.len() == n,
            forall|g: int|
                0 <= g < n ==> #[trigger] all_tags@[g].deep_view() == collected[g],
            forall|g: int|
                0 <= g < f2 ==> #[trigger] new_tags@[g].deep_view() == Seq::new(
                    collected[g].len(),
                    |t: int| spec_connect_tag(collected, raw_imports@[g]@, collected[g][t]),
                ),
        decreases n - f2,
    {
        let src = &all_tags[f2];
        let ghost srcv = collected[f2 as int];
        proof {
            assert(srcv == src.deep_view());
        }
        let mut out: Vec<ProgramTag> = Vec::new();
        let mut t: usize = 0;
        while t < src.len()
            invariant
                t <= src@.len(),
                f2 < n,
                n == all_files@.len(),
                all_tags@.len() == n,
                raw_imports@.len() == n,
                srcv == src.deep_view(),
                srcv.len() == src@.len(),
                out@.len() == t,
                collected == spec_collected_tags(all_files@, hard_data@),
                hard_data@.len() == n,
                forall|g: int|
                    0 <= g < n ==> #[trigger] all_tags@[g].deep_view() == collected[g],
                forall|j: int|
                    0 <= j < t ==> #[trigger] out.deep_view()[j] == spec_connect_tag(
                        all_tags.deep_view(),
                        raw_imports@[f2 as int]@,
                        srcv[j],
                    ),
            decreases src@.len() - t,
        {
            let c = connect_tag(&all_tags, &raw_imports[f2], &src[t]);
            let ghost cv2 = c.deep_view();
            let ghost pre = out.deep_view();
            proof {
                assert(src.deep_view()[t as int] == src@[t as int]@);
            }
            out.push(c);
            proof {
                assert(out.deep_view()[t as int] == cv2);
                assert forall|j: int| 0 <= j < t implies #[trigger] out.deep_view()[j]
                    == spec_connect_tag(all_tags.deep_view(), raw_imports@[f2 as int]@, srcv[j])
                    by {
                    assert(out.deep_view()[j] == pre[j]);
                }
            }
            t = t + 1;
        }
        proof {
            assert(all_tags.deep_view() =~~= collected);
            assert(out.deep_view() =~~= Seq::new(
                collected[f2 as int].len(),
                |t: int| spec_connect_tag(collected, raw_imports@[f2 as int]@, collected[f2 as int][t]),
            ));
        }
        new_tags.push(out);
        f2 = f2 + 1;
    }
    (new_tags, children_tags)
}

/// The three tables of the intense pipeline, per file and per scope:
/// a scope's lookup table maps a name to its connection state.
pub type TablesV = Seq<Seq<Seq<(Seq<u8>, ConnV)>>>;

/// The mathematical image of one scope table.
pub open spec fn tbl_view(t: Seq<(Vec<u8>, StatefulClassConnection)>) -> Seq<(Seq<u8>, ConnV)> {
    Seq::new(t.len(), |k: int| (t[k].0@, t[k].1@))
}

/// The image of one file's scope tables.
pub open spec fn file_tables_view(x: Seq<Vec<(Vec<u8>, StatefulClassConnection)>>) -> Seq<
    Seq<(Seq<u8>, ConnV)>,
> {
    Seq::new(x.len(), |s: int| tbl_view(x[s]@))
}

/// The image of the whole connectables table.
pub open spec fn tables_view(c: Seq<Vec<Vec<(Vec<u8>, StatefulClassConnection)>>>) -> TablesV {
    Seq::new(c.len(), |f: int| file_tables_view(c[f]@))
}

/// First position of `name` in a scope table.
pub open spec fn spec_tbl_idx(t: Seq<(Seq<u8>, ConnV)>, name: Seq<u8>, k: int) -> Option<int>
    decreases t.len() - k,
{
    if k < 0 || k >= t.len() {
        None
    } else if t[k].0 == name {
        Some(k)
    } else {
        spec_tbl_idx(t, name, k + 1)
    }
}

/// Insert-or-replace in a scope table: an existing name keeps its
/// position, a new name goes to the end.
pub open spec fn spec_tbl_insert(
    t: Seq<(Seq<u8>, ConnV)>,
    name: Seq<u8>,
    conn: ConnV,
) -> Seq<(Seq<u8>, ConnV)> {
    match spec_tbl_idx(t, name, 0) {
        Some(j) => t.update(j, (name, conn)),
        None => t.push((name, conn)),
    }
}

fn table_insert(t: &mut Vec<(Vec<u8>, StatefulClassConnection)>, name: Vec<u8>, conn: StatefulClassConnection)
    ensures
        tbl_view(final(t)@) == spec_tbl_insert(tbl_view(old(t)@), name@, conn@),
{
    let ghost tv = tbl_view(t@);
    let ghost nv = name@;
    let ghost cv = conn@;
    let mut k: usize = 0;
    while k < t.len()
        invariant
            k <= t@.len(),
            t@ == old(t)@,
            tv == tbl_view(t@),
            tv.len() == t@.len(),
            nv == name@,
            cv == conn@,
            spec_tbl_idx(tv, nv, 0) == spec_tbl_idx(tv, nv, k as int),
        decreases t@.len() - k,
    {
        let hit = bytes_eq(t[k].0.as_slice(), name.as_slice());
        proof {
            assert(hit == (tv[k as int].0 == nv));
        }
        if hit {
            proof {
                assert(spec_tbl_idx(tv, nv, k as int) == Some(k as int));
            }
            t.set(k, (name, conn));
            proof {
                assert(tbl_view(t@) =~~= tv.update(k as int, (nv, cv)));
            }
            return ;
        }
        proof {
            assert(spec_tbl_idx(tv, nv, k as int) == spec_tbl_idx(tv, nv, k + 1));
        }
        k = k + 1;
    }
    proof {
        assert(spec_tbl_idx(tv, nv, t@.len() as int) is None);
    }
    t.push((name, conn));
    proof {
        assert(tbl_view(t@) =~~= tv.push((nv, cv)));
    }
}

/// First entry named `q` in a scope table that is connected to a class.
pub open spec fn spec_assoc_class(t: Seq<(Seq<u8>, ConnV)>, q: Seq<u8>, k: int) -> Option<ConnV>
    decreases t.len() - k,
{
    if k < 0 || k >= t.len() {
        None
    } else if t[k].0 == q && t[k].1 is Connected {
        Some(t[k].1)
    } else {
        spec_assoc_class(t, q, k + 1)
    }
}

/// Scan an accessible-scope list in order for a class named `q`; the
/// first match wins.
pub open spec fn spec_scan_accessible(
    tabs: TablesV,
    acc: Seq<(usize, usize)>,
    q: Seq<u8>,
    i: int,
) -> Option<ConnV>
    decreases acc.len() - i,
{
    if i < 0 || i >= acc.len() {
        None
    } else {
        let af = acc[i].0;
        let asc = acc[i].1;
        let here = if af < tabs.len() && asc < tabs[af as int].len() {
            spec_assoc_class(tabs[af as int][asc as int], q, 0)
        } else {
            None
        };
        match here {
            Some(c) => Some(c),
            None => spec_scan_accessible(tabs, acc, q, i + 1),
        }
    }
}

/// Resolve one referenced name from a (file, scope) lookup point: the
/// file's primitive list first; otherwise the first class named `q`
/// reachable through the accessible-scope list, own ancestors before
/// imported files; `None` is the valid terminal state "still unresolved".
pub open spec fn spec_resolve(
    path: Seq<u8>,
    acc: Seq<(usize, usize)>,
    tabs: TablesV,
    q: Seq<u8>,
) -> Option<ConnV> {
    match spec_primitive_index(path, q) {
        Some(i) => Some(ConnV::DataType(i, q)),
        None => spec_scan_accessible(tabs, acc, q, 0),
    }
}

/// Exec mirror of `spec_resolve`.
pub fn get_connected_class(
    file_path: &[u8],
    accessible: &Vec<(usize, usize)>,
    connectables: &Vec<Vec<Vec<(Vec<u8>, StatefulClassConnection)>>>,
    query: &[u8],
) -> (r: Option<StatefulClassConnection>)
    ensures
        match r {
            Some(c) => spec_resolve(
                file_path@,
                accessible@,
                tables_view(connectables@),
                query@,
            ) == Some(c@),
            None => spec_resolve(file_path@, accessible@, tables_view(connectables@), query@)
                is None,
        },
{
    let ghost tabs = tables_view(connectables@);
    let ghost qv = query@;
    if let Some(i) = primitive_index(file_path, query) {
        return Some(StatefulClassConnection::DataType(i, clone_bytes2(query)));
    }
    let mut i: usize = 0;
    while i < accessible.len()
        invariant
            i <= accessible@.len(),
            tabs == tables_view(connectables@),
            tabs.len() == connectables@.len(),
            spec_primitive_index(file_path@, qv) is None,
            spec_scan_accessible(tabs, accessible@, qv, 0) == spec_scan_accessible(
                tabs,
                accessible@,
                qv,
                i as int,
            ),
            qv == query@,
        decreases accessible@.len() - i,
    {
        let (af, asc) = accessible[i];
        let ghost mut here: Option<ConnV> = None;
        if af < connectables.len() && asc < connectables[af].len() {
            proof {
                here = spec_assoc_class(tabs[af as int][asc as int], qv, 0);
            }
            let t = &connectables[af][asc];
            let ghost tv = tabs[af as int][asc as int];
            proof {
                assert(tv == tbl_view(t@));
            }
            let mut k: usize = 0;
            while k < t.len()
                invariant
                    k <= t@.len(),
                    tv == tbl_view(t@),
                    tv.len() == t@.len(),
                    qv == query@,
                    i < accessible@.len(),
                    af == accessible@[i as int].0,
                    asc == accessible@[i as int].1,
                    tabs == tables_view(connectables@),
                    tabs.len() == connectables@.len(),
                    af < tabs.len() && asc < tabs[af as int].len(),
                    tv == tabs[af as int][asc as int],
                    spec_primitive_index(file_path@, qv) is None,
                    spec_scan_accessible(tabs, accessible@, qv, 0) == spec_scan_accessible(
                        tabs,
                        accessible@,
                        qv,
                        i as int,
                    ),
                    spec_assoc_class(tv, qv, 0) == spec_assoc_class(tv, qv, k as int),
                decreases t@.len() - k,
    {
                let is_name = bytes_eq(t[k].0.as_slice(), query);
                let is_class = matches!(&t[k].1, StatefulClassConnection::Connected(_, _, _));
                if is_name && is_class {
                    let c = t[k].1.clone();
                    proof {
                        assert(spec_assoc_class(tv, qv, k as int) == Some(tv[k as int].1));
                        assert(spec_scan_accessible(tabs, accessible@, qv, i as int) == Some(
                            tv[k as int].1,
                        ));
                        assert(c@ == tv[k as int].1);
                    }
                    return Some(c);
                }
                proof {
                    assert(spec_assoc_class(tv, qv, k as int) == spec_assoc_class(
                        tv,
                        qv,
                        k + 1,
                    ));
                }
                k = k + 1;
            }
            proof {
                assert(spec_assoc_class(tv, qv, t@.len() as int) is None);
                assert(spec_scan_accessible(tabs, accessible@, qv, i as int)
                    == spec_scan_accessible(tabs, accessible@, qv, i + 1));
            }
        } else {
            proof {
                assert(spec_scan_accessible(tabs, accessible@, qv, i as int)
                    == spec_scan_accessible(tabs, accessible@, qv, i + 1));
            }
        }
        i = i + 1;
    }
    None
}

/// An owned copy of a byte slice.
pub fn clone_bytes2(n: &[u8]) -> (r: Vec<u8>)
    ensures
        r@ == n@,
{
    let c = crate::bytes::copy_range(n, 0, n.len());
    proof {
        assert(c@ =~= n@);
    }
    c
}

/// The `(file, scope)` pairs a lookup starting at `(f, s)` may search:
/// the scope's own ancestor chain, innermost first.
pub open spec fn spec_ancestors(scopes: Seq<crate::scopes::ScopeV>, f: int, s: int) -> Seq<
    (usize, usize),
>
    decreases s,
{
    if s < 0 || s >= scopes.len() {
        Seq::empty()
    } else {
        let p = scopes[s].parent;
        if 0 <= p < s {
            seq![(f as usize, s as usize)] + spec_ancestors(scopes, f, p)
        } else {
            seq![(f as usize, s as usize)]
        }
    }
}

/// Those ancestors, then the root scope of every directly imported file,
/// in import-declaration order.
pub open spec fn spec_accessible_set(
    scopes: Seq<crate::scopes::ScopeV>,
    f: int,
    s: int,
    imports: Seq<usize>,
) -> Seq<(usize, usize)> {
    spec_ancestors(scopes, f, s) + imports.map_values(|i: usize| (i, 0usize))
}

/// The accessible-scope list of one (file, scope) pair.
fn accessible_of(scopes: &Vec<SCOPE>, f: usize, s: usize, imports: &Vec<usize>) -> (r: Vec<
    (usize, usize),
>)
    requires
        s < scopes@.len(),
    ensures
        r@ == spec_accessible_set(scopes.deep_view(), f as int, s as int, imports@),
{
    let ghost sv = scopes.deep_view();
    let mut r: Vec<(usize, usize)> = Vec::new();
    let mut cur = s;
    proof {
        assert(r@ + spec_ancestors(sv, f as int, s as int) =~= spec_ancestors(
            sv,
            f as int,
            s as int,
        ));
    }
    let mut walking = true;
    while walking
        invariant
            sv == scopes.deep_view(),
            sv.len() == scopes@.len(),
            cur < scopes@.len(),
            walking ==> spec_ancestors(sv, f as int, s as int) == r@ + spec_ancestors(
                sv,
                f as int,
                cur as int,
            ),
            !walking ==> spec_ancestors(sv, f as int, s as int) == r@,
        decreases cur + (if walking {
            1int
        } else {
            0int
        }),
    {
        r.push((f, cur));
        let p = scopes[cur].parent;
        proof {
            assert(sv[cur as int].parent == scopes@[cur as int]@.parent);
        }
        if p < cur {
            proof {
                assert(r@ + spec_ancestors(sv, f as int, p as int) =~= spec_ancestors(
                    sv,
                    f as int,
                    s as int,
                ));
            }
            cur = p;
        } else {
            walking = false;
            proof {
                assert(r@ =~= spec_ancestors(sv, f as int, s as int));
            }
        }
    }
    let mut i: usize = 0;
    while i < imports.len()
        invariant
            i <= imports@.len(),
            r@ =~= spec_ancestors(sv, f as int, s as int) + imports@.take(i as int).map_values(
                |x: usize| (x, 0usize),
            ),
        decreases imports@.len() - i,
    {
        r.push((imports[i], 0));
        proof {
            assert(r@ =~= spec_ancestors(sv, f as int, s as int) + imports@.take(
                i + 1,
            ).map_values(|x: usize| (x, 0usize)));
        }
        i = i + 1;
    }
    proof {
        assert(imports@.take(imports@.len() as int) =~= imports@);
        assert(r@ =~= spec_accessible_set(sv, f as int, s as int, imports@));
    }
    r
}


/// One resolved entry of a scope table: a still-unresolved reference is
/// looked up from its (file, scope) point; anything already resolved is
/// left exactly as it is — resolution is monotonic and never reverts.
pub open spec fn spec_resolved_entry(
    path: Seq<u8>,
    acc: Seq<(usize, usize)>,
    tabs: TablesV,
    e: (Seq<u8>, ConnV),
) -> (Seq<u8>, ConnV) {
    match e.1 {
        ConnV::Undiscovered(qn) => match spec_resolve(path, acc, tabs, qn) {
            Some(c) => (e.0, c),
            None => e,
        },
        _ => e,
    }
}

pub open spec fn spec_resolved_table(
    path: Seq<u8>,
    acc: Seq<(usize, usize)>,
    tabs: TablesV,
    t: Seq<(Seq<u8>, ConnV)>,
) -> Seq<(Seq<u8>, ConnV)> {
    Seq::new(t.len(), |k: int| spec_resolved_entry(path, acc, tabs, t[k]))
}

/// Resolution pass over one scope table, reading the whole pre-pass
/// snapshot `connectables`.
fn resolve_table(
    path: &[u8],
    acc: &Vec<(usize, usize)>,
    connectables: &Vec<Vec<Vec<(Vec<u8>, StatefulClassConnection)>>>,
    t: &Vec<(Vec<u8>, StatefulClassConnection)>,
) -> (r: Vec<(Vec<u8>, StatefulClassConnection)>)
    ensures
        tbl_view(r@) == spec_resolved_table(path@, acc@, tables_view(connectables@), tbl_view(t@)),
{
    let ghost tabs = tables_view(connectables@);
    let ghost tv = tbl_view(t@);
    let mut r: Vec<(Vec<u8>, StatefulClassConnection)> = Vec::new();
    let mut k: usize = 0;
    while k < t.len()
        invariant
            k <= t@.len(),
            tv == tbl_view(t@),
            tv.len() == t@.len(),
            tabs == tables_view(connectables@),
            r@.len() == k,
            forall|j: int|
                0 <= j < k ==> #[trigger] tbl_view(r@)[j] == spec_resolved_entry(
                    path@,
                    acc@,
                    tabs,
                    tv[j],
                ),
        decreases t@.len() - k,
    {
        let name = clone_bytes(&t[k].0);
        let entry = match &t[k].1 {
            StatefulClassConnection::Undiscovered(qn) => {
                match get_connected_class(path, acc, connectables, qn.as_slice()) {
                    Some(c) => (name, c),
                    None => (name, t[k].1.clone()),
                }
            },
            _ => (name, t[k].1.clone()),
        };
        let ghost ev = (entry.0@, entry.1@);
        let ghost pre = r@;
        proof {
            assert(ev == spec_resolved_entry(path@, acc@, tabs, tv[k as int]));
        }
        r.push(entry);
        proof {
            assert(tbl_view(r@)[k as int] == ev);
            assert forall|j: int| 0 <= j < k implies #[trigger] tbl_view(r@)[j]
                == spec_resolved_entry(path@, acc@, tabs, tv[j]) by {
                assert(r@[j] == pre[j]);
                assert(tbl_view(pre)[j] == spec_resolved_entry(path@, acc@, tabs, tv[j]));
            }
        }
        k = k + 1;
    }
    proof {
        assert(tbl_view(r@) =~~= spec_resolved_table(path@, acc@, tabs, tv));
    }
    r
}

/// The three tables of one project snapshot, before or after resolution:
/// per file, the class list, the accessible-scope lists and the scope
/// lookup tables.
pub struct ScopeAvailability {
    pub custom_classes: Vec<Vec<(Vec<u8>, usize)>>,
    pub accessible_scopes: Vec<Vec<Vec<(usize, usize)>>>,
    pub scoped_connectables: Vec<Vec<Vec<(Vec<u8>, StatefulClassConnection)>>>,
}
/// The image of a file's class list.
pub open spec fn cls_view(s: Seq<(Vec<u8>, usize)>) -> Seq<(Seq<u8>, usize)> {
    Seq::new(s.len(), |i: int| (s[i].0@, s[i].1))
}

/// Seed one class: it joins the class list, and the scope enclosing its
/// body gets an entry connecting the name to this class.
pub open spec fn spec_seed_class(
    st: (Seq<Seq<(Seq<u8>, ConnV)>>, Seq<(Seq<u8>, usize)>),
    f: int,
    scopes: Seq<crate::scopes::ScopeV>,
    c: crate::extract::ClassV,
) -> (Seq<Seq<(Seq<u8>, ConnV)>>, Seq<(Seq<u8>, usize)>) {
    if 0 <= c.scope < scopes.len() {
        let cls2 = st.1.push((c.name, c.scope as usize));
        let p = scopes[c.scope].parent;
        if 0 <= p < st.0.len() {
            (
                st.0.update(
                    p,
                    spec_tbl_insert(
                        st.0[p],
                        c.name,
                        ConnV::Connected(f, st.1.len() as int, c.name),
                    ),
                ),
                cls2,
            )
        } else {
            (st.0, cls2)
        }
    } else {
        st
    }
}

pub open spec fn spec_seed_classes(
    st: (Seq<Seq<(Seq<u8>, ConnV)>>, Seq<(Seq<u8>, usize)>),
    f: int,
    scopes: Seq<crate::scopes::ScopeV>,
    cs: Seq<crate::extract::ClassV>,
    k: int,
) -> (Seq<Seq<(Seq<u8>, ConnV)>>, Seq<(Seq<u8>, usize)>)
    decreases cs.len() - k,
{
    if k < 0 || k >= cs.len() {
        st
    } else {
        spec_seed_classes(spec_seed_class(st, f, scopes, cs[k]), f, scopes, cs, k + 1)
    }
}

/// Seed a parameter list into one scope's table.
pub open spec fn spec_seed_args(
    tabs: Seq<Seq<(Seq<u8>, ConnV)>>,
    scope: int,
    args: Seq<(ConnV, Seq<u8>)>,
    j: int,
) -> Seq<Seq<(Seq<u8>, ConnV)>>
    decreases args.len() - j,
{
    if j < 0 || j >= args.len() || !(0 <= scope < tabs.len()) {
        tabs
    } else {
        spec_seed_args(
            tabs.update(scope, spec_tbl_insert(tabs[scope], args[j].1, args[j].0)),
            scope,
            args,
            j + 1,
        )
    }
}

/// Seed one function: its name (carrying the return type) into the
/// scope enclosing its body, its parameters into the body scope itself.
pub open spec fn spec_seed_fun(
    tabs: Seq<Seq<(Seq<u8>, ConnV)>>,
    scopes: Seq<crate::scopes::ScopeV>,
    fun: crate::extract::FunctionV,
) -> Seq<Seq<(Seq<u8>, ConnV)>> {
    if 0 <= fun.scope < scopes.len() {
        let p = scopes[fun.scope].parent;
        let t1 = if 0 <= p < tabs.len() {
            tabs.update(
                p,
                spec_tbl_insert(tabs[p], fun.name, ConnV::Undiscovered(fun.ret_type)),
            )
        } else {
            tabs
        };
        spec_seed_args(t1, fun.scope, fun.args, 0)
    } else {
        tabs
    }
}

pub open spec fn spec_seed_funs(
    tabs: Seq<Seq<(Seq<u8>, ConnV)>>,
    scopes: Seq<crate::scopes::ScopeV>,
    fs: Seq<crate::extract::FunctionV>,
    k: int,
) -> Seq<Seq<(Seq<u8>, ConnV)>>
    decreases fs.len() - k,
{
    if k < 0 || k >= fs.len() {
        tabs
    } else {
        spec_seed_funs(spec_seed_fun(tabs, scopes, fs[k]), scopes, fs, k + 1)
    }
}

/// Seed one lambda: its parameters into its body scope.
pub open spec fn spec_seed_lam(
    tabs: Seq<Seq<(Seq<u8>, ConnV)>>,
    scopes: Seq<crate::scopes::ScopeV>,
    lam: crate::extract::LambdaV,
) -> Seq<Seq<(Seq<u8>, ConnV)>> {
    if 0 <= lam.scope < scopes.len() {
        spec_seed_args(tabs, lam.scope, lam.args, 0)
    } else {
        tabs
    }
}

pub open spec fn spec_seed_lams(
    tabs: Seq<Seq<(Seq<u8>, ConnV)>>,
    scopes: Seq<crate::scopes::ScopeV>,
    ls: Seq<crate::extract::LambdaV>,
    k: int,
) -> Seq<Seq<(Seq<u8>, ConnV)>>
    decreases ls.len() - k,
{
    if k < 0 || k >= ls.len() {
        tabs
    } else {
        spec_seed_lams(spec_seed_lam(tabs, scopes, ls[k]), scopes, ls, k + 1)
    }
}

/// Seed one object: its name, still unresolved at its declared type,
/// into its owning scope's table.
pub open spec fn spec_seed_obj(
    tabs: Seq<Seq<(Seq<u8>, ConnV)>>,
    ob: crate::extract::ObjectV,
) -> Seq<Seq<(Seq<u8>, ConnV)>> {
    if 0 <= ob.parent_scope < tabs.len() {
        tabs.update(
            ob.parent_scope,
            spec_tbl_insert(tabs[ob.parent_scope], ob.name, ConnV::Undiscovered(ob.type_str)),
        )
    } else {
        tabs
    }
}

pub open spec fn spec_seed_objs(
    tabs: Seq<Seq<(Seq<u8>, ConnV)>>,
    os: Seq<crate::extract::ObjectV>,
    k: int,
) -> Seq<Seq<(Seq<u8>, ConnV)>>
    decreases os.len() - k,
{
    if k < 0 || k >= os.len() {
        tabs
    } else {
        spec_seed_objs(spec_seed_obj(tabs, os[k]), os, k + 1)
    }
}

/// Pass 1 over one file: empty per-scope tables, then its classes,
/// functions, lambdas and objects seeded in that order.
pub open spec fn spec_seed_file(f: int, facts: FileFacts) -> (
    Seq<Seq<(Seq<u8>, ConnV)>>,
    Seq<(Seq<u8>, usize)>,
) {
    let scopes = facts.scopes.deep_view();
    let init = (
        Seq::new(scopes.len(), |s: int| Seq::<(Seq<u8>, ConnV)>::empty()),
        Seq::<(Seq<u8>, usize)>::empty(),
    );
    let st1 = spec_seed_classes(init, f, scopes, facts.classes.deep_view(), 0);
    let t2 = spec_seed_funs(st1.0, scopes, facts.functions.deep_view(), 0);
    let t3 = spec_seed_lams(t2, scopes, facts.lambdas.deep_view(), 0);
    let t4 = spec_seed_objs(t3, facts.objects.deep_view(), 0);
    (t4, st1.1)
}

/// The seeded (pre-resolution) tables of every file.
pub open spec fn spec_seeded_tables(fd: Seq<FileFacts>) -> TablesV {
    Seq::new(fd.len(), |f: int| spec_seed_file(f, fd[f]).0)
}

/// Reachability and resolution over all files' extraction records.
///
/// Pass 1 seeds each file's tables: every class is entered, connected to
/// itself, in the scope enclosing its body; every function's name (as its
/// return type) in its enclosing scope and its parameters in its body
/// scope; every lambda's parameters in its body scope; every object in
/// its owning scope.  Pass 2 computes each (file, scope) pair's
/// accessible-scope list: the scope's own ancestor chain innermost-first,
/// then the imported files' root scopes in import order.  Pass 3 resolves
/// every still-unresolved reference against that list, first match wins,
/// and pass 4 applies all resolutions as one batch — the returned tables
/// are exactly the resolution of the seeded snapshot, so every lookup of
/// pass 3 observed the pre-resolution state and no resolution made here
/// unlocks another in the same call.  A record whose scope index is out
/// of range is skipped, never a panic.
pub fn create_scope_availability(
    all_files: &Vec<Vec<u8>>,
    files_data: &Vec<FileFacts>,
    imported_files: &Vec<Vec<usize>>,
) -> (r: ScopeAvailability)
    requires
        files_data@.len() == all_files@.len(),
        imported_files@.len() == all_files@.len(),
    ensures
        r.custom_classes@.len() == all_files@.len(),
        r.accessible_scopes@.len() == all_files@.len(),
        r.scoped_connectables@.len() == all_files@.len(),
        forall|f: int|
            0 <= f < all_files@.len() ==> #[trigger] r.accessible_scopes@[f]@.len()
                == files_data@[f].scopes@.len() && r.scoped_connectables@[f]@.len()
                == files_data@[f].scopes@.len(),
        forall|f: int, s: int|
            0 <= f < all_files@.len() && 0 <= s < files_data@[f].scopes@.len()
                ==> #[trigger] r.accessible_scopes@[f]@[s]@ == spec_accessible_set(
                files_data@[f].scopes.deep_view(),
                f,
                s,
                imported_files@[f]@,
            ),
        forall|f: int|
            0 <= f < all_files@.len() ==> #[trigger] cls_view(r.custom_classes@[f]@)
                == spec_seed_file(f, files_data@[f]).1,
        forall|f: int, s: int|
            0 <= f < all_files@.len() && 0 <= s < files_data@[f].scopes@.len()
                ==> #[trigger] tbl_view(r.scoped_connectables@[f]@[s]@) == spec_resolved_table(
                all_files@[f]@,
                spec_accessible_set(files_data@[f].scopes.deep_view(), f, s, imported_files@[f]@),
                spec_seeded_tables(files_data@),
                spec_seed_file(f, files_data@[f]).0[s],
            ),
{
    let n = all_files.len();
    let mut custom_classes: Vec<Vec<(Vec<u8>, usize)>> = Vec::new();
    let mut accessible: Vec<Vec<Vec<(usize, usize)>>> = Vec::new();
    let mut tables: Vec<Vec<Vec<(Vec<u8>, StatefulClassConnection)>>> = Vec::new();
    let mut f: usize = 0;
    while f < n
        invariant
            f <= n,
            n == all_files@.len(),
            files_data@.len() == n,
            imported_files@.len() == n,
            custom_classes@.len() == f,
            accessible@.len() == f,
            tables@.len() == f,
            forall|g: int|
                0 <= g < f ==> #[trigger] accessible@[g]@.len() == files_data@[g].scopes@.len()
                    && tables@[g]@.len() == files_data@[g].scopes@.len(),
            forall|g: int, s: int|
                0 <= g < f && 0 <= s < files_data@[g].scopes@.len()
                    ==> #[trigger] accessible@[g]@[s]@ == spec_accessible_set(
                    files_data@[g].scopes.deep_view(),
                    g,
                    s,
                    imported_files@[g]@,
                ),
            forall|g: int|
                0 <= g < f ==> #[trigger] cls_view(custom_classes@[g]@) == spec_seed_file(
                    g,
                    files_data@[g],
                ).1,
            forall|g: int|
                0 <= g < f ==> #[trigger] file_tables_view(tables@[g]@) == spec_seed_file(
                    g,
                    files_data@[g],
                ).0,
        decreases n - f,
    {
        let facts = &files_data[f];
        let ghost scv = facts.scopes.deep_view();
        let ghost cv = facts.classes.deep_view();
        let nscopes = facts.scopes.len();
        // pass 1: seed this file's tables
        let mut ftabs: Vec<Vec<(Vec<u8>, StatefulClassConnection)>> = Vec::new();
        let mut s: usize = 0;
        while s < nscopes
            invariant
                ftabs@.len() == s,
                s <= nscopes,
                forall|t: int|
                    0 <= t < s ==> #[trigger] ftabs@[t]@.len() == 0,
        decreases nscopes - s,
        {
            ftabs.push(Vec::new());
            s = s + 1;
        }
        let mut classes_f: Vec<(Vec<u8>, usize)> = Vec::new();
        let ghost init_st = (
            Seq::new(scv.len(), |t: int| Seq::<(Seq<u8>, ConnV)>::empty()),
            Seq::<(Seq<u8>, usize)>::empty(),
        );
        proof {
            assert(file_tables_view(ftabs@) =~~= init_st.0);
            assert(cls_view(classes_f@) =~~= init_st.1);
        }
        let mut ci: usize = 0;
        while ci < facts.classes.len()
            invariant
                ci <= facts.classes@.len(),
                f < n,
                files_data@.len() == n,
                facts == files_data@[f as int],
                scv == facts.scopes.deep_view(),
                cv == facts.classes.deep_view(),
                cv.len() == facts.classes@.len(),
                nscopes == facts.scopes@.len(),
                scv.len() == nscopes,
                ftabs@.len() == nscopes,
                init_st == (
                    Seq::new(scv.len(), |t: int| Seq::<(Seq<u8>, ConnV)>::empty()),
                    Seq::<(Seq<u8>, usize)>::empty(),
                ),
                spec_seed_classes(init_st, f as int, scv, cv, 0) == spec_seed_classes(
                    (file_tables_view(ftabs@), cls_view(classes_f@)),
                    f as int,
                    scv,
                    cv,
                    ci as int,
                ),
            decreases facts.classes@.len() - ci,
        {
            let ghost st_cur = (file_tables_view(ftabs@), cls_view(classes_f@));
            let c = &facts.classes[ci];
            proof {
                assert(c.deep_view() == cv[ci as int]);
            }
            if c.scope < nscopes {
                classes_f.push((clone_bytes(&c.name), c.scope));
                proof {
                    assert(cls_view(classes_f@) =~~= st_cur.1.push(
                        (cv[ci as int].name, cv[ci as int].scope as usize),
                    ));
                }
                let p = facts.scopes[c.scope].parent;
                proof {
                    assert(facts.scopes@[c.scope as int]@.parent == scv[c.scope as int].parent);
                }
                if p < nscopes {
                    let ghost told = st_cur.0[p as int];
                    let mut t = ftabs.remove(p);
                    proof {
                        assert(tbl_view(t@) == told);
                    }
                    table_insert(
                        &mut t,
                        clone_bytes(&c.name),
                        StatefulClassConnection::Connected(
                            f,
                            classes_f.len() - 1,
                            clone_bytes(&c.name),
                        ),
                    );
                    ftabs.insert(p, t);
                    proof {
                        assert(file_tables_view(ftabs@) =~~= st_cur.0.update(
                            p as int,
                            spec_tbl_insert(
                                told,
                                cv[ci as int].name,
                                ConnV::Connected(f as int, st_cur.1.len() as int, cv[ci as int].name),
                            ),
                        ));
                        assert((file_tables_view(ftabs@), cls_view(classes_f@))
                            == spec_seed_class(st_cur, f as int, scv, cv[ci as int]));
                    }
                } else {
                    proof {
                        assert((file_tables_view(ftabs@), cls_view(classes_f@))
                            == spec_seed_class(st_cur, f as int, scv, cv[ci as int]));
                    }
                }
            } else {
                proof {
                    assert((file_tables_view(ftabs@), cls_view(classes_f@))
                        == spec_seed_class(st_cur, f as int, scv, cv[ci as int]));
                }
            }
            ci = ci + 1;
        }
        let ghost st1 = spec_seed_classes(init_st, f as int, scv, cv, 0);
        proof {
            assert(file_tables_view(ftabs@) == st1.0);
            assert(cls_view(classes_f@) == st1.1);
        }
        let ghost fnv = facts.functions.deep_view();
        let mut fi: usize = 0;
        while fi < facts.functions.len()
            invariant
                fi <= facts.functions@.len(),
                f < n,
                files_data@.len() == n,
                facts == files_data@[f as int],
                scv == facts.scopes.deep_view(),
                fnv == facts.functions.deep_view(),
                fnv.len() == facts.functions@.len(),
                nscopes == facts.scopes@.len(),
                scv.len() == nscopes,
                ftabs@.len() == nscopes,
                spec_seed_funs(st1.0, scv, fnv, 0) == spec_seed_funs(
                    file_tables_view(ftabs@),
                    scv,
                    fnv,
                    fi as int,
                ),
            decreases facts.functions@.len() - fi,
        {
            let ghost tabs_cur = file_tables_view(ftabs@);
            let fun = &facts.functions[fi];
            proof {
                assert(fun.deep_view() == fnv[fi as int]);
            }
            if fun.scope < nscopes {
                let p = facts.scopes[fun.scope].parent;
                proof {
                    assert(facts.scopes@[fun.scope as int]@.parent == scv[fun.scope as int].parent);
                }
                if p < nscopes {
                    let ghost told = tabs_cur[p as int];
                    let mut t = ftabs.remove(p);
                    proof {
                        assert(tbl_view(t@) == told);
                    }
                    table_insert(
                        &mut t,
                        clone_bytes(&fun.name),
                        StatefulClassConnection::Undiscovered(clone_bytes(&fun.ret_type)),
                    );
                    ftabs.insert(p, t);
                    proof {
                        assert(file_tables_view(ftabs@) =~~= tabs_cur.update(
                            p as int,
                            spec_tbl_insert(
                                told,
                                fnv[fi as int].name,
                                ConnV::Undiscovered(fnv[fi as int].ret_type),
                            ),
                        ));
                    }
                }
                let ghost tabs_mid = file_tables_view(ftabs@);
                let mut ai: usize = 0;
                while ai < fun.args.len()
                    invariant
                        ai <= fun.args@.len(),
                        fun.scope < nscopes,
                        fun.args.deep_view().len() == fun.args@.len(),
                        fun.args.deep_view() == fnv[fi as int].args,
                        fi < fnv.len(),
                        ftabs@.len() == nscopes,
                        spec_seed_args(tabs_mid, fun.scope as int, fnv[fi as int].args, 0)
                            == spec_seed_args(
                            file_tables_view(ftabs@),
                            fun.scope as int,
                            fnv[fi as int].args,
                            ai as int,
                        ),
                    decreases fun.args@.len() - ai,
                {
                    let ghost tabs_a = file_tables_view(ftabs@);
                    let ghost told = tabs_a[fun.scope as int];
                    let mut t = ftabs.remove(fun.scope);
                    proof {
                        assert(tbl_view(t@) == told);
                        assert(fun.args.deep_view()[ai as int] == (
                            fun.args@[ai as int].0@,
                            fun.args@[ai as int].1@,
                        ));
                    }
                    table_insert(&mut t, clone_bytes(&fun.args[ai].1), fun.args[ai].0.clone());
                    ftabs.insert(fun.scope, t);
                    proof {
                        assert(file_tables_view(ftabs@) =~~= tabs_a.update(
                            fun.scope as int,
                            spec_tbl_insert(
                                told,
                                fnv[fi as int].args[ai as int].1,
                                fnv[fi as int].args[ai as int].0,
                            ),
                        ));
                    }
                    ai = ai + 1;
                }
                proof {
                    assert(file_tables_view(ftabs@) == spec_seed_fun(tabs_cur, scv, fnv[fi as int]));
                }
            } else {
                proof {
                    assert(file_tables_view(ftabs@) == spec_seed_fun(tabs_cur, scv, fnv[fi as int]));
                }
            }
            fi = fi + 1;
        }
        let ghost t2 = spec_seed_funs(st1.0, scv, fnv, 0);
        proof {
            assert(file_tables_view(ftabs@) == t2);
        }
        let ghost lmv = facts.lambdas.deep_view();
        let mut li: usize = 0;
        while li < facts.lambdas.len()
            invariant
                li <= facts.lambdas@.len(),
                f < n,
                files_data@.len() == n,
                facts == files_data@[f as int],
                scv == facts.scopes.deep_view(),
                lmv == facts.lambdas.deep_view(),
                lmv.len() == facts.lambdas@.len(),
                nscopes == facts.scopes@.len(),
                scv.len() == nscopes,
                ftabs@.len() == nscopes,
                spec_seed_lams(t2, scv, lmv, 0) == spec_seed_lams(
                    file_tables_view(ftabs@),
                    scv,
                    lmv,
                    li as int,
                ),
            decreases facts.lambdas@.len() - li,
        {
            let ghost tabs_cur = file_tables_view(ftabs@);
            let lam = &facts.lambdas[li];
            proof {
                assert(lam.deep_view() == lmv[li as int]);
            }
            if lam.scope < nscopes {
                let mut ai: usize = 0;
                while ai < lam.args.len()
                    invariant
                        ai <= lam.args@.len(),
                        lam.scope < nscopes,
                        lam.args.deep_view().len() == lam.args@.len(),
                        lam.args.deep_view() == lmv[li as int].args,
                        li < lmv.len(),
                        ftabs@.len() == nscopes,
                        spec_seed_args(tabs_cur, lam.scope as int, lmv[li as int].args, 0)
                            == spec_seed_args(
                            file_tables_view(ftabs@),
                            lam.scope as int,
                            lmv[li as int].args,
                            ai as int,
                        ),
                    decreases lam.args@.len() - ai,
                {
                    let ghost tabs_a = file_tables_view(ftabs@);
                    let ghost told = tabs_a[lam.scope as int];
                    let mut t = ftabs.remove(lam.scope);
                    proof {
                        assert(tbl_view(t@) == told);
                        assert(lam.args.deep_view()[ai as int] == (
                            lam.args@[ai as int].0@,
                            lam.args@[ai as int].1@,
                        ));
                    }
                    table_insert(&mut t, clone_bytes(&lam.args[ai].1), lam.args[ai].0.clone());
                    ftabs.insert(lam.scope, t);
                    proof {
                        assert(file_tables_view(ftabs@) =~~= tabs_a.update(
                            lam.scope as int,
                            spec_tbl_insert(
                                told,
                                lmv[li as int].args[ai as int].1,
                                lmv[li as int].args[ai as int].0,
                            ),
                        ));
                    }
                    ai = ai + 1;
                }
                proof {
                    assert(file_tables_view(ftabs@) == spec_seed_lam(tabs_cur, scv, lmv[li as int]));
                }
            } else {
                proof {
                    assert(file_tables_view(ftabs@) == spec_seed_lam(tabs_cur, scv, lmv[li as int]));
                }
            }
            li = li + 1;
        }
        let ghost t3 = spec_seed_lams(t2, scv, lmv, 0);
        proof {
            assert(file_tables_view(ftabs@) == t3);
        }
        let ghost obv = facts.objects.deep_view();
        let mut oi: usize = 0;
        while oi < facts.objects.len()
            invariant
                oi <= facts.objects@.len(),
                facts == files_data@[f as int],
                obv == facts.objects.deep_view(),
                obv.len() == facts.objects@.len(),
                nscopes == facts.scopes@.len(),
                ftabs@.len() == nscopes,
                spec_seed_objs(t3, obv, 0) == spec_seed_objs(
                    file_tables_view(ftabs@),
                    obv,
                    oi as int,
                ),
            decreases facts.objects@.len() - oi,
        {
            let ghost tabs_cur = file_tables_view(ftabs@);
            let ob = &facts.objects[oi];
            proof {
                assert(ob.deep_view() == obv[oi as int]);
            }
            if ob.parent_scope < nscopes {
                let ghost told = tabs_cur[ob.parent_scope as int];
                let mut t = ftabs.remove(ob.parent_scope);
                proof {
                    assert(tbl_view(t@) == told);
                }
                table_insert(
                    &mut t,
                    clone_bytes(&ob.name),
                    StatefulClassConnection::Undiscovered(clone_bytes(&ob.type_str)),
                );
                ftabs.insert(ob.parent_scope, t);
                proof {
                    assert(file_tables_view(ftabs@) =~~= tabs_cur.update(
                        ob.parent_scope as int,
                        spec_tbl_insert(
                            told,
                            obv[oi as int].name,
                            ConnV::Undiscovered(obv[oi as int].type_str),
                        ),
                    ));
                    assert(file_tables_view(ftabs@) == spec_seed_obj(tabs_cur, obv[oi as int]));
                }
            } else {
                proof {
                    assert(file_tables_view(ftabs@) == spec_seed_obj(tabs_cur, obv[oi as int]));
                }
            }
            oi = oi + 1;
        }
        proof {
            assert(file_tables_view(ftabs@) == spec_seed_file(f as int, files_data@[f as int]).0);
            assert(cls_view(classes_f@) == spec_seed_file(f as int, files_data@[f as int]).1);
        }
        // pass 2: the accessible-scope list of every scope of this file
        let mut faccs: Vec<Vec<(usize, usize)>> = Vec::new();
        let mut s2: usize = 0;
        while s2 < nscopes
            invariant
                faccs@.len() == s2,
                s2 <= nscopes,
                f < n,
                files_data@.len() == n,
                imported_files@.len() == n,
                facts == files_data@[f as int],
                nscopes == facts.scopes@.len(),
                forall|t: int|
                    0 <= t < s2 ==> #[trigger] faccs@[t]@ == spec_accessible_set(
                        files_data@[f as int].scopes.deep_view(),
                        f as int,
                        t,
                        imported_files@[f as int]@,
                    ),
            decreases nscopes - s2,
        {
            let acc = accessible_of(&facts.scopes, f, s2, &imported_files[f]);
            faccs.push(acc);
            s2 = s2 + 1;
        }
        custom_classes.push(classes_f);
        accessible.push(faccs);
        tables.push(ftabs);
        f = f + 1;
    }
    // passes 3 and 4: resolve against the frozen seeded snapshot and
    // commit the batch as a new table
    proof {
        assert(tables_view(tables@) =~~= spec_seeded_tables(files_data@));
        assert forall|g: int| 0 <= g < n implies #[trigger] tables@[g]@.len()
            == files_data@[g].scopes@.len() && accessible@[g]@.len()
            == files_data@[g].scopes@.len() by {
            assert(accessible@[g]@.len() == files_data@[g].scopes@.len());
            assert(file_tables_view(tables@[g]@) == spec_seed_file(g, files_data@[g]).0);
            assert(file_tables_view(tables@[g]@).len() == tables@[g]@.len());
            assert(spec_seed_file(g, files_data@[g]).0.len() == files_data@[g].scopes@.len());
        }
    }
    let mut new_tables: Vec<Vec<Vec<(Vec<u8>, StatefulClassConnection)>>> = Vec::new();
    let mut rf: usize = 0;
    while rf < n
        invariant
            rf <= n,
            n == all_files@.len(),
            files_data@.len() == n,
            imported_files@.len() == n,
            tables@.len() == n,
            accessible@.len() == n,
            new_tables@.len() == rf,
            tables_view(tables@) == spec_seeded_tables(files_data@),
            forall|g: int|
                0 <= g < n ==> #[trigger] tables@[g]@.len() == files_data@[g].scopes@.len()
                    && accessible@[g]@.len() == files_data@[g].scopes@.len(),
            forall|g: int, s: int|
                0 <= g < n && 0 <= s < files_data@[g].scopes@.len()
                    ==> #[trigger] accessible@[g]@[s]@ == spec_accessible_set(
                    files_data@[g].scopes.deep_view(),
                    g,
                    s,
                    imported_files@[g]@,
                ),
            forall|g: int|
                0 <= g < n ==> #[trigger] file_tables_view(tables@[g]@) == spec_seed_file(
                    g,
                    files_data@[g],
                ).0,
            forall|g: int|
                0 <= g < rf ==> #[trigger] new_tables@[g]@.len()
                    == files_data@[g].scopes@.len(),
            forall|g: int, s: int|
                0 <= g < rf && 0 <= s < files_data@[g].scopes@.len()
                    ==> #[trigger] tbl_view(new_tables@[g]@[s]@) == spec_resolved_table(
                    all_files@[g]@,
                    spec_accessible_set(
                        files_data@[g].scopes.deep_view(),
                        g,
                        s,
                        imported_files@[g]@,
                    ),
                    spec_seeded_tables(files_data@),
                    spec_seed_file(g, files_data@[g]).0[s],
                ),
        decreases n - rf,
    {
        let mut fts: Vec<Vec<(Vec<u8>, StatefulClassConnection)>> = Vec::new();
        let mut rs: usize = 0;
        let nscopes = tables[rf].len();
        while rs < nscopes
            invariant
                fts@.len() == rs,
                rs <= nscopes,
                rf < n,
                n == all_files@.len(),
                files_data@.len() == n,
                imported_files@.len() == n,
                tables@.len() == n,
                accessible@.len() == n,
                tables_view(tables@) == spec_seeded_tables(files_data@),
                nscopes == tables@[rf as int]@.len(),
                nscopes == accessible@[rf as int]@.len(),
                nscopes == files_data@[rf as int].scopes@.len(),
                file_tables_view(tables@[rf as int]@) == spec_seed_file(
                    rf as int,
                    files_data@[rf as int],
                ).0,
                forall|s: int|
                    0 <= s < nscopes ==> #[trigger] accessible@[rf as int]@[s]@
                        == spec_accessible_set(
                        files_data@[rf as int].scopes.deep_view(),
                        rf as int,
                        s,
                        imported_files@[rf as int]@,
                    ),
                forall|s: int|
                    0 <= s < rs ==> #[trigger] tbl_view(fts@[s]@) == spec_resolved_table(
                        all_files@[rf as int]@,
                        spec_accessible_set(
                            files_data@[rf as int].scopes.deep_view(),
                            rf as int,
                            s,
                            imported_files@[rf as int]@,
                        ),
                        spec_seeded_tables(files_data@),
                        spec_seed_file(rf as int, files_data@[rf as int]).0[s],
                    ),
            decreases nscopes - rs,
        {
            let resolved = resolve_table(
                all_files[rf].as_slice(),
                &accessible[rf][rs],
                &tables,
                &tables[rf][rs],
            );
            proof {
                assert(tbl_view(tables@[rf as int]@[rs as int]@) == file_tables_view(
                    tables@[rf as int]@,
                )[rs as int]);
            }
            fts.push(resolved);
            rs = rs + 1;
        }
        new_tables.push(fts);
        rf = rf + 1;
    }
    ScopeAvailability {
        custom_classes,
        accessible_scopes: accessible,
        scoped_connectables: new_tables,
    }
}
/// A file that contributed nothing: every record list is empty.
pub open spec fn spec_empty_facts(facts: FileFacts) -> bool {
    &&& facts.scopes@.len() == 0
    &&& facts.dangling@.len() == 0
    &&& facts.accesses@.len() == 0
    &&& facts.equations@.len() == 0
    &&& facts.classes@.len() == 0
    &&& facts.functions@.len() == 0
    &&& facts.calls@.len() == 0
    &&& facts.lambdas@.len() == 0
    &&& facts.objects@.len() == 0
}

/// What one file's records must be: the intense extraction of its text
/// when its language is registered (an unreadable file counts as empty
/// text), and empty record sets otherwise.
pub open spec fn spec_evaluated_facts(
    f: int,
    path: Seq<u8>,
    text_opt: Option<Vec<u8>>,
    facts: FileFacts,
) -> bool {
    let text = match text_opt {
        Some(t) => t@,
        None => Seq::<u8>::empty(),
    };
    if spec_family(path) != 0 {
        crate::extract::spec_facts_ok(f, path, text, facts)
    } else {
        spec_empty_facts(facts)
    }
}

/// Run the intense pipeline over every file: per-file extraction (a file
/// of an unregistered language yields empty record sets, an unreadable
/// one counts as empty text), then reachability and resolution over the
/// whole set.  Every part of the result is a function of the inputs.
pub fn evaluate(
    all_files: &Vec<Vec<u8>>,
    texts: &Vec<Option<Vec<u8>>>,
    imported_files: &Vec<Vec<usize>>,
) -> (r: (Vec<FileFacts>, ScopeAvailability))
    requires
        texts@.len() == all_files@.len(),
        imported_files@.len() == all_files@.len(),
    ensures
        r.0@.len() == all_files@.len(),
        r.1.custom_classes@.len() == all_files@.len(),
        r.1.accessible_scopes@.len() == all_files@.len(),
        r.1.scoped_connectables@.len() == all_files@.len(),
        forall|f: int|
            0 <= f < all_files@.len() ==> spec_evaluated_facts(
                f,
                all_files@[f]@,
                #[trigger] texts@[f],
                r.0@[f],
            ),
        forall|f: int|
            0 <= f < all_files@.len() ==> #[trigger] r.1.accessible_scopes@[f]@.len()
                == r.0@[f].scopes@.len() && r.1.scoped_connectables@[f]@.len()
                == r.0@[f].scopes@.len(),
        forall|f: int, s: int|
            0 <= f < all_files@.len() && 0 <= s < r.0@[f].scopes@.len()
                ==> #[trigger] r.1.accessible_scopes@[f]@[s]@ == spec_accessible_set(
                r.0@[f].scopes.deep_view(),
                f,
                s,
                imported_files@[f]@,
            ),
        forall|f: int|
            0 <= f < all_files@.len() ==> #[trigger] cls_view(r.1.custom_classes@[f]@)
                == spec_seed_file(f, r.0@[f]).1,
        forall|f: int, s: int|
            0 <= f < all_files@.len() && 0 <= s < r.0@[f].scopes@.len()
                ==> #[trigger] tbl_view(r.1.scoped_connectables@[f]@[s]@) == spec_resolved_table(
                all_files@[f]@,
                spec_accessible_set(r.0@[f].scopes.deep_view(), f, s, imported_files@[f]@),
                spec_seeded_tables(r.0@),
                spec_seed_file(f, r.0@[f]).0[s],
            ),
{
    let n = all_files.len();
    let mut files_data: Vec<FileFacts> = Vec::new();
    let mut f: usize = 0;
    while f < n
        invariant
            files_data@.len() == f,
            f <= n,
            n == all_files@.len(),
            texts@.len() == n,
            forall|g: int|
                0 <= g < f ==> spec_evaluated_facts(
                    g,
                    all_files@[g]@,
                    #[trigger] texts@[g],
                    files_data@[g],
                ),
        decreases n - f,
    {
        let empty: Vec<u8> = Vec::new();
        let text: &Vec<u8> = match &texts[f] {
            Some(t) => t,
            None => &empty,
        };
        proof {
            if texts@[f as int] is None {
                assert(text@ =~= Seq::<u8>::empty());
            }
        }
        let facts = match crate::extract::language_file_intense_extract(
            f,
            all_files[f].as_slice(),
            text.as_slice(),
        ) {
            Some(facts) => facts,
            None => FileFacts {
                scopes: Vec::new(),
                dangling: Vec::new(),
                accesses: Vec::new(),
                equations: Vec::new(),
                classes: Vec::new(),
                functions: Vec::new(),
                calls: Vec::new(),
                lambdas: Vec::new(),
                objects: Vec::new(),
            },
        };
        proof {
            assert(spec_evaluated_facts(f as int, all_files@[f as int]@, texts@[f as int], facts));
        }
        files_data.push(facts);
        f = f + 1;
    }
    let avail = create_scope_availability(all_files, &files_data, imported_files);
    (files_data, avail)
}

} // verus!
