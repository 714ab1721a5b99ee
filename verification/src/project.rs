//! Project index snapshot and its repository.
//!
//! A `ProjectData` value is one complete, immutable snapshot of the
//! analysis: built atomically from the tag listing and the file texts,
//! replacing any prior snapshot wholesale.  The repository is a narrow
//! slot a caller may guard with its own mutual exclusion: a reader sees a
//! complete previous snapshot or a complete new one, never a partial one.

use vstd::prelude::*;

use crate::extract::FileFacts;
use crate::graph::ProgramTag;
use crate::graph::ClassType;
use crate::extract::StatefulClassConnection;
use crate::imports::Import;
use crate::tags::ClassEntry;
use crate::tags::FunctionEntry;
use crate::tags::ObjectEntry;
use crate::tags::ScopeEntry;
use crate::tags::TagEntry;
use crate::extract::clone_bytes;

verus! {

/// One complete project snapshot.
pub struct ProjectData {
    pub tags_data: Vec<TagEntry>,
    pub all_files: Vec<Vec<u8>>,
    pub hard_data: Vec<(Vec<ScopeEntry>, Vec<ClassEntry>, Vec<FunctionEntry>, Vec<ObjectEntry>)>,
    pub raw_imports: Vec<Vec<usize>>,
    pub all_tags: Vec<Vec<ProgramTag>>,
    pub children_tags: Vec<((usize, usize), Vec<(usize, usize)>)>,
    pub files_data: Vec<FileFacts>,
    pub custom_classes: Vec<Vec<(Vec<u8>, usize)>>,
    pub accessible_scopes: Vec<Vec<Vec<(usize, usize)>>>,
    pub scoped_connectables: Vec<Vec<Vec<(Vec<u8>, StatefulClassConnection)>>>,
}

/// The process-wide slot for the last complete snapshot, as a value a
/// caller wraps in its own lock.
pub struct ProjectStore {
    pub slot: Option<ProjectData>,
}

impl ProjectStore {
    /// An empty repository.
    pub fn new() -> (r: ProjectStore)
        ensures
            r.slot is None,
    {
        ProjectStore { slot: None }
    }

    /// The held snapshot, when one is held.
    pub fn get_project_data(&self) -> (r: Option<&ProjectData>)
        ensures
            r is Some <==> self.slot is Some,
            r matches Some(d) ==> self.slot == Some(*d),
    {
        match &self.slot {
            Some(d) => Some(d),
            None => None,
        }
    }

    /// Swap a freshly built snapshot in, wholesale.
    pub fn set_project_data(&mut self, data: ProjectData)
        ensures
            final(self).slot == Some(data),
    {
        self.slot = Some(data);
    }

    /// Empty the slot.
    pub fn clear_project_data(&mut self)
        ensures
            final(self).slot is None,
    {
        self.slot = None;
    }
}

/// Everything `create_project_data` pins about one snapshot: each table
/// is a function of the parsed tag listing, the file list, the file
/// texts and the resolved imports, so two builds over unchanged inputs
/// agree on every one of these fields.
pub open spec fn spec_snapshot_ok(
    tags_data: Seq<TagEntry>,
    all_files: Seq<Vec<u8>>,
    texts: Seq<Option<Vec<u8>>>,
    resolved: Seq<Vec<Import>>,
    r: ProjectData,
) -> bool {
    let tags_deep = Seq::new(tags_data.len(), |t: int| tags_data[t]@);
    let files_deep = Seq::new(all_files.len(), |f: int| all_files[f]@);
    &&& r.all_files@ == all_files
    &&& r.tags_data@ == tags_data
    &&& r.hard_data@.len() == all_files.len()
    &&& r.raw_imports@.len() == all_files.len()
    &&& r.all_tags@.len() == all_files.len()
    &&& r.files_data@.len() == all_files.len()
    &&& r.custom_classes@.len() == all_files.len()
    &&& r.accessible_scopes@.len() == all_files.len()
    &&& r.scoped_connectables@.len() == all_files.len()
    &&& forall|f: int|
        0 <= f < all_files.len() ==> (
            #[trigger] r.hard_data@[f].0.deep_view(),
            r.hard_data@[f].1.deep_view(),
            r.hard_data@[f].2.deep_view(),
            r.hard_data@[f].3.deep_view(),
        ) == (match texts[f] {
            Some(text) => {
                let w = crate::tags::spec_brackets_walk(
                    all_files[f]@,
                    text@,
                    crate::tags::spec_tags_for(tags_deep, all_files[f]@, 0),
                );
                (w.0, w.1, w.2, w.3)
            },
            None => (
                Seq::<crate::tags::ScopeEntryV>::empty(),
                Seq::<crate::tags::ClassEntryV>::empty(),
                Seq::<crate::tags::FunctionEntryV>::empty(),
                Seq::<crate::tags::ObjectEntryV>::empty(),
            ),
        })
    &&& forall|f: int|
        0 <= f < all_files.len() ==> #[trigger] r.raw_imports@[f]@
            == crate::imports::spec_file_imports(files_deep, resolved[f].deep_view(), 0)
    &&& forall|f: int|
        0 <= f < all_files.len() ==> {
            let collected = crate::graph::spec_collected_tags(all_files, r.hard_data@);
            #[trigger] r.all_tags@[f].deep_view() == Seq::new(
                collected[f].len(),
                |t: int|
                    crate::graph::spec_connect_tag(collected, r.raw_imports@[f]@, collected[f][t]),
            )
        }
    &&& crate::graph::ch_tbl_view(r.children_tags@) == crate::graph::spec_all_children(
        all_files,
        r.hard_data@,
        0,
    )
    &&& forall|f: int|
        0 <= f < all_files.len() ==> crate::graph::spec_evaluated_facts(
            f,
            all_files[f]@,
            #[trigger] texts[f],
            r.files_data@[f],
        )
    &&& forall|f: int|
        0 <= f < all_files.len() ==> #[trigger] crate::graph::cls_view(r.custom_classes@[f]@)
            == crate::graph::spec_seed_file(f, r.files_data@[f]).1
    &&& forall|f: int|
        0 <= f < all_files.len() ==> #[trigger] r.accessible_scopes@[f]@.len()
            == r.files_data@[f].scopes@.len() && r.scoped_connectables@[f]@.len()
            == r.files_data@[f].scopes@.len()
    &&& forall|f: int, s: int|
        0 <= f < all_files.len() && 0 <= s < r.files_data@[f].scopes@.len()
            ==> #[trigger] r.accessible_scopes@[f]@[s]@ == crate::graph::spec_accessible_set(
            r.files_data@[f].scopes.deep_view(),
            f,
            s,
            r.raw_imports@[f]@,
        )
    &&& forall|f: int, s: int|
        0 <= f < all_files.len() && 0 <= s < r.files_data@[f].scopes@.len()
            ==> #[trigger] crate::graph::tbl_view(r.scoped_connectables@[f]@[s]@)
            == crate::graph::spec_resolved_table(
            all_files[f]@,
            crate::graph::spec_accessible_set(
                r.files_data@[f].scopes.deep_view(),
                f,
                s,
                r.raw_imports@[f]@,
            ),
            crate::graph::spec_seeded_tables(r.files_data@),
            crate::graph::spec_seed_file(f, r.files_data@[f]).0[s],
        )
}

/// Build one complete snapshot from the parsed tag listing, the file
/// texts (aligned with the file list; a file that could not be read is
/// `None` and contributes empty record sets) and the per-file resolved
/// imports.  Every table of the snapshot is pinned to a function of
/// these inputs.
pub fn create_project_data(
    tags_data: Vec<TagEntry>,
    all_files: Vec<Vec<u8>>,
    texts: &Vec<Option<Vec<u8>>>,
    resolved_imports: &Vec<Vec<Import>>,
) -> (r: ProjectData)
    requires
        texts@.len() == all_files@.len(),
        resolved_imports@.len() == all_files@.len(),
    ensures
        spec_snapshot_ok(tags_data@, all_files@, texts@, resolved_imports@, r),
{
    let ghost tgv = tags_data@;
    let ghost flv = all_files@;
    let hard_data = crate::tags::get_all_hard_data(&all_files, &tags_data, texts);
    let raw_imports = crate::imports::read_all_imports(&all_files, resolved_imports);
    let (all_tags, children_tags) = crate::graph::evaluate_all_hard_data(
        &all_files,
        &hard_data,
        &raw_imports,
    );
    let (files_data, avail) = crate::graph::evaluate(&all_files, texts, &raw_imports);
    let r = ProjectData {
        tags_data,
        all_files,
        hard_data,
        raw_imports,
        all_tags,
        children_tags,
        files_data,
        custom_classes: avail.custom_classes,
        accessible_scopes: avail.accessible_scopes,
        scoped_connectables: avail.scoped_connectables,
    };
    proof {
        assert(Seq::new(tgv.len(), |t: int| tgv[t]@) =~~= r.tags_data.deep_view());
        assert(Seq::new(flv.len(), |f: int| flv[f]@) =~~= r.all_files.deep_view());
    }
    r
}

/// The decimal digits of a number.
pub open spec fn spec_digits(n: int) -> Seq<u8>
    decreases n,
{
    if n < 10 {
        seq![(48 + if 0 <= n {
            n
        } else {
            0
        }) as u8]
    } else {
        spec_digits(n / 10).push((48 + n % 10) as u8)
    }
}

/// Decimal rendering of an index.
pub fn usize_digits(n: usize) -> (r: Vec<u8>)
    ensures
        r@ == spec_digits(n as int),
{
    let mut rev: Vec<u8> = Vec::new();
    let mut m = n;
    proof {
        assert(spec_digits(n as int) =~= spec_digits(m as int) + rev@.reverse());
    }
    while m >= 10
        invariant
            spec_digits(n as int) == spec_digits(m as int) + rev@.reverse(),
        decreases m,
    {
        let d = (m % 10) as u8;
        let ghost old_rev = rev@;
        rev.push(48 + d);
        m = m / 10;
        proof {
            assert(rev@.reverse() =~= seq![(48 + d) as u8] + old_rev.reverse());
            assert(spec_digits(n as int) =~= spec_digits(m as int) + rev@.reverse());
        }
    }
    let ghost old_rev = rev@;
    rev.push(48 + (m as u8));
    proof {
        assert(rev@.reverse() =~= seq![(48 + m) as u8] + old_rev.reverse());
        assert(spec_digits(m as int) =~= seq![(48 + m) as u8]);
    }
    let mut out: Vec<u8> = Vec::new();
    let mut i: usize = 0;
    let total = rev.len();
    while i < total
        invariant
            i <= total,
            total == rev@.len(),
            out@ =~= rev@.reverse().take(i as int),
        decreases total - i,
    {
        out.push(rev[total - 1 - i]);
        proof {
            assert(out@ =~= rev@.reverse().take(i + 1));
        }
        i = i + 1;
    }
    proof {
        assert(rev@.reverse().take(total as int) =~= rev@.reverse());
        assert(out@ =~= spec_digits(n as int));
    }
    out
}

fn clone_program_tag(t: &ProgramTag) -> (r: ProgramTag)
    ensures
        r@ == t@,
{
    match t {
        ProgramTag::Class { name, parents } => {
            let mut ps: Vec<ClassType> = Vec::new();
            let mut i: usize = 0;
            while i < parents.len()
                invariant
                    i <= parents@.len(),
                    ps@.len() == i,
                    parents.deep_view().len() == parents@.len(),
                    forall|k: int|
                        0 <= k < i ==> #[trigger] ps.deep_view()[k] == parents.deep_view()[k],
                decreases parents@.len() - i,
            {
                let c = parents[i].clone();
                let ghost cv = c@;
                let ghost pre = ps.deep_view();
                ps.push(c);
                proof {
                    assert(cv == parents.deep_view()[i as int]);
                    assert(ps.deep_view()[i as int] == cv);
                    assert forall|k: int| 0 <= k < i implies #[trigger] ps.deep_view()[k]
                        == parents.deep_view()[k] by {
                        assert(ps.deep_view()[k] == pre[k]);
                    }
                }
                i = i + 1;
            }
            let r = ProgramTag::Class { name: clone_bytes(name), parents: ps };
            proof {
                assert(r@->Class_parents =~~= t@->Class_parents);
                assert(r@ =~~= t@);
            }
            r
        },
        ProgramTag::Function { name, class } => ProgramTag::Function {
            name: clone_bytes(name),
            class: class.clone(),
        },
        ProgramTag::Object { name, class } => ProgramTag::Object {
            name: clone_bytes(name),
            class: class.clone(),
        },
    }
}

/// The containment-table key of one `(file, tag)` pair, shaped
/// `[file,tag]`.
pub open spec fn spec_pair_key(f: int, t: int) -> Seq<u8> {
    seq![91u8] + spec_digits(f) + seq![44u8] + spec_digits(t) + seq![93u8]
}

/// Whether a rendered pair list is the decimal rendering of an index
/// pair list.
pub open spec fn spec_pairs_rendered(
    entry: Seq<(Vec<u8>, Vec<u8>)>,
    src: Seq<(usize, usize)>,
) -> bool {
    &&& entry.len() == src.len()
    &&& forall|k: int|
        0 <= k < entry.len() ==> #[trigger] entry[k].0@ == spec_digits(src[k].0 as int)
            && entry[k].1@ == spec_digits(src[k].1 as int)
}

/// The index rendered with string keys, for a consumer that wants plain
/// text: the import graph keyed by file number with decimal values, the
/// tag table keyed by file number with the tags carried over unchanged,
/// and the containment table keyed by `[file,tag]` with decimal pairs,
/// all in table order.
pub fn jsonify_evaluated_data(
    raw_imports: &Vec<Vec<usize>>,
    all_tags: &Vec<Vec<ProgramTag>>,
    children_tags: &Vec<((usize, usize), Vec<(usize, usize)>)>,
) -> (r: (
    Vec<(Vec<u8>, Vec<Vec<u8>>)>,
    Vec<(Vec<u8>, Vec<ProgramTag>)>,
    Vec<(Vec<u8>, Vec<(Vec<u8>, Vec<u8>)>)>,
))
    ensures
        r.0@.len() == raw_imports@.len(),
        r.1@.len() == all_tags@.len(),
        r.2@.len() == children_tags@.len(),
        forall|f: int| 0 <= f < r.0@.len() ==> #[trigger] r.0@[f].0@ == spec_digits(f),
        forall|f: int|
            0 <= f < r.0@.len() ==> #[trigger] r.0@[f].1@.len() == raw_imports@[f]@.len(),
        forall|f: int, k: int|
            0 <= f < r.0@.len() && 0 <= k < r.0@[f].1@.len() ==> #[trigger] r.0@[f].1@[k]@
                == spec_digits(raw_imports@[f]@[k] as int),
        forall|f: int| 0 <= f < r.1@.len() ==> #[trigger] r.1@[f].0@ == spec_digits(f),
        forall|f: int|
            0 <= f < r.1@.len() ==> #[trigger] r.1@[f].1.deep_view()
                == all_tags@[f].deep_view(),
        forall|c: int|
            0 <= c < r.2@.len() ==> #[trigger] r.2@[c].0@ == spec_pair_key(
                children_tags@[c].0.0 as int,
                children_tags@[c].0.1 as int,
            ),
        forall|c: int|
            0 <= c < r.2@.len() ==> spec_pairs_rendered(
                #[trigger] r.2@[c].1@,
                children_tags@[c].1@,
            ),
{
    let mut imports: Vec<(Vec<u8>, Vec<Vec<u8>>)> = Vec::new();
    let mut f: usize = 0;
    while f < raw_imports.len()
        invariant
            f <= raw_imports@.len(),
            imports@.len() == f,
            forall|g: int| 0 <= g < f ==> #[trigger] imports@[g].0@ == spec_digits(g),
            forall|g: int|
                0 <= g < f ==> #[trigger] imports@[g].1@.len() == raw_imports@[g]@.len(),
            forall|g: int, k: int|
                0 <= g < f && 0 <= k < imports@[g].1@.len() ==> #[trigger] imports@[g].1@[k]@
                    == spec_digits(raw_imports@[g]@[k] as int),
        decreases raw_imports@.len() - f,
    {
        let mut vals: Vec<Vec<u8>> = Vec::new();
        let row = &raw_imports[f];
        let mut k: usize = 0;
        while k < row.len()
            invariant
                k <= row@.len(),
                vals@.len() == k,
                f < raw_imports@.len(),
                row == raw_imports@[f as int],
                forall|j: int|
                    0 <= j < k ==> #[trigger] vals@[j]@ == spec_digits(row@[j] as int),
            decreases row@.len() - k,
        {
            vals.push(usize_digits(row[k]));
            k = k + 1;
        }
        imports.push((usize_digits(f), vals));
        f = f + 1;
    }
    let mut tags: Vec<(Vec<u8>, Vec<ProgramTag>)> = Vec::new();
    let mut f2: usize = 0;
    while f2 < all_tags.len()
        invariant
            f2 <= all_tags@.len(),
            tags@.len() == f2,
            forall|g: int| 0 <= g < f2 ==> #[trigger] tags@[g].0@ == spec_digits(g),
            forall|g: int|
                0 <= g < f2 ==> #[trigger] tags@[g].1.deep_view() == all_tags@[g].deep_view(),
        decreases all_tags@.len() - f2,
    {
        let mut vals: Vec<ProgramTag> = Vec::new();
        let row = &all_tags[f2];
        let mut k: usize = 0;
        while k < row.len()
            invariant
                k <= row@.len(),
                vals@.len() == k,
                f2 < all_tags@.len(),
                row == all_tags@[f2 as int],
                row.deep_view().len() == row@.len(),
                forall|j: int|
                    0 <= j < k ==> #[trigger] vals.deep_view()[j] == row.deep_view()[j],
            decreases row@.len() - k,
        {
            let c = clone_program_tag(&row[k]);
            let ghost cv = c@;
            let ghost pre = vals.deep_view();
            vals.push(c);
            proof {
                assert(cv == row.deep_view()[k as int]);
                assert(vals.deep_view()[k as int] == cv);
                assert forall|j: int| 0 <= j < k implies #[trigger] vals.deep_view()[j]
                    == row.deep_view()[j] by {
                    assert(vals.deep_view()[j] == pre[j]);
                }
            }
            k = k + 1;
        }
        proof {
            assert(vals.deep_view() =~~= row.deep_view());
        }
        tags.push((usize_digits(f2), vals));
        f2 = f2 + 1;
    }
    let mut children: Vec<(Vec<u8>, Vec<(Vec<u8>, Vec<u8>)>)> = Vec::new();
    let mut c: usize = 0;
    while c < children_tags.len()
        invariant
            c <= children_tags@.len(),
            children@.len() == c,
            forall|g: int|
                0 <= g < c ==> #[trigger] children@[g].0@ == spec_pair_key(
                    children_tags@[g].0.0 as int,
                    children_tags@[g].0.1 as int,
                ),
            forall|g: int|
                0 <= g < c ==> spec_pairs_rendered(
                    #[trigger] children@[g].1@,
                    children_tags@[g].1@,
                ),
        decreases children_tags@.len() - c,
    {
        let ((kf, kt), tos) = &children_tags[c];
        // key shaped `[file,tag]`
        let mut key: Vec<u8> = Vec::new();
        key.push(91);
        let mut df = usize_digits(*kf);
        key.append(&mut df);
        key.push(44);
        let mut dt = usize_digits(*kt);
        key.append(&mut dt);
        key.push(93);
        proof {
            assert(key@ =~= spec_pair_key(
                children_tags@[c as int].0.0 as int,
                children_tags@[c as int].0.1 as int,
            ));
        }
        let mut vals: Vec<(Vec<u8>, Vec<u8>)> = Vec::new();
        let mut k: usize = 0;
        while k < tos.len()
            invariant
                k <= tos@.len(),
                vals@.len() == k,
                c < children_tags@.len(),
                tos == children_tags@[c as int].1,
                forall|j: int|
                    0 <= j < k ==> #[trigger] vals@[j].0@ == spec_digits(tos@[j].0 as int)
                        && vals@[j].1@ == spec_digits(tos@[j].1 as int),
            decreases tos@.len() - k,
        {
            vals.push((usize_digits(tos[k].0), usize_digits(tos[k].1)));
            k = k + 1;
        }
        let ghost kv = key@;
        let ghost vv = vals@;
        let ghost pre = children@;
        children.push((key, vals));
        proof {
            assert(children@[c as int].0@ == kv);
            assert(children@[c as int].1@ == vv);
            assert(spec_pairs_rendered(vv, children_tags@[c as int].1@));
            assert forall|g: int| 0 <= g < c + 1 implies spec_pairs_rendered(
                #[trigger] children@[g].1@,
                children_tags@[g].1@,
            ) by {
                if g < c {
                    assert(children@[g] == pre[g]);
                }
            }
        }
        c = c + 1;
    }
    (imports, tags, children)
}

} // verus!
