//! The crate-level laws: properties that relate several components, stated
//! and proved over the same spec functions the components' contracts use.

use vstd::prelude::*;

use crate::extract::ConnV;
use crate::graph::spec_assoc_class;
use crate::graph::spec_resolve;
use crate::graph::spec_resolved_entry;
use crate::graph::spec_scan_accessible;
use crate::graph::TablesV;
use crate::scopes::ScopeV;
use crate::scopes::spec_build_scopes;
use crate::scopes::spec_is_opener;
use crate::scopes::lemma_build_scopes_wf;

verus! {

/// Every non-root scope's interval lies strictly inside its parent's:
/// its start offset is greater than the parent's and its end offset is
/// at most the parent's.  The one text shape left out is a file whose
/// very first byte is an opening delimiter: that scope starts at offset
/// 0, exactly where the whole-file scope starts.
pub proof fn lemma_scope_strict_nesting(text: Seq<u8>, j: int)
    requires
        text.len() == 0 || !spec_is_opener(text[0]),
        1 <= j < spec_build_scopes(text).0.len(),
    ensures
        ({
            let scopes = spec_build_scopes(text).0;
            let p = scopes[j].parent;
            &&& 0 <= p < j
            &&& scopes[j].start > scopes[p].start
            &&& scopes[j].end <= scopes[p].end
        }),
{
    lemma_build_scopes_wf(text);
    let scopes = spec_build_scopes(text).0;
    let p = scopes[j].parent;
    assert(scopes[p].start <= scopes[j].start);
    if scopes[j].start == scopes[p].start {
        assert(p == 0 && scopes[j].start == 0);
        assert(spec_is_opener(text[scopes[j].start]));
        assert(false);
    }
}

/// Building the scope tree twice over an unchanged text yields identical
/// trees: the builder's result is a function of the text alone.
pub proof fn lemma_scope_build_deterministic(
    text: Seq<u8>,
    r1: (Seq<ScopeV>, Seq<int>),
    r2: (Seq<ScopeV>, Seq<int>),
)
    requires
        r1 == spec_build_scopes(text),
        r2 == spec_build_scopes(text),
    ensures
        r1 == r2,
{
}

/// Running the extraction of one file twice over an unchanged text
/// yields byte-identical tag tables: each extractor's result is pinned to
/// a function of the text, the scope tree and the pattern bank, so two
/// values meeting those contracts are equal.
pub proof fn lemma_extraction_deterministic(
    text: Seq<u8>,
    bank: Seq<Seq<char>>,
    c1: Seq<crate::extract::ClassV>,
    c2: Seq<crate::extract::ClassV>,
    f1: Seq<crate::extract::FunctionV>,
    f2: Seq<crate::extract::FunctionV>,
    o1: Seq<crate::extract::ObjectV>,
    o2: Seq<crate::extract::ObjectV>,
)
    requires
        c1 == crate::extract::spec_classes_in_bank(text, spec_build_scopes(text).0, bank, 0),
        c2 == crate::extract::spec_classes_in_bank(text, spec_build_scopes(text).0, bank, 0),
        f1 == crate::extract::spec_funs_in_bank(text, spec_build_scopes(text).0, bank, 0),
        f2 == crate::extract::spec_funs_in_bank(text, spec_build_scopes(text).0, bank, 0),
        o1 == crate::extract::spec_objects_in_bank(text, spec_build_scopes(text).0, bank, 0),
        o2 == crate::extract::spec_objects_in_bank(text, spec_build_scopes(text).0, bank, 0),
    ensures
        c1 == c2,
        f1 == f2,
        o1 == o2,
{
}

/// Mapping a file's resolved imports to file-list indices twice yields
/// the same import graph.
pub proof fn lemma_import_graph_deterministic(
    files: Seq<Seq<u8>>,
    imps: Seq<crate::imports::ImportV>,
    g1: Seq<usize>,
    g2: Seq<usize>,
)
    requires
        g1 == crate::imports::spec_file_imports(files, imps, 0),
        g2 == crate::imports::spec_file_imports(files, imps, 0),
    ensures
        g1 == g2,
{
}

/// A scan of an accessible-scope list yields only class connections.
proof fn lemma_scan_yields_connected(tabs: TablesV, acc: Seq<(usize, usize)>, q: Seq<u8>, i: int)
    ensures
        spec_scan_accessible(tabs, acc, q, i) matches Some(c) ==> c is Connected,
    decreases acc.len() - i,
{
    if 0 <= i < acc.len() {
        let af = acc[i].0;
        let asc = acc[i].1;
        if af < tabs.len() && asc < tabs[af as int].len() {
            lemma_assoc_yields_connected(tabs[af as int][asc as int], q, 0);
        }
        lemma_scan_yields_connected(tabs, acc, q, i + 1);
    }
}

proof fn lemma_assoc_yields_connected(t: Seq<(Seq<u8>, ConnV)>, q: Seq<u8>, k: int)
    ensures
        spec_assoc_class(t, q, k) matches Some(c) ==> c is Connected,
    decreases t.len() - k,
{
    if 0 <= k < t.len() && !(t[k].0 == q && t[k].1 is Connected) {
        lemma_assoc_yields_connected(t, q, k + 1);
    }
}

/// Type resolution is monotonic: a resolved reference never reverts.
/// The commit pass keeps every entry's name; an entry that was already
/// connected or primitive is untouched; and an entry that comes out of
/// the pass still unresolved went in unresolved with the same name — the
/// unresolved state is reported, never dropped or defaulted.
pub proof fn lemma_resolution_monotonic(
    path: Seq<u8>,
    acc: Seq<(usize, usize)>,
    tabs: TablesV,
    e: (Seq<u8>, ConnV),
)
    ensures
        spec_resolved_entry(path, acc, tabs, e).0 == e.0,
        !(e.1 is Undiscovered) ==> spec_resolved_entry(path, acc, tabs, e) == e,
        spec_resolved_entry(path, acc, tabs, e).1 is Undiscovered ==> spec_resolved_entry(
            path,
            acc,
            tabs,
            e,
        ) == e,
{
    if e.1 is Undiscovered {
        let qn = e.1->Undiscovered_0;
        match spec_resolve(path, acc, tabs, qn) {
            Some(c) => {
                lemma_scan_yields_connected(tabs, acc, qn, 0);
            },
            None => {},
        }
    }
}

/// Running the full pipeline twice on an unchanged file set yields
/// byte-identical snapshots: every table `create_project_data` builds is
/// pinned to a function of the tag listing, the file list, the file
/// texts and the resolved imports, so two snapshots built from the same
/// inputs agree on all of them — scope trees, walk records, tag tables,
/// import graph, containment table and the resolved lookup tables.
pub proof fn lemma_rebuild_identical(
    tags_data: Seq<crate::tags::TagEntry>,
    all_files: Seq<Vec<u8>>,
    texts: Seq<Option<Vec<u8>>>,
    resolved: Seq<Vec<crate::imports::Import>>,
    d1: crate::project::ProjectData,
    d2: crate::project::ProjectData,
)
    requires
        crate::project::spec_snapshot_ok(tags_data, all_files, texts, resolved, d1),
        crate::project::spec_snapshot_ok(tags_data, all_files, texts, resolved, d2),
    ensures
        d1.all_files@ == d2.all_files@,
        d1.tags_data@ == d2.tags_data@,
        forall|f: int|
            0 <= f < all_files.len() ==> (
                #[trigger] d1.hard_data@[f].0.deep_view(),
                d1.hard_data@[f].1.deep_view(),
                d1.hard_data@[f].2.deep_view(),
                d1.hard_data@[f].3.deep_view(),
            ) == (
                d2.hard_data@[f].0.deep_view(),
                d2.hard_data@[f].1.deep_view(),
                d2.hard_data@[f].2.deep_view(),
                d2.hard_data@[f].3.deep_view(),
            ),
        forall|f: int|
            0 <= f < all_files.len() ==> #[trigger] d1.raw_imports@[f]@ == d2.raw_imports@[f]@,
        forall|f: int|
            0 <= f < all_files.len() ==> #[trigger] d1.all_tags@[f].deep_view()
                == d2.all_tags@[f].deep_view(),
        crate::graph::ch_tbl_view(d1.children_tags@) == crate::graph::ch_tbl_view(
            d2.children_tags@,
        ),
        forall|f: int|
            0 <= f < all_files.len() ==> #[trigger] d1.files_data@[f].scopes.deep_view()
                == d2.files_data@[f].scopes.deep_view(),
        forall|f: int|
            0 <= f < all_files.len() ==> #[trigger] crate::graph::cls_view(
                d1.custom_classes@[f]@,
            ) == crate::graph::cls_view(d2.custom_classes@[f]@),
        forall|f: int, s: int|
            0 <= f < all_files.len() && 0 <= s < d1.files_data@[f].scopes@.len()
                ==> #[trigger] crate::graph::tbl_view(d1.scoped_connectables@[f]@[s]@)
                == crate::graph::tbl_view(d2.scoped_connectables@[f]@[s]@),
{
    assert forall|f: int| 0 <= f < all_files.len() implies #[trigger] d1.files_data@[f].scopes.deep_view() == d2.files_data@[f].scopes.deep_view() by {
        assert(crate::graph::spec_evaluated_facts(f, all_files[f]@, texts[f], d1.files_data@[f]));
        assert(crate::graph::spec_evaluated_facts(f, all_files[f]@, texts[f], d2.files_data@[f]));
        if crate::lang::spec_family(all_files[f]@) != 0 {
        } else {
            assert(d1.files_data@[f].scopes.deep_view() =~~= d2.files_data@[f].scopes.deep_view());
        }
    }
    let c1 = crate::graph::spec_collected_tags(all_files, d1.hard_data@);
    let c2 = crate::graph::spec_collected_tags(all_files, d2.hard_data@);
    assert forall|g: int| 0 <= g < all_files.len() implies c1[g] == c2[g] by {
        let w1 = (
            d1.hard_data@[g].0.deep_view(),
            d1.hard_data@[g].1.deep_view(),
            d1.hard_data@[g].2.deep_view(),
            d1.hard_data@[g].3.deep_view(),
        );
        let w2 = (
            d2.hard_data@[g].0.deep_view(),
            d2.hard_data@[g].1.deep_view(),
            d2.hard_data@[g].2.deep_view(),
            d2.hard_data@[g].3.deep_view(),
        );
        assert(w1 == w2);
        assert(d1.hard_data@[g].1.deep_view() == d2.hard_data@[g].1.deep_view());
        assert(d1.hard_data@[g].2.deep_view() == d2.hard_data@[g].2.deep_view());
        assert(d1.hard_data@[g].3.deep_view() == d2.hard_data@[g].3.deep_view());
    }
    assert(c1 =~~= c2);
    assert forall|g: int| 0 <= g < all_files.len() implies #[trigger] d1.hard_data@[g].1.deep_view()
        == d2.hard_data@[g].1.deep_view() && d1.hard_data@[g].2.deep_view()
        == d2.hard_data@[g].2.deep_view() && d1.hard_data@[g].3.deep_view()
        == d2.hard_data@[g].3.deep_view() by {
        let w1 = (
            d1.hard_data@[g].0.deep_view(),
            d1.hard_data@[g].1.deep_view(),
            d1.hard_data@[g].2.deep_view(),
            d1.hard_data@[g].3.deep_view(),
        );
        let w2 = (
            d2.hard_data@[g].0.deep_view(),
            d2.hard_data@[g].1.deep_view(),
            d2.hard_data@[g].2.deep_view(),
            d2.hard_data@[g].3.deep_view(),
        );
        assert(w1 == w2);
    }
    lemma_children_congruent(all_files, d1.hard_data@, d2.hard_data@, 0);
    assert forall|f: int| 0 <= f < all_files.len() implies #[trigger] d1.all_tags@[f].deep_view()
        == d2.all_tags@[f].deep_view() by {
        assert(d1.raw_imports@[f]@ == d2.raw_imports@[f]@);
        assert(c1[f] == c2[f]);
        assert(d1.all_tags@[f].deep_view().len() == c1[f].len());
        assert(d2.all_tags@[f].deep_view().len() == c2[f].len());
        assert forall|t: int| 0 <= t < d1.all_tags@[f].deep_view().len() implies d1.all_tags@[f].deep_view()[t] == d2.all_tags@[f].deep_view()[t] by {
            assert(d1.all_tags@[f].deep_view()[t] == crate::graph::spec_connect_tag(
                c1,
                d1.raw_imports@[f]@,
                c1[f][t],
            ));
            assert(d2.all_tags@[f].deep_view()[t] == crate::graph::spec_connect_tag(
                c2,
                d2.raw_imports@[f]@,
                c2[f][t],
            ));
        }
        assert(d1.all_tags@[f].deep_view() =~~= d2.all_tags@[f].deep_view());
    }
    assert forall|f: int| 0 <= f < all_files.len() implies #[trigger] crate::graph::cls_view(
        d1.custom_classes@[f]@,
    ) == crate::graph::cls_view(d2.custom_classes@[f]@) by {
        lemma_facts_views_equal(f, all_files[f]@, texts[f], d1.files_data@[f], d2.files_data@[f]);
        assert(crate::graph::spec_seed_file(f, d1.files_data@[f]) == crate::graph::spec_seed_file(
            f,
            d2.files_data@[f],
        ));
    }
    assert forall|g: int| 0 <= g < all_files.len() implies #[trigger] crate::graph::spec_seed_file(
        g,
        d1.files_data@[g],
    ) == crate::graph::spec_seed_file(g, d2.files_data@[g]) by {
        lemma_facts_views_equal(g, all_files[g]@, texts[g], d1.files_data@[g], d2.files_data@[g]);
    }
    assert(crate::graph::spec_seeded_tables(d1.files_data@) =~~= crate::graph::spec_seeded_tables(
        d2.files_data@,
    ));
    assert forall|f: int, s: int|
        0 <= f < all_files.len() && 0 <= s < d1.files_data@[f].scopes@.len()
        implies #[trigger] crate::graph::tbl_view(d1.scoped_connectables@[f]@[s]@)
        == crate::graph::tbl_view(d2.scoped_connectables@[f]@[s]@) by {
        lemma_facts_views_equal(f, all_files[f]@, texts[f], d1.files_data@[f], d2.files_data@[f]);
        assert(d1.files_data@[f].scopes@.len() == d1.files_data@[f].scopes.deep_view().len());
        assert(d2.files_data@[f].scopes@.len() == d2.files_data@[f].scopes.deep_view().len());
        assert(s < d2.files_data@[f].scopes@.len());
        assert(d1.raw_imports@[f]@ == d2.raw_imports@[f]@);
        assert(crate::graph::spec_accessible_set(
            d1.files_data@[f].scopes.deep_view(),
            f,
            s,
            d1.raw_imports@[f]@,
        ) == crate::graph::spec_accessible_set(
            d2.files_data@[f].scopes.deep_view(),
            f,
            s,
            d2.raw_imports@[f]@,
        ));
        assert(crate::graph::spec_seed_file(f, d1.files_data@[f]) == crate::graph::spec_seed_file(
            f,
            d2.files_data@[f],
        ));
    }
}

/// The containment table is determined by the walk records' views alone.
proof fn lemma_children_congruent(
    files: Seq<Vec<u8>>,
    h1: Seq<
        (
            Vec<crate::tags::ScopeEntry>,
            Vec<crate::tags::ClassEntry>,
            Vec<crate::tags::FunctionEntry>,
            Vec<crate::tags::ObjectEntry>,
        ),
    >,
    h2: Seq<
        (
            Vec<crate::tags::ScopeEntry>,
            Vec<crate::tags::ClassEntry>,
            Vec<crate::tags::FunctionEntry>,
            Vec<crate::tags::ObjectEntry>,
        ),
    >,
    f: int,
)
    requires
        h1.len() == h2.len(),
        h1.len() == files.len(),
        forall|g: int|
            0 <= g < h1.len() ==> #[trigger] h1[g].1.deep_view() == h2[g].1.deep_view()
                && h1[g].2.deep_view() == h2[g].2.deep_view() && h1[g].3.deep_view()
                == h2[g].3.deep_view(),
    ensures
        crate::graph::spec_all_children(files, h1, f) == crate::graph::spec_all_children(
            files,
            h2,
            f,
        ),
    decreases h1.len() - f,
{
    if 0 <= f < h1.len() {
        lemma_children_congruent(files, h1, h2, f + 1);
    }
}

/// Two per-file record sets pinned to the same inputs have the same
/// views, component by component.
proof fn lemma_facts_views_equal(
    f: int,
    path: Seq<u8>,
    text_opt: Option<Vec<u8>>,
    a: crate::extract::FileFacts,
    b: crate::extract::FileFacts,
)
    requires
        crate::graph::spec_evaluated_facts(f, path, text_opt, a),
        crate::graph::spec_evaluated_facts(f, path, text_opt, b),
    ensures
        a.scopes.deep_view() == b.scopes.deep_view(),
        a.classes.deep_view() == b.classes.deep_view(),
        a.functions.deep_view() == b.functions.deep_view(),
        a.lambdas.deep_view() == b.lambdas.deep_view(),
        a.objects.deep_view() == b.objects.deep_view(),
        a.equations.deep_view() == b.equations.deep_view(),
        a.calls.deep_view() == b.calls.deep_view(),
        a.accesses.deep_view() == b.accesses.deep_view(),
        crate::graph::spec_seed_file(f, a) == crate::graph::spec_seed_file(f, b),
{
    if crate::lang::spec_family(path) != 0 {
    } else {
        assert(a.scopes.deep_view() =~~= b.scopes.deep_view());
        assert(a.classes.deep_view() =~~= b.classes.deep_view());
        assert(a.functions.deep_view() =~~= b.functions.deep_view());
        assert(a.lambdas.deep_view() =~~= b.lambdas.deep_view());
        assert(a.objects.deep_view() =~~= b.objects.deep_view());
        assert(a.equations.deep_view() =~~= b.equations.deep_view());
        assert(a.calls.deep_view() =~~= b.calls.deep_view());
        assert(a.accesses.deep_view() =~~= b.accesses.deep_view());
    }
    assert(crate::graph::spec_seed_file(f, a) == crate::graph::spec_seed_file(f, b)) by {
        assert(a.scopes.deep_view() == b.scopes.deep_view());
        assert(a.classes.deep_view() == b.classes.deep_view());
        assert(a.functions.deep_view() == b.functions.deep_view());
        assert(a.lambdas.deep_view() == b.lambdas.deep_view());
        assert(a.objects.deep_view() == b.objects.deep_view());
    }
}

} // verus!
