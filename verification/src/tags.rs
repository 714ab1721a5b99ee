//! Tag-listing input and the per-file tag walk.
//!
//! The tag listing is line-oriented text: lines starting `!` are comments,
//! the rest are tab-separated `tag_name, file_name, defining_pattern, kind,
//! [context]` records.  The walk scans each listed file line by line,
//! anchors every listed tag to the brace scope it appears in, and tracks
//! scopes by line and column.

use vstd::prelude::*;

use crate::bytes::bytes_eq;
use crate::bytes::copy_range;
use crate::bytes::find_sub;
use crate::bytes::spec_lines;
use crate::bytes::spec_split;
use crate::bytes::spec_trim_range;
use crate::bytes::split_lines;
use crate::bytes::split_on;
use crate::bytes::trim_range;
use crate::rx::pattern_matches_or_empty;

verus! {

/// One record of the tag-listing input.
#[derive(PartialEq, Eq, Debug)]
pub struct TagEntry {
    pub tag_name: Vec<u8>,
    pub file_name: Vec<u8>,
    pub reg_ex: Vec<u8>,
    pub tag: Vec<u8>,
    pub context: Vec<u8>,
}

#[verifier::ext_equal]
pub ghost struct TagEntryV {
    pub tag_name: Seq<u8>,
    pub file_name: Seq<u8>,
    pub reg_ex: Seq<u8>,
    pub tag: Seq<u8>,
    pub context: Seq<u8>,
}

impl View for TagEntry {
    type V = TagEntryV;

    open spec fn view(&self) -> TagEntryV {
        TagEntryV {
            tag_name: self.tag_name@,
            file_name: self.file_name@,
            reg_ex: self.reg_ex@,
            tag: self.tag@,
            context: self.context@,
        }
    }
}

impl DeepView for TagEntry {
    type V = TagEntryV;

    open spec fn deep_view(&self) -> TagEntryV {
        self@
    }
}

/// Parse one listing line: skip comments (leading `!`) and lines with
/// fewer than three tab-separated parts; the pattern field sheds its
/// two-byte prefix and four-byte suffix and is trimmed; a pattern field
/// too short for that is a malformed line and is skipped.
pub open spec fn spec_parse_tag_line(line: Seq<u8>) -> Option<TagEntryV> {
    if line.len() > 0 && line[0] == 33 {
        None
    } else {
        let parts = spec_split(line, 9);
        if parts.len() < 3 {
            None
        } else {
            let p2 = parts[2];
            if p2.len() < 6 {
                None
            } else {
                Some(
                    TagEntryV {
                        tag_name: parts[0],
                        file_name: parts[1],
                        reg_ex: spec_trim_range(p2, 2, p2.len() - 4),
                        tag: if parts.len() >= 4 {
                            parts[3]
                        } else {
                            Seq::empty()
                        },
                        context: if parts.len() >= 5 {
                            parts[4]
                        } else {
                            Seq::empty()
                        },
                    },
                )
            }
        }
    }
}

pub open spec fn spec_tags_of_lines(lines: Seq<Seq<u8>>, i: int) -> Seq<TagEntryV>
    decreases lines.len() - i,
{
    if i < 0 || i >= lines.len() {
        Seq::empty()
    } else {
        let rest = spec_tags_of_lines(lines, i + 1);
        match spec_parse_tag_line(lines[i]) {
            Some(t) => seq![t] + rest,
            None => rest,
        }
    }
}

/// The records of a tag-listing text.
pub open spec fn spec_tags_data(text: Seq<u8>) -> Seq<TagEntryV> {
    spec_tags_of_lines(spec_lines(text), 0)
}

/// Parse a tag-listing text into its records; comment and malformed
/// lines contribute nothing.
pub fn get_tags_data(text: &[u8]) -> (r: Vec<TagEntry>)
    ensures
        r.deep_view() == spec_tags_data(text@),
{
    let lines = split_lines(text);
    let ghost lv = lines.deep_view();
    let mut r: Vec<TagEntry> = Vec::new();
    let mut i: usize = 0;
    proof {
        assert(r.deep_view() + spec_tags_of_lines(lv, 0) =~~= spec_tags_data(text@));
    }
    while i < lines.len()
        invariant
            i <= lines@.len(),
            lv == lines.deep_view(),
            lv.len() == lines@.len(),
            spec_tags_data(text@) == r.deep_view() + spec_tags_of_lines(lv, i as int),
        decreases lines@.len() - i,
    {
        let line = &lines[i];
        proof {
            assert(lv[i as int] =~= line@);
        }
        let ghost pre = r.deep_view();
        if !(line.len() > 0 && line[0] == 33) {
            let parts = split_on(line.as_slice(), 9);
            proof {
                assert(parts.deep_view() == spec_split(lv[i as int], 9));
            }
            if parts.len() >= 3 {
                let p2 = &parts[2];
                proof {
                    assert(parts.deep_view()[2] =~= p2@);
                }
                if p2.len() >= 6 {
                    let entry = TagEntry {
                        tag_name: crate::extract::clone_bytes(&parts[0]),
                        file_name: crate::extract::clone_bytes(&parts[1]),
                        reg_ex: trim_range(p2.as_slice(), 2, p2.len() - 4),
                        tag: if parts.len() >= 4 {
                            crate::extract::clone_bytes(&parts[3])
                        } else {
                            Vec::new()
                        },
                        context: if parts.len() >= 5 {
                            crate::extract::clone_bytes(&parts[4])
                        } else {
                            Vec::new()
                        },
                    };
                    let ghost ev = entry@;
                    proof {
                        assert(parts.deep_view()[0] =~= parts@[0]@);
                        assert(parts.deep_view()[1] =~= parts@[1]@);
                        assert(ev =~~= spec_parse_tag_line(lv[i as int])->Some_0);
                    }
                    r.push(entry);
                    proof {
                        assert(r.deep_view() =~~= pre + seq![
                            spec_parse_tag_line(lv[i as int])->Some_0,
                        ]);
                        assert((pre + seq![spec_parse_tag_line(lv[i as int])->Some_0])
                            + spec_tags_of_lines(lv, i + 1) =~~= pre + (seq![
                            spec_parse_tag_line(lv[i as int])->Some_0,
                        ] + spec_tags_of_lines(lv, i + 1)));
                    }
                }
            }
        }
        i = i + 1;
    }
    r
}

/// Whether a byte string occurs in a list of byte strings.
pub open spec fn spec_contains_bytes(l: Seq<Seq<u8>>, x: Seq<u8>) -> bool {
    exists|k: int| 0 <= k < l.len() && l[k] == x
}

fn contains_bytes(l: &Vec<Vec<u8>>, x: &[u8]) -> (r: bool)
    ensures
        r == spec_contains_bytes(l.deep_view(), x@),
{
    let mut k: usize = 0;
    while k < l.len()
        invariant
            k <= l@.len(),
            l.deep_view().len() == l@.len(),
            forall|j: int| 0 <= j < k ==> #[trigger] l.deep_view()[j] != x@,
        decreases l@.len() - k,
    {
        if bytes_eq(l[k].as_slice(), x) {
            proof {
                assert(l.deep_view()[k as int] =~= l@[k as int]@);
            }
            return true;
        }
        proof {
            assert(l.deep_view()[k as int] =~= l@[k as int]@);
        }
        k = k + 1;
    }
    false
}

pub open spec fn spec_all_files_from(tags: Seq<TagEntryV>, i: int, acc: Seq<Seq<u8>>) -> Seq<
    Seq<u8>,
>
    decreases tags.len() - i,
{
    if i < 0 || i >= tags.len() {
        acc
    } else {
        let acc2 = if spec_contains_bytes(acc, tags[i].file_name) {
            acc
        } else {
            acc.push(tags[i].file_name)
        };
        spec_all_files_from(tags, i + 1, acc2)
    }
}

/// The distinct file names of a tag listing, in first-occurrence order —
/// one fixed, input-determined order, so that repeated builds walk the
/// same list.
pub open spec fn spec_all_files(tags: Seq<TagEntryV>) -> Seq<Seq<u8>> {
    spec_all_files_from(tags, 0, Seq::empty())
}

pub fn get_all_files(tags: &Vec<TagEntry>) -> (r: Vec<Vec<u8>>)
    ensures
        r.deep_view() == spec_all_files(tags.deep_view()),
        forall|i: int, j: int|
            0 <= i < j < r.deep_view().len() ==> #[trigger] r.deep_view()[i] != #[trigger] r.deep_view()[j],
{
    let ghost tv = tags.deep_view();
    let mut r: Vec<Vec<u8>> = Vec::new();
    let mut i: usize = 0;
    proof {
        assert(r.deep_view() =~~= Seq::<Seq<u8>>::empty());
    }
    while i < tags.len()
        invariant
            i <= tags@.len(),
            tv == tags.deep_view(),
            tv.len() == tags@.len(),
            spec_all_files(tv) == spec_all_files_from(tv, i as int, r.deep_view()),
            forall|a: int, b: int|
                0 <= a < b < r.deep_view().len() ==> #[trigger] r.deep_view()[a]
                    != #[trigger] r.deep_view()[b],
        decreases tags@.len() - i,
    {
        let ghost pre = r.deep_view();
        if !contains_bytes(&r, tags[i].file_name.as_slice()) {
            let f = crate::extract::clone_bytes(&tags[i].file_name);
            let ghost fv = f@;
            r.push(f);
            proof {
                assert(fv == tv[i as int].file_name);
                assert(r.deep_view() =~~= pre.push(tv[i as int].file_name));
                assert forall|a: int, b: int|
                    0 <= a < b < r.deep_view().len() implies #[trigger] r.deep_view()[a]
                    != #[trigger] r.deep_view()[b] by {
                    if b == r.deep_view().len() - 1 {
                        assert(!spec_contains_bytes(pre, fv));
                        assert(r.deep_view()[a] == pre[a]);
                    }
                }
            }
        } else {
            proof {
                assert(tv[i as int].file_name == tags@[i as int]@.file_name);
            }
        }
        i = i + 1;
    }
    r
}

/// A lexical scope of the line/column walk: the positions of its braces,
/// its parent (`u128::MAX` for the whole-file scope) and its children.
#[derive(PartialEq, Eq, Debug)]
pub struct ScopeEntry {
    pub file_name: Vec<u8>,
    pub start_line: u128,
    pub start_col: u128,
    pub end_line: u128,
    pub end_col: u128,
    pub parent_scope: u128,
    pub children_scop: Vec<u128>,
}

/// A class listed in the tag listing, anchored to the brace scope that
/// follows its defining line.
#[derive(PartialEq, Eq, Debug)]
pub struct ClassEntry {
    pub name: Vec<u8>,
    pub parent_scope: usize,
    pub class_scope: usize,
    pub parents: Vec<Vec<u8>>,
}

#[verifier::ext_equal]
pub ghost struct ClassEntryV {
    pub name: Seq<u8>,
    pub parent_scope: usize,
    pub class_scope: usize,
    pub parents: Seq<Seq<u8>>,
}

impl View for ClassEntry {
    type V = ClassEntryV;

    open spec fn view(&self) -> ClassEntryV {
        ClassEntryV {
            name: self.name@,
            parent_scope: self.parent_scope,
            class_scope: self.class_scope,
            parents: self.parents.deep_view(),
        }
    }
}

impl DeepView for ClassEntry {
    type V = ClassEntryV;

    open spec fn deep_view(&self) -> ClassEntryV {
        self@
    }
}

/// A function listed in the tag listing.
#[derive(PartialEq, Eq, Debug)]
pub struct FunctionEntry {
    pub name: Vec<u8>,
    pub parent_scope: usize,
    pub function_scope: usize,
    pub class_name: Vec<u8>,
}

#[verifier::ext_equal]
pub ghost struct FunctionEntryV {
    pub name: Seq<u8>,
    pub parent_scope: usize,
    pub function_scope: usize,
    pub class_name: Seq<u8>,
}

impl View for FunctionEntry {
    type V = FunctionEntryV;

    open spec fn view(&self) -> FunctionEntryV {
        FunctionEntryV {
            name: self.name@,
            parent_scope: self.parent_scope,
            function_scope: self.function_scope,
            class_name: self.class_name@,
        }
    }
}

impl DeepView for FunctionEntry {
    type V = FunctionEntryV;

    open spec fn deep_view(&self) -> FunctionEntryV {
        self@
    }
}

/// An object listed in the tag listing.
#[derive(PartialEq, Eq, Debug)]
pub struct ObjectEntry {
    pub name: Vec<u8>,
    pub parent_scope: usize,
    pub class_name: Vec<u8>,
}

#[verifier::ext_equal]
pub ghost struct ObjectEntryV {
    pub name: Seq<u8>,
    pub parent_scope: usize,
    pub class_name: Seq<u8>,
}

impl View for ObjectEntry {
    type V = ObjectEntryV;

    open spec fn view(&self) -> ObjectEntryV {
        ObjectEntryV {
            name: self.name@,
            parent_scope: self.parent_scope,
            class_name: self.class_name@,
        }
    }
}

impl DeepView for ObjectEntry {
    type V = ObjectEntryV;

    open spec fn deep_view(&self) -> ObjectEntryV {
        self@
    }
}

#[verifier::ext_equal]
pub ghost struct ScopeEntryV {
    pub file_name: Seq<u8>,
    pub start_line: u128,
    pub start_col: u128,
    pub end_line: u128,
    pub end_col: u128,
    pub parent_scope: u128,
    pub children_scop: Seq<u128>,
}

impl View for ScopeEntry {
    type V = ScopeEntryV;

    open spec fn view(&self) -> ScopeEntryV {
        ScopeEntryV {
            file_name: self.file_name@,
            start_line: self.start_line,
            start_col: self.start_col,
            end_line: self.end_line,
            end_col: self.end_col,
            parent_scope: self.parent_scope,
            children_scop: self.children_scop@,
        }
    }
}

impl DeepView for ScopeEntry {
    type V = ScopeEntryV;

    open spec fn deep_view(&self) -> ScopeEntryV {
        self@
    }
}

/// An owned copy of a list of scope indices.
fn clone_kids(v: &Vec<u128>) -> (r: Vec<u128>)
    ensures
        r@ == v@,
{
    let mut r: Vec<u128> = Vec::new();
    let mut i: usize = 0;
    while i < v.len()
        invariant
            i <= v@.len(),
            r@ == v@.take(i as int),
        decreases v@.len() - i,
    {
        r.push(v[i]);
        proof {
            assert(r@ =~= v@.take(i + 1));
        }
        i = i + 1;
    }
    proof {
        assert(v@.take(v@.len() as int) =~= v@);
    }
    r
}

/// The visibility-keyword parent pattern of the walk.
pub open spec fn spec_parent_pattern() -> Seq<char> {
    r"(public|private|protected)\s+(\w+)"@
}

/// The parent class names on a class-declaration line: the name captured
/// after each visibility keyword.
pub open spec fn spec_parents_step(line: Seq<u8>, hits: Seq<(usize, usize, Seq<Option<(usize, usize)>>)>, m: int) -> Seq<Seq<u8>>
    decreases hits.len() - m,
{
    if m < 0 || m >= hits.len() {
        Seq::empty()
    } else {
        let rest = spec_parents_step(line, hits, m + 1);
        if hits[m].2.len() > 2 && hits[m].2[2] is Some {
            let (a, b) = hits[m].2[2]->Some_0;
            if a <= b && b <= line.len() {
                seq![line.subrange(a as int, b as int)] + rest
            } else {
                rest
            }
        } else {
            rest
        }
    }
}

pub open spec fn spec_find_parents(line: Seq<u8>) -> Seq<Seq<u8>> {
    spec_parents_step(line, crate::extract::spec_hits_of(spec_parent_pattern(), line), 0)
}

/// The parent class names on a class-declaration line.
pub fn find_parents(line: &[u8]) -> (r: Vec<Vec<u8>>)
    ensures
        r.deep_view() == spec_find_parents(line@),
{
    let hits = pattern_matches_or_empty(r"(public|private|protected)\s+(\w+)", line);
    let ghost hv = hits.deep_view();
    let mut r: Vec<Vec<u8>> = Vec::new();
    let mut m: usize = 0;
    proof {
        assert(r.deep_view() + spec_parents_step(line@, hv, 0) =~~= spec_find_parents(line@));
    }
    while m < hits.len()
        invariant
            m <= hits@.len(),
            hv == hits.deep_view(),
            hv.len() == hits@.len(),
            spec_find_parents(line@) == r.deep_view() + spec_parents_step(line@, hv, m as int),
        decreases hits@.len() - m,
    {
        let h = &hits[m];
        proof {
            assert(hv[m as int] == h@);
        }
        let ghost pre = r.deep_view();
        if h.groups.len() > 2 {
            if let Some((a, b)) = h.groups[2] {
                proof {
                    assert(hv[m as int].2[2] == Some((a, b)));
                }
                if a <= b && b <= line.len() {
                    let piece = copy_range(line, a, b);
                    let ghost pv = piece@;
                    r.push(piece);
                    proof {
                        assert(r.deep_view() =~~= pre + seq![pv]);
                        assert((pre + seq![pv]) + spec_parents_step(line@, hv, m + 1) =~~= pre + (
                        seq![pv] + spec_parents_step(line@, hv, m + 1)));
                    }
                }
            }
        }
        m = m + 1;
    }
    r
}

/// The word the walk takes as a class name: the first match of a word
/// followed by a space, trimmed, or the word `None` when the line has no
/// such match.
pub open spec fn spec_word_pattern() -> Seq<char> {
    r"(\w+) "@
}

pub open spec fn spec_none_word() -> Seq<u8> {
    seq![78u8, 111u8, 110u8, 101u8]
}

pub open spec fn spec_leading_word(line: Seq<u8>) -> Seq<u8> {
    let hits = crate::extract::spec_hits_of(spec_word_pattern(), line);
    if hits.len() > 0 && hits[0].0 <= hits[0].1 && hits[0].1 <= line.len() {
        spec_trim_range(line, hits[0].0 as int, hits[0].1 as int)
    } else {
        spec_none_word()
    }
}

fn leading_word(line: &[u8]) -> (r: Vec<u8>)
    ensures
        r@ == spec_leading_word(line@),
{
    let hits = pattern_matches_or_empty(r"(\w+) ", line);
    let ghost hv = hits.deep_view();
    if hits.len() > 0 {
        let h = &hits[0];
        proof {
            assert(hv[0] == h@);
        }
        if h.start <= h.end && h.end <= line.len() {
            return trim_range(line, h.start, h.end);
        }
    }
    let mut w: Vec<u8> = Vec::new();
    w.push(78u8);
    w.push(111u8);
    w.push(110u8);
    w.push(101u8);
    proof {
        assert(w@ =~= spec_none_word());
    }
    w
}

/// The whole state of the line/column walk after some prefix of the
/// input: the scopes seen so far (open ones carry placeholder ends), the
/// stack of open scope indices, the anchored tag records, the dangling
/// closers, and which entity kind is waiting for its body scope.
#[verifier::ext_equal]
pub ghost struct WalkSt {
    pub scopes: Seq<ScopeEntryV>,
    pub stack: Seq<usize>,
    pub classes: Seq<ClassEntryV>,
    pub funs: Seq<FunctionEntryV>,
    pub objs: Seq<ObjectEntryV>,
    pub dangling: Seq<(u128, u128)>,
    pub scout: u8,
}

pub open spec fn spec_walk_init(fname: Seq<u8>) -> WalkSt {
    WalkSt {
        scopes: seq![
            ScopeEntryV {
                file_name: fname,
                start_line: 0,
                start_col: 0,
                end_line: 0,
                end_col: 0,
                parent_scope: u128::MAX,
                children_scop: Seq::empty(),
            },
        ],
        stack: seq![0usize],
        classes: Seq::empty(),
        funs: Seq::empty(),
        objs: Seq::empty(),
        dangling: Seq::empty(),
        scout: 0,
    }
}

/// One listed tag offered to one line: when the tag's defining pattern
/// occurs in the line, a record of the tag's kind is anchored at the
/// innermost open scope, and for classes and functions the next opened
/// brace scope is scouted for as the body.
pub open spec fn spec_tag_step(st: WalkSt, line: Seq<u8>, tag: TagEntryV) -> WalkSt {
    if crate::bytes::spec_find_sub(line, tag.reg_ex, 0) is Some {
        let class_name = spec_leading_word(line);
        let top = if st.stack.len() > 0 {
            st.stack.last()
        } else {
            usize::MAX
        };
        if tag.tag.len() == 1 && tag.tag[0] == 99 {
            WalkSt {
                classes: st.classes.push(
                    ClassEntryV {
                        name: tag.tag_name,
                        class_scope: top,
                        parent_scope: top,
                        parents: spec_find_parents(line),
                    },
                ),
                scout: 99,
                ..st
            }
        } else if tag.tag.len() == 1 && tag.tag[0] == 102 {
            WalkSt {
                funs: st.funs.push(
                    FunctionEntryV {
                        name: tag.tag_name,
                        parent_scope: top,
                        function_scope: top,
                        class_name,
                    },
                ),
                scout: 102,
                ..st
            }
        } else if tag.tag.len() == 1 && tag.tag[0] == 109 {
            WalkSt {
                objs: st.objs.push(
                    ObjectEntryV { name: tag.tag_name, parent_scope: top, class_name },
                ),
                ..st
            }
        } else {
            st
        }
    } else {
        st
    }
}

pub open spec fn spec_tags_fold(st: WalkSt, line: Seq<u8>, tags: Seq<TagEntryV>, t: int) -> WalkSt
    decreases tags.len() - t,
{
    if t < 0 || t >= tags.len() {
        st
    } else {
        spec_tags_fold(spec_tag_step(st, line, tags[t]), line, tags, t + 1)
    }
}

/// One character of one line: `{` opens a scope (child of the innermost
/// open one, handed to a scouting class or function as its body), `}`
/// closes the innermost scope or, with only the file scope open, is
/// recorded as dangling; anything else is passed over.
pub open spec fn spec_char_step(
    st: WalkSt,
    fname: Seq<u8>,
    line_num: u128,
    col_num: u128,
    ch: u8,
) -> WalkSt {
    if ch == 123 {
        let parent = if st.stack.len() > 0 {
            st.stack.last() as u128
        } else {
            u128::MAX
        };
        let new_idx = st.scopes.len() as usize;
        let scopes1 = st.scopes.push(
            ScopeEntryV {
                file_name: fname,
                start_line: line_num,
                start_col: col_num,
                end_line: 0,
                end_col: 0,
                parent_scope: parent,
                children_scop: Seq::empty(),
            },
        );
        let scopes2 = if st.stack.len() > 0 && (st.stack.last() as int) < st.scopes.len() {
            let p = st.stack.last() as int;
            scopes1.update(
                p,
                ScopeEntryV {
                    children_scop: scopes1[p].children_scop.push(new_idx as u128),
                    ..scopes1[p]
                },
            )
        } else {
            scopes1
        };
        let st2 = if st.scout == 99 {
            WalkSt {
                classes: if st.classes.len() > 0 {
                    st.classes.update(
                        st.classes.len() - 1,
                        ClassEntryV {
                            class_scope: new_idx,
                            ..st.classes[st.classes.len() - 1]
                        },
                    )
                } else {
                    st.classes
                },
                scout: 0,
                ..st
            }
        } else if st.scout == 102 {
            WalkSt {
                funs: if st.funs.len() > 0 {
                    st.funs.update(
                        st.funs.len() - 1,
                        FunctionEntryV { function_scope: new_idx, ..st.funs[st.funs.len() - 1] },
                    )
                } else {
                    st.funs
                },
                scout: 0,
                ..st
            }
        } else {
            st
        };
        WalkSt { scopes: scopes2, stack: st.stack.push(new_idx), ..st2 }
    } else if ch == 125 {
        if st.stack.len() > 1 {
            let j = st.stack.last() as int;
            WalkSt {
                scopes: if 0 <= j < st.scopes.len() {
                    st.scopes.update(
                        j,
                        ScopeEntryV { end_line: line_num, end_col: col_num, ..st.scopes[j] },
                    )
                } else {
                    st.scopes
                },
                stack: st.stack.drop_last(),
                ..st
            }
        } else {
            WalkSt { dangling: st.dangling.push((line_num, col_num)), ..st }
        }
    } else {
        st
    }
}

pub open spec fn spec_chars_fold(
    st: WalkSt,
    fname: Seq<u8>,
    line_num: u128,
    line: Seq<u8>,
    ci: int,
) -> WalkSt
    decreases line.len() - ci,
{
    if ci < 0 || ci >= line.len() {
        st
    } else {
        spec_chars_fold(
            spec_char_step(st, fname, line_num, (ci + 1) as u128, line[ci]),
            fname,
            line_num,
            line,
            ci + 1,
        )
    }
}

pub open spec fn spec_lines_fold(
    st: WalkSt,
    fname: Seq<u8>,
    tags: Seq<TagEntryV>,
    lines: Seq<Seq<u8>>,
    li: int,
) -> WalkSt
    decreases lines.len() - li,
{
    if li < 0 || li >= lines.len() {
        st
    } else {
        let st1 = spec_tags_fold(st, lines[li], tags, 0);
        let st2 = spec_chars_fold(st1, fname, (li + 1) as u128, lines[li], 0);
        spec_lines_fold(st2, fname, tags, lines, li + 1)
    }
}

/// Every scope still open at the end of the file is force-closed at the
/// final line, a tolerant fallback, never an abort.
pub open spec fn spec_close_open(
    scopes: Seq<ScopeEntryV>,
    stack: Seq<usize>,
    ln: u128,
    k: int,
) -> Seq<ScopeEntryV>
    decreases stack.len() - k,
{
    if k < 0 || k >= stack.len() {
        scopes
    } else {
        let j = stack[k] as int;
        let scopes1 = if 0 <= j < scopes.len() {
            scopes.update(j, ScopeEntryV { end_line: ln, end_col: u128::MAX, ..scopes[j] })
        } else {
            scopes
        };
        spec_close_open(scopes1, stack, ln, k + 1)
    }
}

/// The whole walk of one file.
pub open spec fn spec_brackets_walk(fname: Seq<u8>, text: Seq<u8>, tags: Seq<TagEntryV>) -> (
    Seq<ScopeEntryV>,
    Seq<ClassEntryV>,
    Seq<FunctionEntryV>,
    Seq<ObjectEntryV>,
    Seq<(u128, u128)>,
) {
    let lines = crate::bytes::spec_lines(text);
    let st = spec_lines_fold(spec_walk_init(fname), fname, tags, lines, 0);
    let scopes = spec_close_open(st.scopes, st.stack, lines.len() as u128, 0);
    (scopes, st.classes, st.funs, st.objs, st.dangling)
}

/// Walk one file line by line: anchor every listed tag whose defining
/// pattern occurs in a line, and track `{`/`}` scopes by line and column.
/// A dangling `}` is reported in the second component and the walk goes
/// on; every scope still open at the end of the file is closed there.
pub fn brackets_walk(file_name: &[u8], text: &[u8], tags: &Vec<&TagEntry>) -> (r: ((
    Vec<ScopeEntry>,
    Vec<ClassEntry>,
    Vec<FunctionEntry>,
    Vec<ObjectEntry>,
), Vec<(u128, u128)>))
    ensures
        ({
            let w = spec_brackets_walk(file_name@, text@, tags.deep_view());
            &&& r.0.0.deep_view() == w.0
            &&& r.0.1.deep_view() == w.1
            &&& r.0.2.deep_view() == w.2
            &&& r.0.3.deep_view() == w.3
            &&& r.1@ == w.4
        }),
        r.0.0@.len() >= 1,
{
    let ghost fnv = file_name@;
    let ghost tgv = tags.deep_view();
    let mut scope_entries: Vec<ScopeEntry> = Vec::new();
    let mut class_entries: Vec<ClassEntry> = Vec::new();
    let mut function_entries: Vec<FunctionEntry> = Vec::new();
    let mut object_entries: Vec<ObjectEntry> = Vec::new();
    let mut scope_stack: Vec<usize> = Vec::new();
    let mut dangling: Vec<(u128, u128)> = Vec::new();
    // which entity kind is waiting for its body scope
    let mut scope_scout: u8 = 0;
    scope_entries.push(
        ScopeEntry {
            file_name: copy_range(file_name, 0, file_name.len()),
            start_line: 0,
            start_col: 0,
            end_line: 0,
            end_col: 0,
            parent_scope: u128::MAX,
            children_scop: Vec::new(),
        },
    );
    scope_stack.push(0);
    let lines = split_lines(text);
    let ghost lnv = lines.deep_view();
    let ghost init = spec_walk_init(fnv);
    proof {
        assert(scope_entries.deep_view() =~~= init.scopes);
        assert(scope_stack@ =~= init.stack);
        assert(class_entries.deep_view() =~~= init.classes);
        assert(function_entries.deep_view() =~~= init.funs);
        assert(object_entries.deep_view() =~~= init.objs);
        assert(dangling@ =~= init.dangling);
    }
    let mut li: usize = 0;
    while li < lines.len()
        invariant
            li <= lines@.len(),
            lnv == lines.deep_view(),
            lnv.len() == lines@.len(),
            tgv == tags.deep_view(),
            tgv.len() == tags@.len(),
            fnv == file_name@,
            scope_entries@.len() >= 1,
            forall|k: int|
                0 <= k < scope_stack@.len() ==> #[trigger] scope_stack@[k]
                    < scope_entries@.len(),
            spec_lines_fold(init, fnv, tgv, lnv, 0) == spec_lines_fold(
                WalkSt {
                    scopes: scope_entries.deep_view(),
                    stack: scope_stack@,
                    classes: class_entries.deep_view(),
                    funs: function_entries.deep_view(),
                    objs: object_entries.deep_view(),
                    dangling: dangling@,
                    scout: scope_scout,
                },
                fnv,
                tgv,
                lnv,
                li as int,
            ),
        decreases lines@.len() - li,
    {
        let line = &lines[li];
        proof {
            assert(lnv[li as int] =~= line@);
        }
        let mut t: usize = 0;
        let ghost st_line = WalkSt {
            scopes: scope_entries.deep_view(),
            stack: scope_stack@,
            classes: class_entries.deep_view(),
            funs: function_entries.deep_view(),
            objs: object_entries.deep_view(),
            dangling: dangling@,
            scout: scope_scout,
        };
        while t < tags.len()
            invariant
                t <= tags@.len(),
                li < lnv.len(),
                lnv[li as int] == line@,
                tgv == tags.deep_view(),
                tgv.len() == tags@.len(),
                fnv == file_name@,
                scope_entries@.len() >= 1,
                scope_entries.deep_view() == st_line.scopes,
                scope_stack@ == st_line.stack,
                dangling@ == st_line.dangling,
                forall|k: int|
                    0 <= k < scope_stack@.len() ==> #[trigger] scope_stack@[k]
                        < scope_entries@.len(),
                spec_tags_fold(st_line, line@, tgv, 0) == spec_tags_fold(
                    WalkSt {
                        scopes: scope_entries.deep_view(),
                        stack: scope_stack@,
                        classes: class_entries.deep_view(),
                        funs: function_entries.deep_view(),
                        objs: object_entries.deep_view(),
                        dangling: dangling@,
                        scout: scope_scout,
                    },
                    line@,
                    tgv,
                    t as int,
                ),
            decreases tags@.len() - t,
        {
            let ghost st_cur = WalkSt {
                scopes: scope_entries.deep_view(),
                stack: scope_stack@,
                classes: class_entries.deep_view(),
                funs: function_entries.deep_view(),
                objs: object_entries.deep_view(),
                dangling: dangling@,
                scout: scope_scout,
            };
            let tag = tags[t];
            proof {
                assert(tgv[t as int] == tag.deep_view());
            }
            if find_sub(line.as_slice(), tag.reg_ex.as_slice()).is_some() {
                let class_name = leading_word(line.as_slice());
                let top = if scope_stack.len() > 0 {
                    scope_stack[scope_stack.len() - 1]
                } else {
                    usize::MAX
                };
                if tag.tag.len() == 1 && tag.tag[0] == 99 {
                    // kind `c`: a class
                    let parents = find_parents(line.as_slice());
                    class_entries.push(
                        ClassEntry {
                            name: crate::extract::clone_bytes(&tag.tag_name),
                            class_scope: top,
                            parent_scope: top,
                            parents,
                        },
                    );
                    scope_scout = 99;
                } else if tag.tag.len() == 1 && tag.tag[0] == 102 {
                    // kind `f`: a function
                    function_entries.push(
                        FunctionEntry {
                            name: crate::extract::clone_bytes(&tag.tag_name),
                            parent_scope: top,
                            function_scope: top,
                            class_name,
                        },
                    );
                    scope_scout = 102;
                } else if tag.tag.len() == 1 && tag.tag[0] == 109 {
                    // kind `m`: an object
                    object_entries.push(
                        ObjectEntry {
                            name: crate::extract::clone_bytes(&tag.tag_name),
                            parent_scope: top,
                            class_name,
                        },
                    );
                }
            }
            proof {
                let st_next = WalkSt {
                    scopes: scope_entries.deep_view(),
                    stack: scope_stack@,
                    classes: class_entries.deep_view(),
                    funs: function_entries.deep_view(),
                    objs: object_entries.deep_view(),
                    dangling: dangling@,
                    scout: scope_scout,
                };
                assert(st_next =~~= spec_tag_step(st_cur, line@, tgv[t as int]));
            }
            t = t + 1;
        }
        let ghost st_chars = WalkSt {
            scopes: scope_entries.deep_view(),
            stack: scope_stack@,
            classes: class_entries.deep_view(),
            funs: function_entries.deep_view(),
            objs: object_entries.deep_view(),
            dangling: dangling@,
            scout: scope_scout,
        };
        let ghost line_num_g = (li + 1) as u128;
        let mut ci: usize = 0;
        while ci < line.len()
            invariant
                ci <= line@.len(),
                li < lnv.len(),
                lnv[li as int] == line@,
                fnv == file_name@,
                line_num_g == (li + 1) as u128,
                scope_entries@.len() >= 1,
                forall|k: int|
                    0 <= k < scope_stack@.len() ==> #[trigger] scope_stack@[k]
                        < scope_entries@.len(),
                spec_chars_fold(st_chars, fnv, line_num_g, line@, 0) == spec_chars_fold(
                    WalkSt {
                        scopes: scope_entries.deep_view(),
                        stack: scope_stack@,
                        classes: class_entries.deep_view(),
                        funs: function_entries.deep_view(),
                        objs: object_entries.deep_view(),
                        dangling: dangling@,
                        scout: scope_scout,
                    },
                    fnv,
                    line_num_g,
                    line@,
                    ci as int,
                ),
            decreases line@.len() - ci,
        {
            let ghost st_cur = WalkSt {
                scopes: scope_entries.deep_view(),
                stack: scope_stack@,
                classes: class_entries.deep_view(),
                funs: function_entries.deep_view(),
                objs: object_entries.deep_view(),
                dangling: dangling@,
                scout: scope_scout,
            };
            let ch = line[ci];
            let line_num: u128 = (li as u128) + 1;
            let col_num: u128 = (ci as u128) + 1;
            proof {
                assert(line_num == line_num_g);
                assert(col_num == (ci + 1) as u128);
            }
            if ch == 123 {
                let parent = if scope_stack.len() > 0 {
                    scope_stack[scope_stack.len() - 1] as u128
                } else {
                    u128::MAX
                };
                let new_idx = scope_entries.len();
                scope_entries.push(
                    ScopeEntry {
                        file_name: copy_range(file_name, 0, file_name.len()),
                        start_line: line_num,
                        start_col: col_num,
                        end_line: 0,
                        end_col: 0,
                        parent_scope: parent,
                        children_scop: Vec::new(),
                    },
                );
                if scope_stack.len() > 0 {
                    let p = scope_stack[scope_stack.len() - 1];
                    let mut kids = clone_kids(&scope_entries[p].children_scop);
                    kids.push(new_idx as u128);
                    let updated = ScopeEntry {
                        file_name: crate::extract::clone_bytes(&scope_entries[p].file_name),
                        start_line: scope_entries[p].start_line,
                        start_col: scope_entries[p].start_col,
                        end_line: scope_entries[p].end_line,
                        end_col: scope_entries[p].end_col,
                        parent_scope: scope_entries[p].parent_scope,
                        children_scop: kids,
                    };
                    scope_entries.set(p, updated);
                }
                if scope_scout == 99 {
                    if let Some(mut e) = class_entries.pop() {
                        e.class_scope = new_idx;
                        class_entries.push(e);
                    }
                    scope_scout = 0;
                } else if scope_scout == 102 {
                    if let Some(mut e) = function_entries.pop() {
                        e.function_scope = new_idx;
                        function_entries.push(e);
                    }
                    scope_scout = 0;
                }
                scope_stack.push(new_idx);
            } else if ch == 125 {
                if scope_stack.len() > 1 {
                    let j = scope_stack[scope_stack.len() - 1];
                    scope_stack.pop();
                    let updated = ScopeEntry {
                        file_name: crate::extract::clone_bytes(&scope_entries[j].file_name),
                        start_line: scope_entries[j].start_line,
                        start_col: scope_entries[j].start_col,
                        end_line: line_num,
                        end_col: col_num,
                        parent_scope: scope_entries[j].parent_scope,
                        children_scop: clone_kids(&scope_entries[j].children_scop),
                    };
                    scope_entries.set(j, updated);
                } else {
                    // a dangling closer: report it and walk on
                    dangling.push((line_num, col_num));
                }
            }
            proof {
                let st_next = WalkSt {
                    scopes: scope_entries.deep_view(),
                    stack: scope_stack@,
                    classes: class_entries.deep_view(),
                    funs: function_entries.deep_view(),
                    objs: object_entries.deep_view(),
                    dangling: dangling@,
                    scout: scope_scout,
                };
                assert(st_next =~~= spec_char_step(st_cur, fnv, line_num_g, col_num, line@[ci as int]));
            }
            ci = ci + 1;
        }
        li = li + 1;
    }
    let ghost st_fin = spec_lines_fold(init, fnv, tgv, lnv, 0);
    proof {
        assert(st_fin == WalkSt {
            scopes: scope_entries.deep_view(),
            stack: scope_stack@,
            classes: class_entries.deep_view(),
            funs: function_entries.deep_view(),
            objs: object_entries.deep_view(),
            dangling: dangling@,
            scout: scope_scout,
        });
    }
    // close every scope still open at the end of the file
    let final_line: u128 = lines.len() as u128;
    let mut k: usize = 0;
    while k < scope_stack.len()
        invariant
            k <= scope_stack@.len(),
            scope_stack@ == st_fin.stack,
            forall|t: int|
                0 <= t < scope_stack@.len() ==> #[trigger] scope_stack@[t]
                    < scope_entries@.len(),
            final_line == lnv.len() as u128,
            spec_close_open(st_fin.scopes, st_fin.stack, final_line, 0) == spec_close_open(
                scope_entries.deep_view(),
                st_fin.stack,
                final_line,
                k as int,
            ),
        decreases scope_stack@.len() - k,
    {
        let ghost pre = scope_entries.deep_view();
        let j = scope_stack[k];
        let updated = ScopeEntry {
            file_name: crate::extract::clone_bytes(&scope_entries[j].file_name),
            start_line: scope_entries[j].start_line,
            start_col: scope_entries[j].start_col,
            end_line: final_line,
            end_col: u128::MAX,
            parent_scope: scope_entries[j].parent_scope,
            children_scop: clone_kids(&scope_entries[j].children_scop),
        };
        scope_entries.set(j, updated);
        proof {
            assert(scope_entries.deep_view() =~~= pre.update(
                j as int,
                ScopeEntryV { end_line: final_line, end_col: u128::MAX, ..pre[j as int] },
            ));
        }
        k = k + 1;
    }
    proof {
        let w = spec_brackets_walk(fnv, text@, tgv);
        assert(scope_entries.deep_view() == w.0);
    }
    ((scope_entries, class_entries, function_entries, object_entries), dangling)
}

/// The tag walk of one file (the walk itself is `brackets_walk`).
pub fn file_walk(file_name: &[u8], text: &[u8], file_tags: &Vec<&TagEntry>) -> (r: (
    Vec<ScopeEntry>,
    Vec<ClassEntry>,
    Vec<FunctionEntry>,
    Vec<ObjectEntry>,
))
    ensures
        ({
            let w = spec_brackets_walk(file_name@, text@, file_tags.deep_view());
            &&& r.0.deep_view() == w.0
            &&& r.1.deep_view() == w.1
            &&& r.2.deep_view() == w.2
            &&& r.3.deep_view() == w.3
        }),
        r.0@.len() >= 1,
{
    brackets_walk(file_name, text, file_tags).0
}

/// The listing records that belong to one file, in listing order.
pub open spec fn spec_tags_for(tags: Seq<TagEntryV>, fname: Seq<u8>, t: int) -> Seq<TagEntryV>
    decreases tags.len() - t,
{
    if t < 0 || t >= tags.len() {
        Seq::empty()
    } else {
        let rest = spec_tags_for(tags, fname, t + 1);
        if tags[t].file_name == fname {
            seq![tags[t]] + rest
        } else {
            rest
        }
    }
}

/// Walk every listed file: each file's own tags are selected by file
/// name and the walk runs per file, so one file's malformed content
/// cannot corrupt another file's results.  A file with no text (it could
/// not be read) yields empty record sets.
pub fn get_all_hard_data(
    all_files: &Vec<Vec<u8>>,
    all_tags: &Vec<TagEntry>,
    texts: &Vec<Option<Vec<u8>>>,
) -> (r: Vec<(Vec<ScopeEntry>, Vec<ClassEntry>, Vec<FunctionEntry>, Vec<ObjectEntry>)>)
    requires
        texts@.len() == all_files@.len(),
    ensures
        r@.len() == all_files@.len(),
        forall|f: int|
            0 <= f < r@.len() ==> (
                #[trigger] r@[f].0.deep_view(),
                r@[f].1.deep_view(),
                r@[f].2.deep_view(),
                r@[f].3.deep_view(),
            ) == (match texts@[f] {
                Some(text) => {
                    let w = spec_brackets_walk(
                        all_files@[f]@,
                        text@,
                        spec_tags_for(all_tags.deep_view(), all_files@[f]@, 0),
                    );
                    (w.0, w.1, w.2, w.3)
                },
                None => (
                    Seq::<ScopeEntryV>::empty(),
                    Seq::<ClassEntryV>::empty(),
                    Seq::<FunctionEntryV>::empty(),
                    Seq::<ObjectEntryV>::empty(),
                ),
            }),
{
    let ghost av = all_tags.deep_view();
    let mut r: Vec<(Vec<ScopeEntry>, Vec<ClassEntry>, Vec<FunctionEntry>, Vec<ObjectEntry>)> =
        Vec::new();
    let mut f: usize = 0;
    while f < all_files.len()
        invariant
            r@.len() == f,
            f <= all_files@.len(),
            texts@.len() == all_files@.len(),
            av == all_tags.deep_view(),
            av.len() == all_tags@.len(),
            forall|g: int|
                0 <= g < f ==> (
                    #[trigger] r@[g].0.deep_view(),
                    r@[g].1.deep_view(),
                    r@[g].2.deep_view(),
                    r@[g].3.deep_view(),
                ) == (match texts@[g] {
                    Some(text) => {
                        let w = spec_brackets_walk(
                            all_files@[g]@,
                            text@,
                            spec_tags_for(av, all_files@[g]@, 0),
                        );
                        (w.0, w.1, w.2, w.3)
                    },
                    None => (
                        Seq::<ScopeEntryV>::empty(),
                        Seq::<ClassEntryV>::empty(),
                        Seq::<FunctionEntryV>::empty(),
                        Seq::<ObjectEntryV>::empty(),
                    ),
                }),
        decreases all_files@.len() - f,
    {
        match &texts[f] {
            Some(text) => {
                let mut mine: Vec<&TagEntry> = Vec::new();
                let mut t: usize = 0;
                proof {
                    assert(mine.deep_view() + spec_tags_for(av, all_files@[f as int]@, 0)
                        =~~= spec_tags_for(av, all_files@[f as int]@, 0));
                }
                while t < all_tags.len()
                    invariant
                        t <= all_tags@.len(),
                        f < all_files@.len(),
                        av == all_tags.deep_view(),
                        av.len() == all_tags@.len(),
                        spec_tags_for(av, all_files@[f as int]@, 0) == mine.deep_view()
                            + spec_tags_for(av, all_files@[f as int]@, t as int),
                    decreases all_tags@.len() - t,
                {
                    let ghost pre = mine.deep_view();
                    let hit = bytes_eq(all_tags[t].file_name.as_slice(), all_files[f].as_slice());
                    proof {
                        assert(av[t as int] == all_tags@[t as int]@);
                        assert(av[t as int].file_name =~= all_tags@[t as int].file_name@);
                    }
                    if hit {
                        mine.push(&all_tags[t]);
                        proof {
                            assert(mine.deep_view() =~~= pre + seq![av[t as int]]);
                            assert((pre + seq![av[t as int]]) + spec_tags_for(
                                av,
                                all_files@[f as int]@,
                                t + 1,
                            ) =~~= pre + (seq![av[t as int]] + spec_tags_for(
                                av,
                                all_files@[f as int]@,
                                t + 1,
                            )));
                        }
                    }
                    t = t + 1;
                }
                proof {
                    assert(mine.deep_view() == spec_tags_for(av, all_files@[f as int]@, 0));
                }
                r.push(file_walk(all_files[f].as_slice(), text.as_slice(), &mine));
            },
            None => {
                let empty = (Vec::new(), Vec::new(), Vec::new(), Vec::new());
                r.push(empty);
            },
        }
        f = f + 1;
    }
    r
}

/// Structural soundness of a mid-walk state: the stack is rooted at the
/// file scope and indexes real scopes, and the parent/children links are
/// mutually consistent — a scope's children list holds exactly the scopes
/// naming it as parent, and every non-root scope names an earlier one.
pub open spec fn walk_wf(st: WalkSt) -> bool {
    &&& 1 <= st.scopes.len() <= usize::MAX
    &&& st.stack.len() >= 1
    &&& st.stack[0] == 0
    &&& forall|k: int|
        0 <= k < st.stack.len() ==> (#[trigger] st.stack[k] as int) < st.scopes.len()
    &&& forall|j: int|
        1 <= j < st.scopes.len() ==> (#[trigger] st.scopes[j].parent_scope) != u128::MAX && (
        st.scopes[j].parent_scope as int) < j
    &&& st.scopes[0].parent_scope == u128::MAX
    &&& forall|p: int, k: int|
        0 <= p < st.scopes.len() && 0 <= k < st.scopes[p].children_scop.len() ==> 1 <= (
        #[trigger] st.scopes[p].children_scop[k] as int) < st.scopes.len()
    &&& forall|p: int, j: int|
        #![trigger st.scopes[p], st.scopes[j]]
        0 <= p < st.scopes.len() && 1 <= j < st.scopes.len() ==> (st.scopes[p].children_scop.contains(j as u128) <==> st.scopes[j].parent_scope == p as u128)
}

/// Offering tags to a line never touches the scopes or the stack.
proof fn lemma_tags_fold_scopes(st: WalkSt, line: Seq<u8>, tags: Seq<TagEntryV>, t: int)
    ensures
        spec_tags_fold(st, line, tags, t).scopes == st.scopes,
        spec_tags_fold(st, line, tags, t).stack == st.stack,
        spec_tags_fold(st, line, tags, t).dangling == st.dangling,
    decreases tags.len() - t,
{
    if 0 <= t < tags.len() {
        lemma_tags_fold_scopes(spec_tag_step(st, line, tags[t]), line, tags, t + 1);
    }
}

/// One character preserves the walk's structural soundness.
proof fn lemma_char_step_wf(st: WalkSt, fname: Seq<u8>, ln: u128, col: u128, ch: u8)
    requires
        walk_wf(st),
        st.scopes.len() < usize::MAX,
    ensures
        walk_wf(spec_char_step(st, fname, ln, col, ch)),
        spec_char_step(st, fname, ln, col, ch).scopes.len() <= st.scopes.len() + 1,
{
    let st1 = spec_char_step(st, fname, ln, col, ch);
    if ch == 123 {
        let new_idx = st.scopes.len() as usize;
        assert forall|p: int, j: int|
            #![trigger st1.scopes[p], st1.scopes[j]]
            0 <= p < st1.scopes.len() && 1 <= j < st1.scopes.len() implies (st1.scopes[p].children_scop.contains(j as u128) <==> st1.scopes[j].parent_scope == p as u128) by {
            let top = st.stack.last() as int;
            if j < st.scopes.len() {
                if p == top {
                    if st1.scopes[p].children_scop.contains(j as u128) {
                        assert(st.scopes[p].children_scop.push(new_idx as u128).contains(
                            j as u128,
                        ));
                        let k = choose|k: int|
                            0 <= k < st.scopes[p].children_scop.push(new_idx as u128).len()
                                && #[trigger] st.scopes[p].children_scop.push(new_idx as u128)[k]
                                == j as u128;
                        assert(k < st.scopes[p].children_scop.len()) by {
                            if k == st.scopes[p].children_scop.len() {
                                assert(j as u128 == new_idx as u128);
                                assert(j == new_idx as int);
                                assert(false);
                            }
                        }
                        assert(st.scopes[p].children_scop.contains(j as u128));
                    }
                    if st.scopes[p].children_scop.contains(j as u128) {
                        let k = choose|k: int|
                            0 <= k < st.scopes[p].children_scop.len()
                                && #[trigger] st.scopes[p].children_scop[k] == j as u128;
                        assert(st.scopes[p].children_scop.push(new_idx as u128)[k] == j as u128);
                        assert(st1.scopes[p].children_scop.contains(j as u128));
                    }
                } else if p == new_idx as int {
                    // the fresh scope has no children, and no old scope
                    // can already name it as parent
                    assert(st1.scopes[p].children_scop =~= Seq::<u128>::empty());
                    assert(!st1.scopes[p].children_scop.contains(j as u128)) by {
                        if st1.scopes[p].children_scop.contains(j as u128) {
                            let k = choose|k: int|
                                0 <= k < st1.scopes[p].children_scop.len()
                                    && #[trigger] st1.scopes[p].children_scop[k] == j as u128;
                            assert(false);
                        }
                    }
                    assert((st.scopes[j].parent_scope as int) < j);
                    assert(st1.scopes[j].parent_scope != p as u128);
                } else {
                    assert(st1.scopes[p].children_scop == st.scopes[p].children_scop);
                    assert(st1.scopes[j].parent_scope == st.scopes[j].parent_scope);
                }
            } else {
                // the fresh scope: child of the stack top and of nothing else
                assert(j == new_idx as int);
                assert(st1.scopes[j].parent_scope == st.stack.last() as u128);
                if p == top {
                    assert(st1.scopes[p].children_scop == st.scopes[p].children_scop.push(
                        new_idx as u128,
                    ));
                    assert(st1.scopes[p].children_scop[st.scopes[p].children_scop.len() as int]
                        == new_idx as u128);
                    assert(st1.scopes[p].children_scop.contains(j as u128));
                } else {
                    if st1.scopes[p].children_scop.contains(j as u128) {
                        let k = choose|k: int|
                            0 <= k < st1.scopes[p].children_scop.len()
                                && #[trigger] st1.scopes[p].children_scop[k] == j as u128;
                        assert(st.scopes[p].children_scop[k] == j as u128);
                        assert((st.scopes[p].children_scop[k] as int) < st.scopes.len());
                        assert(false);
                    }
                    assert(st1.scopes[j].parent_scope == st.stack.last() as u128);
                    assert(st.stack.last() as int == top);
                }
            }
        }
    } else if ch == 125 {
        if st.stack.len() > 1 {
            let t = st.stack.last() as int;
            assert forall|p: int, j: int|
                #![trigger st1.scopes[p], st1.scopes[j]]
                0 <= p < st1.scopes.len() && 1 <= j < st1.scopes.len() implies (st1.scopes[p].children_scop.contains(j as u128) <==> st1.scopes[j].parent_scope == p as u128) by {
                assert(st1.scopes[p].children_scop == st.scopes[p].children_scop);
                assert(st1.scopes[j].parent_scope == st.scopes[j].parent_scope);
            }
        }
    }
}

proof fn lemma_chars_fold_wf(st: WalkSt, fname: Seq<u8>, ln: u128, line: Seq<u8>, ci: int)
    requires
        walk_wf(st),
        0 <= ci <= line.len(),
        st.scopes.len() + (line.len() - ci) <= usize::MAX,
    ensures
        walk_wf(spec_chars_fold(st, fname, ln, line, ci)),
        spec_chars_fold(st, fname, ln, line, ci).scopes.len() <= st.scopes.len() + (line.len()
            - ci),
    decreases line.len() - ci,
{
    if 0 <= ci < line.len() {
        lemma_char_step_wf(st, fname, ln, (ci + 1) as u128, line[ci]);
        lemma_chars_fold_wf(
            spec_char_step(st, fname, ln, (ci + 1) as u128, line[ci]),
            fname,
            ln,
            line,
            ci + 1,
        );
    }
}

/// Total characters of the lines from `li` on.
pub open spec fn spec_total_chars(lines: Seq<Seq<u8>>, li: int) -> int
    decreases lines.len() - li,
{
    if li < 0 || li >= lines.len() {
        0
    } else {
        lines[li].len() + spec_total_chars(lines, li + 1)
    }
}

proof fn lemma_total_chars_nonneg(lines: Seq<Seq<u8>>, li: int)
    ensures
        spec_total_chars(lines, li) >= 0,
    decreases lines.len() - li,
{
    if 0 <= li < lines.len() {
        lemma_total_chars_nonneg(lines, li + 1);
    }
}

proof fn lemma_lines_fold_wf(
    st: WalkSt,
    fname: Seq<u8>,
    tags: Seq<TagEntryV>,
    lines: Seq<Seq<u8>>,
    li: int,
)
    requires
        walk_wf(st),
        0 <= li <= lines.len(),
        st.scopes.len() + spec_total_chars(lines, li) <= usize::MAX,
    ensures
        walk_wf(spec_lines_fold(st, fname, tags, lines, li)),
        spec_lines_fold(st, fname, tags, lines, li).scopes.len() <= st.scopes.len()
            + spec_total_chars(lines, li),
    decreases lines.len() - li,
{
    if 0 <= li < lines.len() {
        let st1 = spec_tags_fold(st, lines[li], tags, 0);
        lemma_tags_fold_scopes(st, lines[li], tags, 0);
        assert(walk_wf(st1));
        lemma_total_chars_nonneg(lines, li + 1);
        let st2 = spec_chars_fold(st1, fname, (li + 1) as u128, lines[li], 0);
        lemma_chars_fold_wf(st1, fname, (li + 1) as u128, lines[li], 0);
        lemma_lines_fold_wf(st2, fname, tags, lines, li + 1);
    }
}

/// Force-closing touches only end offsets, and afterwards every scope the
/// stack still held ends at the final line.
proof fn lemma_close_open_links(scopes: Seq<ScopeEntryV>, stack: Seq<usize>, ln: u128, k: int)
    requires
        k >= 0,
    ensures
        spec_close_open(scopes, stack, ln, k).len() == scopes.len(),
        forall|j: int|
            0 <= j < scopes.len() ==> #[trigger] spec_close_open(scopes, stack, ln, k)[j].parent_scope == scopes[j].parent_scope && spec_close_open(scopes, stack, ln, k)[j].children_scop
                == scopes[j].children_scop,
        forall|j: int|
            0 <= j < scopes.len() ==> (#[trigger] spec_close_open(scopes, stack, ln, k)[j].end_line
                == scopes[j].end_line && spec_close_open(scopes, stack, ln, k)[j].end_col
                == scopes[j].end_col) || (spec_close_open(scopes, stack, ln, k)[j].end_line == ln
                && spec_close_open(scopes, stack, ln, k)[j].end_col == u128::MAX),
        forall|t: int|
            k <= t < stack.len() && 0 <= ((#[trigger] stack[t]) as int) < scopes.len()
                ==> spec_close_open(scopes, stack, ln, k)[stack[t] as int].end_line == ln
                && spec_close_open(scopes, stack, ln, k)[stack[t] as int].end_col == u128::MAX,
    decreases stack.len() - k,
{
    if !(0 <= k < stack.len()) {
        assert(spec_close_open(scopes, stack, ln, k) == scopes);
    } else {
        let j = stack[k] as int;
        let scopes1 = if 0 <= j < scopes.len() {
            scopes.update(j, ScopeEntryV { end_line: ln, end_col: u128::MAX, ..scopes[j] })
        } else {
            scopes
        };
        lemma_close_open_links(scopes1, stack, ln, k + 1);
        let c = spec_close_open(scopes1, stack, ln, k + 1);
        assert(spec_close_open(scopes, stack, ln, k) == c);
        assert forall|j2: int| 0 <= j2 < scopes.len() implies #[trigger] c[j2].parent_scope
            == scopes[j2].parent_scope && c[j2].children_scop == scopes[j2].children_scop by {
            assert(c[j2].parent_scope == scopes1[j2].parent_scope);
            if 0 <= j < scopes.len() && j2 == j {
                assert(scopes1[j2].parent_scope == scopes[j2].parent_scope);
                assert(scopes1[j2].children_scop == scopes[j2].children_scop);
            } else {
                assert(scopes1[j2] == scopes[j2]);
            }
        }
        assert forall|j2: int| 0 <= j2 < scopes.len() implies (#[trigger] c[j2].end_line
            == scopes[j2].end_line && c[j2].end_col == scopes[j2].end_col) || (c[j2].end_line
            == ln && c[j2].end_col == u128::MAX) by {
            assert((c[j2].end_line == scopes1[j2].end_line && c[j2].end_col
                == scopes1[j2].end_col) || (c[j2].end_line == ln && c[j2].end_col == u128::MAX));
            if 0 <= j < scopes.len() && j2 == j {
                assert(scopes1[j2].end_line == ln && scopes1[j2].end_col == u128::MAX);
            } else {
                assert(scopes1[j2] == scopes[j2]);
            }
        }
        assert forall|t: int|
            k <= t < stack.len() && 0 <= ((#[trigger] stack[t]) as int) < scopes.len()
            implies spec_close_open(scopes, stack, ln, k)[stack[t] as int].end_line == ln
            && spec_close_open(scopes, stack, ln, k)[stack[t] as int].end_col == u128::MAX by {
            if t == k {
                assert(scopes1[j].end_line == ln && scopes1[j].end_col == u128::MAX);
                assert((c[j].end_line == scopes1[j].end_line && c[j].end_col
                    == scopes1[j].end_col) || (c[j].end_line == ln && c[j].end_col == u128::MAX));
            } else {
                assert(k + 1 <= t < stack.len());
                assert(scopes1.len() == scopes.len());
                assert(c[stack[t] as int].end_line == ln && c[stack[t] as int].end_col
                    == u128::MAX);
            }
        }
    }
}

/// The walk's scope list is a tree rooted at the file scope: the first
/// entry is the whole-file scope, every other scope names an earlier
/// parent, and a scope's children list holds exactly the scopes naming it
/// as parent.  Every scope still open at the end of the file is closed at
/// the final line — a tolerant fallback, never an abort.
pub proof fn lemma_walk_scopes_tree(fname: Seq<u8>, text: Seq<u8>, tags: Seq<TagEntryV>)
    requires
        1 + spec_total_chars(crate::bytes::spec_lines(text), 0) <= usize::MAX,
    ensures
        ({
            let w = spec_brackets_walk(fname, text, tags);
            &&& w.0.len() >= 1
            &&& w.0[0].parent_scope == u128::MAX
            &&& forall|j: int|
                1 <= j < w.0.len() ==> (#[trigger] w.0[j].parent_scope) != u128::MAX && (w.0[j].parent_scope as int) < j
            &&& forall|p: int, j: int|
                #![trigger w.0[p], w.0[j]]
                0 <= p < w.0.len() && 1 <= j < w.0.len() ==> (w.0[p].children_scop.contains(j as u128) <==> w.0[j].parent_scope == p as u128)
        }),
        ({
            let lines = crate::bytes::spec_lines(text);
            let st = spec_lines_fold(spec_walk_init(fname), fname, tags, lines, 0);
            let w = spec_brackets_walk(fname, text, tags);
            forall|t: int|
                0 <= t < st.stack.len() ==> (st.stack[t] as int) < w.0.len() && (#[trigger] w.0[st.stack[t] as int].end_line) == lines.len() as u128 && w.0[st.stack[t] as int].end_col
                    == u128::MAX
        }),
{
    let lines = crate::bytes::spec_lines(text);
    let st = spec_lines_fold(spec_walk_init(fname), fname, tags, lines, 0);
    lemma_total_chars_nonneg(lines, 0);
    lemma_lines_fold_wf(spec_walk_init(fname), fname, tags, lines, 0);
    lemma_close_open_links(st.scopes, st.stack, lines.len() as u128, 0);
    let w = spec_brackets_walk(fname, text, tags);
    assert(w.0 == spec_close_open(st.scopes, st.stack, lines.len() as u128, 0));
    assert forall|p: int, j: int|
        #![trigger w.0[p], w.0[j]]
        0 <= p < w.0.len() && 1 <= j < w.0.len() implies (w.0[p].children_scop.contains(j as u128)
        <==> w.0[j].parent_scope == p as u128) by {
        assert(w.0[p].parent_scope == st.scopes[p].parent_scope);
        assert(w.0[p].children_scop == st.scopes[p].children_scop);
        assert(w.0[j].parent_scope == st.scopes[j].parent_scope);
        assert(st.scopes[p].children_scop.contains(j as u128) <==> st.scopes[j].parent_scope
            == p as u128);
    }
}

} // verus!
