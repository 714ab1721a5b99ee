//! Scope tree builder.
//!
//! A single left-to-right pass over the raw bytes of a file turns every
//! matched pair of `()`, `{}` or `[]` into a lexical scope.  Index 0 is the
//! whole-file scope.  A closing delimiter with no open scope above the root
//! is recorded as dangling and scanning continues; scopes still open at the
//! end of the file are force-closed at the end offset.

use vstd::prelude::*;

use crate::bytes::copy_range;

verus! {

/// Which delimiter pair bounds a scope; `Root` is the whole-file scope.
#[derive(Clone, Copy, PartialEq, Eq, Structural, Debug)]
pub enum ScopeKind {
    Paren,
    Curly,
    Square,
    Root,
}

/// A lexical scope: the byte offsets of its opening and closing delimiter,
/// the index of the enclosing scope (`usize::MAX` for the root), the
/// delimiter kind, and the bytes strictly between the delimiters.
#[derive(PartialEq, Eq, Debug)]
pub struct SCOPE {
    pub start: usize,
    pub end: usize,
    pub parent: usize,
    pub kind: ScopeKind,
    pub content: Vec<u8>,
}

/// Mathematical image of a `SCOPE`.
#[verifier::ext_equal]
pub ghost struct ScopeV {
    pub start: int,
    pub end: int,
    pub parent: int,
    pub kind: ScopeKind,
    pub content: Seq<u8>,
}

impl View for SCOPE {
    type V = ScopeV;

    open spec fn view(&self) -> ScopeV {
        ScopeV {
            start: self.start as int,
            end: self.end as int,
            parent: self.parent as int,
            kind: self.kind,
            content: self.content@,
        }
    }
}

impl DeepView for SCOPE {
    type V = ScopeV;

    open spec fn deep_view(&self) -> ScopeV {
        self@
    }
}

impl Clone for SCOPE {
    fn clone(&self) -> (r: Self)
        ensures
            r@ == self@,
    {
        SCOPE {
            start: self.start,
            end: self.end,
            parent: self.parent,
            kind: self.kind,
            content: self.content.clone(),
        }
    }
}

/// True when `b` is one of the three opening delimiter bytes.
pub open spec fn spec_is_opener(b: u8) -> bool {
    b == 40 || b == 123 || b == 91
}

/// Recognises an opening delimiter: `(`, `{` or `[`.
pub fn is_opener(b: u8) -> (r: bool)
    ensures
        r == spec_is_opener(b),
{
    b == 40 || b == 123 || b == 91
}

pub open spec fn spec_is_closer(b: u8) -> bool {
    b == 41 || b == 125 || b == 93
}

pub fn is_closer(b: u8) -> (r: bool)
    ensures
        r == spec_is_closer(b),
{
    b == 41 || b == 125 || b == 93
}

pub open spec fn spec_kind_of(b: u8) -> ScopeKind {
    if b == 40 {
        ScopeKind::Paren
    } else if b == 123 {
        ScopeKind::Curly
    } else {
        ScopeKind::Square
    }
}

pub fn kind_of(b: u8) -> (r: ScopeKind)
    ensures
        r == spec_kind_of(b),
{
    if b == 40 {
        ScopeKind::Paren
    } else if b == 123 {
        ScopeKind::Curly
    } else {
        ScopeKind::Square
    }
}

/// State of the scan after some prefix of the text: the scopes created so
/// far (open ones carry the placeholder end `0`), the stack of open scope
/// indices (always rooted at index 0), and the offsets of dangling closers.
#[verifier::ext_equal]
pub ghost struct ScanState {
    pub scopes: Seq<ScopeV>,
    pub stack: Seq<int>,
    pub dangling: Seq<int>,
}

pub open spec fn scan_init(len: int) -> ScanState {
    ScanState {
        scopes: seq![
            ScopeV {
                start: 0,
                end: len,
                parent: usize::MAX as int,
                kind: ScopeKind::Root,
                content: Seq::empty(),
            },
        ],
        stack: seq![0int],
        dangling: Seq::empty(),
    }
}

pub open spec fn scan_step(st: ScanState, pos: int, b: u8) -> ScanState {
    if spec_is_opener(b) {
        ScanState {
            scopes: st.scopes.push(
                ScopeV {
                    start: pos,
                    end: 0,
                    parent: st.stack.last(),
                    kind: spec_kind_of(b),
                    content: Seq::empty(),
                },
            ),
            stack: st.stack.push(st.scopes.len() as int),
            dangling: st.dangling,
        }
    } else if spec_is_closer(b) {
        if st.stack.len() > 1 {
            ScanState {
                scopes: st.scopes.update(
                    st.stack.last(),
                    ScopeV { end: pos, ..st.scopes[st.stack.last()] },
                ),
                stack: st.stack.drop_last(),
                dangling: st.dangling,
            }
        } else {
            ScanState { scopes: st.scopes, stack: st.stack, dangling: st.dangling.push(pos) }
        }
    } else {
        st
    }
}

/// The scan state after consuming `text[0..i]`.
pub open spec fn scan_prefix(text: Seq<u8>, i: int) -> ScanState
    decreases i,
{
    if i <= 0 {
        scan_init(text.len() as int)
    } else {
        scan_step(scan_prefix(text, i - 1), i - 1, text[i - 1])
    }
}

/// The bytes strictly between a scope's delimiters.
pub open spec fn spec_content_of(text: Seq<u8>, sc: ScopeV) -> Seq<u8> {
    if 0 <= sc.start && sc.start + 1 <= sc.end && sc.end <= text.len() {
        text.subrange(sc.start + 1, sc.end)
    } else {
        Seq::empty()
    }
}

/// Force-close the scopes still open at the end of the text and fill in
/// every scope's content.
pub open spec fn spec_finalize(text: Seq<u8>, st: ScanState) -> Seq<ScopeV> {
    Seq::new(
        st.scopes.len(),
        |j: int|
            {
                let sc = if j > 0 && st.scopes[j].end == 0 {
                    ScopeV { end: text.len() as int, ..st.scopes[j] }
                } else {
                    st.scopes[j]
                };
                ScopeV { content: spec_content_of(text, sc), ..sc }
            },
    )
}

/// The scope list and the dangling-closer offsets the builder yields.
pub open spec fn spec_build_scopes(text: Seq<u8>) -> (Seq<ScopeV>, Seq<int>) {
    let st = scan_prefix(text, text.len() as int);
    (spec_finalize(text, st), st.dangling)
}

/// Everything the scan invariant guarantees about a mid-scan state.
pub open spec fn scan_wf(text: Seq<u8>, i: int, st: ScanState) -> bool {
    &&& st.scopes.len() >= 1
    &&& st.scopes[0] == scan_init(text.len() as int).scopes[0]
    &&& st.stack.len() >= 1
    &&& st.stack[0] == 0
    &&& forall|k: int| 0 <= k < st.stack.len() ==> 0 <= #[trigger] st.stack[k] < st.scopes.len()
    &&& forall|k1: int, k2: int|
        0 <= k1 < k2 < st.stack.len() ==> #[trigger] st.stack[k1] < #[trigger] st.stack[k2]
    &&& forall|k: int|
        1 <= k < st.stack.len() ==> {
            let j = #[trigger] st.stack[k];
            &&& st.scopes[j].parent == st.stack[k - 1]
            &&& st.scopes[j].end == 0
        }
    &&& forall|j1: int, j2: int|
        1 <= j1 < j2 < st.scopes.len() ==> #[trigger] st.scopes[j1].start
            < #[trigger] st.scopes[j2].start
    &&& forall|j: int|
        1 <= j < st.scopes.len() ==> {
            let sc = #[trigger] st.scopes[j];
            &&& 0 <= sc.start < i
            &&& 0 <= sc.parent < j
            &&& spec_is_opener(text[sc.start])
            &&& sc.kind == spec_kind_of(text[sc.start])
            &&& sc.content == Seq::<u8>::empty()
            &&& (sc.end != 0 ==> sc.start < sc.end < i && spec_is_closer(text[sc.end]))
            &&& (sc.end == 0 ==> st.stack.contains(j))
        }
    &&& forall|j: int, p: int|
        #![trigger st.scopes[j], st.scopes[p]]
        1 <= j < st.scopes.len() && 0 <= p < st.scopes.len() && p == st.scopes[j].parent ==> {
            &&& st.scopes[p].start <= st.scopes[j].start
            &&& (p != 0 ==> st.scopes[p].start < st.scopes[j].start)
            &&& (st.scopes[j].end != 0 && 1 <= p && st.scopes[p].end != 0 ==> st.scopes[j].end
                < st.scopes[p].end)
        }
    &&& forall|d: int|
        0 <= d < st.dangling.len() ==> 0 <= #[trigger] st.dangling[d] < i && spec_is_closer(
            text[st.dangling[d]],
        )
    &&& st.scopes.len() == 1 + count_openers(text, i)
}

pub open spec fn count_openers(text: Seq<u8>, i: int) -> int
    decreases i,
{
    if i <= 0 {
        0
    } else {
        count_openers(text, i - 1) + if spec_is_opener(text[i - 1]) {
            1int
        } else {
            0int
        }
    }
}

pub open spec fn count_closers(text: Seq<u8>, i: int) -> int
    decreases i,
{
    if i <= 0 {
        0
    } else {
        count_closers(text, i - 1) + if spec_is_closer(text[i - 1]) {
            1int
        } else {
            0int
        }
    }
}

/// On prefixes where closers never outnumber openers, the stack depth
/// tracks their difference and no closer has been reported dangling.
pub proof fn lemma_scan_balanced_prefix(text: Seq<u8>, i: int)
    requires
        0 <= i <= text.len(),
        forall|k: int| 0 <= k <= i ==> count_closers(text, k) <= count_openers(text, k),
    ensures
        scan_prefix(text, i).stack.len() - 1 == count_openers(text, i) - count_closers(text, i),
        scan_prefix(text, i).dangling.len() == 0,
    decreases i,
{
    if i > 0 {
        lemma_scan_balanced_prefix(text, i - 1);
    }
}

/// Inductive step of the scan invariant when the byte is an opener.
#[verifier::rlimit(100)]
proof fn lemma_step_opener(text: Seq<u8>, i: int)
    requires
        1 <= i <= text.len(),
        spec_is_opener(text[i - 1]),
        scan_wf(text, i - 1, scan_prefix(text, i - 1)),
    ensures
        scan_wf(text, i, scan_prefix(text, i)),
{
    let st = scan_prefix(text, i - 1);
    let st1 = scan_prefix(text, i);
    assert(st1 == scan_step(st, i - 1, text[i - 1]));
    let fresh = st.scopes.len() as int;
    assert(st1.stack.last() == fresh);
    assert(st1.stack[st1.stack.len() - 1] == fresh);
    assert forall|k: int| 1 <= k < st1.stack.len() implies {
        let j = #[trigger] st1.stack[k];
        &&& st1.scopes[j].parent == st1.stack[k - 1]
        &&& st1.scopes[j].end == 0
    } by {
        if k < st1.stack.len() - 1 {
            assert(st1.stack[k] == st.stack[k]);
            assert(st1.stack[k - 1] == st.stack[k - 1]);
        }
    }
    assert forall|j: int|
        1 <= j < st1.scopes.len() && st1.scopes[j].end == 0 implies st1.stack.contains(j) by {
        if j < st.scopes.len() {
            assert(st.stack.contains(j));
            let k = choose|k: int| 0 <= k < st.stack.len() && st.stack[k] == j;
            assert(st1.stack[k] == j);
        } else {
            assert(st1.stack[st1.stack.len() - 1] == j);
        }
    }
}

/// Inductive step of the scan invariant when the byte is a closer.
#[verifier::rlimit(100)]
proof fn lemma_step_closer(text: Seq<u8>, i: int)
    requires
        1 <= i <= text.len(),
        spec_is_closer(text[i - 1]),
        scan_wf(text, i - 1, scan_prefix(text, i - 1)),
    ensures
        scan_wf(text, i, scan_prefix(text, i)),
{
    let st = scan_prefix(text, i - 1);
    let st1 = scan_prefix(text, i);
    assert(st1 == scan_step(st, i - 1, text[i - 1]));
    if st.stack.len() > 1 {
        let top = st.stack.last();
        assert(st.stack[st.stack.len() - 1] == top);
        assert(top >= 1) by {
            assert(st.stack[0] < st.stack[st.stack.len() - 1]);
        }
        assert forall|j: int|
            1 <= j < st1.scopes.len() && st1.scopes[j].end == 0 implies st1.stack.contains(j) by {
            assert(st.scopes[j].end == 0);
            assert(st.stack.contains(j));
            let k = choose|k: int| 0 <= k < st.stack.len() && st.stack[k] == j;
            assert(k < st.stack.len() - 1) by {
                if k == st.stack.len() - 1 {
                    assert(j == top);
                    assert(st1.scopes[j].end == i - 1);
                }
            }
            assert(st1.stack[k] == j);
        }
        assert forall|j: int, p: int|
            #![trigger st1.scopes[j], st1.scopes[p]]
            1 <= j < st1.scopes.len() && 0 <= p < st1.scopes.len() && p == st1.scopes[j].parent
             implies {
            &&& st1.scopes[p].start <= st1.scopes[j].start
            &&& (p != 0 ==> st1.scopes[p].start < st1.scopes[j].start)
            &&& (st1.scopes[j].end != 0 && 1 <= p && st1.scopes[p].end != 0 ==> st1.scopes[j].end
                < st1.scopes[p].end)
        } by {
            assert(st1.scopes[j].start == st.scopes[j].start);
            assert(st1.scopes[p].start == st.scopes[p].start);
            assert(st1.scopes[j].parent == st.scopes[j].parent);
            if st1.scopes[j].end != 0 && 1 <= p && st1.scopes[p].end != 0 {
                if j == top {
                    assert(p == st.scopes[top].parent);
                    assert(p == st.stack[st.stack.len() - 2]);
                    if st.stack.len() - 2 >= 1 {
                        assert(st.scopes[p].end == 0);
                        assert(p != top) by {
                            assert(st.stack[st.stack.len() - 2] < st.stack[st.stack.len() - 1]);
                        }
                        assert(st1.scopes[p].end == 0);
                        assert(false);
                    } else {
                        assert(p == 0);
                    }
                } else if p == top {
                    assert(st.scopes[j].end == st1.scopes[j].end);
                    assert(st1.scopes[j].end < i - 1);
                    assert(st1.scopes[p].end == i - 1);
                } else {
                    assert(st.scopes[j] == st1.scopes[j]);
                    assert(st.scopes[p] == st1.scopes[p]);
                }
            }
        }
    }
}

/// The scan preserves its invariant at every prefix length.
#[verifier::rlimit(100)]
pub proof fn lemma_scan_wf(text: Seq<u8>, i: int)
    requires
        0 <= i <= text.len(),
    ensures
        scan_wf(text, i, scan_prefix(text, i)),
    decreases i,
{
    if i == 0 {
    } else {
        lemma_scan_wf(text, i - 1);
        let b = text[i - 1];
        if spec_is_opener(b) {
            lemma_step_opener(text, i);
        } else if spec_is_closer(b) {
            lemma_step_closer(text, i);
        } else {
            assert(scan_prefix(text, i) == scan_prefix(text, i - 1));
        }
    }
}

/// The facts the builder's loops need, exported without the full scan
/// invariant: the stack is never empty, its entries index real scopes,
/// and no content has been filled in yet.
pub proof fn lemma_scan_small(text: Seq<u8>, i: int)
    requires
        0 <= i <= text.len(),
    ensures
        scan_prefix(text, i).stack.len() >= 1,
        scan_prefix(text, i).scopes.len() >= 1,
        forall|k: int|
            0 <= k < scan_prefix(text, i).stack.len() ==> 0 <= #[trigger] scan_prefix(
                text,
                i,
            ).stack[k] < scan_prefix(text, i).scopes.len(),
        forall|k: int|
            1 <= k < scan_prefix(text, i).stack.len() ==> #[trigger] scan_prefix(
                text,
                i,
            ).stack[k] >= 1,
        forall|j: int|
            0 <= j < scan_prefix(text, i).scopes.len() ==> #[trigger] scan_prefix(
                text,
                i,
            ).scopes[j].content == Seq::<u8>::empty(),
        forall|j: int|
            1 <= j < scan_prefix(text, i).scopes.len() ==> 0 <= #[trigger] scan_prefix(
                text,
                i,
            ).scopes[j].start < text.len(),
        scan_prefix(text, i).scopes[0].start == 0,
        scan_prefix(text, i).scopes[0].content == Seq::<u8>::empty(),
        scan_prefix(text, i).scopes[0].end == text.len(),
{
    lemma_scan_wf(text, i);
}

/// Well-nestedness of the finished scope list against its text:
/// every non-root scope records an opener position, lies inside its
/// parent, and indexes grow with start offsets.
pub open spec fn scopes_wf(text: Seq<u8>, scopes: Seq<ScopeV>) -> bool {
    &&& scopes.len() >= 1
    &&& scopes[0].start == 0
    &&& scopes[0].end == text.len()
    &&& scopes[0].parent == usize::MAX as int
    &&& scopes[0].kind == ScopeKind::Root
    &&& forall|j1: int, j2: int|
        1 <= j1 < j2 < scopes.len() ==> #[trigger] scopes[j1].start < #[trigger] scopes[j2].start
    &&& forall|j: int|
        1 <= j < scopes.len() ==> {
            let sc = #[trigger] scopes[j];
            &&& 0 <= sc.parent < j
            &&& 0 <= sc.start < text.len()
            &&& spec_is_opener(text[sc.start])
            &&& sc.kind == spec_kind_of(text[sc.start])
            &&& sc.start < sc.end <= text.len()
            &&& (sc.end < text.len() ==> spec_is_closer(text[sc.end]))
            &&& sc.content == spec_content_of(text, sc)
        }
    &&& forall|j: int, p: int|
        #![trigger scopes[j], scopes[p]]
        1 <= j < scopes.len() && 0 <= p < scopes.len() && p == scopes[j].parent ==> {
            &&& scopes[p].start <= scopes[j].start
            &&& (p != 0 ==> scopes[p].start < scopes[j].start)
            &&& (scopes[j].start == scopes[p].start ==> p == 0 && scopes[j].start == 0)
            &&& scopes[j].end <= scopes[p].end
        }
}

/// The built scope tree is well-nested, for every input text.
#[verifier::rlimit(100)]
pub proof fn lemma_build_scopes_wf(text: Seq<u8>)
    ensures
        scopes_wf(text, spec_build_scopes(text).0),
        forall|d: int|
            0 <= d < spec_build_scopes(text).1.len() ==> 0 <= #[trigger] spec_build_scopes(
                text,
            ).1[d] < text.len() && spec_is_closer(text[spec_build_scopes(text).1[d]]),
{
    lemma_scan_wf(text, text.len() as int);
    let st = scan_prefix(text, text.len() as int);
    let fin = spec_finalize(text, st);
    assert forall|j: int| 1 <= j < fin.len() implies {
        let sc = #[trigger] fin[j];
        &&& 0 <= sc.parent < j
        &&& 0 <= sc.start < text.len()
        &&& spec_is_opener(text[sc.start])
        &&& sc.kind == spec_kind_of(text[sc.start])
        &&& sc.start < sc.end <= text.len()
        &&& (sc.end < text.len() ==> spec_is_closer(text[sc.end]))
        &&& sc.content == spec_content_of(text, sc)
    } by {
        assert(st.scopes[j].end == 0 ==> fin[j].end == text.len());
    }
    assert forall|j: int, p: int|
        #![trigger fin[j], fin[p]]
        1 <= j < fin.len() && 0 <= p < fin.len() && p == fin[j].parent implies {
        &&& fin[p].start <= fin[j].start
        &&& (p != 0 ==> fin[p].start < fin[j].start)
        &&& (fin[j].start == fin[p].start ==> p == 0 && fin[j].start == 0)
        &&& fin[j].end <= fin[p].end
    } by {
        assert(fin[j].start == st.scopes[j].start);
        assert(fin[p].start == st.scopes[p].start);
        assert(p == st.scopes[j].parent);
        let sce = st.scopes[j].end;
        let pce = st.scopes[p].end;
        if sce != 0 && (p == 0 || pce == 0) {
            // parent force-closed or the root: its end is the text length
            assert(fin[j].end == sce <= text.len());
            assert(fin[p].end == text.len());
        }
        if sce == 0 && p != 0 {
            // an open scope's parent is the scope below it on the stack,
            // which is itself still open
            assert(st.stack.contains(j));
            let k = choose|k: int| 0 <= k < st.stack.len() && st.stack[k] == j;
            assert(k >= 1) by {
                if k == 0 {
                    assert(st.stack[0] == 0int);
                }
            }
            assert(p == st.stack[k - 1]);
            assert(st.scopes[p].end == 0 || st.stack[k - 1] == 0) by {
                if k - 1 >= 1 {
                    assert(st.scopes[st.stack[k - 1]].end == 0);
                }
            }
            assert(pce == 0);
            assert(fin[j].end == text.len());
            assert(fin[p].end == text.len());
        }
        if sce == 0 && p == 0 {
            assert(fin[j].end == text.len());
            assert(fin[p].end == text.len());
        }
    }
}

/// Balanced delimiter text: no prefix has more closers than openers and
/// the totals agree at the end.
pub open spec fn spec_balanced(text: Seq<u8>) -> bool {
    &&& forall|k: int|
        0 <= k <= text.len() ==> count_closers(text, k) <= count_openers(text, k)
    &&& count_closers(text, text.len() as int) == count_openers(text, text.len() as int)
}

/// On balanced text the builder yields exactly one scope per opening
/// delimiter plus the root, reports no dangling closer, and no scope is
/// force-closed at the end of the text: every non-root scope's end offset
/// carries a real closing delimiter.
#[verifier::rlimit(100)]
pub proof fn lemma_balanced_scopes(text: Seq<u8>)
    requires
        spec_balanced(text),
    ensures
        spec_build_scopes(text).0.len() == 1 + count_openers(text, text.len() as int),
        spec_build_scopes(text).1.len() == 0,
        forall|j: int|
            1 <= j < spec_build_scopes(text).0.len() ==> #[trigger] spec_build_scopes(
                text,
            ).0[j].end < text.len() && spec_is_closer(text[spec_build_scopes(text).0[j].end]),
{
    lemma_scan_wf(text, text.len() as int);
    lemma_scan_balanced_prefix(text, text.len() as int);
    let st = scan_prefix(text, text.len() as int);
    assert(st.stack.len() == 1);
    assert forall|j: int| 1 <= j < st.scopes.len() implies st.scopes[j].end != 0 by {
        if st.scopes[j].end == 0 {
            assert(st.stack.contains(j));
            let k = choose|k: int| 0 <= k < st.stack.len() && st.stack[k] == j;
            assert(k == 0);
        }
    }
    assert forall|j: int| 1 <= j < spec_build_scopes(text).0.len() implies #[trigger]
    spec_build_scopes(text).0[j].end < text.len() && spec_is_closer(
        text[spec_build_scopes(text).0[j].end],
    ) by {
        assert(st.scopes[j].end != 0);
        assert(spec_build_scopes(text).0[j].end == st.scopes[j].end);
    }
}

/// Build the scope tree of a text.  Returns the scope list (index 0 is the
/// whole-file scope) and the offsets of dangling closing delimiters, which
/// are reported rather than aborting the scan.
pub fn build_scope_tree(text: &[u8]) -> (r: (Vec<SCOPE>, Vec<usize>))
    ensures
        r.0.deep_view() == spec_build_scopes(text@).0,
        r.1@.map_values(|d: usize| d as int) == spec_build_scopes(text@).1,
        scopes_wf(text@, r.0.deep_view()),
{
    proof {
        lemma_build_scopes_wf(text@);
    }
    let mut scopes: Vec<SCOPE> = Vec::new();
    let mut stack: Vec<usize> = Vec::new();
    let mut dangling: Vec<usize> = Vec::new();
    scopes.push(
        SCOPE {
            start: 0,
            end: text.len(),
            parent: usize::MAX,
            kind: ScopeKind::Root,
            content: Vec::new(),
        },
    );
    stack.push(0);
    proof {
        assert(scopes.deep_view() =~= scan_prefix(text@, 0).scopes);
        assert(stack@.map_values(|d: usize| d as int) =~= scan_prefix(text@, 0).stack);
        assert(dangling@.map_values(|d: usize| d as int) =~= scan_prefix(text@, 0).dangling);
    }
    let mut i: usize = 0;
    while i < text.len()
        invariant
            i <= text@.len(),
            scopes.deep_view() == scan_prefix(text@, i as int).scopes,
            stack@.map_values(|d: usize| d as int) == scan_prefix(text@, i as int).stack,
            dangling@.map_values(|d: usize| d as int) == scan_prefix(text@, i as int).dangling,
        decreases text@.len() - i,
    {
        proof {
            lemma_scan_small(text@, i as int);
        }
        let ghost st = scan_prefix(text@, i as int);
        let ghost st1 = scan_prefix(text@, i + 1);
        assert(st1 == scan_step(st, i as int, text@[i as int]));
        let b = text[i];
        if is_opener(b) {
            assert(stack@.len() >= 1) by {
                assert(st.stack.len() >= 1);
            }
            let parent_idx = stack[stack.len() - 1];
            let new_idx = scopes.len();
            scopes.push(
                SCOPE { start: i, end: 0, parent: parent_idx, kind: kind_of(b), content: Vec::new() },
            );
            stack.push(new_idx);
            proof {
                assert(scopes.deep_view() =~= st1.scopes);
                assert(stack@.map_values(|d: usize| d as int) =~= st1.stack);
            }
        } else if is_closer(b) {
            if stack.len() > 1 {
                let j = stack[stack.len() - 1];
                assert(j < scopes@.len()) by {
                    assert(st.stack.last() == j as int);
                    assert(st.stack[st.stack.len() - 1] == j as int);
                }
                stack.pop();
                let old_scope = &scopes[j];
                let updated = SCOPE {
                    start: old_scope.start,
                    end: i,
                    parent: old_scope.parent,
                    kind: old_scope.kind,
                    content: Vec::new(),
                };
                scopes.set(j, updated);
                proof {
                    assert(st.scopes[j as int].content == Seq::<u8>::empty());
                    assert(scopes.deep_view() =~= st1.scopes);
                    assert(stack@.map_values(|d: usize| d as int) =~= st1.stack);
                }
            } else {
                dangling.push(i);
                proof {
                    assert(dangling@.map_values(|d: usize| d as int) =~= st1.dangling);
                }
            }
        }
        i = i + 1;
    }
    proof {
        lemma_scan_small(text@, text@.len() as int);
    }
    let ghost stfin = scan_prefix(text@, text@.len() as int);
    // Force-close what is still open and fill in each scope's content.
    let total = scopes.len();
    let mut j: usize = 0;
    let mut out: Vec<SCOPE> = Vec::new();
    while j < total
        invariant
            j <= total,
            total == scopes@.len(),
            scopes.deep_view() == stfin.scopes,
            forall|t: int|
                1 <= t < stfin.scopes.len() ==> 0 <= #[trigger] stfin.scopes[t].start
                    < text@.len(),
            stfin.scopes[0].start == 0,
            stfin.scopes[0].end == text@.len() as int,
            out.deep_view() =~~= spec_finalize(text@, stfin).take(j as int),
        decreases total - j,
    {
        proof {
            assert(spec_finalize(text@, stfin).len() == stfin.scopes.len());
            assert(stfin.scopes.len() == total);
            assert(out.deep_view().len() == j as int);
            assert(out@.len() == j as int);
        }
        let sc = &scopes[j];
        let end = if j > 0 && sc.end == 0 {
            text.len()
        } else {
            sc.end
        };
        assert(j as int == 0 || stfin.scopes[j as int].start < text@.len());
        let content = if sc.start + 1 <= end && end <= text.len() {
            copy_range(text, sc.start + 1, end)
        } else {
            Vec::new()
        };
        out.push(SCOPE { start: sc.start, end, parent: sc.parent, kind: sc.kind, content });
        proof {
            let fin = spec_finalize(text@, stfin);
            let scv = stfin.scopes[j as int];
            let scf = if j as int > 0 && scv.end == 0 {
                ScopeV { end: text@.len() as int, ..scv }
            } else {
                scv
            };
            assert(fin[j as int] == ScopeV { content: spec_content_of(text@, scf), ..scf });
            assert(out@.len() == j + 1);
            assert(out@[j as int]@.end == end as int);
            assert(end as int == scf.end);
            assert(out.deep_view()[j as int].start == fin[j as int].start);
            assert(out.deep_view()[j as int].end == fin[j as int].end);
            assert(out.deep_view()[j as int].parent == fin[j as int].parent);
            assert(out.deep_view()[j as int].kind == fin[j as int].kind);
            assert(out.deep_view()[j as int].content == fin[j as int].content);
            assert(out.deep_view() =~~= spec_finalize(text@, stfin).take(j + 1));
        }
        j = j + 1;
    }
    proof {
        assert(out.deep_view() =~~= spec_finalize(text@, stfin));
    }
    (out, dangling)
}

/// The owning scope of a text offset: the scope with the greatest start
/// offset that is still below `pos`, the whole-file scope when none is.
pub open spec fn spec_find_parent(scopes: Seq<ScopeV>, pos: int, j: int, cur: int) -> int
    decreases scopes.len() - j,
{
    if j < 0 || j >= scopes.len() || !(0 <= cur < scopes.len()) {
        cur
    } else {
        let next = if pos > scopes[j].start && scopes[j].start > scopes[cur].start {
            j
        } else {
            cur
        };
        spec_find_parent(scopes, pos, j + 1, next)
    }
}

pub proof fn lemma_find_parent_in_range(scopes: Seq<ScopeV>, pos: int, j: int, cur: int)
    requires
        0 <= cur < scopes.len(),
        0 <= j,
    ensures
        0 <= spec_find_parent(scopes, pos, j, cur) < scopes.len(),
    decreases scopes.len() - j,
{
    if j < scopes.len() {
        let next = if pos > scopes[j].start && scopes[j].start > scopes[cur].start {
            j
        } else {
            cur
        };
        lemma_find_parent_in_range(scopes, pos, j + 1, next);
    }
}

pub fn find_parent(pos: usize, scopes: &Vec<SCOPE>) -> (r: usize)
    requires
        scopes@.len() >= 1,
    ensures
        r < scopes@.len(),
        r as int == spec_find_parent(scopes.deep_view(), pos as int, 0, 0),
{
    let ghost sv = scopes.deep_view();
    let mut cur: usize = 0;
    let mut j: usize = 0;
    while j < scopes.len()
        invariant
            sv == scopes.deep_view(),
            sv.len() == scopes@.len(),
            j <= scopes@.len(),
            cur < scopes@.len(),
            spec_find_parent(sv, pos as int, 0, 0) == spec_find_parent(
                sv,
                pos as int,
                j as int,
                cur as int,
            ),
        decreases scopes@.len() - j,
    {
        if pos > scopes[j].start && scopes[j].start > scopes[cur].start {
            cur = j;
        }
        j = j + 1;
    }
    cur
}

/// The scope whose start offset is nearest above `pos`; index 0 when no
/// scope starts after `pos`.
pub open spec fn spec_find_next_scope(
    scopes: Seq<ScopeV>,
    pos: int,
    j: int,
    cur: int,
    cur_dist: int,
) -> int
    decreases scopes.len() - j,
{
    if j < 0 || j >= scopes.len() {
        cur
    } else {
        let hit = scopes[j].start > pos && scopes[j].start - pos < cur_dist;
        spec_find_next_scope(
            scopes,
            pos,
            j + 1,
            if hit {
                j
            } else {
                cur
            },
            if hit {
                scopes[j].start - pos
            } else {
                cur_dist
            },
        )
    }
}

pub fn find_next_scope(pos: usize, scopes: &Vec<SCOPE>) -> (r: usize)
    ensures
        r as int == spec_find_next_scope(
            scopes.deep_view(),
            pos as int,
            0,
            0,
            usize::MAX as int,
        ),
        scopes@.len() > 0 ==> r < scopes@.len(),
{
    let ghost sv = scopes.deep_view();
    let mut cur: usize = 0;
    let mut cur_dist: usize = usize::MAX;
    let mut j: usize = 0;
    while j < scopes.len()
        invariant
            sv == scopes.deep_view(),
            sv.len() == scopes@.len(),
            j <= scopes@.len(),
            scopes@.len() > 0 ==> cur < scopes@.len(),
            j == 0 ==> cur == 0,
            spec_find_next_scope(sv, pos as int, 0, 0, usize::MAX as int)
                == spec_find_next_scope(sv, pos as int, j as int, cur as int, cur_dist as int),
        decreases scopes@.len() - j,
    {
        if scopes[j].start > pos && scopes[j].start - pos < cur_dist {
            cur_dist = scopes[j].start - pos;
            cur = j;
        }
        j = j + 1;
    }
    cur
}


} // verus!
