//! Byte-level text utilities.
//!
//! All analysis in this crate works on raw bytes; offsets reported by the
//! pattern searcher are byte offsets, so these helpers keep the whole
//! pipeline in one unit of measure.

use vstd::prelude::*;

verus! {

/// ASCII whitespace, the characters trimmed from token edges.
pub open spec fn spec_is_ws(b: u8) -> bool {
    b == 32 || b == 9 || b == 10 || b == 13
}

pub fn is_ws(b: u8) -> (r: bool)
    ensures
        r == spec_is_ws(b),
{
    b == 32 || b == 9 || b == 10 || b == 13
}

/// Index of the first byte at or after `i` that fails `spec_is_ws`,
/// or `s.len()` if all remaining bytes are whitespace.
pub open spec fn spec_skip_ws(s: Seq<u8>, i: int) -> int
    decreases s.len() - i,
{
    if i < 0 {
        i
    } else if i >= s.len() {
        s.len() as int
    } else if spec_is_ws(s[i]) {
        spec_skip_ws(s, i + 1)
    } else {
        i
    }
}

pub proof fn lemma_skip_ws_bounds(s: Seq<u8>, i: int)
    requires
        0 <= i <= s.len(),
    ensures
        i <= spec_skip_ws(s, i) <= s.len(),
        forall|j: int| i <= j < spec_skip_ws(s, i) ==> spec_is_ws(s[j]),
        spec_skip_ws(s, i) < s.len() ==> !spec_is_ws(s[spec_skip_ws(s, i)]),
    decreases s.len() - i,
{
    if i < s.len() && spec_is_ws(s[i]) {
        lemma_skip_ws_bounds(s, i + 1);
    }
}

pub fn skip_ws(s: &[u8], from: usize) -> (r: usize)
    requires
        from <= s@.len(),
    ensures
        r == spec_skip_ws(s@, from as int),
{
    let mut i = from;
    while i < s.len() && is_ws(s[i])
        invariant
            from <= i <= s@.len(),
            spec_skip_ws(s@, from as int) == spec_skip_ws(s@, i as int),
        decreases s@.len() - i,
    {
        i = i + 1;
    }
    i
}

/// Byte-for-byte equality of two slices.
pub fn bytes_eq(a: &[u8], b: &[u8]) -> (r: bool)
    ensures
        r == (a@ == b@),
{
    if a.len() != b.len() {
        proof {
            assert(a@ != b@);
        }
        return false;
    }
    let mut i: usize = 0;
    while i < a.len()
        invariant
            i <= a@.len(),
            a@.len() == b@.len(),
            forall|j: int| 0 <= j < i ==> a@[j] == b@[j],
        decreases a@.len() - i,
    {
        if a[i] != b[i] {
            proof {
                assert(a@ != b@);
            }
            return false;
        }
        i = i + 1;
    }
    proof {
        assert(a@ =~= b@);
    }
    true
}

/// Copy of `s[lo..hi]` as an owned vector.
pub fn copy_range(s: &[u8], lo: usize, hi: usize) -> (r: Vec<u8>)
    requires
        lo <= hi <= s@.len(),
    ensures
        r@ == s@.subrange(lo as int, hi as int),
{
    let mut r: Vec<u8> = Vec::new();
    let mut i = lo;
    while i < hi
        invariant
            lo <= i <= hi <= s@.len(),
            r@ == s@.subrange(lo as int, i as int),
        decreases hi - i,
    {
        r.push(s[i]);
        proof {
            assert(r@ =~= s@.subrange(lo as int, i + 1));
        }
        i = i + 1;
    }
    r
}

/// First position `>= i` where byte `b` occurs, if any.
pub open spec fn spec_find_byte(s: Seq<u8>, b: u8, i: int) -> Option<int>
    decreases s.len() - i,
{
    if i < 0 || i >= s.len() {
        None
    } else if s[i] == b {
        Some(i)
    } else {
        spec_find_byte(s, b, i + 1)
    }
}

pub proof fn lemma_find_byte_bounds(s: Seq<u8>, b: u8, i: int)
    requires
        0 <= i,
    ensures
        spec_find_byte(s, b, i) is Some ==> {
            let j = spec_find_byte(s, b, i)->Some_0;
            i <= j < s.len() && s[j] == b
        },
    decreases s.len() - i,
{
    if i < s.len() && s[i] != b {
        lemma_find_byte_bounds(s, b, i + 1);
    }
}

pub fn find_byte(s: &[u8], b: u8, from: usize) -> (r: Option<usize>)
    requires
        from <= s@.len(),
    ensures
        match r {
            Some(j) => from <= j < s@.len() && spec_find_byte(s@, b, from as int) == Some(
                j as int,
            ),
            None => spec_find_byte(s@, b, from as int) is None,
        },
{
    let mut i = from;
    while i < s.len()
        invariant
            from <= i <= s@.len(),
            spec_find_byte(s@, b, from as int) == spec_find_byte(s@, b, i as int),
        decreases s@.len() - i,
    {
        if s[i] == b {
            return Some(i);
        }
        i = i + 1;
    }
    None
}

/// Last position `< hi` where byte `b` occurs, if any.
pub open spec fn spec_rfind_byte(s: Seq<u8>, b: u8, hi: int) -> Option<int>
    decreases hi,
{
    if hi <= 0 || hi > s.len() {
        None
    } else if s[hi - 1] == b {
        Some(hi - 1)
    } else {
        spec_rfind_byte(s, b, hi - 1)
    }
}

pub fn rfind_byte(s: &[u8], b: u8, hi: usize) -> (r: Option<usize>)
    requires
        hi <= s@.len(),
    ensures
        match r {
            Some(j) => j < hi && spec_rfind_byte(s@, b, hi as int) == Some(j as int),
            None => spec_rfind_byte(s@, b, hi as int) is None,
        },
{
    let mut i = hi;
    while i > 0
        invariant
            i <= hi <= s@.len(),
            spec_rfind_byte(s@, b, hi as int) == spec_rfind_byte(s@, b, i as int),
        decreases i,
    {
        if s[i - 1] == b {
            return Some(i - 1);
        }
        i = i - 1;
    }
    None
}

/// Leading-trim boundary: `spec_skip_ws` from the start.
/// Trailing-trim boundary: first index from the right whose predecessor
/// is not whitespace.
pub open spec fn spec_rskip_ws(s: Seq<u8>, hi: int) -> int
    decreases hi,
{
    if hi <= 0 || hi > s.len() {
        0
    } else if spec_is_ws(s[hi - 1]) {
        spec_rskip_ws(s, hi - 1)
    } else {
        hi
    }
}

pub proof fn lemma_rskip_ws_bounds(s: Seq<u8>, hi: int)
    requires
        0 <= hi <= s.len(),
    ensures
        0 <= spec_rskip_ws(s, hi) <= hi,
    decreases hi,
{
    if 0 < hi && spec_is_ws(s[hi - 1]) {
        lemma_rskip_ws_bounds(s, hi - 1);
    }
}

pub fn rskip_ws(s: &[u8], hi: usize) -> (r: usize)
    requires
        hi <= s@.len(),
    ensures
        r == spec_rskip_ws(s@, hi as int),
        r <= hi,
{
    proof {
        lemma_rskip_ws_bounds(s@, hi as int);
    }
    let mut i = hi;
    while i > 0 && is_ws(s[i - 1])
        invariant
            i <= hi <= s@.len(),
            spec_rskip_ws(s@, hi as int) == spec_rskip_ws(s@, i as int),
        decreases i,
    {
        i = i - 1;
    }
    i
}

/// ASCII-whitespace trim of `s[lo..hi]`, as the trimmed subrange.
pub open spec fn spec_trim_range(s: Seq<u8>, lo: int, hi: int) -> Seq<u8> {
    let a = spec_skip_ws(s, lo);
    if a >= hi {
        Seq::empty()
    } else {
        let b = spec_rskip_ws(s.subrange(lo, hi), hi - lo) + lo;
        if a < b {
            s.subrange(a, b)
        } else {
            Seq::empty()
        }
    }
}

/// Trimmed copy of `s[lo..hi]`.
pub fn trim_range(s: &[u8], lo: usize, hi: usize) -> (r: Vec<u8>)
    requires
        lo <= hi <= s@.len(),
    ensures
        r@ == spec_trim_range(s@, lo as int, hi as int),
{
    let sub = copy_range(s, lo, hi);
    let a = skip_ws(s, lo);
    proof {
        lemma_skip_ws_bounds(s@, lo as int);
    }
    if a >= hi {
        let r: Vec<u8> = Vec::new();
        proof {
            assert(r@ =~= spec_trim_range(s@, lo as int, hi as int));
        }
        return r;
    }
    let b_rel = rskip_ws(sub.as_slice(), hi - lo);
    let b = b_rel + lo;
    if a < b {
        let r = copy_range(s, a, b);
        return r;
    }
    let r: Vec<u8> = Vec::new();
    proof {
        assert(r@ =~= spec_trim_range(s@, lo as int, hi as int));
    }
    r
}

/// Whether `s` begins with `p`.
pub fn starts_with(s: &[u8], p: &[u8]) -> (r: bool)
    ensures
        r == (s@.len() >= p@.len() && s@.subrange(0, p@.len() as int) == p@),
{
    if s.len() < p.len() {
        return false;
    }
    let mut i: usize = 0;
    while i < p.len()
        invariant
            i <= p@.len() <= s@.len(),
            forall|j: int| 0 <= j < i ==> s@[j] == p@[j],
        decreases p@.len() - i,
    {
        if s[i] != p[i] {
            proof {
                assert(s@.subrange(0, p@.len() as int)[i as int] != p@[i as int]);
            }
            return false;
        }
        i = i + 1;
    }
    proof {
        assert(s@.subrange(0, p@.len() as int) =~= p@);
    }
    true
}

/// Whole-slice trim.
pub fn trim(s: &[u8]) -> (r: Vec<u8>)
    ensures
        r@ == spec_trim_range(s@, 0, s@.len() as int),
{
    trim_range(s, 0, s.len())
}


/// Pieces of `s` split at byte `b`: the split points in order.
pub open spec fn spec_split_from(s: Seq<u8>, b: u8, from: int) -> Seq<Seq<u8>>
    decreases s.len() - from,
{
    if from < 0 || from > s.len() {
        Seq::empty()
    } else {
        match spec_find_byte(s, b, from) {
            Some(c) => {
                if from <= c < s.len() {
                    seq![s.subrange(from, c)] + spec_split_from(s, b, c + 1)
                } else {
                    Seq::empty()
                }
            },
            None => seq![s.subrange(from, s.len() as int)],
        }
    }
}

pub open spec fn spec_split(s: Seq<u8>, b: u8) -> Seq<Seq<u8>> {
    spec_split_from(s, b, 0)
}

/// Split `s` at every occurrence of `b`; the separators are dropped and
/// empty pieces are kept.
pub fn split_on(s: &[u8], b: u8) -> (r: Vec<Vec<u8>>)
    ensures
        r.deep_view() == spec_split(s@, b),
{
    let total = s.len();
    let mut r: Vec<Vec<u8>> = Vec::new();
    let mut from: usize = 0;
    let mut done = false;
    proof {
        assert(r.deep_view() + spec_split_from(s@, b, 0) =~~= spec_split(s@, b));
    }
    while !done
        invariant
            from <= total,
            total == s@.len(),
            !done ==> spec_split(s@, b) == r.deep_view() + spec_split_from(s@, b, from as int),
            done ==> spec_split(s@, b) == r.deep_view(),
        decreases total - from + (if done {
            0int
        } else {
            1int
        }),
    {
        let ghost pre = r.deep_view();
        match find_byte(s, b, from) {
            Some(c) => {
                let piece = copy_range(s, from, c);
                let ghost pv = piece@;
                r.push(piece);
                from = c + 1;
                proof {
                    let tail = spec_split_from(s@, b, from as int);
                    assert(r.deep_view() =~~= pre + seq![pv]);
                    assert((pre + seq![pv]) + tail =~~= pre + (seq![pv] + tail));
                }
            },
            None => {
                let piece = copy_range(s, from, s.len());
                let ghost pv = piece@;
                r.push(piece);
                done = true;
                proof {
                    assert(r.deep_view() =~~= pre + seq![pv]);
                }
            },
        }
    }
    r
}

/// A line as the reader hands it out: split at `\n`, with one trailing
/// `\r` stripped.
pub open spec fn spec_strip_cr(line: Seq<u8>) -> Seq<u8> {
    if line.len() > 0 && line[line.len() - 1] == 13 {
        line.subrange(0, line.len() - 1)
    } else {
        line
    }
}

/// The lines of a text: pieces split at `\n`, each with a trailing `\r`
/// stripped, and with no empty piece after a final newline.
pub open spec fn spec_strip_all(s: Seq<Seq<u8>>) -> Seq<Seq<u8>> {
    Seq::new(s.len(), |i: int| spec_strip_cr(s[i]))
}

pub open spec fn spec_lines(s: Seq<u8>) -> Seq<Seq<u8>> {
    let raw = spec_split(s, 10);
    let raw2 = if raw.len() > 0 && raw.last() == Seq::<u8>::empty() {
        raw.drop_last()
    } else {
        raw
    };
    spec_strip_all(raw2)
}

pub fn split_lines(s: &[u8]) -> (r: Vec<Vec<u8>>)
    ensures
        r.deep_view() == spec_lines(s@),
{
    let raw = split_on(s, 10);
    let mut r: Vec<Vec<u8>> = Vec::new();
    let keep = if raw.len() > 0 && raw[raw.len() - 1].len() == 0 {
        proof {
            assert(raw.deep_view().last() =~= Seq::<u8>::empty());
        }
        raw.len() - 1
    } else {
        raw.len()
    };
    let ghost raw2 = if raw.deep_view().len() > 0 && raw.deep_view().last() == Seq::<u8>::empty() {
        raw.deep_view().drop_last()
    } else {
        raw.deep_view()
    };
    proof {
        if raw@.len() > 0 && raw@[raw@.len() - 1]@.len() == 0 {
            assert(raw.deep_view().last() =~= Seq::<u8>::empty());
        } else if raw@.len() > 0 {
            assert(raw.deep_view().last().len() == raw@[raw@.len() - 1]@.len());
            assert(raw.deep_view().last() != Seq::<u8>::empty());
        }
        assert(raw2 =~~= raw.deep_view().take(keep as int));
    }
    let mut i: usize = 0;
    while i < keep
        invariant
            i <= keep <= raw@.len(),
            raw2 == raw.deep_view().take(keep as int),
            raw2.len() == keep,
            r.deep_view() =~~= spec_strip_all(raw2.take(i as int)),
        decreases keep - i,
    {
        let line = &raw[i];
        let stripped = if line.len() > 0 && line[line.len() - 1] == 13 {
            copy_range(line.as_slice(), 0, line.len() - 1)
        } else {
            copy_range(line.as_slice(), 0, line.len())
        };
        let ghost sv = stripped@;
        let ghost pre = r.deep_view();
        r.push(stripped);
        proof {
            assert(raw.deep_view()[i as int] =~= line@);
            assert(raw2[i as int] == line@);
            assert(sv =~= spec_strip_cr(raw2[i as int]));
            assert(r.deep_view()[i as int] =~= spec_strip_all(raw2.take(i + 1))[i as int]);
            assert forall|k: int| 0 <= k < i implies r.deep_view()[k] == spec_strip_all(
                raw2.take(i + 1),
            )[k] by {
                assert(r.deep_view()[k] == pre[k]);
                assert(pre[k] == spec_strip_all(raw2.take(i as int))[k]);
                assert(raw2.take(i as int)[k] == raw2[k]);
                assert(raw2.take(i + 1)[k] == raw2[k]);
            }
            assert(r.deep_view() =~~= spec_strip_all(raw2.take(i + 1)));
        }
        i = i + 1;
    }
    proof {
        assert(raw2.take(keep as int) =~~= raw2);
    }
    r
}

/// First position `>= from` where `p` occurs as a sub-slice of `s`.
pub open spec fn spec_find_sub(s: Seq<u8>, p: Seq<u8>, from: int) -> Option<int>
    decreases s.len() - from,
{
    if from < 0 || from + p.len() > s.len() {
        None
    } else if s.subrange(from, from + p.len()) == p {
        Some(from)
    } else if from < s.len() {
        spec_find_sub(s, p, from + 1)
    } else {
        None
    }
}

/// Whether `p` occurs anywhere in `s`, and where first.
pub fn find_sub(s: &[u8], p: &[u8]) -> (r: Option<usize>)
    ensures
        match r {
            Some(j) => spec_find_sub(s@, p@, 0) == Some(j as int),
            None => spec_find_sub(s@, p@, 0) is None,
        },
{
    if p.len() > s.len() {
        return None;
    }
    if p.len() == 0 {
        proof {
            assert(s@.subrange(0, 0) =~= p@);
        }
        return Some(0);
    }
    let mut from: usize = 0;
    while from <= s.len() - p.len()
        invariant
            1 <= p@.len() <= s@.len(),
            from <= s@.len() - p@.len() + 1,
            spec_find_sub(s@, p@, 0) == spec_find_sub(s@, p@, from as int),
        decreases s@.len() - from,
    {
        let window = copy_range(s, from, from + p.len());
        if bytes_eq(window.as_slice(), p) {
            return Some(from);
        }
        from = from + 1;
    }
    None
}


/// First position `>= i` whose byte is not whitespace and, dually, the
/// end of a whitespace-delimited token.
pub open spec fn spec_skip_nonws(s: Seq<u8>, i: int) -> int
    decreases s.len() - i,
{
    if i < 0 {
        i
    } else if i >= s.len() {
        s.len() as int
    } else if !spec_is_ws(s[i]) {
        spec_skip_nonws(s, i + 1)
    } else {
        i
    }
}

pub proof fn lemma_skip_nonws_bounds(s: Seq<u8>, i: int)
    requires
        0 <= i <= s.len(),
    ensures
        i <= spec_skip_nonws(s, i) <= s.len(),
    decreases s.len() - i,
{
    if i < s.len() && !spec_is_ws(s[i]) {
        lemma_skip_nonws_bounds(s, i + 1);
    }
}

pub fn skip_nonws(s: &[u8], from: usize) -> (r: usize)
    requires
        from <= s@.len(),
    ensures
        r == spec_skip_nonws(s@, from as int),
        from <= r <= s@.len(),
{
    proof {
        lemma_skip_nonws_bounds(s@, from as int);
    }
    let mut i = from;
    while i < s.len() && !is_ws(s[i])
        invariant
            from <= i <= s@.len(),
            spec_skip_nonws(s@, from as int) == spec_skip_nonws(s@, i as int),
        decreases s@.len() - i,
    {
        i = i + 1;
    }
    i
}

/// The second whitespace-delimited token of a line, if there is one.
pub open spec fn spec_second_token(s: Seq<u8>) -> Option<Seq<u8>> {
    let a = spec_skip_ws(s, 0);
    let b = spec_skip_nonws(s, a);
    let c = spec_skip_ws(s, b);
    let d = spec_skip_nonws(s, c);
    if c < s.len() && c < d {
        Some(s.subrange(c, d))
    } else {
        None
    }
}

pub fn second_token(s: &[u8]) -> (r: Option<Vec<u8>>)
    ensures
        match r {
            Some(t) => spec_second_token(s@) == Some(t@),
            None => spec_second_token(s@) is None,
        },
{
    let a = skip_ws(s, 0);
    proof {
        lemma_skip_ws_bounds(s@, 0);
    }
    let b = skip_nonws(s, a);
    let c = skip_ws(s, b);
    proof {
        lemma_skip_ws_bounds(s@, b as int);
    }
    let d = skip_nonws(s, c);
    if c < s.len() && c < d {
        Some(copy_range(s, c, d))
    } else {
        None
    }
}

/// Whether `b` occurs in `set`.
pub open spec fn spec_in_set(set: Seq<u8>, b: u8) -> bool {
    exists|k: int| 0 <= k < set.len() && set[k] == b
}

fn in_set(set: &[u8], b: u8) -> (r: bool)
    ensures
        r == spec_in_set(set@, b),
{
    let mut k: usize = 0;
    while k < set.len()
        invariant
            k <= set@.len(),
            forall|j: int| 0 <= j < k ==> set@[j] != b,
        decreases set@.len() - k,
    {
        if set[k] == b {
            return true;
        }
        k = k + 1;
    }
    false
}

pub open spec fn spec_skip_in(s: Seq<u8>, set: Seq<u8>, i: int) -> int
    decreases s.len() - i,
{
    if i < 0 {
        i
    } else if i >= s.len() {
        s.len() as int
    } else if spec_in_set(set, s[i]) {
        spec_skip_in(s, set, i + 1)
    } else {
        i
    }
}

pub open spec fn spec_rskip_in(s: Seq<u8>, set: Seq<u8>, hi: int) -> int
    decreases hi,
{
    if hi <= 0 || hi > s.len() {
        0
    } else if spec_in_set(set, s[hi - 1]) {
        spec_rskip_in(s, set, hi - 1)
    } else {
        hi
    }
}

/// `s` with every leading and trailing byte of `set` removed.
pub open spec fn spec_trim_set(s: Seq<u8>, set: Seq<u8>) -> Seq<u8> {
    let a = spec_skip_in(s, set, 0);
    let b = spec_rskip_in(s, set, s.len() as int);
    if a < b {
        s.subrange(a, b)
    } else {
        Seq::empty()
    }
}

pub fn trim_set(s: &[u8], set: &[u8]) -> (r: Vec<u8>)
    ensures
        r@ == spec_trim_set(s@, set@),
{
    let mut a: usize = 0;
    while a < s.len() && in_set(set, s[a])
        invariant
            a <= s@.len(),
            spec_skip_in(s@, set@, 0) == spec_skip_in(s@, set@, a as int),
        decreases s@.len() - a,
    {
        a = a + 1;
    }
    let mut b: usize = s.len();
    while b > 0 && in_set(set, s[b - 1])
        invariant
            b <= s@.len(),
            spec_rskip_in(s@, set@, s@.len() as int) == spec_rskip_in(s@, set@, b as int),
        decreases b,
    {
        b = b - 1;
    }
    if a < b {
        copy_range(s, a, b)
    } else {
        let r: Vec<u8> = Vec::new();
        proof {
            assert(r@ =~= spec_trim_set(s@, set@));
        }
        r
    }
}

/// `s` with every trailing byte of `set` removed.
pub open spec fn spec_rtrim_set(s: Seq<u8>, set: Seq<u8>) -> Seq<u8> {
    s.subrange(0, spec_rskip_in(s, set, s.len() as int))
}

pub proof fn lemma_rskip_in_bounds(s: Seq<u8>, set: Seq<u8>, hi: int)
    requires
        0 <= hi <= s.len(),
    ensures
        0 <= spec_rskip_in(s, set, hi) <= hi,
    decreases hi,
{
    if 0 < hi && spec_in_set(set, s[hi - 1]) {
        lemma_rskip_in_bounds(s, set, hi - 1);
    }
}

pub fn rtrim_set(s: &[u8], set: &[u8]) -> (r: Vec<u8>)
    ensures
        r@ == spec_rtrim_set(s@, set@),
{
    proof {
        lemma_rskip_in_bounds(s@, set@, s@.len() as int);
    }
    let mut b: usize = s.len();
    while b > 0 && in_set(set, s[b - 1])
        invariant
            b <= s@.len(),
            spec_rskip_in(s@, set@, s@.len() as int) == spec_rskip_in(s@, set@, b as int),
        decreases b,
    {
        b = b - 1;
    }
    proof {
        lemma_rskip_in_bounds(s@, set@, b as int);
    }
    copy_range(s, 0, b)
}

} // verus!
