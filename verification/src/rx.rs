//! Pattern searching.
//!
//! The pattern banks of this crate are regular expressions, and the one
//! call into the regex engine is wrapped here.  A match is handed back as
//! plain byte offsets (a `Hit`), so everything downstream of the search is
//! ordinary verified code.

use vstd::prelude::*;

verus! {

/// One match of a pattern: the byte span of the whole match and the spans
/// of every capture group (group 0 is the whole match).
#[derive(PartialEq, Eq, Debug)]
pub struct Hit {
    pub start: usize,
    pub end: usize,
    pub groups: Vec<Option<(usize, usize)>>,
}

impl View for Hit {
    type V = (usize, usize, Seq<Option<(usize, usize)>>);

    open spec fn view(&self) -> (usize, usize, Seq<Option<(usize, usize)>>) {
        (self.start, self.end, self.groups@)
    }
}

impl DeepView for Hit {
    type V = (usize, usize, Seq<Option<(usize, usize)>>);

    open spec fn deep_view(&self) -> (usize, usize, Seq<Option<(usize, usize)>>) {
        self@
    }
}

/// Whether the pattern is a well-formed regular expression.
pub uninterp spec fn pattern_ok(pattern: Seq<char>) -> bool;

/// The successive non-overlapping matches of a pattern over a text,
/// determined by the pattern and the text alone.
pub uninterp spec fn pattern_hits(pattern: Seq<char>, text: Seq<u8>) -> Seq<
    (usize, usize, Seq<Option<(usize, usize)>>),
>;

/// A match whose offsets all lie within the text, whose group 0 is the
/// whole match, and whose span is well-ordered.
pub open spec fn hit_wf(h: (usize, usize, Seq<Option<(usize, usize)>>), text_len: int) -> bool {
    &&& h.0 <= h.1 <= text_len
    &&& h.2.len() >= 1
    &&& h.2[0] == Some((h.0, h.1))
    &&& forall|g: int|
        0 <= g < h.2.len() && #[trigger] h.2[g] is Some ==> h.2[g]->Some_0.0 <= h.2[g]->Some_0.1
            <= text_len
}

/// Relies on `regex::bytes::Regex::new`, which compiles a pattern or
/// reports an error, and `Regex::captures_iter`, which yields the
/// successive non-overlapping matches of the compiled pattern in the
/// haystack, in order, as byte offsets into the haystack, with capture
/// group 0 the overall match.  Returns `None` exactly when the pattern
/// does not compile.
#[verifier::external_body]
pub fn regex_captures(pattern: &str, text: &[u8]) -> (r: Option<Vec<Hit>>)
    ensures
        r is Some <==> pattern_ok(pattern@),
        r is Some ==> r->Some_0.deep_view() == pattern_hits(pattern@, text@),
        r is Some ==> forall|m: int|
            0 <= m < r->Some_0.deep_view().len() ==> hit_wf(
                #[trigger] r->Some_0.deep_view()[m],
                text@.len() as int,
            ),
        r is Some ==> forall|m1: int, m2: int|
            0 <= m1 < m2 < r->Some_0.deep_view().len() ==> #[trigger] r->Some_0.deep_view()[m1].1
                <= #[trigger] r->Some_0.deep_view()[m2].0,
{
    let re = match regex::bytes::Regex::new(pattern) {
        Ok(re) => re,
        Err(_) => return None,
    };
    let mut hits: Vec<Hit> = Vec::new();
    for caps in re.captures_iter(text) {
        let whole = caps.get(0).unwrap();
        let groups: Vec<Option<(usize, usize)>> =
            caps.iter().map(|g| g.map(|m| (m.start(), m.end()))).collect();
        hits.push(Hit { start: whole.start(), end: whole.end(), groups });
    }
    Some(hits)
}

/// The matches of a pattern over a text, or an empty list when the
/// pattern is rejected by the engine: a malformed pattern is dropped for
/// the run, never an abort.
pub fn pattern_matches_or_empty(pattern: &str, text: &[u8]) -> (r: Vec<Hit>)
    ensures
        r.deep_view() == if pattern_ok(pattern@) {
            pattern_hits(pattern@, text@)
        } else {
            Seq::<(usize, usize, Seq<Option<(usize, usize)>>)>::empty()
        },
        forall|m: int|
            0 <= m < r.deep_view().len() ==> hit_wf(#[trigger] r.deep_view()[m], text@.len() as int),
{
    match regex_captures(pattern, text) {
        Some(hits) => hits,
        None => {
            let r: Vec<Hit> = Vec::new();
            proof {
                assert(r.deep_view() =~= Seq::<
                    (usize, usize, Seq<Option<(usize, usize)>>),
                >::empty());
            }
            r
        },
    }
}

} // verus!
