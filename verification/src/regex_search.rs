//! Regular-expression search through the `regex` crate.  A search gives,
//! for each successive match, the character span of each capture group.
use vstd::prelude::*;

use crate::text::{opt_chars, slice, string_of};

verus! {

/// Spans of one match: group `g` is `Some((start, end))` when it took part.
pub type MatchSpans = Seq<Option<(usize, usize)>>;

/// What `Regex::new(pattern)` followed by `captures_iter(haystack)` yields,
/// as character spans; `None` when the pattern does not compile.
pub uninterp spec fn regex_matches(pattern: Seq<char>, haystack: Seq<char>) -> Option<Seq<MatchSpans>>;

pub open spec fn spans_view(r: Option<Vec<Vec<Option<(usize, usize)>>>>) -> Option<Seq<MatchSpans>> {
    match r {
        Some(v) => Some(v@.map_values(|m: Vec<Option<(usize, usize)>>| m@)),
        None => None,
    }
}

/// Start of a group's span.
pub open spec fn span_lo(o: Option<(usize, usize)>) -> usize {
    o.unwrap().0
}

/// End of a group's span.
pub open spec fn span_hi(o: Option<(usize, usize)>) -> usize {
    o.unwrap().1
}

/// Every match has group 0; every span lies inside the haystack; and
/// successive matches do not overlap.
pub open spec fn well_formed_matches(ms: Seq<MatchSpans>, len: nat) -> bool {
    &&& forall|i: int| 0 <= i < ms.len() ==> (#[trigger] ms[i]).len() > 0 && ms[i][0] is Some
    &&& forall|i: int, g: int|
        0 <= i < ms.len() && 0 <= g < ms[i].len() && (#[trigger] ms[i][g]) is Some ==> span_lo(ms[i][g])
            <= span_hi(ms[i][g]) <= len
    &&& forall|i: int|
        0 <= i < ms.len() - 1 ==> span_hi((#[trigger] ms[i])[0]) <= span_lo(ms[i + 1][0])
}

/// Wraps `regex::Regex::new` and `Regex::captures_iter`.  The result is
/// named by `regex_matches`; the crate documents that group 0 is the whole
/// match, that a match's offsets lie within the haystack, and that the
/// matches come in order without overlapping.  Byte offsets are turned into
/// character counts.
#[verifier::external_body]
fn regex_find_all(pattern: &str, haystack: &str) -> (r: Option<Vec<Vec<Option<(usize, usize)>>>>)
    ensures
        spans_view(r) == regex_matches(pattern@, haystack@),
        r matches Some(v) ==> well_formed_matches(spans_view(r)->0, haystack@.len()),
{
    let re = regex::Regex::new(pattern).ok()?;
    Some(
        re.captures_iter(haystack).map(|c| {
            c.iter().map(|m| {
                m.map(|m| (haystack[..m.start()].chars().count(), haystack[..m.end()].chars().count()))
            }).collect()
        }).collect(),
    )
}

/// The matches of `pattern` in `hay`; none when the pattern does not compile.
pub open spec fn all_matches(pattern: Seq<char>, hay: Seq<char>) -> Seq<MatchSpans> {
    match regex_matches(pattern, hay) {
        Some(ms) => ms,
        None => Seq::empty(),
    }
}

/// Text of group `g` of match `m` in `hay`.
pub open spec fn group_text(hay: Seq<char>, m: MatchSpans, g: int) -> Option<Seq<char>> {
    if 0 <= g < m.len() {
        match m[g] {
            Some(sp) => Some(hay.subrange(sp.0 as int, sp.1 as int)),
            None => None,
        }
    } else {
        None
    }
}

/// Whether `pattern` matches somewhere in `hay` (`Regex::is_match`).
pub open spec fn is_match(pattern: Seq<char>, hay: Seq<char>) -> bool {
    all_matches(pattern, hay).len() > 0
}

/// All matches of `pattern` in `hay`, as spans that lie inside `hay`.
pub fn find_all(pattern: &str, hay: &Vec<char>) -> (r: Vec<Vec<Option<(usize, usize)>>>)
    ensures
        r@.map_values(|m: Vec<Option<(usize, usize)>>| m@) == all_matches(pattern@, hay@),
        well_formed_matches(all_matches(pattern@, hay@), hay@.len()),
{
    let s = string_of(hay);
    match regex_find_all(pattern, s.as_str()) {
        Some(v) => v,
        None => {
            let r: Vec<Vec<Option<(usize, usize)>>> = Vec::new();
            assert(r@.map_values(|m: Vec<Option<(usize, usize)>>| m@) =~= Seq::<MatchSpans>::empty());
            r
        },
    }
}

/// Text of group `g` of a match.
pub fn group_of(hay: &Vec<char>, m: &Vec<Option<(usize, usize)>>, g: usize) -> (r: Option<Vec<char>>)
    requires
        forall|k: int|
            0 <= k < m@.len() && (#[trigger] m@[k]) is Some ==> span_lo(m@[k]) <= span_hi(m@[k])
                <= hay@.len(),
    ensures
        opt_chars(r) == group_text(hay@, m@, g as int),
{
    if g < m.len() {
        match m[g] {
            Some(sp) => {
                Some(slice(hay, sp.0, sp.1))
            },
            None => None,
        }
    } else {
        None
    }
}

/// `Regex::is_match`.
pub fn matches_somewhere(pattern: &str, hay: &Vec<char>) -> (r: bool)
    ensures
        r == is_match(pattern@, hay@),
{
    let ms = find_all(pattern, hay);
    ms.len() > 0
}

/// Text of group `g` of match `i` of a list of matches of `hay`.
pub fn group_at(hay: &Vec<char>, ms: &Vec<Vec<Option<(usize, usize)>>>, i: usize, g: usize) -> (r: Option<Vec<char>>)
    requires
        i < ms.len(),
        well_formed_matches(ms@.map_values(|m: Vec<Option<(usize, usize)>>| m@), hay@.len()),
    ensures
        opt_chars(r) == group_text(hay@, ms@[i as int]@, g as int),
{
    let ghost mv = ms@.map_values(|m: Vec<Option<(usize, usize)>>| m@);
    assert(mv[i as int] == ms@[i as int]@);
    assert forall|k: int|
        0 <= k < ms@[i as int]@.len() && (#[trigger] ms@[i as int]@[k]) is Some implies span_lo(
        ms@[i as int]@[k],
    ) <= span_hi(ms@[i as int]@[k]) <= hay@.len() by {
        assert(mv[i as int][k] == ms@[i as int]@[k]);
    }
    group_of(hay, &ms[i], g)
}

/// Group `g` of the first match of `pattern` in `hay` (`Regex::captures`).
pub open spec fn first_group(pattern: Seq<char>, hay: Seq<char>, g: int) -> Option<Seq<char>> {
    if all_matches(pattern, hay).len() > 0 {
        group_text(hay, all_matches(pattern, hay)[0], g)
    } else {
        None
    }
}

/// Group `g` of the first match of `pattern` in `hay`.
pub fn first_group_of(pattern: &str, hay: &Vec<char>, g: usize) -> (r: Option<Vec<char>>)
    ensures
        opt_chars(r) == first_group(pattern@, hay@, g as int),
{
    let ms = find_all(pattern, hay);
    if ms.len() == 0 {
        return None;
    }
    group_at(hay, &ms, 0, g)
}

} // verus!
