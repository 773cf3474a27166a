//! XFDL screens: `actionSubmit` calls and `getComCodeCombo` family calls in
//! the `<![CDATA[...]]>` scripts, and the `dsAction` dataset's ID → URL rows.
use vstd::prelude::*;
use vstd::string::StringSliceAdditionalSpecFns;

use crate::models::{ExtractedAction, ExtractedCombo};
use crate::regex_search::{
    all_matches, find_all, group_at, group_text, span_hi, well_formed_matches, MatchSpans,
};
use crate::strmap::{map_of, StrMap};
use crate::text::{
    alphanumeric, before_char, before_char_of, chars_of, concat, copy_chars, decimal, decimal_of,
    eq_chars, is_alphanumeric_char, lit, opt_chars, opt_str, slice, starts_with,
    starts_with_chars, string_of, trim, trim_chars, views,
};
use crate::xml::{
    attrs_view, events_view, failure_view, last_attr, xml_parse, xml_read_events, XmlAttr, XmlEvent,
    XmlEventView, XmlFailure,
};

verus! {

/// A `<![CDATA[...]]>` section; group 1 is its body.
pub const CDATA_RE: &'static str = r"(?s)<!\[CDATA\[(.*?)\]\]>";

/// A combo call up to its opening parenthesis.
pub const COMBO_FN_RE: &'static str = r"(getComCodeCombo|getComCodeComboSync|getGridCodeCombo|getGridCodeComboSync)\s*\(";

/// A string second argument; group 2 or 3 is its body.
pub const SECOND_ARG_STR_RE: &'static str = r#",\s*(\"([^\"]*)\"|'([^']*)')"#;

/// An array `[x, "param"]`; group 2 or 3 is the second element's body.
pub const ARRAY_SECOND_RE: &'static str = r#"\[\s*[^,\]]+\s*,\s*(\"([^\"]*)\"|'([^']*)')\s*\]"#;

/// An `actionSubmit` / `actionSubmitFR` call: group 2 or 3 is a literal
/// action id, group 4 a variable name.
pub const ACTION_CALL_RE: &'static str = r#"actionSubmit(?:FR)?\s*\(\s*("([^"]+)"|'([^']+)'|([A-Za-z_$][A-Za-z0-9_$]*))"#;

// ───────────────────────── scripts ─────────────────────────

/// Bodies of the CDATA sections that `ms` matched in `content`.
pub open spec fn scripts_of(content: Seq<char>, ms: Seq<MatchSpans>) -> Seq<Seq<char>>
    decreases ms.len(),
{
    if ms.len() == 0 {
        Seq::empty()
    } else {
        let prev = scripts_of(content, ms.drop_last());
        match group_text(content, ms.last(), 1) {
            Some(s) => prev.push(s),
            None => prev,
        }
    }
}

/// The script bodies of an XFDL text, in order.
pub open spec fn scripts(content: Seq<char>) -> Seq<Seq<char>> {
    scripts_of(content, all_matches(CDATA_RE@, content))
}

/// The script bodies of an XFDL text.
pub fn cdata_scripts(content: &Vec<char>) -> (r: Vec<Vec<char>>)
    ensures
        views(r@) == scripts(content@),
{
    let ms = find_all(CDATA_RE, content);
    scripts_from_matches(content, &ms)
}

/// The bodies (group 1) of the CDATA sections that `ms` matched in
/// `content`, in order.
#[verifier::rlimit(40)]
pub fn scripts_from_matches(content: &Vec<char>, ms: &Vec<Vec<Option<(usize, usize)>>>) -> (r: Vec<Vec<char>>)
    requires
        well_formed_matches(ms@.map_values(|m: Vec<Option<(usize, usize)>>| m@), content@.len()),
    ensures
        views(r@) == scripts_of(content@, ms@.map_values(|m: Vec<Option<(usize, usize)>>| m@)),
{
    let ghost all = ms@.map_values(|m: Vec<Option<(usize, usize)>>| m@);
    let mut r: Vec<Vec<char>> = Vec::new();
    let mut i: usize = 0;
    assert(all.take(0) =~= Seq::<MatchSpans>::empty());
    assert(views(r@) =~= Seq::<Seq<char>>::empty());
    while i < ms.len()
        invariant
            i <= ms.len(),
            ms@.map_values(|m: Vec<Option<(usize, usize)>>| m@) == all,
            well_formed_matches(all, content@.len()),
            views(r@) == scripts_of(content@, all.take(i as int)),
        decreases ms.len() - i,
    {
        assert(all.take(i + 1).drop_last() =~= all.take(i as int));
        assert(all.take(i + 1).last() == ms@[i as int]@);
        let ghost before = views(r@);
        match group_at(content, ms, i, 1) {
            Some(s) => {
                r.push(s);
                assert(views(r@) =~= before.push(s@));
            },
            None => {},
        }
        i += 1;
    }
    assert(all.take(ms@.len() as int) =~= all);
    r
}

/// Group 2 of a match, or else group 3.
pub open spec fn quoted_body(h: Seq<char>, m: MatchSpans) -> Option<Seq<char>> {
    match group_text(h, m, 2) {
        Some(t) => Some(t),
        None => group_text(h, m, 3),
    }
}

fn quoted_body_at(h: &Vec<char>, ms: &Vec<Vec<Option<(usize, usize)>>>, i: usize) -> (r: Option<Vec<char>>)
    requires
        i < ms.len(),
        well_formed_matches(ms@.map_values(|m: Vec<Option<(usize, usize)>>| m@), h@.len()),
    ensures
        opt_chars(r) == quoted_body(h@, ms@[i as int]@),
{
    match group_at(h, ms, i, 2) {
        Some(t) => Some(t),
        None => group_at(h, ms, i, 3),
    }
}

// ───────────────────────── actionSubmit ─────────────────────────

/// The calls that `ms` matched in `script`: a literal id, or a variable name.
pub open spec fn calls_of(script: Seq<char>, ms: Seq<MatchSpans>) -> Seq<(Seq<char>, bool)>
    decreases ms.len(),
{
    if ms.len() == 0 {
        Seq::empty()
    } else {
        let prev = calls_of(script, ms.drop_last());
        match quoted_body(script, ms.last()) {
            Some(t) => prev.push((t, true)),
            None => match group_text(script, ms.last(), 4) {
                Some(t) => prev.push((t, false)),
                None => prev,
            },
        }
    }
}

/// All `actionSubmit` calls of the scripts, in order, repeats included.
pub open spec fn all_calls(ss: Seq<Seq<char>>) -> Seq<(Seq<char>, bool)>
    decreases ss.len(),
{
    if ss.len() == 0 {
        Seq::empty()
    } else {
        all_calls(ss.drop_last()) + calls_of(ss.last(), all_matches(ACTION_CALL_RE@, ss.last()))
    }
}

/// The calls whose id did not come earlier.
pub open spec fn first_calls(cs: Seq<(Seq<char>, bool)>) -> Seq<(Seq<char>, bool)>
    decreases cs.len(),
{
    if cs.len() == 0 {
        Seq::empty()
    } else {
        let prev = first_calls(cs.drop_last());
        if exists|j: int| 0 <= j < cs.len() - 1 && (#[trigger] cs[j]).0 == cs.last().0 {
            prev
        } else {
            prev.push(cs.last())
        }
    }
}

/// The `actionSubmit` calls of an XFDL text: each action id once, in order
/// of first appearance, with whether it was written as a literal.
pub open spec fn action_calls(content: Seq<char>) -> Seq<(Seq<char>, bool)> {
    first_calls(all_calls(scripts(content)))
}

proof fn lemma_first_calls_from(cs: Seq<(Seq<char>, bool)>)
    ensures
        forall|i: int| #![trigger first_calls(cs)[i]] 0 <= i < first_calls(cs).len() ==> exists|j: int| 0 <= j < cs.len() && #[trigger] cs[j] == first_calls(cs)[i],
    decreases cs.len(),
{
    if cs.len() > 0 {
        let prev_cs = cs.drop_last();
        lemma_first_calls_from(prev_cs);
        let r = first_calls(cs);
        let prev = first_calls(prev_cs);
        assert forall|i: int| #![trigger r[i]] 0 <= i < r.len() implies exists|j: int| 0 <= j < cs.len() && #[trigger] cs[j] == r[i] by {
            if i < prev.len() {
                assert(r[i] == prev[i]);
                let j = choose|j: int| 0 <= j < prev_cs.len() && #[trigger] prev_cs[j] == prev[i];
                assert(cs[j] == prev_cs[j]);
            } else {
                assert(cs[cs.len() - 1] == r[i]);
            }
        }
    }
}

/// Each action id is kept once, and every id that occurs is kept.
pub proof fn law_each_action_once(cs: Seq<(Seq<char>, bool)>)
    ensures
        forall|i: int, j: int|
            0 <= i < j < first_calls(cs).len() ==> (#[trigger] first_calls(cs)[i]).0 != (#[trigger] first_calls(cs)[j]).0,
        forall|k: int| 0 <= k < cs.len() ==> exists|i: int| 0 <= i < first_calls(cs).len() && (#[trigger] first_calls(cs)[i]).0 == (#[trigger] cs[k]).0,
    decreases cs.len(),
{
    if cs.len() > 0 {
        let prev_cs = cs.drop_last();
        law_each_action_once(prev_cs);
        lemma_first_calls_from(prev_cs);
        let r = first_calls(cs);
        let prev = first_calls(prev_cs);
        let last = cs.last();
        let dup = exists|j: int| 0 <= j < cs.len() - 1 && (#[trigger] cs[j]).0 == last.0;
        assert forall|i: int, j: int| 0 <= i < j < r.len() implies (#[trigger] r[i]).0 != (#[trigger] r[j]).0 by {
            if j < prev.len() {
                assert(r[i] == prev[i] && r[j] == prev[j]);
            } else {
                assert(r[j] == last);
                assert(r[i] == prev[i]);
                let m = choose|m: int| 0 <= m < prev_cs.len() && #[trigger] prev_cs[m] == prev[i];
                assert(cs[m] == prev_cs[m]);
            }
        }
        assert forall|k: int| 0 <= k < cs.len() implies exists|i: int| 0 <= i < r.len() && (#[trigger] r[i]).0 == (#[trigger] cs[k]).0 by {
            if k < cs.len() - 1 {
                assert(cs[k] == prev_cs[k]);
                let i = choose|i: int| 0 <= i < prev.len() && (#[trigger] prev[i]).0 == (#[trigger] prev_cs[k]).0;
                assert(r[i] == prev[i]);
            } else if dup {
                let j = choose|j: int| 0 <= j < cs.len() - 1 && (#[trigger] cs[j]).0 == last.0;
                assert(cs[j] == prev_cs[j]);
                let i = choose|i: int| 0 <= i < prev.len() && (#[trigger] prev[i]).0 == (#[trigger] prev_cs[j]).0;
                assert(r[i] == prev[i]);
            } else {
                assert(r[r.len() - 1] == last);
            }
        }
    }
}

pub open spec fn calls_view(v: Seq<(String, bool)>) -> Seq<(Seq<char>, bool)> {
    v.map_values(|c: (String, bool)| (c.0@, c.1))
}

fn push_calls_of(script: &Vec<char>, out: &mut Vec<(Vec<char>, bool)>)
    ensures
        final(out)@.map_values(|c: (Vec<char>, bool)| (c.0@, c.1)) == old(out)@.map_values(
            |c: (Vec<char>, bool)| (c.0@, c.1),
        ) + calls_of(script@, all_matches(ACTION_CALL_RE@, script@)),
{
    let ms = find_all(ACTION_CALL_RE, script);
    push_calls_from_matches(script, &ms, out)
}

/// Appends the `actionSubmit` calls that `ms` matched in `script`: the
/// quoted id (literal) or else the variable name (group 4).
#[verifier::rlimit(40)]
pub fn push_calls_from_matches(script: &Vec<char>, ms: &Vec<Vec<Option<(usize, usize)>>>, out: &mut Vec<(Vec<char>, bool)>)
    requires
        well_formed_matches(ms@.map_values(|m: Vec<Option<(usize, usize)>>| m@), script@.len()),
    ensures
        final(out)@.map_values(|c: (Vec<char>, bool)| (c.0@, c.1)) == old(out)@.map_values(
            |c: (Vec<char>, bool)| (c.0@, c.1),
        ) + calls_of(script@, ms@.map_values(|m: Vec<Option<(usize, usize)>>| m@)),
{
    let ghost all = ms@.map_values(|m: Vec<Option<(usize, usize)>>| m@);
    let ghost start = out@.map_values(|c: (Vec<char>, bool)| (c.0@, c.1));
    let mut i: usize = 0;
    assert(all.take(0) =~= Seq::<MatchSpans>::empty());
    assert(out@.map_values(|c: (Vec<char>, bool)| (c.0@, c.1)) =~= start + Seq::<(Seq<char>, bool)>::empty());
    while i < ms.len()
        invariant
            i <= ms.len(),
            ms@.map_values(|m: Vec<Option<(usize, usize)>>| m@) == all,
            well_formed_matches(all, script@.len()),
            out@.map_values(|c: (Vec<char>, bool)| (c.0@, c.1)) == start + calls_of(script@, all.take(i as int)),
        decreases ms.len() - i,
    {
        assert(all.take(i + 1).drop_last() =~= all.take(i as int));
        assert(all.take(i + 1).last() == ms@[i as int]@);
        let ghost before = out@.map_values(|c: (Vec<char>, bool)| (c.0@, c.1));
        match quoted_body_at(script, ms, i) {
            Some(t) => {
                let ghost tv = t@;
                out.push((t, true));
                assert(out@.map_values(|c: (Vec<char>, bool)| (c.0@, c.1)) =~= before.push((tv, true)));
            },
            None => match group_at(script, ms, i, 4) {
                Some(t) => {
                    let ghost tv = t@;
                    out.push((t, false));
                    assert(out@.map_values(|c: (Vec<char>, bool)| (c.0@, c.1)) =~= before.push((tv, false)));
                },
                None => {},
            },
        }
        assert(out@.map_values(|c: (Vec<char>, bool)| (c.0@, c.1)) =~= start + calls_of(script@, all.take(i + 1)));
        i += 1;
    }
    assert(all.take(ms@.len() as int) =~= all);
}

/// The `actionSubmit` / `actionSubmitFR` calls of an XFDL text: each id once,
/// in order of first appearance; `true` when the id was a string literal.
pub fn extract_action_calls(content: &str) -> (r: Result<Vec<(String, bool)>, String>)
    ensures
        r matches Ok(v) && calls_view(v@) == action_calls(content@),
{
    let ss = cdata_scripts(&chars_of(content));
    let ghost sv = views(ss@);
    let mut cands: Vec<(Vec<char>, bool)> = Vec::new();
    let mut i: usize = 0;
    assert(sv.take(0) =~= Seq::<Seq<char>>::empty());
    assert(cands@.map_values(|c: (Vec<char>, bool)| (c.0@, c.1)) =~= Seq::<(Seq<char>, bool)>::empty());
    while i < ss.len()
        invariant
            i <= ss.len(),
            sv == views(ss@),
            cands@.map_values(|c: (Vec<char>, bool)| (c.0@, c.1)) == all_calls(sv.take(i as int)),
        decreases ss.len() - i,
    {
        assert(sv.take(i + 1).drop_last() =~= sv.take(i as int));
        assert(sv.take(i + 1).last() == ss@[i as int]@);
        push_calls_of(&ss[i], &mut cands);
        i += 1;
    }
    assert(sv.take(ss@.len() as int) =~= sv);
    Ok(first_action_calls(&cands))
}

/// The calls of `cands` whose id did not come earlier, in order, with the
/// ids as strings.
pub fn first_action_calls(cands: &Vec<(Vec<char>, bool)>) -> (r: Vec<(String, bool)>)
    ensures
        calls_view(r@) == first_calls(cands@.map_values(|c: (Vec<char>, bool)| (c.0@, c.1))),
{
    let ghost cv = cands@.map_values(|c: (Vec<char>, bool)| (c.0@, c.1));
    let mut results: Vec<(String, bool)> = Vec::new();
    let mut seen: Vec<Vec<char>> = Vec::new();
    let mut k: usize = 0;
    assert(cv.take(0) =~= Seq::<(Seq<char>, bool)>::empty());
    assert(calls_view(results@) =~= Seq::<(Seq<char>, bool)>::empty());
    while k < cands.len()
        invariant
            k <= cands.len(),
            cv == cands@.map_values(|c: (Vec<char>, bool)| (c.0@, c.1)),
            calls_view(results@) == first_calls(cv.take(k as int)),
            forall|x: Seq<char>| views(seen@).contains(x) <==> exists|j: int| 0 <= j < k && (#[trigger] cv[j]).0 == x,
        decreases cands.len() - k,
    {
        let c = &cands[k];
        assert(cv[k as int] == (c.0@, c.1));
        let ghost t = cv.take(k + 1);
        assert(t.drop_last() =~= cv.take(k as int));
        let mut found = false;
        let mut q: usize = 0;
        while q < seen.len()
            invariant
                q <= seen.len(),
                found == exists|j: int| 0 <= j < q && (#[trigger] views(seen@)[j]) == c.0@,
            decreases seen.len() - q,
        {
            assert(views(seen@)[q as int] == seen@[q as int]@);
            if eq_chars(&seen[q], &c.0) {
                found = true;
            }
            proof {
                if exists|j: int| 0 <= j < q + 1 && (#[trigger] views(seen@)[j]) == c.0@ {
                    let j = choose|j: int| 0 <= j < q + 1 && (#[trigger] views(seen@)[j]) == c.0@;
                    if j < q {
                    }
                }
            }
            q += 1;
        }
        proof {
            if found {
                let j = choose|j: int| 0 <= j < seen.len() && (#[trigger] views(seen@)[j]) == c.0@;
                assert(views(seen@).contains(c.0@));
                let jj = choose|jj: int| 0 <= jj < k && (#[trigger] cv[jj]).0 == c.0@;
                assert(t[jj].0 == t.last().0);
            } else {
                if exists|jj: int| 0 <= jj < t.len() - 1 && (#[trigger] t[jj]).0 == t.last().0 {
                    let jj = choose|jj: int| 0 <= jj < t.len() - 1 && (#[trigger] t[jj]).0 == t.last().0;
                    assert(cv[jj].0 == c.0@);
                    assert(views(seen@).contains(c.0@));
                    let m = choose|m: int| 0 <= m < seen.len() && views(seen@)[m] == c.0@;
                    assert(views(seen@)[m] == c.0@);
                }
            }
        }
        let ghost before = calls_view(results@);
        let ghost seen_before = views(seen@);
        if !found {
            results.push((string_of(&c.0), c.1));
            assert(calls_view(results@) =~= before.push((c.0@, c.1)));
            seen.push(copy_chars(&c.0));
            assert(views(seen@) =~= seen_before.push(c.0@));
        }
        proof {
            assert forall|x: Seq<char>| views(seen@).contains(x) <==> exists|j: int| 0 <= j < k + 1 && (#[trigger] cv[j]).0 == x by {
                if views(seen@).contains(x) {
                    if !seen_before.contains(x) {
                        assert(cv[k as int].0 == x);
                    }
                }
                if exists|j: int| 0 <= j < k + 1 && (#[trigger] cv[j]).0 == x {
                    let j = choose|j: int| 0 <= j < k + 1 && (#[trigger] cv[j]).0 == x;
                    if j < k {
                        assert(seen_before.contains(x));
                        let m = choose|m: int| 0 <= m < seen_before.len() && seen_before[m] == x;
                        assert(views(seen@)[m] == x);
                    } else if !found {
                        assert(views(seen@)[seen_before.len() as int] == x);
                    } else {
                        let m = choose|m: int| 0 <= m < seen.len() && (#[trigger] views(seen@)[m]) == c.0@;
                        assert(views(seen@)[m] == x);
                    }
                }
            }
        }
        k += 1;
    }
    assert(cv.take(cands@.len() as int) =~= cv);
    results
}

// ───────────────────────── dsAction ─────────────────────────

/// The reader state over the `dsAction` dataset: inside it or not, the
/// current column id, the current row's ID and URL, and the rows read.
pub type DsState = (bool, Option<Seq<char>>, Option<Seq<char>>, Option<Seq<char>>, Seq<(Seq<char>, Seq<char>)>);

pub open spec fn key_id() -> Seq<u8> {
    seq![105u8, 100u8]
}

/// Some attribute is `id="dsAction"`.
pub open spec fn has_dsaction_id(attrs: Seq<(Seq<u8>, Seq<char>)>) -> bool {
    exists|i: int| 0 <= i < attrs.len() && (#[trigger] attrs[i]).0 == key_id() && attrs[i].1 == "dsAction"@
}

pub open spec fn open_tag(st: DsState, name: Seq<char>, attrs: Seq<(Seq<u8>, Seq<char>)>) -> DsState {
    if name == "Dataset"@ {
        (st.0 || has_dsaction_id(attrs), st.1, st.2, st.3, st.4)
    } else if name == "Row"@ && st.0 {
        (st.0, st.1, None, None, st.4)
    } else if name == "Col"@ && st.0 {
        (st.0, last_attr(attrs, key_id()), st.2, st.3, st.4)
    } else {
        st
    }
}

/// What one event does to the state.
pub open spec fn ds_step(st: DsState, e: XmlEventView) -> DsState {
    match e {
        XmlEventView::Start(t) => open_tag(st, t.0, t.1),
        XmlEventView::Empty(t) => open_tag(st, t.0, t.1),
        XmlEventView::Text(x) => if st.0 {
            match st.1 {
                Some(c) => if c == "ID"@ {
                    (st.0, st.1, Some(x), st.3, st.4)
                } else if c == "URL"@ {
                    (st.0, st.1, st.2, Some(x), st.4)
                } else {
                    st
                },
                None => st,
            }
        } else {
            st
        },
        XmlEventView::End(n) => if n == "Col"@ {
            (st.0, None, st.2, st.3, st.4)
        } else if n == "Row"@ && st.0 {
            match (st.2, st.3) {
                (Some(id), Some(url)) => (st.0, st.1, None, None, st.4.push((id, url))),
                _ => (st.0, st.1, None, None, st.4),
            }
        } else if n == "Dataset"@ {
            (false, st.1, st.2, st.3, st.4)
        } else {
            st
        },
        XmlEventView::Other => st,
    }
}

pub open spec fn ds_run(evs: Seq<XmlEventView>) -> DsState
    decreases evs.len(),
{
    if evs.len() == 0 {
        (false, None, None, None, Seq::empty())
    } else {
        ds_step(ds_run(evs.drop_last()), evs.last())
    }
}

/// Number of `\n` bytes in `b`.
pub open spec fn newline_count(b: Seq<u8>) -> nat
    decreases b.len(),
{
    if b.len() == 0 {
        0
    } else {
        newline_count(b.drop_last()) + if b.last() == 10u8 { 1nat } else { 0nat }
    }
}

/// The dsAction ID → URL map (later rows win), and the message of the XML
/// error that stopped the reading, if any (with an estimated line number).
pub open spec fn dsaction_result(content: Seq<char>, bytes: Seq<u8>) -> (Map<Seq<char>, Seq<char>>, Option<Seq<char>>) {
    let (evs, err) = xml_parse(content);
    dsaction_of_events(bytes, evs, err)
}

/// The `dsAction` rows that the events read from a text give, and the
/// reader's error placed by line in the text's bytes.
pub open spec fn dsaction_of_events(bytes: Seq<u8>, evs: Seq<XmlEventView>, err: Option<(usize, Seq<char>)>) -> (Map<Seq<char>, Seq<char>>, Option<Seq<char>>) {
    (
        map_of(ds_run(evs).4),
        match err {
            Some(f) => Some(
                "XML 파싱 오류 (라인 "@ + decimal(newline_count(bytes.take(f.0 as int)) + 1) + " 부근, 위치 "@
                    + decimal(f.0 as nat) + "): "@ + f.1,
            ),
            None => None,
        },
    )
}

fn id_key() -> (r: Vec<u8>)
    ensures
        r@ == key_id(),
{
    let r = vec![105u8, 100u8];
    assert(r@ =~= key_id());
    r
}

fn has_dsaction_id_of(attrs: &Vec<XmlAttr>) -> (r: bool)
    ensures
        r == has_dsaction_id(attrs_view(attrs@)),
{
    let k = id_key();
    let ds = lit("dsAction");
    let ghost av = attrs_view(attrs@);
    let mut i: usize = 0;
    while i < attrs.len()
        invariant
            i <= attrs.len(),
            av == attrs_view(attrs@),
            k@ == key_id(),
            ds@ == "dsAction"@,
            forall|j: int| 0 <= j < i ==> !((#[trigger] av[j]).0 == key_id() && av[j].1 == "dsAction"@),
        decreases attrs.len() - i,
    {
        let a = &attrs[i];
        assert(av[i as int] == (a.key@, a.value@));
        if crate::xml::bytes_eq(&a.key, k.as_slice()) && eq_chars(&chars_of(a.value.as_str()), &ds) {
            return true;
        }
        i += 1;
    }
    false
}

fn last_id_of(attrs: &Vec<XmlAttr>) -> (r: Option<Vec<char>>)
    ensures
        opt_chars(r) == last_attr(attrs_view(attrs@), key_id()),
{
    let k = id_key();
    let ghost av = attrs_view(attrs@);
    let mut r: Option<Vec<char>> = None;
    let mut i: usize = 0;
    assert(av.take(0) =~= Seq::<(Seq<u8>, Seq<char>)>::empty());
    while i < attrs.len()
        invariant
            i <= attrs.len(),
            av == attrs_view(attrs@),
            k@ == key_id(),
            opt_chars(r) == last_attr(av.take(i as int), key_id()),
        decreases attrs.len() - i,
    {
        let a = &attrs[i];
        assert(av.take(i + 1).drop_last() =~= av.take(i as int));
        assert(av.take(i + 1).last() == (a.key@, a.value@));
        if crate::xml::bytes_eq(&a.key, k.as_slice()) {
            r = Some(chars_of(a.value.as_str()));
        }
        i += 1;
    }
    assert(av.take(attrs@.len() as int) =~= av);
    r
}

/// The state as values.
pub open spec fn state_view(
    in_ds: bool,
    col: Option<Vec<char>>,
    row_id: Option<Vec<char>>,
    row_url: Option<Vec<char>>,
    rows: Seq<(String, String)>,
) -> DsState {
    (in_ds, opt_chars(col), opt_chars(row_id), opt_chars(row_url), crate::strmap::entry_views(rows))
}

/// Number of `\n` bytes among the first `n` bytes of `b`.
fn newlines_before(b: &[u8], n: usize) -> (r: u128)
    requires
        n <= b@.len(),
    ensures
        r == newline_count(b@.take(n as int)),
        r <= n,
{
    let mut c: u128 = 0;
    let mut i: usize = 0;
    assert(b@.take(0) =~= Seq::<u8>::empty());
    while i < n
        invariant
            i <= n <= b@.len(),
            c == newline_count(b@.take(i as int)),
            c <= i,
        decreases n - i,
    {
        assert(b@.take(i + 1).drop_last() =~= b@.take(i as int));
        if b[i] == 10u8 {
            c += 1;
        }
        i += 1;
    }
    c
}

/// The `dsAction` rows of an XFDL text: ID → URL (a later row with the same
/// ID wins), and the message of the XML error that stopped the reading.
/// The rows read before an error are kept.
pub fn extract_dsaction_urls(content: &str) -> (r: (StrMap, Option<String>))
    ensures
        (r.0@, opt_str(r.1)) == dsaction_result(content@, content.spec_bytes()),
{
    let (events, failure) = xml_read_events(content);
    dsaction_urls_from_events(content, &events, &failure)
}

/// The ID → URL rows of the `dsAction` dataset in the events read from
/// `content`, and the reader's error (if any) with its line and byte
/// position in `content`.
pub fn dsaction_urls_from_events(content: &str, events: &Vec<XmlEvent>, failure: &Option<XmlFailure>) -> (r: (StrMap, Option<String>))
    requires
        failure matches Some(f) ==> f.byte_pos <= content.spec_bytes().len(),
    ensures
        (r.0@, opt_str(r.1)) == dsaction_of_events(content.spec_bytes(), events_view(events@), failure_view(*failure)),
{
    let ghost evs = events_view(events@);
    let mut in_ds = false;
    let mut col: Option<Vec<char>> = None;
    let mut row_id: Option<Vec<char>> = None;
    let mut row_url: Option<Vec<char>> = None;
    let mut rows: Vec<(String, String)> = Vec::new();
    let id_c = lit("ID");
    let url_c = lit("URL");
    let dataset = lit("Dataset");
    let row = lit("Row");
    let col_c = lit("Col");
    let mut i: usize = 0;
    assert(evs.take(0) =~= Seq::<XmlEventView>::empty());
    assert(crate::strmap::entry_views(rows@) =~= Seq::<(Seq<char>, Seq<char>)>::empty());
    while i < events.len()
        invariant
            i <= events.len(),
            evs == events_view(events@),
            id_c@ == "ID"@,
            url_c@ == "URL"@,
            dataset@ == "Dataset"@,
            row@ == "Row"@,
            col_c@ == "Col"@,
            state_view(in_ds, col, row_id, row_url, rows@) == ds_run(evs.take(i as int)),
        decreases events.len() - i,
    {
        assert(evs.take(i + 1).drop_last() =~= evs.take(i as int));
        assert(evs.take(i + 1).last() == crate::xml::event_view(events@[i as int]));
        let ghost st = ds_run(evs.take(i as int));
        match &events[i] {
            XmlEvent::Start(t) | XmlEvent::Empty(t) => {
                let name = chars_of(t.name.as_str());
                if eq_chars(&name, &dataset) {
                    if has_dsaction_id_of(&t.attrs) {
                        in_ds = true;
                    }
                } else if eq_chars(&name, &row) && in_ds {
                    row_id = None;
                    row_url = None;
                } else if eq_chars(&name, &col_c) && in_ds {
                    col = last_id_of(&t.attrs);
                }
            },
            XmlEvent::Text(x) => {
                if in_ds {
                    match &col {
                        Some(c) => {
                            if eq_chars(c, &id_c) {
                                row_id = Some(chars_of(x.as_str()));
                            } else if eq_chars(c, &url_c) {
                                row_url = Some(chars_of(x.as_str()));
                            }
                        },
                        None => {},
                    }
                }
            },
            XmlEvent::End(n) => {
                let name = chars_of(n.as_str());
                if eq_chars(&name, &col_c) {
                    col = None;
                } else if eq_chars(&name, &row) && in_ds {
                    let id = row_id;
                    let url = row_url;
                    row_id = None;
                    row_url = None;
                    match (id, url) {
                        (Some(a), Some(b)) => {
                            let ghost before = crate::strmap::entry_views(rows@);
                            rows.push((string_of(&a), string_of(&b)));
                            assert(crate::strmap::entry_views(rows@) =~= before.push((a@, b@)));
                        },
                        _ => {},
                    }
                } else if eq_chars(&name, &dataset) {
                    in_ds = false;
                }
            },
            XmlEvent::Other => {},
        }
        i += 1;
    }
    assert(evs.take(events@.len() as int) =~= evs);
    let mut map = StrMap::new();
    let mut k: usize = 0;
    let ghost rv = crate::strmap::entry_views(rows@);
    assert(rv.take(0) =~= Seq::<(Seq<char>, Seq<char>)>::empty());
    assert(map_of(rv.take(0)) =~= Map::<Seq<char>, Seq<char>>::empty());
    while k < rows.len()
        invariant
            k <= rows.len(),
            rv == crate::strmap::entry_views(rows@),
            map@ == map_of(rv.take(k as int)),
        decreases rows.len() - k,
    {
        assert(rv.take(k + 1) =~= rv.take(k as int).push(rv[k as int]));
        let e = &rows[k];
        map.insert(e.0.clone(), e.1.clone());
        proof {
            crate::strmap::lemma_map_of_push(rv.take(k as int), rv[k as int]);
        }
        k += 1;
    }
    assert(rv.take(rows@.len() as int) =~= rv);
    let msg = match failure {
        None => None,
        Some(f) => {
            let bytes = content.as_bytes();
            let line = newlines_before(bytes, f.byte_pos) + 1;
            let m1 = concat(&lit("XML 파싱 오류 (라인 "), &decimal_of(line));
            let m2 = concat(&m1, &lit(" 부근, 위치 "));
            let m3 = concat(&m2, &decimal_of(f.byte_pos as u128));
            let m4 = concat(&m3, &lit("): "));
            let m5 = concat(&m4, &chars_of(f.message.as_str()));
            Some(string_of(&m5))
        },
    };
    (map, msg)
}

// ───────────────────────── combo calls ─────────────────────────

/// From index `i` at parenthesis depth `depth`, the index of the `)` that
/// brings the depth to zero, or the end of the script.
pub open spec fn close_scan(s: Seq<char>, i: int, depth: int) -> int
    decreases s.len() - i,
{
    if i < 0 || i >= s.len() {
        s.len() as int
    } else {
        let d = if s[i] == '(' {
            depth + 1
        } else if s[i] == ')' {
            depth - 1
        } else {
            depth
        };
        if d == 0 {
            i
        } else {
            close_scan(s, i + 1, d)
        }
    }
}

pub proof fn lemma_close_scan_range(s: Seq<char>, i: int, depth: int)
    requires
        0 <= i,
    ensures
        i <= s.len() ==> i <= close_scan(s, i, depth) <= s.len(),
        i > s.len() ==> close_scan(s, i, depth) == s.len(),
    decreases s.len() - i,
{
    if i < s.len() {
        let d = if s[i] == '(' {
            depth + 1
        } else if s[i] == ')' {
            depth - 1
        } else {
            depth
        };
        if d != 0 {
            lemma_close_scan_range(s, i + 1, d);
        }
    }
}

/// The quoted second elements of the arrays that `ms` matched in `args`.
pub open spec fn array_params(args: Seq<char>, ms: Seq<MatchSpans>) -> Seq<Seq<char>>
    decreases ms.len(),
{
    if ms.len() == 0 {
        Seq::empty()
    } else {
        let prev = array_params(args, ms.drop_last());
        match quoted_body(args, ms.last()) {
            Some(t) => prev.push(t),
            None => prev,
        }
    }
}

/// The parameters a combo call's arguments give: the second element of
/// each `[x, "p"]` array when the arguments start with `[`, else the first
/// quoted argument after a comma.
pub open spec fn params_of(args: Seq<char>) -> Seq<Seq<char>> {
    if starts_with(args, "["@) {
        array_params(args, all_matches(ARRAY_SECOND_RE@, args))
    } else {
        let ms = all_matches(SECOND_ARG_STR_RE@, args);
        if ms.len() > 0 {
            match quoted_body(args, ms[0]) {
                Some(t) => seq![t],
                None => Seq::empty(),
            }
        } else {
            Seq::empty()
        }
    }
}

/// The combo parameters of a script from index `pos` on: find the next
/// combo call, take its arguments up to the matching `)`, and go on after it.
pub open spec fn combo_params_from(script: Seq<char>, pos: int) -> Seq<Seq<char>>
    decreases script.len() + 1 - pos,
{
    if pos < 0 || pos >= script.len() {
        Seq::empty()
    } else {
        let ms = all_matches(COMBO_FN_RE@, script.skip(pos));
        if ms.len() == 0 {
            Seq::empty()
        } else {
            let p1 = pos + span_hi(ms[0][0]);
            let args_end = close_scan(script, p1, 1);
            proof {
                lemma_close_scan_range(script, p1, 1);
            }
            params_of(trim(script.subrange(p1, args_end))) + combo_params_from(script, args_end + 1)
        }
    }
}

/// Combo parameters of all scripts, in order.
pub open spec fn script_params(ss: Seq<Seq<char>>) -> Seq<Seq<char>>
    decreases ss.len(),
{
    if ss.len() == 0 {
        Seq::empty()
    } else {
        script_params(ss.drop_last()) + combo_params_from(ss.last(), 0)
    }
}

/// A parameter up to its first `|`, trimmed.
pub open spec fn actual_param(p: Seq<char>) -> Seq<char> {
    trim(before_char(p, '|'))
}

/// The non-empty actual parameters, in order.
pub open spec fn actual_params(ps: Seq<Seq<char>>) -> Seq<Seq<char>>
    decreases ps.len(),
{
    if ps.len() == 0 {
        Seq::empty()
    } else {
        let prev = actual_params(ps.drop_last());
        if actual_param(ps.last()).len() > 0 {
            prev.push(actual_param(ps.last()))
        } else {
            prev
        }
    }
}

/// Characters other than letters and digits replaced by `_`.
pub open spec fn safe_param(p: Seq<char>) -> Seq<char> {
    p.map_values(|c: char| if alphanumeric(c) { c } else { '_' })
}

/// The combo row of the `n`-th (1-based) parameter `p` of a screen.
pub open spec fn combo_row(xfdl_path: Seq<char>, xfdl_name: Seq<char>, n: nat, p: Seq<char>) -> (Seq<char>, Seq<char>, Seq<char>, Seq<char>, bool) {
    (xfdl_name + ".combo_"@ + decimal(n) + "_"@ + safe_param(p), xfdl_path, xfdl_name, p, p.len() <= 9)
}

/// The combo rows of the parameters `raw` (as the scripts gave them): one
/// per non-empty parameter, numbered from 1.
pub open spec fn rows_of_params(raw: Seq<Seq<char>>, xfdl_path: Seq<char>, xfdl_name: Seq<char>) -> Seq<(Seq<char>, Seq<char>, Seq<char>, Seq<char>, bool)> {
    let ps = actual_params(raw);
    Seq::new(ps.len(), |i: int| combo_row(xfdl_path, xfdl_name, (i + 1) as nat, ps[i]))
}

/// The combo rows of an XFDL text: one per non-empty parameter, numbered
/// from 1; at most 9 characters marks a common code.
pub open spec fn combo_rows(content: Seq<char>, xfdl_path: Seq<char>, xfdl_name: Seq<char>) -> Seq<(Seq<char>, Seq<char>, Seq<char>, Seq<char>, bool)> {
    rows_of_params(script_params(scripts(content)), xfdl_path, xfdl_name)
}

fn push_array_params(args: &Vec<char>, out: &mut Vec<Vec<char>>)
    ensures
        views(final(out)@) == views(old(out)@) + array_params(args@, all_matches(ARRAY_SECOND_RE@, args@)),
{
    let ms = find_all(ARRAY_SECOND_RE, args);
    push_array_params_from_matches(args, &ms, out)
}

/// Appends the quoted second elements of the arrays that `ms` matched in
/// `args`.
pub fn push_array_params_from_matches(args: &Vec<char>, ms: &Vec<Vec<Option<(usize, usize)>>>, out: &mut Vec<Vec<char>>)
    requires
        well_formed_matches(ms@.map_values(|m: Vec<Option<(usize, usize)>>| m@), args@.len()),
    ensures
        views(final(out)@) == views(old(out)@) + array_params(args@, ms@.map_values(|m: Vec<Option<(usize, usize)>>| m@)),
{
    let ghost start = views(out@);
    let ghost all = ms@.map_values(|m: Vec<Option<(usize, usize)>>| m@);
    let mut i: usize = 0;
    assert(all.take(0) =~= Seq::<MatchSpans>::empty());
    assert(views(out@) =~= start + Seq::<Seq<char>>::empty());
    while i < ms.len()
        invariant
            i <= ms.len(),
            ms@.map_values(|m: Vec<Option<(usize, usize)>>| m@) == all,
            well_formed_matches(all, args@.len()),
            views(out@) == start + array_params(args@, all.take(i as int)),
        decreases ms.len() - i,
    {
        assert(all.take(i + 1).drop_last() =~= all.take(i as int));
        assert(all.take(i + 1).last() == ms@[i as int]@);
        let ghost before = views(out@);
        match quoted_body_at(args, ms, i) {
            Some(t) => {
                out.push(t);
                assert(views(out@) =~= before.push(t@));
            },
            None => {},
        }
        assert(views(out@) =~= start + array_params(args@, all.take(i + 1)));
        i += 1;
    }
    assert(all.take(ms@.len() as int) =~= all);
}

fn push_second_arg_param(args: &Vec<char>, out: &mut Vec<Vec<char>>)
    ensures
        views(final(out)@) == views(old(out)@) + ({
            let ms = all_matches(SECOND_ARG_STR_RE@, args@);
            if ms.len() > 0 {
                match quoted_body(args@, ms[0]) {
                    Some(t) => seq![t],
                    None => Seq::empty(),
                }
            } else {
                Seq::empty()
            }
        }),
{
    let ms = find_all(SECOND_ARG_STR_RE, args);
    push_second_arg_param_from_matches(args, &ms, out)
}

/// Appends the quoted body of the first string argument after a comma
/// that `ms` matched in `args`, if any.
pub fn push_second_arg_param_from_matches(args: &Vec<char>, ms: &Vec<Vec<Option<(usize, usize)>>>, out: &mut Vec<Vec<char>>)
    requires
        well_formed_matches(ms@.map_values(|m: Vec<Option<(usize, usize)>>| m@), args@.len()),
    ensures
        views(final(out)@) == views(old(out)@) + ({
            let ms = ms@.map_values(|m: Vec<Option<(usize, usize)>>| m@);
            if ms.len() > 0 {
                match quoted_body(args@, ms[0]) {
                    Some(t) => seq![t],
                    None => Seq::empty(),
                }
            } else {
                Seq::empty()
            }
        }),
{
    let ghost start = views(out@);
    if ms.len() > 0 {
        match quoted_body_at(args, ms, 0) {
            Some(t) => {
                out.push(t);
                assert(views(out@) =~= start.push(t@));
            },
            None => {
                assert(views(out@) =~= start + Seq::<Seq<char>>::empty());
            },
        }
    } else {
        assert(views(out@) =~= start + Seq::<Seq<char>>::empty());
    }
}

fn push_params_of(args: &Vec<char>, out: &mut Vec<Vec<char>>)
    ensures
        views(final(out)@) == views(old(out)@) + params_of(args@),
{
    if starts_with_chars(args, &lit("[")) {
        push_array_params(args, out);
    } else {
        push_second_arg_param(args, out);
    }
}

/// The arguments of a call whose text starts at `p1` (just after its
/// opening parenthesis): the trimmed text up to the `)` that closes the
/// call, and that parenthesis's index (the text's length when unclosed).
pub fn call_args_at(script: &Vec<char>, p1: usize) -> (r: (Vec<char>, usize))
    requires
        p1 <= script.len(),
    ensures
        r.1 == close_scan(script@, p1 as int, 1),
        p1 <= r.1 <= script.len(),
        r.0@ == trim(script@.subrange(p1 as int, r.1 as int)),
{
    let mut depth: u128 = 1;
    let mut i = p1;
    proof {
        lemma_close_scan_range(script@, p1 as int, 1);
    }
    while i < script.len() && depth > 0
        invariant
            p1 <= i <= script.len(),
            depth <= i - p1 + 1,
            depth > 0 ==> close_scan(script@, i as int, depth as int) == close_scan(script@, p1 as int, 1),
            depth == 0 ==> close_scan(script@, p1 as int, 1) == i - 1,
        decreases script.len() - i,
    {
        let c = script[i];
        if c == '(' {
            depth += 1;
        } else if c == ')' {
            depth -= 1;
        }
        i += 1;
    }
    let args_end = if depth == 0 {
        i - 1
    } else {
        script.len()
    };
    assert(args_end == close_scan(script@, p1 as int, 1));
    let args = trim_chars(&slice(script, p1, args_end));
    (args, args_end)
}

fn push_combo_params(script: &Vec<char>, out: &mut Vec<Vec<char>>)
    ensures
        views(final(out)@) == views(old(out)@) + combo_params_from(script@, 0),
{
    let ghost start = views(out@);
    let mut pos: usize = 0;
    assert(views(out@) =~= start + Seq::<Seq<char>>::empty());
    while pos < script.len()
        invariant
            pos <= script.len() + 1,
            start == views(old(out)@),
            views(out@) + combo_params_from(script@, pos as int) == start + combo_params_from(script@, 0),
        decreases script.len() + 1 - pos,
    {
        let rest = slice(script, pos, script.len());
        assert(rest@ =~= script@.skip(pos as int));
        let ms = find_all(COMBO_FN_RE, &rest);
        if ms.len() == 0 {
            assert(all_matches(COMBO_FN_RE@, rest@).len() == 0);
            assert(combo_params_from(script@, pos as int) =~= Seq::<Seq<char>>::empty());
            assert(views(out@) =~= views(out@) + Seq::<Seq<char>>::empty());
            return;
        }
        let ghost all = all_matches(COMBO_FN_RE@, rest@);
        assert(all[0] == ms@[0]@);
        assert(all[0].len() > 0 && all[0][0] is Some);
        let fn_end = match ms[0][0] {
            Some(sp) => sp.1,
            None => 0,
        };
        assert(fn_end == span_hi(all[0][0]));
        assert(fn_end <= rest@.len());
        let p1 = pos + fn_end;
        let (args, args_end) = call_args_at(script, p1);
        let ghost before = views(out@);
        push_params_of(&args, out);
        proof {
            assert(combo_params_from(script@, pos as int) == params_of(args@) + combo_params_from(script@, args_end + 1));
            assert(views(out@) + combo_params_from(script@, args_end + 1) =~= before + combo_params_from(script@, pos as int));
        }
        if args_end == script.len() {
            assert(combo_params_from(script@, args_end + 1) =~= Seq::<Seq<char>>::empty());
            assert(views(out@) + Seq::<Seq<char>>::empty() =~= views(out@));
            return;
        }
        pos = args_end + 1;
    }
    assert(combo_params_from(script@, pos as int) =~= Seq::<Seq<char>>::empty());
    assert(views(out@) + Seq::<Seq<char>>::empty() =~= views(out@));
}

fn safe_param_of(p: &Vec<char>) -> (r: Vec<char>)
    ensures
        r@ == safe_param(p@),
{
    let mut r: Vec<char> = Vec::new();
    let mut i: usize = 0;
    while i < p.len()
        invariant
            i <= p.len(),
            r@ == safe_param(p@.take(i as int)),
        decreases p.len() - i,
    {
        let c = if is_alphanumeric_char(p[i]) {
            p[i]
        } else {
            '_'
        };
        r.push(c);
        assert(r@ =~= safe_param(p@.take(i + 1)));
        i += 1;
    }
    assert(p@.take(p@.len() as int) =~= p@);
    r
}

/// The `getComCodeCombo` / `getComCodeComboSync` / `getGridCodeCombo` /
/// `getGridCodeComboSync` calls of the scripts: one row per parameter (the
/// text before its first `|`, trimmed; empty ones skipped), numbered from 1
/// in the row id; a parameter of at most 9 characters is a common code.
pub fn extract_combo_calls(content: &str, xfdl_path: &str, xfdl_name: &str) -> (r: Result<Vec<ExtractedCombo>, String>)
    ensures
        r matches Ok(v) && v@.map_values(|c: ExtractedCombo| c@) == combo_rows(content@, xfdl_path@, xfdl_name@),
{
    let ss = cdata_scripts(&chars_of(content));
    let ghost sv = views(ss@);
    let mut raw: Vec<Vec<char>> = Vec::new();
    let mut i: usize = 0;
    assert(sv.take(0) =~= Seq::<Seq<char>>::empty());
    assert(views(raw@) =~= Seq::<Seq<char>>::empty());
    while i < ss.len()
        invariant
            i <= ss.len(),
            sv == views(ss@),
            views(raw@) == script_params(sv.take(i as int)),
        decreases ss.len() - i,
    {
        assert(sv.take(i + 1).drop_last() =~= sv.take(i as int));
        assert(sv.take(i + 1).last() == ss@[i as int]@);
        push_combo_params(&ss[i], &mut raw);
        i += 1;
    }
    assert(sv.take(ss@.len() as int) =~= sv);
    Ok(combos_from_params(&raw, xfdl_path, xfdl_name))
}

/// The combo rows of the raw parameters `raw`: each parameter's text before
/// its first `|`, trimmed, empty ones skipped, numbered from 1.
pub fn combos_from_params(raw: &Vec<Vec<char>>, xfdl_path: &str, xfdl_name: &str) -> (r: Vec<ExtractedCombo>)
    ensures
        r@.map_values(|c: ExtractedCombo| c@) == rows_of_params(views(raw@), xfdl_path@, xfdl_name@),
{
    let ghost rv = views(raw@);
    let ghost ps = actual_params(rv);
    let name = chars_of(xfdl_name);
    let path = string_of(&chars_of(xfdl_path));
    let prefix = concat(&name, &lit(".combo_"));
    let mut combos: Vec<ExtractedCombo> = Vec::new();
    let mut count: u128 = 0;
    let mut k: usize = 0;
    assert(rv.take(0) =~= Seq::<Seq<char>>::empty());
    while k < raw.len()
        invariant
            k <= raw.len(),
            rv == views(raw@),
            name@ == xfdl_name@,
            path@ == xfdl_path@,
            prefix@ == xfdl_name@ + ".combo_"@,
            count == combos.len(),
            combos@.map_values(|c: ExtractedCombo| c@) == Seq::new(
                actual_params(rv.take(k as int)).len(),
                |j: int| combo_row(xfdl_path@, xfdl_name@, (j + 1) as nat, actual_params(rv.take(k as int))[j]),
            ),
        decreases raw.len() - k,
    {
        assert(rv.take(k + 1).drop_last() =~= rv.take(k as int));
        assert(rv.take(k + 1).last() == raw@[k as int]@);
        let actual = trim_chars(&before_char_of(&raw[k], '|'));
        let ghost prev = actual_params(rv.take(k as int));
        if actual.len() > 0 {
            count = count + 1;
            let n = decimal_of(count);
            let id1 = concat(&prefix, &n);
            let id2 = concat(&id1, &lit("_"));
            let id3 = concat(&id2, &safe_param_of(&actual));
            let is_common = actual.len() <= 9;
            let c = ExtractedCombo {
                result_id: string_of(&id3),
                xfdl_path: path.clone(),
                xfdl_name: string_of(&name),
                param: string_of(&actual),
                is_common_code: is_common,
            };
            let ghost before = combos@.map_values(|c: ExtractedCombo| c@);
            combos.push(c);
            assert(combos@.map_values(|c: ExtractedCombo| c@) =~= before.push(c@));
            assert(c@ == combo_row(xfdl_path@, xfdl_name@, (prev.len() + 1) as nat, actual@));
        }
        assert(combos@.map_values(|c: ExtractedCombo| c@) =~= Seq::new(
            actual_params(rv.take(k + 1)).len(),
            |j: int| combo_row(xfdl_path@, xfdl_name@, (j + 1) as nat, actual_params(rv.take(k + 1))[j]),
        ));
        k += 1;
    }
    assert(rv.take(raw@.len() as int) =~= rv);
    combos
}

// ───────────────────────── a whole screen ─────────────────────────

/// The action row an `actionSubmit` call gives.
pub open spec fn action_row(
    call: (Seq<char>, bool),
    xfdl_path: Seq<char>,
    xfdl_name: Seq<char>,
    urls: Map<Seq<char>, Seq<char>>,
    err: Option<Seq<char>>,
) -> (Seq<char>, Seq<char>, Seq<char>, Seq<char>, Option<Seq<char>>, bool, Option<Seq<char>>) {
    (
        xfdl_name + (if call.1 { "."@ } else { ".??"@ }) + call.0,
        call.0,
        xfdl_path,
        xfdl_name,
        if urls.contains_key(call.0) {
            Some(urls[call.0])
        } else {
            None
        },
        !call.1,
        err,
    )
}

/// The action rows of an XFDL text and the dataset's XML error, if any.
pub open spec fn xfdl_actions(content: Seq<char>, bytes: Seq<u8>, xfdl_path: Seq<char>, xfdl_name: Seq<char>) -> (
    Seq<(Seq<char>, Seq<char>, Seq<char>, Seq<char>, Option<Seq<char>>, bool, Option<Seq<char>>)>,
    Option<Seq<char>>,
) {
    let (urls, err) = dsaction_result(content, bytes);
    let calls = action_calls(content);
    (Seq::new(calls.len(), |i: int| action_row(calls[i], xfdl_path, xfdl_name, urls, err)), err)
}

/// The computation of `parse_xfdl` on the text of a screen file: each
/// `actionSubmit` call (once per id) with the URL the `dsAction` dataset
/// gives it; a variable first argument marks the row for a manual check.
pub fn parse_xfdl_content(content: &str, xfdl_path: &str, xfdl_name: &str) -> (r: Result<(Vec<ExtractedAction>, Option<String>), String>)
    ensures
        r matches Ok(v) && (v.0@.map_values(|a: ExtractedAction| a@), opt_str(v.1)) == xfdl_actions(
            content@,
            content.spec_bytes(),
            xfdl_path@,
            xfdl_name@,
        ),
{
    let (url_map, parse_err) = extract_dsaction_urls(content);
    let calls = match extract_action_calls(content) {
        Ok(c) => c,
        Err(e) => {
            return Err(e);
        },
    };
    let ghost cv = calls_view(calls@);
    let ghost rows = xfdl_actions(content@, content.spec_bytes(), xfdl_path@, xfdl_name@).0;
    let name = chars_of(xfdl_name);
    let path = string_of(&chars_of(xfdl_path));
    let mut results: Vec<ExtractedAction> = Vec::new();
    let mut i: usize = 0;
    while i < calls.len()
        invariant
            i <= calls.len(),
            cv == calls_view(calls@),
            cv == action_calls(content@),
            name@ == xfdl_name@,
            path@ == xfdl_path@,
            (url_map@, opt_str(parse_err)) == dsaction_result(content@, content.spec_bytes()),
            rows == xfdl_actions(content@, content.spec_bytes(), xfdl_path@, xfdl_name@).0,
            results@.map_values(|a: ExtractedAction| a@) == rows.take(i as int),
        decreases calls.len() - i,
    {
        let c = &calls[i];
        assert(cv[i as int] == (c.0@, c.1));
        let url = url_map.get(&c.0);
        let sep = if c.1 {
            lit(".")
        } else {
            lit(".??")
        };
        let id1 = concat(&name, &sep);
        let rid = concat(&id1, &chars_of(c.0.as_str()));
        let err = match &parse_err {
            Some(e) => Some(e.clone()),
            None => None,
        };
        let a = ExtractedAction {
            result_id: string_of(&rid),
            action_id: c.0.clone(),
            xfdl_path: path.clone(),
            xfdl_name: string_of(&name),
            url,
            is_manual: !c.1,
            xml_parse_err: err,
        };
        let ghost before = results@.map_values(|a: ExtractedAction| a@);
        results.push(a);
        assert(results@.map_values(|a: ExtractedAction| a@) =~= before.push(a@));
        assert(rows.take(i + 1) =~= rows.take(i as int).push(rows[i as int]));
        i += 1;
    }
    assert(rows.take(calls@.len() as int) =~= rows);
    Ok((results, parse_err))
}

} // verus!
