//! `default_typedef.xml`: the `<Service prefixid=".." url="./..">` entries,
//! as a map from prefix id to the service's path.
use vstd::prelude::*;

use crate::strmap::{map_of, StrMap};
use crate::text::{chars_of, lit, starts_with, starts_with_chars, string_cat, string_of};
use crate::xml::{attrs_view, events_view, failure_view, XmlFailure, last_attr, xml_parse, xml_read_events, XmlAttr, XmlEvent, XmlEventView};

verus! {

/// `s.trim_start_matches(p)` for a non-empty pattern: every leading copy of
/// `p` removed.
pub open spec fn strip_prefix_rep(s: Seq<char>, p: Seq<char>) -> Seq<char>
    decreases s.len(),
{
    if p.len() > 0 && starts_with(s, p) {
        strip_prefix_rep(s.skip(p.len() as int), p)
    } else {
        s
    }
}

/// The bytes of `prefixid`.
pub open spec fn key_prefixid() -> Seq<u8> {
    seq![112u8, 114u8, 101u8, 102u8, 105u8, 120u8, 105u8, 100u8]
}

/// The bytes of `url`.
pub open spec fn key_url() -> Seq<u8> {
    seq![117u8, 114u8, 108u8]
}

/// The last `url` attribute whose value starts with `./`.
pub open spec fn service_url_attr(attrs: Seq<(Seq<u8>, Seq<char>)>) -> Option<Seq<char>>
    decreases attrs.len(),
{
    if attrs.len() == 0 {
        None
    } else if attrs.last().0 == key_url() && starts_with(attrs.last().1, "./"@) {
        Some(attrs.last().1)
    } else {
        service_url_attr(attrs.drop_last())
    }
}

/// The entry a `Service` tag gives: prefix id and the URL without `./`.
pub open spec fn service_entry(name: Seq<char>, attrs: Seq<(Seq<u8>, Seq<char>)>) -> Option<(Seq<char>, Seq<char>)> {
    if name == "Service"@ {
        match (last_attr(attrs, key_prefixid()), service_url_attr(attrs)) {
            (Some(pid), Some(u)) => Some((pid, strip_prefix_rep(u, "./"@))),
            _ => None,
        }
    } else {
        None
    }
}

/// Entries of the `Service` start and empty tags, in document order.
pub open spec fn typedef_entries(evs: Seq<XmlEventView>) -> Seq<(Seq<char>, Seq<char>)>
    decreases evs.len(),
{
    if evs.len() == 0 {
        Seq::empty()
    } else {
        let prev = typedef_entries(evs.drop_last());
        let e = match evs.last() {
            XmlEventView::Start(t) => service_entry(t.0, t.1),
            XmlEventView::Empty(t) => service_entry(t.0, t.1),
            _ => None,
        };
        match e {
            Some(x) => prev.push(x),
            None => prev,
        }
    }
}

/// The prefix-id map that the events read from a typedef document give,
/// or the XML error met.
pub open spec fn typedef_of_events(evs: Seq<XmlEventView>, err: Option<(usize, Seq<char>)>) -> Result<Map<Seq<char>, Seq<char>>, Seq<char>> {
    match err {
        Some(f) => Err("XML 파싱 오류: "@ + f.1),
        None => Ok(map_of(typedef_entries(evs))),
    }
}

/// The prefix-id map of a typedef document, or the XML error.
pub open spec fn typedef_result(content: Seq<char>) -> Result<Map<Seq<char>, Seq<char>>, Seq<char>> {
    let (evs, err) = xml_parse(content);
    typedef_of_events(evs, err)
}

fn prefixid_key() -> (r: Vec<u8>)
    ensures
        r@ == key_prefixid(),
{
    let r = vec![112u8, 114u8, 101u8, 102u8, 105u8, 120u8, 105u8, 100u8];
    assert(r@ =~= key_prefixid());
    r
}

fn url_key_bytes() -> (r: Vec<u8>)
    ensures
        r@ == key_url(),
{
    let r = vec![117u8, 114u8, 108u8];
    assert(r@ =~= key_url());
    r
}

fn strip_prefix_rep_of(s: &Vec<char>, p: &Vec<char>) -> (r: Vec<char>)
    requires
        p.len() > 0,
    ensures
        r@ == strip_prefix_rep(s@, p@),
{
    let mut cur = crate::text::copy_chars(s);
    while starts_with_chars(&cur, p)
        invariant
            p.len() > 0,
            strip_prefix_rep(cur@, p@) == strip_prefix_rep(s@, p@),
        decreases cur.len(),
    {
        let ghost prev = cur@;
        cur = crate::text::slice(&cur, p.len(), cur.len());
        assert(cur@ =~= prev.skip(p.len() as int));
    }
    cur
}

fn service_entry_of(name: &String, attrs: &Vec<XmlAttr>) -> (r: Option<(String, String)>)
    ensures
        match r {
            Some(e) => service_entry(name@, attrs_view(attrs@)) == Some((e.0@, e.1@)),
            None => service_entry(name@, attrs_view(attrs@)) is None,
        },
{
    if !crate::text::eq_chars(&chars_of(name.as_str()), &lit("Service")) {
        return None;
    }
    let pk = prefixid_key();
    let uk = url_key_bytes();
    let dot_slash = lit("./");
    proof {
        reveal_strlit("./");
    }
    let ghost av = attrs_view(attrs@);
    let mut pid: Option<String> = None;
    let mut url: Option<String> = None;
    let mut i: usize = 0;
    while i < attrs.len()
        invariant
            i <= attrs.len(),
            av == attrs_view(attrs@),
            pk@ == key_prefixid(),
            uk@ == key_url(),
            dot_slash@ == "./"@,
            crate::text::opt_str(pid) == last_attr(av.take(i as int), key_prefixid()),
            crate::text::opt_str(url) == service_url_attr(av.take(i as int)),
        decreases attrs.len() - i,
    {
        let a = &attrs[i];
        assert(av.take(i + 1).drop_last() =~= av.take(i as int));
        assert(av.take(i + 1).last() == (a.key@, a.value@));
        if crate::xml::bytes_eq(&a.key, pk.as_slice()) {
            pid = Some(a.value.clone());
        }
        if crate::xml::bytes_eq(&a.key, uk.as_slice()) {
            if starts_with_chars(&chars_of(a.value.as_str()), &dot_slash) {
                url = Some(a.value.clone());
            }
        }
        i += 1;
    }
    assert(av.take(attrs@.len() as int) =~= av);
    match (pid, url) {
        (Some(p), Some(u)) => {
            let cleaned = strip_prefix_rep_of(&chars_of(u.as_str()), &dot_slash);
            Some((p, string_of(&cleaned)))
        },
        _ => None,
    }
}

/// The `Service` entries of the events read from a `default_typedef.xml`
/// text (and the reader's error, if any) as a map from `prefixid` to the
/// `url` without its leading `./`: only URLs that start with `./` count, and
/// a later entry replaces an earlier one.
pub fn typedef_from_events(events: &Vec<XmlEvent>, failure: &Option<XmlFailure>) -> (r: Result<StrMap, String>)
    ensures
        match (r, typedef_of_events(events_view(events@), failure_view(*failure))) {
            (Ok(m), Ok(s)) => m@ == s,
            (Err(e), Err(s)) => e@ == s,
            _ => false,
        },
{
    match failure {
        Some(f) => {
            return Err(string_cat(&lit("XML 파싱 오류: "), &chars_of(f.message.as_str())));
        },
        None => {},
    }
    let ghost evs = events_view(events@);
    let mut map = StrMap::new();
    let mut i: usize = 0;
    assert(evs.take(0) =~= Seq::<XmlEventView>::empty());
    assert(map_of(typedef_entries(evs.take(0))) =~= Map::<Seq<char>, Seq<char>>::empty());
    while i < events.len()
        invariant
            i <= events.len(),
            evs == events_view(events@),
            map@ == map_of(typedef_entries(evs.take(i as int))),
        decreases events.len() - i,
    {
        assert(evs.take(i + 1).drop_last() =~= evs.take(i as int));
        assert(evs.take(i + 1).last() == crate::xml::event_view(events@[i as int]));
        let e = match &events[i] {
            XmlEvent::Start(t) => service_entry_of(&t.name, &t.attrs),
            XmlEvent::Empty(t) => service_entry_of(&t.name, &t.attrs),
            _ => None,
        };
        match e {
            Some((k, v)) => {
                let ghost before = typedef_entries(evs.take(i as int));
                map.insert(k, v);
                proof {
                    crate::strmap::lemma_map_of_push(before, (k@, v@));
                }
            },
            None => {},
        }
        i += 1;
    }
    assert(evs.take(events@.len() as int) =~= evs);
    Ok(map)
}

/// Reads the `Service` entries of a `default_typedef.xml` text into a map
/// from `prefixid` to the `url` without its leading `./`.
pub fn parse_typedef_xml(content: &str) -> (r: Result<StrMap, String>)
    ensures
        match (r, typedef_result(content@)) {
            (Ok(m), Ok(s)) => m@ == s,
            (Err(e), Err(s)) => e@ == s,
            _ => false,
        },
{
    let (events, failure) = xml_read_events(content);
    typedef_from_events(&events, &failure)
}

} // verus!
