//! A map from strings to strings in which a later insertion of a key
//! replaces the earlier one (as `HashMap::insert` does).
use vstd::prelude::*;

verus! {

/// The value the latest entry with key `k` gives, if any.
pub open spec fn latest(es: Seq<(Seq<char>, Seq<char>)>, k: Seq<char>) -> Option<Seq<char>>
    decreases es.len(),
{
    if es.len() == 0 {
        None
    } else if es.last().0 == k {
        Some(es.last().1)
    } else {
        latest(es.drop_last(), k)
    }
}

/// The map that inserting the entries of `es` in order builds.
pub open spec fn map_of(es: Seq<(Seq<char>, Seq<char>)>) -> Map<Seq<char>, Seq<char>> {
    Map::new(|k: Seq<char>| latest(es, k) is Some, |k: Seq<char>| latest(es, k)->0)
}

pub open spec fn entry_views(es: Seq<(String, String)>) -> Seq<(Seq<char>, Seq<char>)> {
    es.map_values(|e: (String, String)| (e.0@, e.1@))
}

/// Inserting one more entry updates the map as `Map::insert` does.
pub proof fn lemma_map_of_push(es: Seq<(Seq<char>, Seq<char>)>, e: (Seq<char>, Seq<char>))
    ensures
        map_of(es.push(e)) == map_of(es).insert(e.0, e.1),
{
    assert(es.push(e).drop_last() =~= es);
    assert(map_of(es.push(e)) =~= map_of(es).insert(e.0, e.1));
}

#[derive(Debug, Clone)]
pub struct StrMap {
    entries: Vec<(String, String)>,
}

impl View for StrMap {
    type V = Map<Seq<char>, Seq<char>>;

    closed spec fn view(&self) -> Map<Seq<char>, Seq<char>> {
        map_of(entry_views(self.entries@))
    }
}

impl StrMap {
    pub fn new() -> (r: StrMap)
        ensures
            r@ == Map::<Seq<char>, Seq<char>>::empty(),
    {
        let r = StrMap { entries: Vec::new() };
        assert(r@ =~= Map::<Seq<char>, Seq<char>>::empty());
        r
    }

    /// Maps `k` to `v`, replacing what `k` mapped to before.
    pub fn insert(&mut self, k: String, v: String)
        ensures
            final(self)@ == old(self)@.insert(k@, v@),
    {
        let ghost old_es = entry_views(self.entries@);
        self.entries.push((k, v));
        proof {
            let es = entry_views(self.entries@);
            assert(es.drop_last() =~= old_es);
            assert(es.last() == (k@, v@));
        }
        assert(self@ =~= old(self)@.insert(k@, v@));
    }

    /// What `k` maps to.
    pub fn get(&self, k: &String) -> (r: Option<String>)
        ensures
            r is Some <==> self@.contains_key(k@),
            r matches Some(v) ==> v@ == self@[k@],
    {
        let mut i = self.entries.len();
        let ghost es = entry_views(self.entries@);
        assert(es.take(i as int) =~= es);
        while i > 0
            invariant
                i <= self.entries.len(),
                es == entry_views(self.entries@),
                latest(es, k@) == latest(es.take(i as int), k@),
            decreases i,
        {
            let e = &self.entries[i - 1];
            proof {
                assert(es.take(i as int).drop_last() =~= es.take(i - 1));
                assert(es.take(i as int).last() == (e.0@, e.1@));
            }
            if e.0 == *k {
                return Some(e.1.clone());
            }
            i -= 1;
        }
        None
    }

    /// The entries, in the order they were inserted (later ones win).
    pub fn entries(&self) -> (r: &Vec<(String, String)>)
        ensures
            self@ == map_of(entry_views(r@)),
    {
        &self.entries
    }
}

/// A read gives back what the last write of its key wrote; the other keys
/// read as before.
pub proof fn law_read_after_write(m: Map<Seq<char>, Seq<char>>, k: Seq<char>, v: Seq<char>, other: Seq<char>)
    ensures
        m.insert(k, v).contains_key(k),
        m.insert(k, v)[k] == v,
        other != k ==> m.insert(k, v).contains_key(other) == m.contains_key(other),
        other != k && m.contains_key(other) ==> m.insert(k, v)[other] == m[other],
{
}

} // verus!
