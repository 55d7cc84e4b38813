//! A string-keyed map of metadata fields, used where a
//! `HashMap<String, String>` would otherwise stand: pairs are kept in
//! insertion order in a `Vec`, and a later pair for a key overrides an
//! earlier one, as a later insert into a hash map would.
use vstd::prelude::*;
use crate::text::{string_eq, string_of};

verus! {

/// The map that a list of pairs denotes, later pairs overriding earlier.
pub open spec fn map_of(pairs: Seq<(Seq<char>, Seq<char>)>) -> Map<Seq<char>, Seq<char>>
    decreases pairs.len(),
{
    if pairs.len() == 0 {
        Map::empty()
    } else {
        map_of(pairs.drop_last()).insert(pairs.last().0, pairs.last().1)
    }
}

#[derive(Clone, Debug)]
pub struct FieldMap {
    pairs: Vec<(String, String)>,
}

/// Looking up a key that none of the pairs from `i` on holds reads the
/// pairs before `i`.
proof fn lemma_map_of_prefix(pairs: Seq<(Seq<char>, Seq<char>)>, i: int, k: Seq<char>)
    requires
        0 <= i <= pairs.len(),
        forall|j: int| i <= j < pairs.len() ==> (#[trigger] pairs[j]).0 != k,
    ensures
        map_of(pairs).dom().contains(k) == map_of(pairs.subrange(0, i)).dom().contains(k),
        map_of(pairs)[k] == map_of(pairs.subrange(0, i))[k],
    decreases pairs.len() - i,
{
    if i < pairs.len() {
        assert(pairs.drop_last() == pairs.subrange(0, pairs.len() - 1));
        assert(pairs.drop_last().subrange(0, i) == pairs.subrange(0, i));
        lemma_map_of_prefix(pairs.drop_last(), i, k);
    } else {
        assert(pairs.subrange(0, i) == pairs);
    }
}

impl FieldMap {
    pub closed spec fn pair_views(&self) -> Seq<(Seq<char>, Seq<char>)> {
        self.pairs@.map_values(|p: (String, String)| (p.0@, p.1@))
    }

    pub open spec fn view(&self) -> Map<Seq<char>, Seq<char>> {
        map_of(self.pair_views())
    }

    pub fn new() -> (r: Self)
        ensures
            r.view() == Map::<Seq<char>, Seq<char>>::empty(),
            r.pair_views().len() == 0,
    {
        FieldMap { pairs: Vec::new() }
    }

    /// Sets `key` to `value`.
    pub fn insert(&mut self, key: String, value: String)
        ensures
            final(self).view() == old(self).view().insert(key@, value@),
            final(self).pair_views() == old(self).pair_views().push((key@, value@)),
    {
        let ghost k = key@;
        let ghost v = value@;
        self.pairs.push((key, value));
        proof {
            assert(self.pair_views().drop_last() == old(self).pair_views());
        }
    }

    /// The value of `key`, if set.
    pub fn get(&self, key: &String) -> (r: Option<&String>)
        ensures
            match r {
                Some(v) => self.view().dom().contains(key@) && self.view()[key@] == v@,
                None => !self.view().dom().contains(key@),
            },
    {
        let mut i: usize = self.pairs.len();
        proof {
            assert(self.pair_views().subrange(0, i as int) == self.pair_views());
        }
        while i > 0
            invariant
                i <= self.pairs@.len(),
                forall|j: int|
                    i <= j < self.pairs@.len() ==> (#[trigger] self.pair_views()[j]).0 != key@,
            decreases i,
        {
            let p = &self.pairs[i - 1];
            if string_eq(&p.0, key) {
                proof {
                    let pv = self.pair_views();
                    lemma_map_of_prefix(pv, i as int, key@);
                    assert(pv.subrange(0, i as int).drop_last() == pv.subrange(0, i - 1));
                }
                return Some(&p.1);
            }
            i = i - 1;
        }
        proof {
            lemma_map_of_prefix(self.pair_views(), 0, key@);
            assert(self.pair_views().subrange(0, 0) == Seq::<(Seq<char>, Seq<char>)>::empty());
        }
        None
    }

    /// The value of the key spelled by `key`, if set.
    pub fn get_chars(&self, key: &[char]) -> (r: Option<&String>)
        ensures
            match r {
                Some(v) => self.view().dom().contains(key@) && self.view()[key@] == v@,
                None => !self.view().dom().contains(key@),
            },
    {
        let k = string_of(key);
        self.get(&k)
    }

    /// The pairs in insertion order.
    pub fn pairs(&self) -> (r: &Vec<(String, String)>)
        ensures
            r@.map_values(|p: (String, String)| (p.0@, p.1@)) == self.pair_views(),
    {
        &self.pairs
    }
}

} // verus!
