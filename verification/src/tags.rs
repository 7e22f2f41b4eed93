//! Tags: a mapping from tag name to tag value, both free-form strings.
//!
//! The pairs are held in a vector whose keys are pairwise distinct; the
//! mathematical model is the map from key to value, so nothing stated over it
//! can depend on the order of the pairs.
use vstd::prelude::*;

verus! {

/// The map described by a sequence of key-value pairs, later pairs winning.
pub open spec fn pairs_map(s: Seq<(String, String)>) -> Map<Seq<char>, Seq<char>>
    decreases s.len(),
{
    if s.len() == 0 {
        Map::empty()
    } else {
        pairs_map(s.drop_last()).insert(s.last().0@, s.last().1@)
    }
}

/// Pairwise distinct keys.
pub open spec fn wf_pairs(s: Seq<(String, String)>) -> bool {
    forall|i: int, j: int| 0 <= i < j < s.len() ==> s[i].0@ != s[j].0@
}

/// With distinct keys, the map holds exactly the pairs of the sequence.
pub proof fn lemma_pairs_map(s: Seq<(String, String)>)
    requires
        wf_pairs(s),
    ensures
        forall|i: int|
            0 <= i < s.len() ==> pairs_map(s).contains_key(#[trigger] s[i].0@) && pairs_map(s)[s[i].0@]
                == s[i].1@,
        forall|k: Seq<char>| #[trigger]
            pairs_map(s).contains_key(k) ==> exists|i: int| 0 <= i < s.len() && s[i].0@ == k,
    decreases s.len(),
{
    if s.len() > 0 {
        lemma_pairs_map(s.drop_last());
        assert forall|i: int|
            0 <= i < s.len() implies pairs_map(s).contains_key(#[trigger] s[i].0@) && pairs_map(s)[s[i].0@]
            == s[i].1@ by {
            if i < s.len() - 1 {
                assert(s[i] == s.drop_last()[i]);
                assert(s[i].0@ != s.last().0@);
            }
        }
        assert forall|k: Seq<char>| #[trigger]
            pairs_map(s).contains_key(k) implies exists|i: int|
            0 <= i < s.len() && s[i].0@ == k by {
            if k == s.last().0@ {
                assert(s[s.len() - 1].0@ == k);
            } else {
                assert(pairs_map(s.drop_last()).contains_key(k));
                let i = choose|i: int|
                    0 <= i < s.drop_last().len() && s.drop_last()[i].0@ == k;
                assert(s[i] == s.drop_last()[i]);
                assert(s[i].0@ == k);
            }
        }
    }
}

/// An element's tags.
pub struct Tags {
    pub pairs: Vec<(String, String)>,
}

impl View for Tags {
    type V = Map<Seq<char>, Seq<char>>;

    open spec fn view(&self) -> Map<Seq<char>, Seq<char>> {
        pairs_map(self.pairs@)
    }
}

/// Replacing the pair at a key's position rewrites that key's value in the
/// map.
proof fn lemma_pairs_map_update(s: Seq<(String, String)>, i: int, p: (String, String))
    requires
        wf_pairs(s),
        0 <= i < s.len(),
        s[i].0@ == p.0@,
    ensures
        pairs_map(s.update(i, p)) == pairs_map(s).insert(p.0@, p.1@),
    decreases s.len(),
{
    let t = s.update(i, p);
    if i == s.len() - 1 {
        assert(t.drop_last() =~= s.drop_last());
        assert(pairs_map(t) =~= pairs_map(s).insert(p.0@, p.1@));
    } else {
        assert(t.drop_last() =~= s.drop_last().update(i, p));
        lemma_pairs_map_update(s.drop_last(), i, p);
        assert(s.last().0@ != s[i].0@);
        assert(t.last() == s.last());
        assert(pairs_map(t) =~= pairs_map(s).insert(p.0@, p.1@));
    }
}

impl Tags {
    /// Keys are pairwise distinct.
    pub open spec fn wf(&self) -> bool {
        wf_pairs(self.pairs@)
    }

    /// An empty tag collection.
    pub fn new() -> (r: Tags)
        ensures
            r.wf(),
            r@ == Map::<Seq<char>, Seq<char>>::empty(),
    {
        Tags { pairs: Vec::new() }
    }

    /// The value under `key`, if any.
    pub fn get(&self, key: &String) -> (r: Option<&String>)
        requires
            self.wf(),
        ensures
            match r {
                Some(v) => self@.contains_key(key@) && v@ == self@[key@],
                None => !self@.contains_key(key@),
            },
    {
        proof {
            lemma_pairs_map(self.pairs@);
        }
        let mut i: usize = 0;
        while i < self.pairs.len()
            invariant
                0 <= i <= self.pairs@.len(),
                forall|j: int| 0 <= j < i ==> self.pairs@[j].0@ != key@,
            decreases self.pairs@.len() - i,
        {
            if self.pairs[i].0 == *key {
                return Some(&self.pairs[i].1);
            }
            i = i + 1;
        }
        None
    }

    /// Sets `key` to `value`, replacing any earlier value under it.
    pub fn insert(&mut self, key: String, value: String)
        requires
            old(self).wf(),
        ensures
            final(self).wf(),
            final(self)@ == old(self)@.insert(key@, value@),
    {
        let mut i: usize = 0;
        while i < self.pairs.len()
            invariant
                0 <= i <= self.pairs@.len(),
                forall|j: int| 0 <= j < i ==> self.pairs@[j].0@ != key@,
                self == old(self),
            decreases self.pairs@.len() - i,
        {
            if self.pairs[i].0 == key {
                let entry = self.pairs.remove(i);
                let replaced = (entry.0, value);
                let ghost p = replaced;
                self.pairs.insert(i, replaced);
                proof {
                    assert(self.pairs@ =~= old(self).pairs@.update(i as int, p));
                    lemma_pairs_map_update(old(self).pairs@, i as int, p);
                    assert(self@ == old(self)@.insert(key@, value@));
                    assert forall|a: int, b: int|
                        0 <= a < b < self.pairs@.len() implies self.pairs@[a].0@
                        != self.pairs@[b].0@ by {
                        assert(old(self).pairs@[a].0@ != old(self).pairs@[b].0@);
                    }
                }
                return ;
            }
            i = i + 1;
        }
        self.pairs.push((key, value));
        proof {
            assert(self.pairs@.drop_last() =~= old(self).pairs@);
        }
    }
}

} // verus!
