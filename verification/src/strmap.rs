//! A string-keyed map stored as insertion-ordered entries.
//!
//! Records carry two such maps (attachments and unrecognized fields).  The
//! view is a mathematical `Map` from key characters to value characters, so
//! contracts never depend on entry order.

use vstd::prelude::*;

use crate::text::eq_str;

verus! {

/// The association map described by a sequence of pairs; a later pair with
/// the same key wins.
pub open spec fn pairs_map(s: Seq<(String, String)>) -> Map<Seq<char>, Seq<char>>
    decreases s.len(),
{
    if s.len() == 0 {
        Map::empty()
    } else {
        pairs_map(s.drop_last()).insert(s.last().0@, s.last().1@)
    }
}

/// A map from strings to strings with unique keys.
#[derive(Debug, PartialEq, Eq)]
pub struct StrMap {
    entries: Vec<(String, String)>,
}

impl View for StrMap {
    type V = Map<Seq<char>, Seq<char>>;

    closed spec fn view(&self) -> Map<Seq<char>, Seq<char>> {
        pairs_map(self.entries@)
    }
}

proof fn lemma_pairs_map_congruent(a: Seq<(String, String)>, b: Seq<(String, String)>)
    requires
        a.len() == b.len(),
        forall|j: int| 0 <= j < a.len() ==> a[j].0@ == b[j].0@ && a[j].1@ == b[j].1@,
    ensures
        pairs_map(a) == pairs_map(b),
    decreases a.len(),
{
    if a.len() > 0 {
        lemma_pairs_map_congruent(a.drop_last(), b.drop_last());
    }
}

proof fn lemma_pairs_map_remove_insert(
    s: Seq<(String, String)>,
    i: int,
    k: Seq<char>,
    v: Seq<char>,
)
    requires
        0 <= i < s.len(),
        s[i].0@ == k,
    ensures
        pairs_map(s.remove(i)).insert(k, v) == pairs_map(s).insert(k, v),
    decreases s.len(),
{
    if i == s.len() - 1 {
        assert(s.remove(i) =~= s.drop_last());
        assert(pairs_map(s) == pairs_map(s.drop_last()).insert(s[i].0@, s[i].1@));
        assert(pairs_map(s.drop_last()).insert(k, v) =~= pairs_map(s.drop_last()).insert(
            k,
            s[i].1@,
        ).insert(k, v));
    } else {
        lemma_pairs_map_remove_insert(s.drop_last(), i, k, v);
        assert(s.remove(i).drop_last() =~= s.drop_last().remove(i));
        assert(s.remove(i).last() == s.last());
        let t = s.remove(i);
        assert(pairs_map(t) == pairs_map(s.drop_last().remove(i)).insert(s.last().0@, s.last().1@));
        if s.last().0@ == k {
            assert(pairs_map(t).insert(k, v) =~= pairs_map(s.drop_last().remove(i)).insert(k, v));
            assert(pairs_map(s).insert(k, v) =~= pairs_map(s.drop_last()).insert(k, v));
        } else {
            assert(pairs_map(t).insert(k, v) =~= pairs_map(s.drop_last().remove(i)).insert(
                k,
                v,
            ).insert(s.last().0@, s.last().1@));
            assert(pairs_map(s).insert(k, v) =~= pairs_map(s.drop_last()).insert(k, v).insert(
                s.last().0@,
                s.last().1@,
            ));
        }
    }
}

proof fn lemma_pairs_map_found(s: Seq<(String, String)>, i: int)
    requires
        0 <= i < s.len(),
        forall|j: int| i < j < s.len() ==> s[j].0@ != s[i].0@,
    ensures
        pairs_map(s).contains_key(s[i].0@),
        pairs_map(s)[s[i].0@] == s[i].1@,
    decreases s.len(),
{
    if i < s.len() - 1 {
        lemma_pairs_map_found(s.drop_last(), i);
    }
}

proof fn lemma_pairs_map_absent(s: Seq<(String, String)>, k: Seq<char>)
    requires
        forall|j: int| 0 <= j < s.len() ==> s[j].0@ != k,
    ensures
        !pairs_map(s).contains_key(k),
    decreases s.len(),
{
    if s.len() > 0 {
        lemma_pairs_map_absent(s.drop_last(), k);
    }
}

fn entry_key(v: &Vec<(String, String)>, i: usize) -> (r: &str)
    requires
        i < v.len(),
    ensures
        r@ == v@[i as int].0@,
{
    v[i].0.as_str()
}

impl StrMap {
    /// The entries as they are stored, in insertion order.
    pub closed spec fn entry_seq(&self) -> Seq<(String, String)> {
        self.entries@
    }

    /// An empty map.
    pub fn new() -> (r: StrMap)
        ensures
            r@ == Map::<Seq<char>, Seq<char>>::empty(),
    {
        StrMap { entries: Vec::new() }
    }

    /// Binds `key` to `value`, replacing any earlier binding of `key`.
    pub fn insert(&mut self, key: String, value: String)
        ensures
            final(self)@ == old(self)@.insert(key@, value@),
    {
        let n = self.entries.len();
        let mut i: usize = 0;
        while i < n
            invariant
                i <= n,
                n == self.entries.len(),
                self.entries == old(self).entries,
            decreases n - i,
        {
            if eq_str(entry_key(&self.entries, i), key.as_str()) {
                proof {
                    lemma_pairs_map_remove_insert(self.entries@, i as int, key@, value@);
                }
                let ghost removed = self.entries@.remove(i as int);
                self.entries.remove(i);
                self.entries.push((key, value));
                proof {
                    assert(removed.push((key, value)).drop_last() =~= removed);
                    assert(removed.push((key, value)).last() == (key, value));
                }
                return ;
            }
            i += 1;
        }
        let ghost before = self.entries@;
        self.entries.push((key, value));
        proof {
            assert(before.push((key, value)).drop_last() =~= before);
            assert(before.push((key, value)).last() == (key, value));
        }
    }

    /// Looks `key` up.
    pub fn get(&self, key: &str) -> (r: Option<&String>)
        ensures
            match r {
                Some(v) => self@.contains_key(key@) && v@ == self@[key@],
                None => !self@.contains_key(key@),
            },
    {
        let n = self.entries.len();
        let mut i: usize = n;
        while i > 0
            invariant
                i <= n,
                n == self.entries.len(),
                forall|j: int| i <= j < n ==> self.entries@[j].0@ != key@,
            decreases i,
        {
            i -= 1;
            if eq_str(entry_key(&self.entries, i), key) {
                proof {
                    lemma_pairs_map_found(self.entries@, i as int);
                }
                return Some(&self.entries[i].1);
            }
        }
        proof {
            lemma_pairs_map_absent(self.entries@, key@);
        }
        None
    }

    /// True when the map has no binding.
    pub fn is_empty(&self) -> (r: bool)
        ensures
            r == (self@ == Map::<Seq<char>, Seq<char>>::empty()),
    {
        if self.entries.len() == 0 {
            proof {
                assert(self@ =~= Map::<Seq<char>, Seq<char>>::empty());
            }
            true
        } else {
            proof {
                assert(self@.contains_key(self.entries@.last().0@));
            }
            false
        }
    }

    /// The entries, in insertion order; folding them reproduces the map.
    pub fn pairs(&self) -> (r: &Vec<(String, String)>)
        ensures
            r@ == self.entry_seq(),
            pairs_map(r@) == self@,
            r@.len() == 0 <==> self@ == Map::<Seq<char>, Seq<char>>::empty(),
    {
        proof {
            if self.entries@.len() == 0 {
                assert(self@ =~= Map::<Seq<char>, Seq<char>>::empty());
            } else {
                assert(self@.contains_key(self.entries@.last().0@));
            }
        }
        &self.entries
    }
}

impl Clone for StrMap {
    /// A copy holding the same bindings.
    fn clone(&self) -> (r: StrMap)
        ensures
            r@ == self@,
    {
        let n = self.entries.len();
        let mut entries: Vec<(String, String)> = Vec::new();
        let mut i: usize = 0;
        while i < n
            invariant
                i <= n,
                n == self.entries.len(),
                entries@.len() == i,
                forall|j: int|
                    0 <= j < i ==> entries@[j].0@ == self.entries@[j].0@ && entries@[j].1@
                        == self.entries@[j].1@,
            decreases n - i,
        {
            let k = self.entries[i].0.clone();
            let v = self.entries[i].1.clone();
            entries.push((k, v));
            i += 1;
        }
        proof {
            lemma_pairs_map_congruent(entries@, self.entries@);
        }
        StrMap { entries }
    }
}

} // verus!
