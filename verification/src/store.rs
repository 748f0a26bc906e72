//! String-keyed storage with read-modify-write semantics, shared by the
//! credential store and the challenge registry. The view of a store is the
//! mathematical map from key character sequences to the values' views.

use vstd::prelude::*;

verus! {

/// No two entries carry the same key.
pub open spec fn unique_keys<V>(s: Seq<(String, V)>) -> bool {
    forall|i: int, j: int| 0 <= i < j < s.len() ==> (#[trigger] s[i]).0@ != (#[trigger] s[j]).0@
}

/// The map an entry sequence stands for; later entries shadow earlier ones.
pub open spec fn assoc_view<V: View>(s: Seq<(String, V)>) -> Map<Seq<char>, V::V>
    decreases s.len(),
{
    if s.len() == 0 {
        Map::empty()
    } else {
        assoc_view(s.drop_last()).insert(s.last().0@, s.last().1@)
    }
}

/// A key is in the map exactly when an entry carries it, and the map then
/// holds that entry's value.
proof fn lemma_assoc_index<V: View>(s: Seq<(String, V)>, k: Seq<char>)
    requires
        unique_keys(s),
    ensures
        assoc_view(s).contains_key(k) <==> exists|i: int| 0 <= i < s.len() && (#[trigger] s[i]).0@ == k,
        forall|i: int| 0 <= i < s.len() && (#[trigger] s[i]).0@ == k ==> assoc_view(s)[k] == s[i].1@,
    decreases s.len(),
{
    if s.len() > 0 {
        let s0 = s.drop_last();
        let last = s[s.len() - 1];
        assert(unique_keys(s0));
        lemma_assoc_index(s0, k);
        if last.0@ == k {
            assert(assoc_view(s).contains_key(k));
            assert(forall|i: int|
                0 <= i < s.len() && (#[trigger] s[i]).0@ == k ==> i == s.len() - 1);
        } else {
            assert(forall|i: int| 0 <= i < s0.len() ==> s0[i] == s[i]);
            assert(forall|i: int|
                0 <= i < s.len() && (#[trigger] s[i]).0@ == k ==> {
                    &&& i < s0.len()
                    &&& s0[i] == s[i]
                });
        }
    }
}

/// Replacing the entry that carries a key re-points the map at that key and
/// leaves the rest alone.
proof fn lemma_assoc_update<V: View>(s: Seq<(String, V)>, i: int, p: (String, V))
    requires
        unique_keys(s),
        0 <= i < s.len(),
        s[i].0@ == p.0@,
    ensures
        assoc_view(s.update(i, p)) =~= assoc_view(s).insert(p.0@, p.1@),
        unique_keys(s.update(i, p)),
    decreases s.len(),
{
    let s2 = s.update(i, p);
    assert(forall|j: int| 0 <= j < s.len() && j != i ==> s2[j] == s[j]);
    assert(unique_keys(s2));
    let s0 = s.drop_last();
    let last = s[s.len() - 1];
    if i == s.len() - 1 {
        assert(s2.drop_last() =~= s0);
        assert(assoc_view(s2) == assoc_view(s0).insert(p.0@, p.1@));
        assert(assoc_view(s) == assoc_view(s0).insert(last.0@, last.1@));
        assert(assoc_view(s0).insert(p.0@, p.1@) =~= assoc_view(s0).insert(last.0@, last.1@).insert(
            p.0@,
            p.1@,
        ));
    } else {
        assert(unique_keys(s0));
        assert(s0[i] == s[i]);
        lemma_assoc_update(s0, i, p);
        assert(s2.drop_last() =~= s0.update(i, p));
        assert(s2.last() == last);
        assert(assoc_view(s2) == assoc_view(s0.update(i, p)).insert(last.0@, last.1@));
        // the two inserted keys differ, so the inserts commute
        assert(last.0@ != p.0@);
        assert(assoc_view(s0).insert(p.0@, p.1@).insert(last.0@, last.1@) =~= assoc_view(s0).insert(
            last.0@,
            last.1@,
        ).insert(p.0@, p.1@));
    }
}

/// A map from strings to values, with unique keys and per-key overwrite.
pub struct StrKeyMap<V> {
    entries: Vec<(String, V)>,
}

impl<V: View> StrKeyMap<V> {
    /// The mathematical map this store holds.
    pub closed spec fn view(&self) -> Map<Seq<char>, V::V> {
        assoc_view(self.entries@)
    }

    /// The store's internal invariant: keys are unique.
    pub closed spec fn wf(&self) -> bool {
        unique_keys(self.entries@)
    }

    /// An empty store.
    pub fn new() -> (r: StrKeyMap<V>)
        ensures
            r.wf(),
            r@ == Map::<Seq<char>, V::V>::empty(),
    {
        StrKeyMap { entries: Vec::new() }
    }

    /// Looks a key up; returns the stored value exactly when the key is
    /// present.
    pub fn get<'a>(&'a self, key: &String) -> (r: Option<&'a V>)
        requires
            self.wf(),
        ensures
            match r {
                Some(v) => self@.contains_key(key@) && v@ == self@[key@],
                None => !self@.contains_key(key@),
            },
    {
        let n = self.entries.len();
        let mut i: usize = 0;
        while i < n
            invariant
                self.wf(),
                n == self.entries@.len(),
                i <= n,
                forall|j: int| 0 <= j < i ==> (#[trigger] self.entries@[j]).0@ != key@,
            decreases n - i,
        {
            if self.entries[i].0 == *key {
                proof {
                    lemma_assoc_index(self.entries@, key@);
                    assert((self.entries@[i as int]).0@ == key@);
                }
                return Some(&self.entries[i].1);
            }
            i = i + 1;
        }
        proof {
            lemma_assoc_index(self.entries@, key@);
        }
        None
    }

    /// Inserts the value under the key, overwriting any previous value.
    pub fn upsert(&mut self, key: String, value: V)
        requires
            old(self).wf(),
        ensures
            final(self).wf(),
            final(self)@ == old(self)@.insert(key@, value@),
    {
        let n = self.entries.len();
        let mut i: usize = 0;
        while i < n
            invariant
                self.wf(),
                n == self.entries@.len(),
                i <= n,
                self == old(self),
                forall|j: int| 0 <= j < i ==> (#[trigger] self.entries@[j]).0@ != key@,
            decreases n - i,
        {
            if self.entries[i].0 == key {
                proof {
                    lemma_assoc_update(self.entries@, i as int, (key, value));
                }
                self.entries[i] = (key, value);
                return ;
            }
            i = i + 1;
        }
        proof {
            let s = self.entries@;
            let p = (key, value);
            assert(s.push(p).drop_last() =~= s);
            assert(forall|j: int| 0 <= j < s.len() ==> s.push(p)[j] == s[j]);
            assert(unique_keys(s.push(p)));
        }
        self.entries.push((key, value));
    }
}

} // verus!
