//! A string-keyed table backed by a vector of pairs with pairwise-distinct
//! keys, viewed as a `Map`.  The shared command store and the per-target
//! credential table are both instances of it.

use vstd::prelude::*;
use crate::text::str_eq;

verus! {

/// The map described by an association list, read left to right.
spec fn assoc_map<V>(entries: Seq<(Seq<char>, V)>) -> Map<Seq<char>, V>
    decreases entries.len(),
{
    if entries.len() == 0 {
        Map::empty()
    } else {
        assoc_map(entries.drop_last()).insert(entries.last().0, entries.last().1)
    }
}

/// Pairwise-distinct keys.
spec fn distinct_keys<V>(entries: Seq<(Seq<char>, V)>) -> bool {
    forall|a: int, b: int|
        0 <= a < b < entries.len() ==> (#[trigger] entries[a]).0 != (#[trigger] entries[b]).0
}

proof fn lemma_assoc_found<V>(entries: Seq<(Seq<char>, V)>, i: int)
    requires
        distinct_keys(entries),
        0 <= i < entries.len(),
    ensures
        assoc_map(entries).contains_key(entries[i].0),
        assoc_map(entries)[entries[i].0] == entries[i].1,
    decreases entries.len(),
{
    if i < entries.len() - 1 {
        assert(entries[entries.len() - 1].0 != entries[i].0);
        assert forall|a: int, b: int| 0 <= a < b < entries.drop_last().len() implies (
        #[trigger] entries.drop_last()[a]).0 != (#[trigger] entries.drop_last()[b]).0 by {
            assert(entries.drop_last()[a] == entries[a]);
            assert(entries.drop_last()[b] == entries[b]);
        }
        assert(entries.drop_last()[i] == entries[i]);
        lemma_assoc_found(entries.drop_last(), i);
    }
}

proof fn lemma_assoc_absent<V>(entries: Seq<(Seq<char>, V)>, k: Seq<char>)
    requires
        forall|i: int| 0 <= i < entries.len() ==> (#[trigger] entries[i]).0 != k,
    ensures
        !assoc_map(entries).contains_key(k),
    decreases entries.len(),
{
    if entries.len() > 0 {
        assert forall|i: int| 0 <= i < entries.drop_last().len() implies (
        #[trigger] entries.drop_last()[i]).0 != k by {
            assert(entries.drop_last()[i] == entries[i]);
        }
        lemma_assoc_absent(entries.drop_last(), k);
        assert(entries[entries.len() - 1].0 != k);
    }
}

proof fn lemma_assoc_remove_idx<V>(entries: Seq<(Seq<char>, V)>, i: int)
    requires
        distinct_keys(entries),
        0 <= i < entries.len(),
    ensures
        assoc_map(entries.remove(i)) == assoc_map(entries).remove(entries[i].0),
    decreases entries.len(),
{
    let k = entries[i].0;
    if i == entries.len() - 1 {
        assert(entries.remove(i) =~= entries.drop_last());
        assert forall|j: int| 0 <= j < entries.drop_last().len() implies (
        #[trigger] entries.drop_last()[j]).0 != k by {
            assert(entries.drop_last()[j] == entries[j]);
        }
        lemma_assoc_absent(entries.drop_last(), k);
        assert(assoc_map(entries).remove(k) =~= assoc_map(entries.drop_last()));
    } else {
        let e = entries.drop_last();
        assert forall|a: int, b: int| 0 <= a < b < e.len() implies (#[trigger] e[a]).0 != (
        #[trigger] e[b]).0 by {
            assert(e[a] == entries[a]);
            assert(e[b] == entries[b]);
        }
        assert(e[i] == entries[i]);
        lemma_assoc_remove_idx(e, i);
        assert(entries.remove(i).drop_last() =~= e.remove(i));
        assert(entries.remove(i).last() == entries.last());
        assert(entries.remove(i).len() > 0);
        assert(assoc_map(entries.remove(i)) == assoc_map(e.remove(i)).insert(
            entries.last().0,
            entries.last().1,
        ));
        assert(entries[i].0 != entries[entries.len() - 1].0);
        assert(assoc_map(e).remove(k).insert(entries.last().0, entries.last().1) =~= assoc_map(
            e,
        ).insert(entries.last().0, entries.last().1).remove(k));
    }
}

/// A string-keyed table with pairwise-distinct keys, the library's stand-in
/// for a hash map: its view is the `Map` the entries describe.
pub struct AssocTable<V> {
    entries: Vec<(String, V)>,
}

impl<V: DeepView> View for AssocTable<V> {
    type V = Map<Seq<char>, V::V>;

    closed spec fn view(&self) -> Map<Seq<char>, V::V> {
        assoc_map(self.entries.deep_view())
    }
}

impl<V: DeepView> AssocTable<V> {
    /// The table's internal invariant: no key occurs twice.
    pub closed spec fn wf(&self) -> bool {
        distinct_keys(self.entries.deep_view())
    }

    /// An empty table.
    pub fn new() -> (r: Self)
        ensures
            r@ == Map::<Seq<char>, V::V>::empty(),
            r.wf(),
    {
        let r = AssocTable { entries: Vec::new() };
        proof {
            assert(r.entries.deep_view() =~= Seq::<(Seq<char>, V::V)>::empty());
        }
        r
    }

    /// Look the value for `key` up; `None` exactly when the key is absent.
    pub fn get(&self, key: &String) -> (r: Option<&V>)
        requires
            self.wf(),
        ensures
            match r {
                Some(v) => self@.contains_key(key@) && v.deep_view() == self@[key@],
                None => !self@.contains_key(key@),
            },
    {
        let mut i: usize = 0;
        while i < self.entries.len()
            invariant
                self.wf(),
                i <= self.entries@.len(),
                forall|j: int|
                    0 <= j < i ==> (#[trigger] self.entries.deep_view()[j]).0 != key@,
            decreases self.entries@.len() - i,
        {
            if str_eq(self.entries[i].0.as_str(), key.as_str()) {
                proof {
                    assert(self.entries.deep_view()[i as int] == (
                        self.entries@[i as int].0@,
                        self.entries@[i as int].1.deep_view(),
                    ));
                    lemma_assoc_found(self.entries.deep_view(), i as int);
                }
                return Some(&self.entries[i].1);
            }
            proof {
                assert(self.entries.deep_view()[i as int] == (
                    self.entries@[i as int].0@,
                    self.entries@[i as int].1.deep_view(),
                ));
            }
            i += 1;
        }
        proof {
            lemma_assoc_absent(self.entries.deep_view(), key@);
        }
        None
    }

    /// Remove `key` if present; removing an absent key changes nothing.
    pub fn remove(&mut self, key: &String)
        requires
            old(self).wf(),
        ensures
            final(self).wf(),
            final(self)@ == old(self)@.remove(key@),
    {
        let mut i: usize = 0;
        while i < self.entries.len()
            invariant
                self.wf(),
                self == old(self),
                i <= self.entries@.len(),
                forall|j: int|
                    0 <= j < i ==> (#[trigger] self.entries.deep_view()[j]).0 != key@,
            decreases self.entries@.len() - i,
        {
            if str_eq(self.entries[i].0.as_str(), key.as_str()) {
                let ghost old_dv = self.entries.deep_view();
                proof {
                    assert(old_dv[i as int] == (
                        self.entries@[i as int].0@,
                        self.entries@[i as int].1.deep_view(),
                    ));
                }
                self.entries.remove(i);
                proof {
                    assert(self.entries.deep_view() =~= old_dv.remove(i as int));
                    lemma_assoc_remove_idx(old_dv, i as int);
                    assert forall|a: int, b: int|
                        0 <= a < b < old_dv.remove(i as int).len() implies (
                    #[trigger] old_dv.remove(i as int)[a]).0 != (#[trigger] old_dv.remove(
                        i as int,
                    )[b]).0 by {
                        let ra = if a < i as int { a } else { a + 1 };
                        let rb = if b < i as int { b } else { b + 1 };
                        assert(old_dv.remove(i as int)[a] == old_dv[ra]);
                        assert(old_dv.remove(i as int)[b] == old_dv[rb]);
                    }
                }
                return ;
            }
            proof {
                assert(self.entries.deep_view()[i as int] == (
                    self.entries@[i as int].0@,
                    self.entries@[i as int].1.deep_view(),
                ));
            }
            i += 1;
        }
        proof {
            lemma_assoc_absent(self.entries.deep_view(), key@);
            assert(old(self)@.remove(key@) =~= old(self)@);
        }
    }

    /// Insert `key` with `value`, replacing any earlier value for the key.
    pub fn insert(&mut self, key: String, value: V)
        requires
            old(self).wf(),
        ensures
            final(self).wf(),
            final(self)@ == old(self)@.insert(key@, value.deep_view()),
    {
        self.remove(&key);
        let ghost mid_dv = self.entries.deep_view();
        let ghost mid_map = self@;
        proof {
            lemma_assoc_absent_of_map(mid_dv, key@);
        }
        self.entries.push((key, value));
        proof {
            assert(self.entries.deep_view() =~= mid_dv.push((key@, value.deep_view())));
            assert(self.entries.deep_view().drop_last() =~= mid_dv);
            assert(self@ == mid_map.insert(key@, value.deep_view()));
            assert(mid_map.insert(key@, value.deep_view()) =~= old(self)@.insert(
                key@,
                value.deep_view(),
            ));
            assert forall|a: int, b: int|
                0 <= a < b < self.entries.deep_view().len() implies (
            #[trigger] self.entries.deep_view()[a]).0 != (
            #[trigger] self.entries.deep_view()[b]).0 by {
                if b < self.entries.deep_view().len() - 1 {
                    assert(self.entries.deep_view()[a] == mid_dv[a]);
                    assert(self.entries.deep_view()[b] == mid_dv[b]);
                } else {
                    assert(self.entries.deep_view()[a] == mid_dv[a]);
                    assert(!mid_map.contains_key(key@) ==> mid_dv[a].0 != key@);
                }
            }
        }
    }
}

/// A key no entry carries is not in the map.
proof fn lemma_assoc_absent_of_map<V>(entries: Seq<(Seq<char>, V)>, k: Seq<char>)
    requires
        !assoc_map(entries).contains_key(k),
    ensures
        forall|i: int| 0 <= i < entries.len() ==> (#[trigger] entries[i]).0 != k,
    decreases entries.len(),
{
    if entries.len() > 0 {
        lemma_assoc_absent_of_map(entries.drop_last(), k);
        assert forall|i: int| 0 <= i < entries.len() implies (#[trigger] entries[i]).0 != k by {
            if i < entries.len() - 1 {
                assert(entries.drop_last()[i] == entries[i]);
            }
        }
    }
}

/// The shared key-to-value command store.
pub type MagicStore = AssocTable<String>;

} // verus!
