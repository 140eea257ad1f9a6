//! A map from strings to values.
use crate::text;
use vstd::prelude::*;

verus! {

pub open spec fn distinct<V>(p: Seq<(String, V)>) -> bool {
    forall|i: int, j: int|
        0 <= i < j < p.len() ==> (#[trigger] p[i]).0@ != (#[trigger] p[j]).0@
}

/// The entries as a map.
pub open spec fn dict<V>(p: Seq<(String, V)>) -> Map<Seq<char>, V>
    decreases p.len(),
{
    if p.len() == 0 {
        Map::empty()
    } else {
        dict(p.drop_last()).insert(p.last().0@, p.last().1)
    }
}

/// Entries whose keys differ. The order in which they were put in is kept.
pub struct Table<V> {
    pub entries: Vec<(String, V)>,
}

impl<V> View for Table<V> {
    type V = Map<Seq<char>, V>;

    open spec fn view(&self) -> Map<Seq<char>, V> {
        dict(self.entries@)
    }
}

pub proof fn lemma_dict<V>(p: Seq<(String, V)>)
    requires
        distinct(p),
    ensures
        forall|k: Seq<char>| #[trigger]
            dict(p).dom().contains(k) <==> exists|i: int| 0 <= i < p.len() && (#[trigger] p[i]).0@ == k,
        forall|i: int| 0 <= i < p.len() ==> dict(p)[(#[trigger] p[i]).0@] == p[i].1,
    decreases p.len(),
{
    if p.len() > 0 {
        let q = p.drop_last();
        assert forall|i: int, j: int| 0 <= i < j < q.len() implies (#[trigger] q[i]).0@ != (
        #[trigger] q[j]).0@ by {
            assert(p[i].0@ != p[j].0@);
        }
        lemma_dict(q);
        assert forall|k: Seq<char>| #[trigger] dict(p).dom().contains(k) implies exists|i: int|
            0 <= i < p.len() && (#[trigger] p[i]).0@ == k by {
            if k == p.last().0@ {
                assert(p[p.len() - 1].0@ == k);
            } else {
                assert(dict(q).dom().contains(k));
                let i = choose|i: int| 0 <= i < q.len() && (#[trigger] q[i]).0@ == k;
                assert(p[i].0@ == k);
            }
        }
        assert forall|k: Seq<char>|
            (exists|i: int| 0 <= i < p.len() && (#[trigger] p[i]).0@ == k) implies #[trigger] dict(
            p,
        ).dom().contains(k) by {
            let i = choose|i: int| 0 <= i < p.len() && (#[trigger] p[i]).0@ == k;
            if i < p.len() - 1 {
                assert(q[i].0@ == k);
                assert(dict(q).dom().contains(k));
            }
        }
        assert forall|i: int| 0 <= i < p.len() implies dict(p)[(#[trigger] p[i]).0@] == p[i].1 by {
            if i < p.len() - 1 {
                assert(q[i].0@ == p[i].0@);
                assert(p[i].0@ != p[p.len() - 1].0@);
            }
        }
    }
}

impl<V> Table<V> {
    pub open spec fn wf(&self) -> bool {
        distinct(self.entries@)
    }

    pub fn new() -> (r: Table<V>)
        ensures
            r.wf(),
            r@ == Map::<Seq<char>, V>::empty(),
    {
        Table { entries: Vec::new() }
    }

    /// Where the entry for `key` stands.
    pub fn position(&self, key: &str) -> (r: Option<usize>)
        requires
            self.wf(),
        ensures
            match r {
                Some(i) => i < self.entries@.len() && self.entries@[i as int].0@ == key@
                    && self@.dom().contains(key@) && self@[key@] == self.entries@[i as int].1,
                None => !self@.dom().contains(key@),
            },
    {
        proof {
            lemma_dict(self.entries@);
        }
        let mut i: usize = 0;
        while i < self.entries.len()
            invariant
                i <= self.entries@.len(),
                forall|k: int| 0 <= k < i ==> (#[trigger] self.entries@[k]).0@ != key@,
                self@ == dict(self.entries@),
                forall|k: int|
                    0 <= k < self.entries@.len() ==> self@[(#[trigger] self.entries@[k]).0@]
                        == self.entries@[k].1,
                forall|k: Seq<char>| #[trigger]
                    self@.dom().contains(k) <==> exists|i: int|
                        0 <= i < self.entries@.len() && (#[trigger] self.entries@[i]).0@ == k,
            decreases self.entries@.len() - i,
        {
            if text::same(self.entries[i].0.as_str(), key) {
                return Some(i);
            }
            i = i + 1;
        }
        None
    }

    pub fn get(&self, key: &str) -> (r: Option<&V>)
        requires
            self.wf(),
        ensures
            match r {
                Some(v) => self@.dom().contains(key@) && self@[key@] == *v,
                None => !self@.dom().contains(key@),
            },
    {
        match self.position(key) {
            Some(i) => Some(&self.entries[i].1),
            None => None,
        }
    }

    pub fn insert(&mut self, key: String, value: V)
        requires
            old(self).wf(),
        ensures
            final(self).wf(),
            final(self)@ == old(self)@.insert(key@, value),
    {
        let at = self.position(key.as_str());
        let ghost before = self.entries@;
        proof {
            lemma_dict(before);
        }
        match at {
            Some(i) => {
                let ghost k = key@;
                self.entries.set(i, (key, value));
                proof {
                    let after = self.entries@;
                    assert forall|a: int, b: int| 0 <= a < b < after.len() implies (
                    #[trigger] after[a]).0@ != (#[trigger] after[b]).0@ by {
                        assert(before[a].0@ != before[b].0@);
                    }
                    lemma_dict(after);
                    let want = dict(before).insert(k, value);
                    assert forall|x: Seq<char>| #[trigger] dict(after).dom().contains(x)
                        == want.dom().contains(x) by {
                        if dict(after).dom().contains(x) {
                            let j = choose|j: int| 0 <= j < after.len() && (#[trigger] after[j]).0@ == x;
                            assert(before[j].0@ == x);
                        }
                        if dict(before).dom().contains(x) {
                            let j = choose|j: int| 0 <= j < before.len() && (#[trigger] before[j]).0@ == x;
                            assert(after[j].0@ == x);
                        }
                        if x == k {
                            assert(after[i as int].0@ == x);
                        }
                    }
                    assert forall|x: Seq<char>| #[trigger] dict(after).dom().contains(x) implies dict(
                        after,
                    )[x] == want[x] by {
                        let j = choose|j: int| 0 <= j < after.len() && (#[trigger] after[j]).0@ == x;
                        assert(before[j].0@ == x);
                        assert(before[i as int].0@ == k);
                        if j < i {
                            assert(before[j].0@ != before[i as int].0@);
                        } else if i < j {
                            assert(before[i as int].0@ != before[j].0@);
                        }
                    }
                    assert(dict(after) =~= want);
                }
            },
            None => {
                let ghost pair = (key, value);
                self.entries.push((key, value));
                proof {
                    let after = self.entries@;
                    assert(after.drop_last() =~= before);
                    assert forall|a: int, b: int| 0 <= a < b < after.len() implies (
                    #[trigger] after[a]).0@ != (#[trigger] after[b]).0@ by {
                        assert(before[a] == after[a]);
                        if b < before.len() {
                            assert(before[a].0@ != before[b].0@);
                        } else if before[a].0@ == pair.0@ {
                            assert(dict(before).dom().contains(pair.0@));
                        }
                    }
                }
            },
        }
    }

    /// Takes out the entry for `key`; whether there was one.
    pub fn remove(&mut self, key: &str) -> (r: bool)
        requires
            old(self).wf(),
        ensures
            final(self).wf(),
            final(self)@ == old(self)@.remove(key@),
            r == old(self)@.dom().contains(key@),
    {
        let at = self.position(key);
        let ghost before = self.entries@;
        proof {
            lemma_dict(before);
        }
        match at {
            Some(i) => {
                let _ = self.entries.remove(i);
                proof {
                    lemma_removed(before, i as int);
                }
                true
            },
            None => {
                proof {
                    assert(self@.remove(key@) =~= self@);
                }
                false
            },
        }
    }
}

pub proof fn lemma_removed<V>(before: Seq<(String, V)>, i: int)
    requires
        distinct(before),
        0 <= i < before.len(),
    ensures
        distinct(before.remove(i)),
        dict(before.remove(i)) == dict(before).remove(before[i].0@),
{
    let after = before.remove(i);
    assert forall|j: int| 0 <= j < after.len() implies #[trigger] after[j] == before[if j < i {
        j
    } else {
        j + 1
    }] by {}
    assert forall|a: int, b: int| 0 <= a < b < after.len() implies (#[trigger] after[a]).0@ != (
    #[trigger] after[b]).0@ by {
        let x = if a < i {
            a
        } else {
            a + 1
        };
        let y = if b < i {
            b
        } else {
            b + 1
        };
        assert(before[x].0@ != before[y].0@);
    }
    lemma_dict(before);
    lemma_dict(after);
    let want = dict(before).remove(before[i].0@);
    assert forall|x: Seq<char>| #[trigger] dict(after).dom().contains(x) == want.dom().contains(x) by {
        if dict(after).dom().contains(x) {
            let j = choose|j: int| 0 <= j < after.len() && (#[trigger] after[j]).0@ == x;
            let y = if j < i {
                j
            } else {
                j + 1
            };
            assert(before[y].0@ == x);
            if y < i {
                assert(before[y].0@ != before[i].0@);
            } else {
                assert(before[i].0@ != before[y].0@);
            }
        }
        if want.dom().contains(x) {
            let j = choose|j: int| 0 <= j < before.len() && (#[trigger] before[j]).0@ == x;
            let y = if j < i {
                j
            } else {
                j - 1
            };
            assert(after[y] == before[j]);
        }
    }
    assert forall|x: Seq<char>| #[trigger] dict(after).dom().contains(x) implies dict(after)[x]
        == want[x] by {
        let j = choose|j: int| 0 <= j < after.len() && (#[trigger] after[j]).0@ == x;
        let y = if j < i {
            j
        } else {
            j + 1
        };
        assert(before[y].0@ == x);
    }
    assert(dict(after) =~= want);
}

} // verus!
