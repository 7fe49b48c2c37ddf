//! A persistent map from 64-bit integer keys to values, held as a vector
//! sorted by key; updates consume the map and hand back the new one.
use vstd::prelude::*;

verus! {

/// Entries strictly sorted by key: no two entries share a key.
pub open spec fn entries_sorted<T>(s: Seq<(u64, T)>) -> bool {
    forall|i: int, j: int| 0 <= i < j < s.len() ==> (#[trigger] s[i]).0 < (#[trigger] s[j]).0
}

/// The value stored under `k` in the association list `s`, front first.
pub open spec fn assoc_find<T>(s: Seq<(u64, T)>, k: u64) -> Option<T>
    decreases s.len(),
{
    if s.len() == 0 {
        None
    } else if s.first().0 == k {
        Some(s.first().1)
    } else {
        assoc_find(s.drop_first(), k)
    }
}

pub proof fn lemma_assoc_find_index<T>(s: Seq<(u64, T)>, k: u64)
    requires
        entries_sorted(s),
    ensures
        assoc_find(s, k) is None ==> forall|i: int| 0 <= i < s.len() ==> (#[trigger] s[i]).0 != k,
        assoc_find(s, k) matches Some(v) ==> exists|i: int|
            0 <= i < s.len() && (#[trigger] s[i]) == (k, v),
    decreases s.len(),
{
    if s.len() > 0 && s.first().0 != k {
        assert(entries_sorted(s.drop_first())) by {
            assert(forall|i: int, j: int|
                0 <= i < j < s.drop_first().len() ==> (#[trigger] s.drop_first()[i]).0
                    < (#[trigger] s.drop_first()[j]).0);
        }
        lemma_assoc_find_index(s.drop_first(), k);
        match assoc_find(s, k) {
            Some(v) => {
                let i = choose|i: int|
                    0 <= i < s.drop_first().len() && (#[trigger] s.drop_first()[i]) == (
                        k,
                        v,
                    );
                assert(s[i + 1] == (k, v));
            },
            None => {
                assert forall|i: int| 0 <= i < s.len() implies (#[trigger] s[i]).0
                    != k by {
                    if i > 0 {
                        assert(s.drop_first()[i - 1] == s[i]);
                    }
                }
            },
        }
    }
}

pub proof fn lemma_assoc_find_at<T>(s: Seq<(u64, T)>, i: int)
    requires
        entries_sorted(s),
        0 <= i < s.len(),
    ensures
        assoc_find(s, s[i].0) == Some(s[i].1),
    decreases s.len(),
{
    if i == 0 {
    } else {
        assert(s.first().0 < s[i].0);
        assert(entries_sorted(s.drop_first())) by {
            assert(forall|ii: int, jj: int|
                0 <= ii < jj < s.drop_first().len() ==> (#[trigger] s.drop_first()[ii]).0
                    < (#[trigger] s.drop_first()[jj]).0);
        }
        lemma_assoc_find_at(s.drop_first(), i - 1);
        assert(s.drop_first()[i - 1] == s[i]);
    }
}

/// A persistent integer-keyed map.
#[derive(Debug)]
pub struct IntMap<T> {
    entries: Vec<(u64, T)>,
}

impl<T> View for IntMap<T> {
    type V = Seq<(u64, T)>;

    closed spec fn view(&self) -> Seq<(u64, T)> {
        self.entries@
    }
}

impl<T> IntMap<T> {
    /// The entries really are strictly sorted by key.
    pub closed spec fn wf(&self) -> bool {
        entries_sorted(self@)
    }

    /// What the map associates with `k`.
    pub open spec fn spec_get(&self, k: u64) -> Option<T> {
        assoc_find(self@, k)
    }

    /// An empty map.
    pub fn new() -> (r: Self)
        ensures
            r.wf(),
            r@ =~= Seq::<(u64, T)>::empty(),
    {
        IntMap { entries: Vec::new() }
    }

    /// How many keys the map holds.
    pub fn len(&self) -> (r: usize)
        ensures
            r == self@.len(),
    {
        self.entries.len()
    }

    /// The key of the entry at position `i`, in ascending key order.
    pub fn key_at(&self, i: usize) -> (r: u64)
        requires
            i < self@.len(),
        ensures
            r == self@[i as int].0,
    {
        self.entries[i].0
    }

    /// A reference to the value stored under `k`, if any.
    pub fn get(&self, k: u64) -> (r: Option<&T>)
        requires
            self.wf(),
        ensures
            r is Some <==> self.spec_get(k) is Some,
            r matches Some(v) ==> self.spec_get(k) == Some(*v),
    {
        let n = self.entries.len();
        let mut lo: usize = 0;
        let mut hi: usize = n;
        while lo < hi
            invariant
                lo <= hi <= n,
                n == self@.len(),
                self.wf(),
                forall|i: int| 0 <= i < lo ==> (#[trigger] self@[i]).0 < k,
                forall|i: int| hi <= i < n ==> (#[trigger] self@[i]).0 > k,
            decreases hi - lo,
        {
            let mid = lo + (hi - lo) / 2;
            let key = self.entries[mid].0;
            if key == k {
                proof {
                    lemma_assoc_find_at(self@, mid as int);
                }
                return Some(&self.entries[mid].1);
            } else if key < k {
                lo = mid + 1;
            } else {
                hi = mid;
            }
        }
        proof {
            lemma_assoc_find_index(self@, k);
            match self.spec_get(k) {
                Some(v) => {
                    let i = choose|i: int|
                        0 <= i < self@.len() && (#[trigger] self@[i]) == (k, v);
                    assert(false);
                },
                None => {},
            }
        }
        None
    }

    /// The map with `k` bound to `v`; any earlier binding of `k` is
    /// replaced, every other key keeps its value.
    pub fn insert(self, k: u64, v: T) -> (r: Self)
        requires
            self.wf(),
        ensures
            r.wf(),
            r.spec_get(k) == Some(v),
            forall|k2: u64| k2 != k ==> #[trigger] r.spec_get(k2) == self.spec_get(k2),
            r@.len() <= self@.len() + 1,
    {
        let ghost pre = self@;
        let mut entries = self.entries;
        let n = entries.len();
        let mut p: usize = 0;
        while p < n && entries[p].0 < k
            invariant
                p <= n,
                n == entries@.len(),
                entries@ == pre,
                forall|i: int| 0 <= i < p ==> (#[trigger] pre[i]).0 < k,
            decreases n - p,
        {
            p = p + 1;
        }
        if p < n && entries[p].0 == k {
            let ghost old_entry = pre[p as int];
            entries.set(p, (k, v));
            let r = IntMap { entries };
            proof {
                assert(r@ =~= pre.update(p as int, (k, v)));
                assert(entries_sorted(r@)) by {
                    assert(forall|i: int|
                        0 <= i < r@.len() && i != p ==> (#[trigger] r@[i]) == pre[i]);
                }
                lemma_assoc_find_at(r@, p as int);
                assert forall|k2: u64| k2 != k implies #[trigger] r.spec_get(k2)
                    == assoc_find(pre, k2) by {
                    lemma_assoc_find_index(r@, k2);
                    lemma_assoc_find_index(pre, k2);
                    match assoc_find(r@, k2) {
                        Some(v2) => {
                            let i = choose|i: int|
                                0 <= i < r@.len() && (#[trigger] r@[i]) == (k2, v2);
                            assert(pre[i] == (k2, v2));
                            lemma_assoc_find_at(pre, i);
                        },
                        None => {
                            match assoc_find(pre, k2) {
                                Some(v2) => {
                                    let i = choose|i: int|
                                        0 <= i < pre.len() && (#[trigger] pre[i]) == (
                                            k2,
                                            v2,
                                        );
                                    assert(r@[i] == (k2, v2));
                                    lemma_assoc_find_at(r@, i);
                                },
                                None => {},
                            }
                        },
                    }
                }
            }
            return r;
        }
        proof {
            assert forall|i: int| p <= i < pre.len() implies (#[trigger] pre[i]).0 > k by {
                if i > p {
                    assert(pre[p as int].0 < pre[i].0);
                }
            }
        }
        entries.insert(p, (k, v));
        let r = IntMap { entries };
        proof {
            assert(r@ =~= pre.insert(p as int, (k, v)));
            assert(entries_sorted(r@)) by {
                assert forall|i: int, j: int|
                    0 <= i < j < r@.len() implies (#[trigger] r@[i]).0 < (
                #[trigger] r@[j]).0 by {
                    if i < p && j < p {
                    } else if i < p && j == p {
                    } else if i == p {
                        assert(r@[j] == pre[j - 1]);
                    } else if i < p {
                        assert(r@[i] == pre[i] && r@[j] == pre[j - 1]);
                    } else {
                        assert(r@[i] == pre[i - 1] && r@[j] == pre[j - 1]);
                    }
                }
            }
            lemma_assoc_find_at(r@, p as int);
            assert forall|k2: u64| k2 != k implies #[trigger] r.spec_get(k2) == assoc_find(
                pre,
                k2,
            ) by {
                lemma_assoc_find_index(r@, k2);
                lemma_assoc_find_index(pre, k2);
                match assoc_find(r@, k2) {
                    Some(v2) => {
                        let i = choose|i: int|
                            0 <= i < r@.len() && (#[trigger] r@[i]) == (k2, v2);
                        if i < p {
                            assert(pre[i] == (k2, v2));
                            lemma_assoc_find_at(pre, i);
                        } else {
                            assert(pre[i - 1] == (k2, v2));
                            lemma_assoc_find_at(pre, i - 1);
                        }
                    },
                    None => {
                        match assoc_find(pre, k2) {
                            Some(v2) => {
                                let i = choose|i: int|
                                    0 <= i < pre.len() && (#[trigger] pre[i]) == (k2, v2);
                                if i < p {
                                    assert(r@[i] == (k2, v2));
                                    lemma_assoc_find_at(r@, i);
                                } else {
                                    assert(r@[i + 1] == (k2, v2));
                                    lemma_assoc_find_at(r@, i + 1);
                                }
                            },
                            None => {},
                        }
                    },
                }
            }
        }
        r
    }

    /// The union of two maps; where both bind a key, `self` wins.
    pub fn union(self, other: Self) -> (r: Self)
        requires
            self.wf(),
            other.wf(),
        ensures
            r.wf(),
            forall|k: u64|
                #[trigger] r.spec_get(k) == (if self.spec_get(k) is Some {
                    self.spec_get(k)
                } else {
                    other.spec_get(k)
                }),
    {
        let ghost mine = self@;
        let mut rest = self.entries;
        let mut acc = other;
        let n = rest.len();
        let mut i: usize = 0;
        while i < n
            invariant
                i <= n,
                n == mine.len(),
                entries_sorted(mine),
                rest@ =~= mine.skip(i as int),
                acc.wf(),
                forall|k: u64|
                    #[trigger] acc.spec_get(k) == (if assoc_find(mine.take(i as int), k)
                        is Some {
                        assoc_find(mine.take(i as int), k)
                    } else {
                        other.spec_get(k)
                    }),
            decreases n - i,
        {
            let ghost pre_acc = acc;
            let (k, v) = rest.remove(0);
            proof {
                assert(mine.skip(i as int)[0] == mine[i as int]);
                assert(mine.skip(i as int).drop_first() =~= mine.skip(i + 1));
            }
            acc = acc.insert(k, v);
            proof {
                assert forall|k2: u64| #[trigger] acc.spec_get(k2) == (if assoc_find(
                    mine.take(i + 1),
                    k2,
                ) is Some {
                    assoc_find(mine.take(i + 1), k2)
                } else {
                    other.spec_get(k2)
                }) by {
                    lemma_assoc_find_push(mine.take(i as int), (k, v), k2);
                    assert(mine.take(i + 1) =~= mine.take(i as int).push(mine[i as int]));
                    if k2 == k {
                        assert(assoc_find(mine.take(i as int), k2) is None) by {
                            lemma_assoc_find_index(mine.take(i as int), k2);
                            match assoc_find(mine.take(i as int), k2) {
                                Some(v3) => {
                                    let w = choose|w: int|
                                        0 <= w < mine.take(i as int).len()
                                            && (#[trigger] mine.take(i as int)[w]) == (
                                            k2,
                                            v3,
                                        );
                                    assert(mine[w].0 < mine[i as int].0);
                                    assert(false);
                                },
                                None => {},
                            }
                        }
                    }
                }
            }
            i = i + 1;
        }
        proof {
            assert(mine.take(n as int) =~= mine);
        }
        acc
    }

    /// The largest key in the map, if any.
    pub fn max_key(&self) -> (r: Option<u64>)
        requires
            self.wf(),
        ensures
            r is None <==> self@.len() == 0,
            r matches Some(k) ==> self@.len() > 0 && k == self@.last().0,
    {
        let n = self.entries.len();
        if n == 0 {
            None
        } else {
            Some(self.entries[n - 1].0)
        }
    }

    /// The nearest entries around `k`: the greatest entry with a key at
    /// most `k`, and the smallest entry with a key at least `k`.
    pub fn bounds(&self, k: u64) -> (r: (Option<(u64, &T)>, Option<(u64, &T)>))
        requires
            self.wf(),
        ensures
            r.0 is None ==> forall|i: int| 0 <= i < self@.len() ==> (#[trigger] self@[i]).0 > k,
            r.0 matches Some(p) ==> exists|i: int|
                0 <= i < self@.len() && (#[trigger] self@[i]) == (p.0, *p.1) && p.0 <= k
                    && (i == self@.len() - 1 || self@[i + 1].0 > k),
            r.1 is None ==> forall|i: int| 0 <= i < self@.len() ==> (#[trigger] self@[i]).0 < k,
            r.1 matches Some(p) ==> exists|i: int|
                0 <= i < self@.len() && (#[trigger] self@[i]) == (p.0, *p.1) && p.0 >= k
                    && (i == 0 || self@[i - 1].0 < k),
    {
        let n = self.entries.len();
        let mut lo: usize = 0;
        let mut hi: usize = n;
        while lo < hi
            invariant
                lo <= hi <= n,
                n == self@.len(),
                self.wf(),
                forall|i: int| 0 <= i < lo ==> (#[trigger] self@[i]).0 < k,
                forall|i: int| hi <= i < n ==> (#[trigger] self@[i]).0 >= k,
            decreases hi - lo,
        {
            let mid = lo + (hi - lo) / 2;
            if self.entries[mid].0 < k {
                lo = mid + 1;
            } else {
                hi = mid;
            }
        }
        let start: Option<(u64, &T)>;
        let end: Option<(u64, &T)>;
        if lo < n && self.entries[lo].0 == k {
            start = Some((self.entries[lo].0, &self.entries[lo].1));
            end = Some((self.entries[lo].0, &self.entries[lo].1));
            proof {
                let w = lo as int;
                assert(self@[w] == (self@[w].0, self@[w].1));
            }
        } else {
            if lo == 0 {
                start = None;
            } else {
                start = Some((self.entries[lo - 1].0, &self.entries[lo - 1].1));
                proof {
                    let w = lo - 1;
                    assert(self@[w] == (self@[w].0, self@[w].1));
                }
            }
            if lo == n {
                end = None;
            } else {
                end = Some((self.entries[lo].0, &self.entries[lo].1));
                proof {
                    let w = lo as int;
                    assert(self@[w] == (self@[w].0, self@[w].1));
                    assert(self@[w].0 >= k);
                }
            }
        }
        (start, end)
    }
}

pub proof fn lemma_assoc_find_push<T>(s: Seq<(u64, T)>, p: (u64, T), k: u64)
    ensures
        assoc_find(s.push(p), k) == (if assoc_find(s, k) is Some {
            assoc_find(s, k)
        } else if p.0 == k {
            Some(p.1)
        } else {
            None
        }),
    decreases s.len(),
{
    if s.len() == 0 {
        assert(s.push(p) =~= seq![p]);
        assert(s.push(p).first() == p);
        assert(assoc_find(s, k) is None);
        if p.0 != k {
            assert(s.push(p).drop_first() =~= Seq::<(u64, T)>::empty());
            assert(assoc_find(s.push(p).drop_first(), k) is None);
            assert(assoc_find(s.push(p), k) is None);
        } else {
            assert(assoc_find(s.push(p), k) == Some(p.1));
        }
    } else {
        assert(s.push(p).first() == s.first());
        assert(s.push(p).drop_first() =~= s.drop_first().push(p));
        lemma_assoc_find_push(s.drop_first(), p, k);
    }
}

} // verus!
