//! Maps keyed by byte strings, kept sorted in lexicographic byte order (the
//! order of Rust strings), with insert-or-replace and lookup.
use vstd::prelude::*;

verus! {

/// Strict lexicographic order on byte strings; a proper prefix comes first.
pub open spec fn lex_lt(a: Seq<u8>, b: Seq<u8>) -> bool
    decreases a.len(),
{
    if a.len() == 0 {
        b.len() > 0
    } else if b.len() == 0 {
        false
    } else if a[0] < b[0] {
        true
    } else if a[0] > b[0] {
        false
    } else {
        lex_lt(a.drop_first(), b.drop_first())
    }
}

pub proof fn lemma_lex_irreflexive(a: Seq<u8>)
    ensures
        !lex_lt(a, a),
    decreases a.len(),
{
    if a.len() > 0 {
        lemma_lex_irreflexive(a.drop_first());
    }
}

pub proof fn lemma_lex_asymmetric(a: Seq<u8>, b: Seq<u8>)
    requires
        lex_lt(a, b),
    ensures
        !lex_lt(b, a),
    decreases a.len(),
{
    if a.len() > 0 && b.len() > 0 && a[0] == b[0] {
        lemma_lex_asymmetric(a.drop_first(), b.drop_first());
    }
}

pub proof fn lemma_lex_transitive(a: Seq<u8>, b: Seq<u8>, c: Seq<u8>)
    requires
        lex_lt(a, b),
        lex_lt(b, c),
    ensures
        lex_lt(a, c),
    decreases a.len(),
{
    if a.len() > 0 && b.len() > 0 && c.len() > 0 && a[0] == b[0] && b[0] == c[0] {
        lemma_lex_transitive(a.drop_first(), b.drop_first(), c.drop_first());
    }
}

pub proof fn lemma_lex_total(a: Seq<u8>, b: Seq<u8>)
    requires
        a != b,
    ensures
        lex_lt(a, b) || lex_lt(b, a),
    decreases a.len(),
{
    if a.len() == 0 {
        assert(b.len() > 0) by {
            if b.len() == 0 {
                assert(a =~= b);
            }
        }
    } else if b.len() > 0 && a[0] == b[0] {
        if a.drop_first() == b.drop_first() {
            assert(a =~= seq![a[0]] + a.drop_first());
            assert(b =~= seq![b[0]] + b.drop_first());
        }
        lemma_lex_total(a.drop_first(), b.drop_first());
    }
}

/// Three-way comparison of byte strings: negative, zero or positive as `a`
/// sorts before, equal to, or after `b`.
pub fn lex_compare(a: &[u8], b: &[u8]) -> (r: i8)
    ensures
        r < 0 <==> lex_lt(a@, b@),
        r == 0 <==> a@ == b@,
        r > 0 <==> lex_lt(b@, a@),
{
    let mut i: usize = 0;
    proof {
        assert(a@.subrange(0, a@.len() as int) =~= a@);
        assert(b@.subrange(0, b@.len() as int) =~= b@);
    }
    while i < a.len() && i < b.len()
        invariant
            i <= a@.len(),
            i <= b@.len(),
            a@.subrange(0, i as int) == b@.subrange(0, i as int),
            lex_lt(a@, b@) == lex_lt(
                a@.subrange(i as int, a@.len() as int),
                b@.subrange(i as int, b@.len() as int),
            ),
            lex_lt(b@, a@) == lex_lt(
                b@.subrange(i as int, b@.len() as int),
                a@.subrange(i as int, a@.len() as int),
            ),
        decreases a@.len() - i,
    {
        let ghost sa = a@.subrange(i as int, a@.len() as int);
        let ghost sb = b@.subrange(i as int, b@.len() as int);
        if a[i] < b[i] {
            proof {
                assert(sa[0] == a@[i as int] && sb[0] == b@[i as int]);
                if a@ == b@ {
                    assert(a@[i as int] == b@[i as int]);
                }
            }
            return -1;
        }
        if a[i] > b[i] {
            proof {
                assert(sa[0] == a@[i as int] && sb[0] == b@[i as int]);
                if a@ == b@ {
                    assert(a@[i as int] == b@[i as int]);
                }
            }
            return 1;
        }
        proof {
            assert(sa.drop_first() =~= a@.subrange(i + 1, a@.len() as int));
            assert(sb.drop_first() =~= b@.subrange(i + 1, b@.len() as int));
            assert(a@.subrange(0, i + 1) =~= a@.subrange(0, i as int).push(a@[i as int]));
            assert(b@.subrange(0, i + 1) =~= b@.subrange(0, i as int).push(b@[i as int]));
        }
        i = i + 1;
    }
    let ghost sa = a@.subrange(i as int, a@.len() as int);
    let ghost sb = b@.subrange(i as int, b@.len() as int);
    if a.len() < b.len() {
        proof {
            assert(sa.len() == 0 && sb.len() > 0);
            if a@ == b@ {
                assert(false);
            }
        }
        -1
    } else if a.len() > b.len() {
        proof {
            assert(sb.len() == 0 && sa.len() > 0);
            if a@ == b@ {
                assert(false);
            }
        }
        1
    } else {
        proof {
            assert(a@ =~= a@.subrange(0, i as int));
            assert(b@ =~= b@.subrange(0, i as int));
            lemma_lex_irreflexive(a@);
        }
        0
    }
}

/// Keys strictly increasing in lexicographic order.
pub open spec fn sorted_keys<V>(entries: Seq<(Vec<u8>, V)>) -> bool {
    forall|i: int, j: int|
        0 <= i < j < entries.len() ==> lex_lt(
            (#[trigger] entries[i]).0@,
            (#[trigger] entries[j]).0@,
        )
}

/// Position of `k` in an entry list (meaningful when the key occurs).
pub open spec fn index_of<V>(entries: Seq<(Vec<u8>, V)>, k: Seq<u8>) -> int {
    choose|i: int| 0 <= i < entries.len() && (#[trigger] entries[i]).0@ == k
}

/// Whether `k` occurs as a key of the entry list.
pub open spec fn has_key<V>(entries: Seq<(Vec<u8>, V)>, k: Seq<u8>) -> bool {
    exists|i: int| 0 <= i < entries.len() && (#[trigger] entries[i]).0@ == k
}

/// The value stored with `k` in an entry list.
pub open spec fn value_of<V>(entries: Seq<(Vec<u8>, V)>, k: Seq<u8>) -> V {
    entries[index_of(entries, k)].1
}

/// The map that a sorted entry list stands for.
pub open spec fn entries_map<V>(entries: Seq<(Vec<u8>, V)>) -> Map<Seq<u8>, V> {
    Map::new(|k: Seq<u8>| has_key(entries, k), |k: Seq<u8>| value_of(entries, k))
}

/// In a sorted entry list each key occurs at one position only.
pub proof fn lemma_sorted_unique<V>(entries: Seq<(Vec<u8>, V)>, i: int, j: int)
    requires
        sorted_keys(entries),
        0 <= i < entries.len(),
        0 <= j < entries.len(),
        entries[i].0@ == entries[j].0@,
    ensures
        i == j,
{
    if i < j {
        lemma_lex_irreflexive(entries[i].0@);
    } else if j < i {
        lemma_lex_irreflexive(entries[i].0@);
    }
}

/// The value stored at position `i` is the map's value for its key.
pub proof fn lemma_entries_map_at<V>(entries: Seq<(Vec<u8>, V)>, i: int)
    requires
        sorted_keys(entries),
        0 <= i < entries.len(),
    ensures
        entries_map(entries).dom().contains(entries[i].0@),
        entries_map(entries)[entries[i].0@] == entries[i].1,
{
    let k = entries[i].0@;
    assert(entries[i].0@ == k);
    assert(entries_map(entries).dom().contains(k));
    assert(has_key(entries, k));
    let c = index_of(entries, k);
    lemma_sorted_unique(entries, i, c);
    assert(entries_map(entries)[k] == value_of(entries, k));
}

/// A sorted entry list stands for a finite map with one key per entry.
pub proof fn lemma_map_len<V>(entries: Seq<(Vec<u8>, V)>)
    requires
        sorted_keys(entries),
    ensures
        entries_map(entries).dom().finite(),
        entries_map(entries).dom().len() == entries.len(),
    decreases entries.len(),
{
    if entries.len() == 0 {
        assert(entries_map(entries).dom() =~= Set::<Seq<u8>>::empty());
    } else {
        let pre = entries.drop_last();
        assert(sorted_keys(pre)) by {
            assert forall|i: int, j: int| 0 <= i < j < pre.len() implies lex_lt(
                (#[trigger] pre[i]).0@,
                (#[trigger] pre[j]).0@,
            ) by {
                assert(pre[i] == entries[i]);
                assert(pre[j] == entries[j]);
            }
        }
        lemma_map_len(pre);
        let k = entries.last().0@;
        assert(entries_map(entries).dom() =~= entries_map(pre).dom().insert(k)) by {
            assert forall|kk: Seq<u8>| #[trigger] entries_map(entries).dom().contains(kk) <==> entries_map(
                pre,
            ).dom().insert(k).contains(kk) by {
                if has_key(entries, kk) && kk != k {
                    let j = choose|j: int| 0 <= j < entries.len() && (#[trigger] entries[j]).0@ == kk;
                    assert(j < entries.len() - 1);
                    assert(pre[j].0@ == kk);
                }
                if has_key(pre, kk) {
                    let j = choose|j: int| 0 <= j < pre.len() && (#[trigger] pre[j]).0@ == kk;
                    assert(entries[j].0@ == kk);
                }
                if kk == k {
                    assert(entries[entries.len() - 1].0@ == kk);
                }
            }
        }
        assert(!entries_map(pre).dom().contains(k)) by {
            if has_key(pre, k) {
                let j = choose|j: int| 0 <= j < pre.len() && (#[trigger] pre[j]).0@ == k;
                assert(entries[j].0@ == k);
                assert(lex_lt(entries[j].0@, entries[entries.len() - 1].0@));
                lemma_lex_irreflexive(k);
            }
        }
    }
}

/// A map from byte-string keys, its entries kept in key order.
pub struct ByteKeyMap<V> {
    entries: Vec<(Vec<u8>, V)>,
}

impl<V> ByteKeyMap<V> {
    pub closed spec fn entries(&self) -> Seq<(Vec<u8>, V)> {
        self.entries@
    }

    pub open spec fn wf(&self) -> bool {
        sorted_keys(self.entries())
    }

    pub open spec fn map(&self) -> Map<Seq<u8>, V> {
        entries_map(self.entries())
    }

    pub fn new() -> (r: Self)
        ensures
            r.wf(),
            r.entries() == Seq::<(Vec<u8>, V)>::empty(),
    {
        Self { entries: Vec::new() }
    }

    pub fn len(&self) -> (r: usize)
        ensures
            r == self.entries().len(),
    {
        self.entries.len()
    }

    pub fn is_empty(&self) -> (r: bool)
        ensures
            r == (self.entries().len() == 0),
    {
        self.entries.len() == 0
    }

    /// Key and value at position `i` in key order.
    pub fn entry_at(&self, i: usize) -> (r: (&Vec<u8>, &V))
        requires
            i < self.entries().len(),
        ensures
            *r.0 == self.entries()[i as int].0,
            *r.1 == self.entries()[i as int].1,
    {
        let e = &self.entries[i];
        (&e.0, &e.1)
    }

    /// First position whose key is not below `key`, and whether that key is
    /// `key` itself.
    fn search(&self, key: &[u8]) -> (r: (usize, bool))
        requires
            self.wf(),
        ensures
            r.0 <= self.entries().len(),
            forall|j: int| 0 <= j < r.0 ==> lex_lt((#[trigger] self.entries()[j]).0@, key@),
            r.1 ==> r.0 < self.entries().len() && self.entries()[r.0 as int].0@ == key@,
            !r.1 ==> forall|j: int|
                r.0 <= j < self.entries().len() ==> lex_lt(key@, (#[trigger] self.entries()[j]).0@),
    {
        let mut i: usize = 0;
        while i < self.entries.len()
            invariant
                i <= self.entries@.len(),
                sorted_keys(self.entries@),
                forall|j: int| 0 <= j < i ==> lex_lt((#[trigger] self.entries@[j]).0@, key@),
            decreases self.entries@.len() - i,
        {
            let c = lex_compare(self.entries[i].0.as_slice(), key);
            if c == 0 {
                return (i, true);
            }
            if c > 0 {
                proof {
                    assert forall|j: int| i <= j < self.entries@.len() implies lex_lt(
                        key@,
                        (#[trigger] self.entries@[j]).0@,
                    ) by {
                        if j > i {
                            lemma_lex_transitive(key@, self.entries@[i as int].0@, self.entries@[j].0@);
                        }
                    }
                }
                return (i, false);
            }
            i = i + 1;
        }
        (i, false)
    }

    /// The value for `key`, if present.
    pub fn get(&self, key: &[u8]) -> (r: Option<&V>)
        requires
            self.wf(),
        ensures
            match r {
                Some(v) => self.map().dom().contains(key@) && *v == self.map()[key@],
                None => !self.map().dom().contains(key@),
            },
    {
        let (i, found) = self.search(key);
        if found {
            proof {
                lemma_entries_map_at(self.entries@, i as int);
            }
            Some(&self.entries[i].1)
        } else {
            proof {
                if self.map().dom().contains(key@) {
                    let j = choose|j: int|
                        0 <= j < self.entries@.len() && (#[trigger] self.entries@[j]).0@ == key@;
                    if j < i {
                        lemma_lex_irreflexive(key@);
                    } else {
                        lemma_lex_irreflexive(key@);
                    }
                }
            }
            None
        }
    }

    /// Insert or replace the value for `key`; returns the replaced value.
    pub fn insert(&mut self, key: Vec<u8>, value: V) -> (r: Option<V>)
        requires
            old(self).wf(),
        ensures
            final(self).wf(),
            final(self).map() == old(self).map().insert(key@, value),
            match r {
                Some(v) => old(self).map().dom().contains(key@) && v == old(self).map()[key@],
                None => !old(self).map().dom().contains(key@),
            },
            old(self).map().dom().contains(key@) ==> final(self).entries().len() == old(
                self,
            ).entries().len(),
            !old(self).map().dom().contains(key@) ==> final(self).entries().len() == old(
                self,
            ).entries().len() + 1,
            exists|i: int|
                0 <= i <= old(self).entries().len() && if old(self).map().dom().contains(key@) {
                    &&& i < old(self).entries().len()
                    &&& old(self).entries()[i].0@ == key@
                    &&& final(self).entries() == old(self).entries().update(i, (key, value))
                } else {
                    final(self).entries() == old(self).entries().insert(i, (key, value))
                },
    {
        let (i, found) = self.search(key.as_slice());
        let ghost k = key@;
        let ghost pair = (key, value);
        let ghost old_entries = self.entries@;
        if found {
            proof {
                lemma_entries_map_at(old_entries, i as int);
            }
            let old_entry = self.entries.remove(i);
            self.entries.insert(i, (key, value));
            proof {
                assert(self.entries@ =~= old_entries.update(i as int, pair));
                assert(self.entries@ =~= old_entries.update(i as int, (self.entries@[i as int].0, value)));
                assert(sorted_keys(self.entries@)) by {
                    assert forall|a: int, b: int| 0 <= a < b < self.entries@.len() implies lex_lt(
                        (#[trigger] self.entries@[a]).0@,
                        (#[trigger] self.entries@[b]).0@,
                    ) by {
                        assert(old_entries[a].0@ == self.entries@[a].0@);
                        assert(old_entries[b].0@ == self.entries@[b].0@);
                    }
                }
                assert(entries_map(self.entries@) =~= entries_map(old_entries).insert(k, value)) by {
                    assert forall|kk: Seq<u8>| #[trigger] entries_map(self.entries@).dom().contains(kk)
                        <==> entries_map(old_entries).insert(k, value).dom().contains(kk) by {
                        if entries_map(old_entries).dom().contains(kk) {
                            let j = choose|j: int|
                                0 <= j < old_entries.len() && (#[trigger] old_entries[j]).0@ == kk;
                            assert(self.entries@[j].0@ == kk);
                        }
                        if entries_map(self.entries@).dom().contains(kk) {
                            let j = choose|j: int|
                                0 <= j < self.entries@.len() && (#[trigger] self.entries@[j]).0@
                                    == kk;
                            assert(old_entries[j].0@ == kk);
                        }
                    }
                    assert forall|kk: Seq<u8>| #[trigger]
                        entries_map(self.entries@).dom().contains(kk) implies entries_map(
                        self.entries@,
                    )[kk] == entries_map(old_entries).insert(k, value)[kk] by {
                        let j = choose|j: int|
                            0 <= j < self.entries@.len() && (#[trigger] self.entries@[j]).0@ == kk;
                        lemma_entries_map_at(self.entries@, j);
                        if kk != k {
                            assert(old_entries[j].0@ == kk);
                            lemma_entries_map_at(old_entries, j);
                        } else {
                            lemma_sorted_unique(self.entries@, j, i as int);
                        }
                    }
                }
            }
            Some(old_entry.1)
        } else {
            self.entries.insert(i, (key, value));
            proof {
                assert(self.entries@ =~= old_entries.insert(i as int, pair));
                let ne = self.entries@;
                assert(ne.len() == old_entries.len() + 1);
                assert forall|a: int| 0 <= a < i implies (#[trigger] ne[a]) == old_entries[a] by {}
                assert forall|a: int| i < a < ne.len() implies (#[trigger] ne[a]) == old_entries[a
                    - 1] by {}
                assert(sorted_keys(ne)) by {
                    assert forall|a: int, b: int| 0 <= a < b < ne.len() implies lex_lt(
                        (#[trigger] ne[a]).0@,
                        (#[trigger] ne[b]).0@,
                    ) by {
                        if b < i {
                        } else if b == i {
                            assert(ne[a] == old_entries[a]);
                        } else if a < i {
                            assert(ne[b] == old_entries[b - 1]);
                            assert(lex_lt(old_entries[a].0@, k));
                            assert(lex_lt(k, old_entries[b - 1].0@));
                            lemma_lex_transitive(old_entries[a].0@, k, old_entries[b - 1].0@);
                        } else if a == i {
                            assert(ne[b] == old_entries[b - 1]);
                        } else {
                            assert(ne[a] == old_entries[a - 1]);
                            assert(ne[b] == old_entries[b - 1]);
                        }
                    }
                }
                assert(!entries_map(old_entries).dom().contains(k)) by {
                    if entries_map(old_entries).dom().contains(k) {
                        let j = choose|j: int|
                            0 <= j < old_entries.len() && (#[trigger] old_entries[j]).0@ == k;
                        lemma_lex_irreflexive(k);
                    }
                }
                assert(entries_map(ne) =~= entries_map(old_entries).insert(k, value)) by {
                    assert forall|kk: Seq<u8>| #[trigger] entries_map(ne).dom().contains(kk)
                        <==> entries_map(old_entries).insert(k, value).dom().contains(kk) by {
                        if entries_map(old_entries).dom().contains(kk) {
                            let j = choose|j: int|
                                0 <= j < old_entries.len() && (#[trigger] old_entries[j]).0@ == kk;
                            if j < i {
                                assert(ne[j].0@ == kk);
                            } else {
                                assert(ne[j + 1].0@ == kk);
                            }
                        }
                        if kk == k {
                            assert(ne[i as int].0@ == kk);
                        }
                        if entries_map(ne).dom().contains(kk) {
                            let j = choose|j: int| 0 <= j < ne.len() && (#[trigger] ne[j]).0@ == kk;
                            if j < i {
                                assert(old_entries[j].0@ == kk);
                            } else if j > i {
                                assert(old_entries[j - 1].0@ == kk);
                            }
                        }
                    }
                    assert forall|kk: Seq<u8>| #[trigger]
                        entries_map(ne).dom().contains(kk) implies entries_map(ne)[kk]
                        == entries_map(old_entries).insert(k, value)[kk] by {
                        let j = choose|j: int| 0 <= j < ne.len() && (#[trigger] ne[j]).0@ == kk;
                        lemma_entries_map_at(ne, j);
                        if j < i {
                            lemma_entries_map_at(old_entries, j);
                        } else if j > i {
                            lemma_entries_map_at(old_entries, j - 1);
                        }
                    }
                }
            }
            None
        }
    }

    /// Remove the entry for `key`; returns its value.
    pub fn remove(&mut self, key: &[u8]) -> (r: Option<V>)
        requires
            old(self).wf(),
        ensures
            final(self).wf(),
            final(self).map() == old(self).map().remove(key@),
            match r {
                Some(v) => old(self).map().dom().contains(key@) && v == old(self).map()[key@],
                None => !old(self).map().dom().contains(key@),
            },
    {
        let (i, found) = self.search(key);
        let ghost k = key@;
        let ghost old_entries = self.entries@;
        if !found {
            proof {
                if entries_map(old_entries).dom().contains(k) {
                    let j = choose|j: int|
                        0 <= j < old_entries.len() && (#[trigger] old_entries[j]).0@ == k;
                    lemma_lex_irreflexive(k);
                }
                assert(entries_map(old_entries) =~= entries_map(old_entries).remove(k));
            }
            return None;
        }
        proof {
            lemma_entries_map_at(old_entries, i as int);
        }
        let removed = self.entries.remove(i);
        proof {
            let ne = self.entries@;
            assert forall|a: int| 0 <= a < i implies (#[trigger] ne[a]) == old_entries[a] by {}
            assert forall|a: int| i <= a < ne.len() implies (#[trigger] ne[a]) == old_entries[a + 1] by {}
            assert(sorted_keys(ne)) by {
                assert forall|a: int, b: int| 0 <= a < b < ne.len() implies lex_lt(
                    (#[trigger] ne[a]).0@,
                    (#[trigger] ne[b]).0@,
                ) by {
                    let oa = if a < i { a } else { a + 1 };
                    let ob = if b < i { b } else { b + 1 };
                    assert(ne[a] == old_entries[oa]);
                    assert(ne[b] == old_entries[ob]);
                }
            }
            assert(entries_map(ne) =~= entries_map(old_entries).remove(k)) by {
                assert forall|kk: Seq<u8>| #[trigger] entries_map(ne).dom().contains(kk)
                    <==> entries_map(old_entries).remove(k).dom().contains(kk) by {
                    if entries_map(ne).dom().contains(kk) {
                        let j = choose|j: int| 0 <= j < ne.len() && (#[trigger] ne[j]).0@ == kk;
                        let oj = if j < i { j } else { j + 1 };
                        assert(old_entries[oj].0@ == kk);
                        if kk == k {
                            lemma_sorted_unique(old_entries, oj, i as int);
                        }
                    }
                    if entries_map(old_entries).remove(k).dom().contains(kk) {
                        let j = choose|j: int|
                            0 <= j < old_entries.len() && (#[trigger] old_entries[j]).0@ == kk;
                        if j < i {
                            assert(ne[j].0@ == kk);
                        } else if j > i {
                            assert(ne[j - 1].0@ == kk);
                        }
                    }
                }
                assert forall|kk: Seq<u8>| #[trigger]
                    entries_map(ne).dom().contains(kk) implies entries_map(ne)[kk]
                    == entries_map(old_entries).remove(k)[kk] by {
                    let j = choose|j: int| 0 <= j < ne.len() && (#[trigger] ne[j]).0@ == kk;
                    lemma_entries_map_at(ne, j);
                    let oj = if j < i { j } else { j + 1 };
                    assert(ne[j] == old_entries[oj]);
                    lemma_entries_map_at(old_entries, oj);
                    if kk == k {
                        lemma_sorted_unique(old_entries, oj, i as int);
                    }
                }
            }
        }
        Some(removed.1)
    }

    /// Append an entry whose key sorts after every present key.
    pub fn push_last(&mut self, key: Vec<u8>, value: V)
        requires
            old(self).wf(),
            old(self).entries().len() > 0 ==> lex_lt(old(self).entries().last().0@, key@),
        ensures
            final(self).wf(),
            final(self).entries() == old(self).entries().push((key, value)),
    {
        let ghost old_entries = self.entries@;
        self.entries.push((key, value));
        proof {
            let ne = self.entries@;
            assert forall|a: int, b: int| 0 <= a < b < ne.len() implies lex_lt(
                (#[trigger] ne[a]).0@,
                (#[trigger] ne[b]).0@,
            ) by {
                if b == ne.len() - 1 && a < b - 1 {
                    assert(ne[a] == old_entries[a]);
                    lemma_lex_transitive(old_entries[a].0@, old_entries.last().0@, ne[b].0@);
                } else if b == ne.len() - 1 {
                    assert(ne[a] == old_entries.last());
                } else {
                    assert(ne[a] == old_entries[a]);
                    assert(ne[b] == old_entries[b]);
                }
            }
        }
    }

    /// Remove every entry, handing them back in key order.
    pub fn take_all(&mut self) -> (r: Vec<(Vec<u8>, V)>)
        requires
            old(self).wf(),
        ensures
            final(self).wf(),
            r@ == old(self).entries(),
            final(self).entries() == Seq::<(Vec<u8>, V)>::empty(),
    {
        let mut out: Vec<(Vec<u8>, V)> = Vec::new();
        std::mem::swap(&mut out, &mut self.entries);
        out
    }

    /// The value stored with the greatest key, if any.
    pub fn last_value(&self) -> (r: Option<&V>)
        ensures
            self.entries().len() == 0 ==> r is None,
            self.entries().len() > 0 ==> r == Some(&self.entries().last().1),
    {
        if self.entries.len() == 0 {
            None
        } else {
            Some(&self.entries[self.entries.len() - 1].1)
        }
    }
}

} // verus!
