//! A map kept as an array sorted by key, so that its contents and their order
//! depend only on which entries it holds, never on the order of insertion.

use vstd::prelude::*;


verus! {

/// Whether `i` is the first place where `a` and `b` differ (or the length of
/// the shorter one, when one is a prefix of the other), and `a` is the smaller there.
pub open spec fn lt_at(a: Seq<u8>, b: Seq<u8>, i: int) -> bool {
    &&& 0 <= i <= a.len()
    &&& i <= b.len()
    &&& forall|j: int| 0 <= j < i ==> a[j] == b[j]
    &&& ((i == a.len() && i < b.len()) || (i < a.len() && i < b.len() && a[i] < b[i]))
}

/// Lexicographic order on byte strings.
pub open spec fn bytes_lt(a: Seq<u8>, b: Seq<u8>) -> bool {
    exists|i: int| lt_at(a, b, i)
}

pub proof fn lemma_bytes_lt_irreflexive(a: Seq<u8>)
    ensures
        !bytes_lt(a, a),
{
}

pub proof fn lemma_bytes_lt_transitive(a: Seq<u8>, b: Seq<u8>, c: Seq<u8>)
    requires
        bytes_lt(a, b),
        bytes_lt(b, c),
    ensures
        bytes_lt(a, c),
{
    let i = choose|i: int| lt_at(a, b, i);
    let j = choose|j: int| lt_at(b, c, j);
    if i <= j {
        if i == j {
            assert(lt_at(a, c, i));
        } else {
            assert(lt_at(a, c, i));
        }
    } else {
        assert(lt_at(a, c, j));
    }
}

pub proof fn lemma_bytes_lt_asymmetric(a: Seq<u8>, b: Seq<u8>)
    requires
        bytes_lt(a, b),
    ensures
        !bytes_lt(b, a),
{
    let i = choose|i: int| lt_at(a, b, i);
    if bytes_lt(b, a) {
        let j = choose|j: int| lt_at(b, a, j);
        if i < j {
            assert(a[i] == b[i]);
        } else if j < i {
            assert(a[j] == b[j]);
        }
    }
}

/// Compares two byte strings lexicographically: negative, zero or positive.
pub fn compare_bytes(a: &[u8], b: &[u8]) -> (r: i8)
    ensures
        r < 0 <==> bytes_lt(a@, b@),
        r == 0 <==> a@ == b@,
        r > 0 <==> bytes_lt(b@, a@),
{
    let mut i: usize = 0;
    while i < a.len() && i < b.len()
        invariant
            i <= a@.len(),
            i <= b@.len(),
            forall|j: int| 0 <= j < i ==> a@[j] == b@[j],
        decreases a@.len() - i,
    {
        if a[i] != b[i] {
            proof {
                if a@[i as int] < b@[i as int] {
                    assert(lt_at(a@, b@, i as int));
                    lemma_bytes_lt_asymmetric(a@, b@);
                } else {
                    assert(lt_at(b@, a@, i as int));
                    lemma_bytes_lt_asymmetric(b@, a@);
                }
            }
            if a[i] < b[i] {
                return -1;
            } else {
                return 1;
            }
        }
        i = i + 1;
    }
    if a.len() == b.len() {
        assert(a@ =~= b@);
        proof {
            lemma_bytes_lt_irreflexive(a@);
        }
        0
    } else if a.len() < b.len() {
        assert(lt_at(a@, b@, i as int));
        proof {
            lemma_bytes_lt_asymmetric(a@, b@);
        }
        -1
    } else {
        assert(lt_at(b@, a@, i as int));
        proof {
            lemma_bytes_lt_asymmetric(b@, a@);
        }
        1
    }
}

/// A copy of `s`.
pub fn copy_bytes(s: &[u8]) -> (r: Vec<u8>)
    ensures
        r@ == s@,
{
    let mut out: Vec<u8> = Vec::new();
    let mut i: usize = 0;
    while i < s.len()
        invariant
            i <= s@.len(),
            out@ == s@.subrange(0, i as int),
        decreases s@.len() - i,
    {
        out.push(s[i]);
        i = i + 1;
    }
    assert(out@ =~= s@);
    out
}

/// A key of a [`SortedMap`]: its order is the lexicographic order of its bytes.
pub trait MapKey: Sized {
    spec fn key_view(&self) -> Seq<u8>;

    fn key_bytes(&self) -> (r: Vec<u8>)
        ensures
            r@ == self.key_view(),
    ;
}

impl MapKey for Vec<u8> {
    open spec fn key_view(&self) -> Seq<u8> {
        self@
    }

    fn key_bytes(&self) -> (r: Vec<u8>) {
        copy_bytes(self.as_slice())
    }
}

impl MapKey for u32 {
    open spec fn key_view(&self) -> Seq<u8> {
        seq![
            (*self / 0x100_0000) as u8,
            (*self / 0x1_0000 % 0x100) as u8,
            (*self / 0x100 % 0x100) as u8,
            (*self % 0x100) as u8,
        ]
    }

    fn key_bytes(&self) -> (r: Vec<u8>) {
        let x = *self;
        let mut out: Vec<u8> = Vec::new();
        out.push((x / 0x100_0000) as u8);
        out.push((x / 0x1_0000 % 0x100) as u8);
        out.push((x / 0x100 % 0x100) as u8);
        out.push((x % 0x100) as u8);
        assert(out@ =~= self.key_view());
        out
    }
}

/// Two 32-bit keys with the same bytes are the same.
pub proof fn lemma_u32_key_injective(x: u32, y: u32)
    requires
        x.key_view() == y.key_view(),
    ensures
        x == y,
{
    assert(x.key_view()[0] == y.key_view()[0]);
    assert(x.key_view()[1] == y.key_view()[1]);
    assert(x.key_view()[2] == y.key_view()[2]);
    assert(x.key_view()[3] == y.key_view()[3]);
    assert(x / 0x100_0000 == y / 0x100_0000);
    assert(x / 0x1_0000 % 0x100 == y / 0x1_0000 % 0x100);
    assert(x / 0x100 % 0x100 == y / 0x100 % 0x100);
    assert(x % 0x100 == y % 0x100);
    assert(x == (x / 0x100_0000) * 0x100_0000 + (x / 0x1_0000 % 0x100) * 0x1_0000 + (x / 0x100 % 0x100) * 0x100 + x % 0x100) by (nonlinear_arith);
    assert(y == (y / 0x100_0000) * 0x100_0000 + (y / 0x1_0000 % 0x100) * 0x1_0000 + (y / 0x100 % 0x100) * 0x100 + y % 0x100) by (nonlinear_arith);
}

/// Whether the keys of `s` strictly increase.
pub open spec fn sorted_by_key<K: MapKey, V>(s: Seq<(K, V)>) -> bool {
    forall|a: int, b: int| 0 <= a < b < s.len() ==> bytes_lt(#[trigger] s[a].0.key_view(), #[trigger] s[b].0.key_view())
}

/// Whether some entry of `s` has the key `k`.
pub open spec fn has_key<K: MapKey, V>(s: Seq<(K, V)>, k: Seq<u8>) -> bool {
    exists|i: int| 0 <= i < s.len() && #[trigger] s[i].0.key_view() == k
}

/// The entries of `s` whose place in `mask` holds `want`, in order.
pub open spec fn select<T>(s: Seq<T>, mask: Seq<bool>, want: bool) -> Seq<T>
    decreases s.len(),
{
    if s.len() == 0 {
        Seq::empty()
    } else {
        select(s.drop_last(), mask.drop_last(), want) + if mask[s.len() - 1] == want {
            seq![s.last()]
        } else {
            Seq::empty()
        }
    }
}

/// Every entry that `select` keeps is an entry of `s`.
pub proof fn lemma_select_subset<T>(s: Seq<T>, mask: Seq<bool>, want: bool)
    requires
        mask.len() == s.len(),
    ensures
        forall|j: int| 0 <= j < select(s, mask, want).len() ==> s.contains(#[trigger] select(s, mask, want)[j]),
    decreases s.len(),
{
    if s.len() > 0 {
        let t = s.drop_last();
        lemma_select_subset(t, mask.drop_last(), want);
        assert forall|j: int| 0 <= j < select(s, mask, want).len() implies s.contains(#[trigger] select(s, mask, want)[j]) by {
            let prev = select(t, mask.drop_last(), want);
            if j < prev.len() {
                assert(select(s, mask, want)[j] == prev[j]);
                assert(t.contains(prev[j]));
                let a = choose|a: int| 0 <= a < t.len() && t[a] == prev[j];
                assert(s[a] == prev[j]);
            } else {
                assert(select(s, mask, want)[j] == s.last());
                assert(s[s.len() - 1] == s.last());
            }
        }
    }
}

/// A map from keys to values, stored as an array sorted by key.
#[derive(Debug)]
pub struct SortedMap<K, V> {
    contents: Vec<(K, V)>,
}

impl<K: MapKey, V> View for SortedMap<K, V> {
    type V = vstd::map::Map<Seq<u8>, V>;

    /// The value under each key, keys taken as bytes.
    closed spec fn view(&self) -> vstd::map::Map<Seq<u8>, V> {
        vstd::map::Map::new(
            |k: Seq<u8>| has_key(self.contents@, k),
            |k: Seq<u8>| self.contents@[self.index_of(k)].1,
        )
    }
}

impl<K: MapKey, V> SortedMap<K, V> {
    /// The entries, in increasing order of key.
    pub closed spec fn entries(&self) -> Seq<(K, V)> {
        self.contents@
    }

    /// The keys, as bytes, in the order in which they are held.
    pub open spec fn key_order(&self) -> Seq<Seq<u8>> {
        self.entries().map_values(|e: (K, V)| e.0.key_view())
    }

    pub closed spec fn wf(&self) -> bool {
        sorted_by_key(self.contents@)
    }

    closed spec fn index_of(&self, k: Seq<u8>) -> int {
        choose|i: int| 0 <= i < self.contents@.len() && self.contents@[i].0.key_view() == k
    }

    /// Every entry is found in the view under its key.
    pub proof fn lemma_entries_in_view(&self)
        requires
            self.wf(),
        ensures
            forall|i: int| 0 <= i < self.entries().len() ==> #[trigger] self@.contains_key(
                self.entries()[i].0.key_view(),
            ) && self@[self.entries()[i].0.key_view()] == self.entries()[i].1,
            forall|k: Seq<u8>| self@.contains_key(k) <==> has_key(self.entries(), k),
    {
        assert forall|i: int| 0 <= i < self.entries().len() implies #[trigger] self@.contains_key(
            self.entries()[i].0.key_view(),
        ) && self@[self.entries()[i].0.key_view()] == self.entries()[i].1 by {
            let k = self.entries()[i].0.key_view();
            assert(has_key(self.contents@, k));
            let j = self.index_of(k);
            if j != i {
                if j < i {
                    lemma_bytes_lt_irreflexive(k);
                    assert(bytes_lt(self.contents@[j].0.key_view(), self.contents@[i].0.key_view()));
                } else {
                    lemma_bytes_lt_irreflexive(k);
                    assert(bytes_lt(self.contents@[i].0.key_view(), self.contents@[j].0.key_view()));
                }
            }
        }
    }

    /// An empty map.
    pub fn new() -> (r: Self)
        ensures
            r.wf(),
            r@ == vstd::map::Map::<Seq<u8>, V>::empty(),
            r.entries().len() == 0,
    {
        let r = SortedMap { contents: Vec::new() };
        assert(r@ =~= vstd::map::Map::<Seq<u8>, V>::empty());
        r
    }

    /// Whether the map holds no entry.
    pub fn is_empty(&self) -> (r: bool)
        requires
            self.wf(),
        ensures
            r == (self@ == vstd::map::Map::<Seq<u8>, V>::empty()),
            r == (self.entries().len() == 0),
    {
        proof {
            self.lemma_entries_in_view();
            if self.contents@.len() > 0 {
                assert(self@.contains_key(self.contents@[0].0.key_view()));
                assert(!vstd::map::Map::<Seq<u8>, V>::empty().contains_key(self.contents@[0].0.key_view()));
            } else {
                assert(self@ =~= vstd::map::Map::<Seq<u8>, V>::empty());
            }
        }
        self.contents.len() == 0
    }

    /// The number of entries.
    pub fn len(&self) -> (r: usize)
        ensures
            r == self.entries().len(),
    {
        self.contents.len()
    }

    /// The entries, in increasing order of key.
    pub fn iter(&self) -> (r: &[(K, V)])
        ensures
            r@ == self.entries(),
            self.wf() ==> strictly_sorted(self.key_order()),
    {
        self.contents.as_slice()
    }

    /// Binary search for `key`: `Ok` with its place, or `Err` with the place
    /// where it would be inserted.
    fn search_for(&self, key: &K) -> (r: Result<usize, usize>)
        requires
            self.wf(),
        ensures
            r matches Ok(i) ==> i < self.entries().len() && self.entries()[i as int].0.key_view()
                == key.key_view(),
            r matches Err(i) ==> i <= self.entries().len() && (forall|j: int|
                0 <= j < i ==> bytes_lt(#[trigger] self.entries()[j].0.key_view(), key.key_view()))
                && (forall|j: int|
                i <= j < self.entries().len() ==> bytes_lt(
                    key.key_view(),
                    #[trigger] self.entries()[j].0.key_view(),
                )),
    {
        let kb = key.key_bytes();
        let mut lo: usize = 0;
        let mut hi: usize = self.contents.len();
        while lo < hi
            invariant
                self.wf(),
                kb@ == key.key_view(),
                lo <= hi <= self.contents@.len(),
                forall|j: int| 0 <= j < lo ==> bytes_lt(#[trigger] self.contents@[j].0.key_view(), kb@),
                forall|j: int| hi <= j < self.contents@.len() ==> bytes_lt(kb@, #[trigger] self.contents@[j].0.key_view()),
            decreases hi - lo,
        {
            let mid = lo + (hi - lo) / 2;
            let mb = self.contents[mid].0.key_bytes();
            let c = compare_bytes(mb.as_slice(), kb.as_slice());
            if c == 0 {
                return Ok(mid);
            } else if c < 0 {
                proof {
                    assert forall|j: int| 0 <= j <= mid implies bytes_lt(#[trigger] self.contents@[j].0.key_view(), kb@) by {
                        if j < mid {
                            lemma_bytes_lt_transitive(self.contents@[j].0.key_view(), mb@, kb@);
                        }
                    }
                }
                lo = mid + 1;
            } else {
                proof {
                    assert forall|j: int| mid <= j < self.contents@.len() implies bytes_lt(kb@, #[trigger] self.contents@[j].0.key_view()) by {
                        if j > mid {
                            lemma_bytes_lt_transitive(kb@, mb@, self.contents@[j].0.key_view());
                        }
                    }
                }
                hi = mid;
            }
        }
        Err(lo)
    }

    /// The value under `key`, if any.
    pub fn get(&self, key: &K) -> (r: Option<&V>)
        requires
            self.wf(),
        ensures
            r.is_some() == self@.contains_key(key.key_view()),
            r matches Some(v) ==> *v == self@[key.key_view()],
    {
        proof {
            self.lemma_entries_in_view();
        }
        match self.search_for(key) {
            Ok(i) => Some(&self.contents[i].1),
            Err(i) => {
                proof {
                    if has_key(self.contents@, key.key_view()) {
                        let j = choose|j: int| 0 <= j < self.contents@.len() && self.contents@[j].0.key_view() == key.key_view();
                        lemma_bytes_lt_irreflexive(key.key_view());
                        if j < i {
                            assert(bytes_lt(self.contents@[j].0.key_view(), key.key_view()));
                        } else {
                            assert(bytes_lt(key.key_view(), self.contents@[j].0.key_view()));
                        }
                    }
                }
                None
            },
        }
    }

    /// Inserts `value` under `key`, returning the value that was there before.
    pub fn insert(&mut self, key: K, value: V) -> (r: Option<V>)
        requires
            old(self).wf(),
        ensures
            final(self).wf(),
            final(self)@ == old(self)@.insert(key.key_view(), value),
            r == if old(self)@.contains_key(key.key_view()) {
                Some(old(self)@[key.key_view()])
            } else {
                None::<V>
            },
    {
        proof {
            self.lemma_entries_in_view();
        }
        let ghost k = key.key_view();
        match self.search_for(&key) {
            Ok(i) => {
                let (_, previous) = self.contents.remove(i);
                self.contents.insert(i, (key, value));
                proof {
                    assert(sorted_by_key(self.contents@)) by {
                        assert forall|a: int, b: int| 0 <= a < b < self.contents@.len() implies bytes_lt(
                            #[trigger] self.contents@[a].0.key_view(),
                            #[trigger] self.contents@[b].0.key_view(),
                        ) by {
                            assert(old(self).contents@[a].0.key_view() == self.contents@[a].0.key_view());
                            assert(old(self).contents@[b].0.key_view() == self.contents@[b].0.key_view());
                        }
                    }
                    self.lemma_entries_in_view();
                    assert forall|q: Seq<u8>| has_key(self.contents@, q) <==> has_key(old(self).contents@, q) by {
                        if has_key(self.contents@, q) {
                            let j = choose|j: int| 0 <= j < self.contents@.len() && self.contents@[j].0.key_view() == q;
                            assert(old(self).contents@[j].0.key_view() == q);
                        }
                        if has_key(old(self).contents@, q) {
                            let j = choose|j: int| 0 <= j < old(self).contents@.len() && old(self).contents@[j].0.key_view() == q;
                            assert(self.contents@[j].0.key_view() == q);
                        }
                    }
                    assert(final(self)@ =~= old(self)@.insert(k, value)) by {
                        assert forall|q: Seq<u8>| #[trigger] final(self)@.contains_key(q) implies final(self)@[q] == old(self)@.insert(k, value)[q] by {
                            let j = choose|j: int| 0 <= j < self.contents@.len() && self.contents@[j].0.key_view() == q;
                            if j != i {
                                assert(old(self).contents@[j] == self.contents@[j]);
                            }
                        }
                    }
                }
                Some(previous)
            },
            Err(i) => {
                self.contents.insert(i, (key, value));
                proof {
                    assert(sorted_by_key(self.contents@)) by {
                        assert forall|a: int, b: int| 0 <= a < b < self.contents@.len() implies bytes_lt(
                            #[trigger] self.contents@[a].0.key_view(),
                            #[trigger] self.contents@[b].0.key_view(),
                        ) by {
                            if a < i && b > i {
                                assert(self.contents@[b] == old(self).contents@[b - 1]);
                            } else if a == i {
                                assert(self.contents@[b] == old(self).contents@[b - 1]);
                            } else if b == i {
                            } else if a > i {
                                assert(self.contents@[a] == old(self).contents@[a - 1]);
                                assert(self.contents@[b] == old(self).contents@[b - 1]);
                            }
                        }
                    }
                    self.lemma_entries_in_view();
                    if has_key(old(self).contents@, k) {
                        let j = choose|j: int| 0 <= j < old(self).contents@.len() && old(self).contents@[j].0.key_view() == k;
                        lemma_bytes_lt_irreflexive(k);
                        if j < i {
                            assert(bytes_lt(old(self).contents@[j].0.key_view(), k));
                        } else {
                            assert(bytes_lt(k, old(self).contents@[j].0.key_view()));
                        }
                    }
                    assert(final(self)@ =~= old(self)@.insert(k, value)) by {
                        assert forall|q: Seq<u8>| #[trigger] final(self)@.contains_key(q) <==> old(self)@.insert(k, value).contains_key(q) by {
                            if has_key(self.contents@, q) {
                                let j = choose|j: int| 0 <= j < self.contents@.len() && self.contents@[j].0.key_view() == q;
                                if j < i {
                                    assert(old(self).contents@[j] == self.contents@[j]);
                                } else if j > i {
                                    assert(old(self).contents@[j - 1] == self.contents@[j]);
                                }
                            }
                            if has_key(old(self).contents@, q) {
                                let j = choose|j: int| 0 <= j < old(self).contents@.len() && old(self).contents@[j].0.key_view() == q;
                                if j < i {
                                    assert(self.contents@[j].0.key_view() == q);
                                } else {
                                    assert(self.contents@[j + 1].0.key_view() == q);
                                }
                            }
                            if q == k {
                                assert(self.contents@[i as int].0.key_view() == q);
                                assert(has_key(self.contents@, q));
                            }
                        }
                        assert forall|q: Seq<u8>| #[trigger] final(self)@.contains_key(q) implies final(self)@[q] == old(self)@.insert(k, value)[q] by {
                            let j = choose|j: int| 0 <= j < self.contents@.len() && self.contents@[j].0.key_view() == q;
                            if j < i {
                                assert(old(self).contents@[j] == self.contents@[j]);
                            } else if j > i {
                                assert(old(self).contents@[j - 1] == self.contents@[j]);
                            }
                        }
                    }
                }
                None
            },
        }
    }

    /// Removes `key`, returning the value that was under it.
    pub fn remove(&mut self, key: &K) -> (r: Option<V>)
        requires
            old(self).wf(),
        ensures
            final(self).wf(),
            final(self)@ == old(self)@.remove(key.key_view()),
            r == if old(self)@.contains_key(key.key_view()) {
                Some(old(self)@[key.key_view()])
            } else {
                None::<V>
            },
    {
        proof {
            self.lemma_entries_in_view();
        }
        let ghost k = key.key_view();
        match self.search_for(key) {
            Ok(i) => {
                let (_, v) = self.contents.remove(i);
                proof {
                    assert(sorted_by_key(self.contents@)) by {
                        assert forall|a: int, b: int| 0 <= a < b < self.contents@.len() implies bytes_lt(
                            #[trigger] self.contents@[a].0.key_view(),
                            #[trigger] self.contents@[b].0.key_view(),
                        ) by {
                            if a >= i {
                                assert(self.contents@[a] == old(self).contents@[a + 1]);
                            }
                            if b >= i {
                                assert(self.contents@[b] == old(self).contents@[b + 1]);
                            }
                        }
                    }
                    self.lemma_entries_in_view();
                    assert(final(self)@ =~= old(self)@.remove(k)) by {
                        assert forall|q: Seq<u8>| #[trigger] final(self)@.contains_key(q) <==> old(self)@.remove(k).contains_key(q) by {
                            if has_key(self.contents@, q) {
                                let j = choose|j: int| 0 <= j < self.contents@.len() && self.contents@[j].0.key_view() == q;
                                lemma_bytes_lt_irreflexive(k);
                                if j < i {
                                    assert(old(self).contents@[j] == self.contents@[j]);
                                    assert(bytes_lt(old(self).contents@[j].0.key_view(), k));
                                } else {
                                    assert(old(self).contents@[j + 1] == self.contents@[j]);
                                    assert(bytes_lt(k, old(self).contents@[j + 1].0.key_view()));
                                }
                            }
                            if has_key(old(self).contents@, q) && q != k {
                                let j = choose|j: int| 0 <= j < old(self).contents@.len() && old(self).contents@[j].0.key_view() == q;
                                if j < i {
                                    assert(self.contents@[j].0.key_view() == q);
                                } else if j > i {
                                    assert(self.contents@[j - 1].0.key_view() == q);
                                }
                            }
                        }
                        assert forall|q: Seq<u8>| #[trigger] final(self)@.contains_key(q) implies final(self)@[q] == old(self)@.remove(k)[q] by {
                            let j = choose|j: int| 0 <= j < self.contents@.len() && self.contents@[j].0.key_view() == q;
                            if j < i {
                                assert(old(self).contents@[j] == self.contents@[j]);
                            } else {
                                assert(old(self).contents@[j + 1] == self.contents@[j]);
                            }
                        }
                    }
                }
                Some(v)
            },
            Err(i) => {
                proof {
                    if has_key(old(self).contents@, k) {
                        let j = choose|j: int| 0 <= j < old(self).contents@.len() && old(self).contents@[j].0.key_view() == k;
                        lemma_bytes_lt_irreflexive(k);
                        if j < i {
                            assert(bytes_lt(old(self).contents@[j].0.key_view(), k));
                        } else {
                            assert(bytes_lt(k, old(self).contents@[j].0.key_view()));
                        }
                    }
                    assert(final(self)@ =~= old(self)@.remove(k));
                }
                None
            },
        }
    }

    /// Removes the entries on which `filter` holds and returns them, in order.
    pub fn extract_if<F: Fn(&K, &V) -> bool>(&mut self, filter: F) -> (r: Vec<(K, V)>)
        requires
            old(self).wf(),
            forall|k: &K, v: &V| filter.requires((k, v)),
        ensures
            final(self).wf(),
            exists|mask: Seq<bool>|
                #![trigger select(old(self).entries(), mask, true)]
                mask.len() == old(self).entries().len() && (forall|i: int|
                    0 <= i < mask.len() ==> filter.ensures(
                        (&old(self).entries()[i].0, &old(self).entries()[i].1),
                        #[trigger] mask[i],
                    )) && r@ == select(old(self).entries(), mask, true) && final(self).entries()
                    == select(old(self).entries(), mask, false),
    {
        let ghost src0 = self.contents@;
        let mut taken: Vec<(K, V)> = Vec::new();
        let mut kept: Vec<(K, V)> = Vec::new();
        let ghost mut mask: Seq<bool> = Seq::empty();
        let ghost mut i: int = 0;
        while self.contents.len() > 0
            invariant
                forall|k: &K, v: &V| filter.requires((k, v)),
                sorted_by_key(src0),
                0 <= i <= src0.len(),
                self.contents@ == src0.subrange(i, src0.len() as int),
                mask.len() == i,
                forall|j: int| 0 <= j < i ==> filter.ensures((&src0[j].0, &src0[j].1), #[trigger] mask[j]),
                taken@ == select(src0.subrange(0, i), mask, true),
                kept@ == select(src0.subrange(0, i), mask, false),
                sorted_by_key(kept@),
                forall|a: int, j: int| 0 <= a < kept@.len() && i <= j < src0.len() ==> bytes_lt(
                    #[trigger] kept@[a].0.key_view(),
                    #[trigger] src0[j].0.key_view(),
                ),
            decreases src0.len() - i,
        {
            let e = self.contents.remove(0);
            let b = filter(&e.0, &e.1);
            proof {
                assert(e == src0[i]);
                assert(src0.subrange(0, i + 1).drop_last() =~= src0.subrange(0, i));
                assert(mask.push(b).drop_last() =~= mask);
            }
            if b {
                taken.push(e);
            } else {
                kept.push(e);
            }
            proof {
                mask = mask.push(b);
                i = i + 1;
                assert(self.contents@ =~= src0.subrange(i, src0.len() as int));
            }
        }
        proof {
            assert(src0.subrange(0, i) =~= src0);
        }
        self.contents = kept;
        proof {
            assert(old(self).entries() == src0);
            assert(taken@ == select(old(self).entries(), mask, true));
        }
        taken
    }

    /// Two maps that hold the same entries hold them in the same order.
    pub proof fn lemma_same_view_same_order(m1: Self, m2: Self)
        requires
            m1.wf(),
            m2.wf(),
            m1@ == m2@,
        ensures
            m1.key_order() == m2.key_order(),
    {
        m1.lemma_entries_in_view();
        m2.lemma_entries_in_view();
        let s1 = m1.key_order();
        let s2 = m2.key_order();
        assert forall|x: Seq<u8>| s1.contains(x) <==> s2.contains(x) by {
            if s1.contains(x) {
                let i = choose|i: int| 0 <= i < s1.len() && s1[i] == x;
                assert(m1@.contains_key(m1.entries()[i].0.key_view()));
                let j = choose|j: int| 0 <= j < m2.entries().len() && m2.entries()[j].0.key_view() == x;
                assert(s2[j] == x);
            }
            if s2.contains(x) {
                let i = choose|i: int| 0 <= i < s2.len() && s2[i] == x;
                assert(m2@.contains_key(m2.entries()[i].0.key_view()));
                let j = choose|j: int| 0 <= j < m1.entries().len() && m1.entries()[j].0.key_view() == x;
                assert(s1[j] == x);
            }
        }
        lemma_sorted_same_elements(s1, s2);
    }
}


/// Whether the byte strings of `s` strictly increase.
pub open spec fn strictly_sorted(s: Seq<Seq<u8>>) -> bool {
    forall|a: int, b: int| 0 <= a < b < s.len() ==> bytes_lt(#[trigger] s[a], #[trigger] s[b])
}

/// Two strictly sorted sequences with the same elements are equal.
pub proof fn lemma_sorted_same_elements(s1: Seq<Seq<u8>>, s2: Seq<Seq<u8>>)
    requires
        strictly_sorted(s1),
        strictly_sorted(s2),
        forall|x: Seq<u8>| s1.contains(x) <==> s2.contains(x),
    ensures
        s1 == s2,
    decreases s1.len() + s2.len(),
{
    if s1.len() == 0 {
        if s2.len() > 0 {
            assert(s2.contains(s2[0]));
        }
        assert(s1 =~= s2);
    } else if s2.len() == 0 {
        assert(s1.contains(s1[0]));
    } else {
        assert(s1.contains(s1[0]));
        assert(s2.contains(s2[0]));
        let j = choose|j: int| 0 <= j < s2.len() && s2[j] == s1[0];
        let i = choose|i: int| 0 <= i < s1.len() && s1[i] == s2[0];
        if j > 0 && i > 0 {
            assert(bytes_lt(s2[0], s2[j]));
            assert(bytes_lt(s1[0], s1[i]));
            lemma_bytes_lt_asymmetric(s1[0], s2[0]);
        } else if j > 0 {
            assert(bytes_lt(s2[0], s2[j]));
            lemma_bytes_lt_irreflexive(s2[0]);
        } else if i > 0 {
            assert(bytes_lt(s1[0], s1[i]));
            lemma_bytes_lt_irreflexive(s1[0]);
        }
        assert(s1[0] == s2[0]);
        let t1 = s1.drop_first();
        let t2 = s2.drop_first();
        assert forall|x: Seq<u8>| t1.contains(x) <==> t2.contains(x) by {
            if t1.contains(x) {
                let a = choose|a: int| 0 <= a < t1.len() && t1[a] == x;
                assert(bytes_lt(s1[0], s1[a + 1]));
                lemma_bytes_lt_irreflexive(x);
                assert(s1.contains(x));
                let b = choose|b: int| 0 <= b < s2.len() && s2[b] == x;
                assert(b != 0);
                assert(t2[b - 1] == x);
            }
            if t2.contains(x) {
                let a = choose|a: int| 0 <= a < t2.len() && t2[a] == x;
                assert(bytes_lt(s2[0], s2[a + 1]));
                lemma_bytes_lt_irreflexive(x);
                assert(s2.contains(x));
                let b = choose|b: int| 0 <= b < s1.len() && s1[b] == x;
                assert(b != 0);
                assert(t1[b - 1] == x);
            }
        }
        assert(strictly_sorted(t1)) by {
            assert forall|a: int, b: int| 0 <= a < b < t1.len() implies bytes_lt(#[trigger] t1[a], #[trigger] t1[b]) by {
                assert(t1[a] == s1[a + 1] && t1[b] == s1[b + 1]);
            }
        }
        assert(strictly_sorted(t2)) by {
            assert forall|a: int, b: int| 0 <= a < b < t2.len() implies bytes_lt(#[trigger] t2[a], #[trigger] t2[b]) by {
                assert(t2[a] == s2[a + 1] && t2[b] == s2[b + 1]);
            }
        }
        lemma_sorted_same_elements(t1, t2);
        assert(s1 =~= seq![s1[0]] + t1);
        assert(s2 =~= seq![s2[0]] + t2);
    }
}

/// A property map's contents and their order do not depend on the order in
/// which two properties with different names were inserted.
pub proof fn lemma_insertion_order_independent<V>(
    first: SortedMap<Vec<u8>, V>,
    second: SortedMap<Vec<u8>, V>,
    base: vstd::map::Map<Seq<u8>, V>,
    a: Seq<u8>,
    x: V,
    b: Seq<u8>,
    y: V,
)
    requires
        first.wf(),
        second.wf(),
        a != b,
        first@ == base.insert(b, y).insert(a, x),
        second@ == base.insert(a, x).insert(b, y),
    ensures
        first@ == second@,
        first.key_order() == second.key_order(),
        strictly_sorted(first.key_order()),
{
    assert(first@ =~= second@);
    SortedMap::lemma_same_view_same_order(first, second);
}

} // verus!
