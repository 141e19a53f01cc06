//! A map keyed by text (screen labels), kept as a vector of pairs in which no
//! key occurs twice. Its view is a `Map` from the key's characters to the value.
use vstd::prelude::*;

verus! {

/// Entry `i` of `s` holds key `k`.
pub open spec fn key_at<V>(s: Seq<(String, V)>, k: Seq<char>, i: int) -> bool {
    0 <= i < s.len() && s[i].0@ == k
}

/// No key occurs twice in `s`.
pub open spec fn keys_distinct<V>(s: Seq<(String, V)>) -> bool {
    forall|i: int, j: int| 0 <= i < s.len() && 0 <= j < s.len() && i != j ==> s[i].0@ != s[j].0@
}

/// The map that a sequence of pairs with distinct keys stands for.
pub open spec fn pairs_map<V>(s: Seq<(String, V)>) -> Map<Seq<char>, V> {
    Map::new(
        |k: Seq<char>| exists|i: int| key_at(s, k, i),
        |k: Seq<char>| s[choose|i: int| key_at(s, k, i)].1,
    )
}

/// The state tables of the app (screen label to wallpaper path, to pause state, to
/// stored assignment). vstd specifies the standard hash map only for key types known
/// to obey its key model, and `String` is not among them, so the table is a vector of
/// pairs whose `get`, `insert` and `remove` are proved against the
/// `Map` view; the tables hold one entry per screen.
pub struct StrMap<V> {
    entries: Vec<(String, V)>,
}

impl<V> View for StrMap<V> {
    type V = Map<Seq<char>, V>;

    closed spec fn view(&self) -> Map<Seq<char>, V> {
        pairs_map(self.entries@)
    }
}

proof fn lemma_pairs_map_at<V>(s: Seq<(String, V)>, i: int)
    requires
        keys_distinct(s),
        0 <= i < s.len(),
    ensures
        pairs_map(s).dom().contains(s[i].0@),
        pairs_map(s)[s[i].0@] == s[i].1,
{
    let k = s[i].0@;
    assert(key_at(s, k, i));
    let j = choose|j: int| key_at(s, k, j);
    assert(j == i);
}

impl<V> StrMap<V> {
    #[verifier::type_invariant]
    closed spec fn inv(&self) -> bool {
        keys_distinct(self.entries@)
    }

    /// An empty map.
    pub fn new() -> (r: Self)
        ensures
            r@ == Map::<Seq<char>, V>::empty(),
    {
        let r = StrMap { entries: Vec::new() };
        assert(r@ =~= Map::<Seq<char>, V>::empty());
        r
    }

    fn find(&self, k: &str) -> (r: Option<usize>)
        ensures
            match r {
                Some(i) => key_at(self.entries@, k@, i as int),
                None => forall|i: int| !key_at(self.entries@, k@, i),
            },
    {
        let key: String = k.to_owned();
        let mut i: usize = 0;
        while i < self.entries.len()
            invariant
                key@ == k@,
                i <= self.entries.len(),
                forall|j: int| 0 <= j < i ==> !key_at(self.entries@, k@, j),
            decreases self.entries.len() - i,
        {
            if self.entries[i].0 == key {
                return Some(i);
            }
            i = i + 1;
        }
        None
    }

    /// Whether `k` has a value.
    pub fn contains_key(&self, k: &str) -> (r: bool)
        ensures
            r == self@.dom().contains(k@),
    {
        proof {
            use_type_invariant(self);
        }
        match self.find(k) {
            Some(i) => {
                proof {
                    lemma_pairs_map_at(self.entries@, i as int);
                }
                true
            },
            None => false,
        }
    }

    /// The value under `k`.
    pub fn get(&self, k: &str) -> (r: Option<&V>)
        ensures
            r is Some <==> self@.dom().contains(k@),
            r matches Some(v) ==> *v == self@[k@],
    {
        proof {
            use_type_invariant(self);
        }
        match self.find(k) {
            Some(i) => {
                proof {
                    lemma_pairs_map_at(self.entries@, i as int);
                }
                Some(&self.entries[i].1)
            },
            None => None,
        }
    }

    /// Sets the value under `k`, replacing any earlier one.
    pub fn insert(&mut self, k: String, v: V)
        ensures
            final(self)@ == old(self)@.insert(k@, v),
    {
        proof {
            use_type_invariant(&*self);
        }
        let ghost old_s = self.entries@;
        let ghost kv = k@;
        match self.find(k.as_str()) {
            Some(i) => {
                let mut es: Vec<(String, V)> = Vec::new();
                std::mem::swap(&mut es, &mut self.entries);
                es.set(i, (k, v));
                let ghost s = es@;
                proof {
                    assert(s == old_s.update(i as int, s[i as int]));
                    assert(keys_distinct(s));
                }
                self.entries = es;
                proof {
                    assert(s == old_s.update(i as int, s[i as int]));
                    assert forall|kk: Seq<char>| #[trigger] pairs_map(s).dom().contains(kk)
                        <==> old_s.len() >= 0 && pairs_map(old_s).insert(kv, v).dom().contains(
                        kk,
                    ) by {
                        if pairs_map(s).dom().contains(kk) {
                            let j = choose|j: int| key_at(s, kk, j);
                            if j != i {
                                assert(key_at(old_s, kk, j));
                            }
                        }
                        if pairs_map(old_s).dom().contains(kk) && kk != kv {
                            let j = choose|j: int| key_at(old_s, kk, j);
                            assert(key_at(s, kk, j));
                        }
                        if kk == kv {
                            assert(key_at(s, kk, i as int));
                        }
                    }
                    assert forall|kk: Seq<char>| #[trigger]
                        pairs_map(s).dom().contains(kk) implies pairs_map(s)[kk] == pairs_map(
                        old_s,
                    ).insert(kv, v)[kk] by {
                        let j = choose|j: int| key_at(s, kk, j);
                        lemma_pairs_map_at(s, j);
                        if j != i {
                            assert(key_at(old_s, kk, j));
                            lemma_pairs_map_at(old_s, j);
                        }
                    }
                    assert(pairs_map(s) =~= pairs_map(old_s).insert(kv, v));
                }
            },
            None => {
                let mut es: Vec<(String, V)> = Vec::new();
                std::mem::swap(&mut es, &mut self.entries);
                es.push((k, v));
                let ghost s = es@;
                proof {
                    let n = old_s.len() as int;
                    assert forall|a: int, b: int|
                        0 <= a < s.len() && 0 <= b < s.len() && a != b implies s[a].0@
                        != s[b].0@ by {
                        if a == n {
                            assert(s[b] == old_s[b]);
                            assert(!key_at(old_s, kv, b));
                        } else if b == n {
                            assert(s[a] == old_s[a]);
                            assert(!key_at(old_s, kv, a));
                        } else {
                            assert(s[a] == old_s[a]);
                            assert(s[b] == old_s[b]);
                        }
                    }
                }
                self.entries = es;
                proof {
                    let n = old_s.len() as int;
                    assert forall|kk: Seq<char>| #[trigger] pairs_map(s).dom().contains(kk)
                        <==> pairs_map(old_s).insert(kv, v).dom().contains(kk) by {
                        if pairs_map(s).dom().contains(kk) {
                            let j = choose|j: int| key_at(s, kk, j);
                            if j != n {
                                assert(key_at(old_s, kk, j));
                            }
                        }
                        if pairs_map(old_s).dom().contains(kk) {
                            let j = choose|j: int| key_at(old_s, kk, j);
                            assert(key_at(s, kk, j));
                        }
                        if kk == kv {
                            assert(key_at(s, kk, n));
                        }
                    }
                    assert forall|kk: Seq<char>| #[trigger]
                        pairs_map(s).dom().contains(kk) implies pairs_map(s)[kk] == pairs_map(
                        old_s,
                    ).insert(kv, v)[kk] by {
                        let j = choose|j: int| key_at(s, kk, j);
                        lemma_pairs_map_at(s, j);
                        if j != n {
                            assert(key_at(old_s, kk, j));
                            lemma_pairs_map_at(old_s, j);
                        }
                    }
                    assert(pairs_map(s) =~= pairs_map(old_s).insert(kv, v));
                }
            },
        }
    }

    /// Drops the value under `k`, if any.
    pub fn remove(&mut self, k: &str)
        ensures
            final(self)@ == old(self)@.remove(k@),
    {
        proof {
            use_type_invariant(&*self);
        }
        let ghost old_s = self.entries@;
        match self.find(k) {
            Some(i) => {
                let mut es: Vec<(String, V)> = Vec::new();
                std::mem::swap(&mut es, &mut self.entries);
                let _ = es.remove(i);
                let ghost s = es@;
                proof {
                    assert(s =~= old_s.remove(i as int));
                    assert(keys_distinct(s)) by {
                        assert forall|a: int, b: int|
                            0 <= a < s.len() && 0 <= b < s.len() && a != b implies s[a].0@
                            != s[b].0@ by {
                            let a2 = if a < i { a } else { a + 1 };
                            let b2 = if b < i { b } else { b + 1 };
                            assert(s[a] == old_s[a2]);
                            assert(s[b] == old_s[b2]);
                        }
                    }
                }
                self.entries = es;
                proof {
                    assert forall|kk: Seq<char>| #[trigger] pairs_map(s).dom().contains(kk)
                        <==> pairs_map(old_s).remove(k@).dom().contains(kk) by {
                        if pairs_map(s).dom().contains(kk) {
                            let j = choose|j: int| key_at(s, kk, j);
                            if j < i {
                                assert(key_at(old_s, kk, j));
                            } else {
                                assert(key_at(old_s, kk, j + 1));
                            }
                        }
                        if pairs_map(old_s).dom().contains(kk) && kk != k@ {
                            let j = choose|j: int| key_at(old_s, kk, j);
                            if j < i {
                                assert(key_at(s, kk, j));
                            } else {
                                assert(j != i);
                                assert(key_at(s, kk, j - 1));
                            }
                        }
                    }
                    assert forall|kk: Seq<char>| #[trigger]
                        pairs_map(s).dom().contains(kk) implies pairs_map(s)[kk] == pairs_map(
                        old_s,
                    ).remove(k@)[kk] by {
                        let j = choose|j: int| key_at(s, kk, j);
                        lemma_pairs_map_at(s, j);
                        if j < i {
                            lemma_pairs_map_at(old_s, j);
                        } else {
                            lemma_pairs_map_at(old_s, j + 1);
                        }
                    }
                    assert(pairs_map(s) =~= pairs_map(old_s).remove(k@));
                }
            },
            None => {
                proof {
                    assert(pairs_map(old_s) =~= pairs_map(old_s).remove(k@));
                }
            },
        }
    }

    /// Drops every value.
    pub fn clear(&mut self)
        ensures
            final(self)@ == Map::<Seq<char>, V>::empty(),
    {
        self.entries = Vec::new();
        assert(pairs_map(self.entries@) =~= Map::<Seq<char>, V>::empty());
    }

    /// Whether the map holds no value.
    pub fn is_empty(&self) -> (r: bool)
        ensures
            r == (self@ == Map::<Seq<char>, V>::empty()),
    {
        proof {
            use_type_invariant(self);
        }
        if self.entries.len() == 0 {
            assert(pairs_map(self.entries@) =~= Map::<Seq<char>, V>::empty());
            true
        } else {
            proof {
                lemma_pairs_map_at(self.entries@, 0);
                assert(!Map::<Seq<char>, V>::empty().dom().contains(self.entries@[0].0@));
            }
            false
        }
    }

    /// Number of keys.
    pub fn len(&self) -> (r: usize)
        ensures
            r == self@.dom().len(),
    {
        proof {
            use_type_invariant(self);
            lemma_pairs_map_len(self.entries@);
        }
        self.entries.len()
    }

    /// The pairs of the map, each key once.
    pub fn pairs(&self) -> (r: &Vec<(String, V)>)
        ensures
            keys_distinct(r@),
            pairs_map(r@) == self@,
    {
        proof {
            use_type_invariant(self);
        }
        &self.entries
    }
}

proof fn lemma_pairs_map_len<V>(s: Seq<(String, V)>)
    requires
        keys_distinct(s),
    ensures
        pairs_map(s).dom().finite(),
        pairs_map(s).dom().len() == s.len(),
    decreases s.len(),
{
    if s.len() == 0 {
        assert(pairs_map(s).dom() =~= Set::<Seq<char>>::empty());
    } else {
        let t = s.drop_last();
        let k = s.last().0@;
        lemma_pairs_map_len(t);
        assert forall|kk: Seq<char>| #[trigger] pairs_map(s).dom().contains(kk)
            <==> pairs_map(t).dom().insert(k).contains(kk) by {
            if pairs_map(s).dom().contains(kk) {
                let j = choose|j: int| key_at(s, kk, j);
                if j < t.len() {
                    assert(key_at(t, kk, j));
                }
            }
            if pairs_map(t).dom().contains(kk) {
                let j = choose|j: int| key_at(t, kk, j);
                assert(key_at(s, kk, j));
            }
            if kk == k {
                assert(key_at(s, kk, s.len() - 1));
            }
        }
        assert(pairs_map(s).dom() =~= pairs_map(t).dom().insert(k));
        assert(!pairs_map(t).dom().contains(k)) by {
            if pairs_map(t).dom().contains(k) {
                let j = choose|j: int| key_at(t, k, j);
                assert(s[j].0@ == s[s.len() - 1].0@);
            }
        }
    }
}

} // verus!
