//! A map from texts to texts, held as a list of entries with distinct keys.

use vstd::prelude::*;

use crate::text::text_eq;

verus! {

/// The map that a list of (key, value) pairs describes, later pairs taking
/// precedence over earlier ones.
pub open spec fn pairs_map(s: Seq<(Seq<char>, Seq<char>)>) -> Map<Seq<char>, Seq<char>>
    decreases s.len(),
{
    if s.len() == 0 {
        Map::empty()
    } else {
        pairs_map(s.drop_last()).insert(s.last().0, s.last().1)
    }
}

/// No key occurs twice in the list.
pub open spec fn distinct_keys(s: Seq<(Seq<char>, Seq<char>)>) -> bool {
    forall|i: int, j: int| 0 <= i < s.len() && 0 <= j < s.len() && i != j ==> s[i].0 != s[j].0
}

/// The keys of the list, in order.
pub open spec fn keys_of(s: Seq<(Seq<char>, Seq<char>)>) -> Seq<Seq<char>> {
    s.map_values(|p: (Seq<char>, Seq<char>)| p.0)
}

/// The position of the first pair that carries `k`, or the length of the
/// list when none does.
pub open spec fn key_position(s: Seq<(Seq<char>, Seq<char>)>, k: Seq<char>) -> int
    decreases s.len(),
{
    if s.len() == 0 {
        0
    } else if s[0].0 == k {
        0
    } else {
        1 + key_position(s.drop_first(), k)
    }
}

/// The entries after storing `v` under `k`: the value of the pair that
/// carries `k` is replaced where there is one, else the pair comes last.
pub open spec fn stored(s: Seq<(Seq<char>, Seq<char>)>, k: Seq<char>, v: Seq<char>) -> Seq<
    (Seq<char>, Seq<char>),
> {
    let i = key_position(s, k);
    if i < s.len() {
        s.update(i, (k, v))
    } else {
        s.push((k, v))
    }
}

/// The first pair that carries `k` is at `i` when none before does and the
/// pair at `i` does (or `i` is the end).
pub proof fn lemma_key_position(s: Seq<(Seq<char>, Seq<char>)>, k: Seq<char>, i: int)
    requires
        0 <= i <= s.len(),
        forall|j: int| 0 <= j < i ==> s[j].0 != k,
        i == s.len() || s[i].0 == k,
    ensures
        key_position(s, k) == i,
    decreases i,
{
    if i > 0 {
        lemma_key_position(s.drop_first(), k, i - 1);
    }
}

/// A key is in the map exactly when some pair carries it.
pub proof fn lemma_pairs_map_dom(s: Seq<(Seq<char>, Seq<char>)>, k: Seq<char>)
    ensures
        pairs_map(s).dom().contains(k) <==> exists|i: int| 0 <= i < s.len() && s[i].0 == k,
    decreases s.len(),
{
    if s.len() > 0 {
        lemma_pairs_map_dom(s.drop_last(), k);
        if exists|i: int| 0 <= i < s.drop_last().len() && s.drop_last()[i].0 == k {
            let i = choose|i: int| 0 <= i < s.drop_last().len() && s.drop_last()[i].0 == k;
            assert(s[i].0 == k);
        }
        if exists|i: int| 0 <= i < s.len() && s[i].0 == k {
            let i = choose|i: int| 0 <= i < s.len() && s[i].0 == k;
            if i < s.len() - 1 {
                assert(s.drop_last()[i].0 == k);
            }
        }
    }
}

/// With distinct keys, the map sends the key of each pair to its value.
pub proof fn lemma_pairs_map_value(s: Seq<(Seq<char>, Seq<char>)>, i: int)
    requires
        distinct_keys(s),
        0 <= i < s.len(),
    ensures
        pairs_map(s).dom().contains(s[i].0),
        pairs_map(s)[s[i].0] == s[i].1,
    decreases s.len(),
{
    if i < s.len() - 1 {
        let t = s.drop_last();
        assert(t[i] == s[i]);
        assert(distinct_keys(t)) by {
            assert forall|a: int, b: int|
                0 <= a < t.len() && 0 <= b < t.len() && a != b implies t[a].0 != t[b].0 by {
                assert(t[a] == s[a] && t[b] == s[b]);
            }
        }
        lemma_pairs_map_value(t, i);
        assert(s.last().0 != s[i].0);
    }
}

/// Replacing the value of the pair at `i` replaces the key's value in the map.
pub proof fn lemma_pairs_map_update(s: Seq<(Seq<char>, Seq<char>)>, i: int, v: Seq<char>)
    requires
        distinct_keys(s),
        0 <= i < s.len(),
    ensures
        pairs_map(s.update(i, (s[i].0, v))) =~= pairs_map(s).insert(s[i].0, v),
    decreases s.len(),
{
    let k = s[i].0;
    let u = s.update(i, (k, v));
    if i == s.len() - 1 {
        assert(u.drop_last() =~= s.drop_last());
    } else {
        let t = s.drop_last();
        assert(distinct_keys(t)) by {
            assert forall|a: int, b: int|
                0 <= a < t.len() && 0 <= b < t.len() && a != b implies t[a].0 != t[b].0 by {
                assert(t[a] == s[a] && t[b] == s[b]);
            }
        }
        assert(t[i] == s[i]);
        lemma_pairs_map_update(t, i, v);
        assert(u.drop_last() =~= t.update(i, (k, v)));
        assert(u.last() == s.last());
        assert(s.last().0 != k);
    }
}

/// A text-to-text map whose entries keep the order in which keys first
/// arrived.
pub struct StringMap {
    entries: Vec<(String, String)>,
}

impl StringMap {
    /// The entries as pairs of texts.
    pub closed spec fn pairs(&self) -> Seq<(Seq<char>, Seq<char>)> {
        self.entries@.map_values(|e: (String, String)| (e.0@, e.1@))
    }

    #[verifier::type_invariant]
    spec fn keys_distinct(&self) -> bool {
        distinct_keys(self.pairs())
    }

    /// The entries, in the order in which their keys first arrived.
    pub closed spec fn entry_seq(&self) -> Seq<(Seq<char>, Seq<char>)> {
        self.pairs()
    }

    /// The empty map.
    pub fn new() -> (r: StringMap)
        ensures
            r@ == Map::<Seq<char>, Seq<char>>::empty(),
            r.entry_seq() == Seq::<(Seq<char>, Seq<char>)>::empty(),
    {
        let r = StringMap { entries: Vec::new() };
        proof {
            assert(r.pairs() =~= Seq::<(Seq<char>, Seq<char>)>::empty());
        }
        r
    }

    /// The position of `key` among the entries, if it is there.
    fn find(&self, key: &str) -> (r: Option<usize>)
        ensures
            match r {
                Some(i) => i < self.entry_seq().len() && self.entry_seq()[i as int].0 == key@,
                None => forall|i: int|
                    0 <= i < self.entry_seq().len() ==> self.entry_seq()[i].0 != key@,
            },
    {
        let mut i: usize = 0;
        while i < self.entries.len()
            invariant
                i <= self.entries@.len(),
                forall|j: int| 0 <= j < i ==> self.pairs()[j].0 != key@,
            decreases self.entries@.len() - i,
        {
            if text_eq(self.entries[i].0.as_str(), key) {
                return Some(i);
            }
            i = i + 1;
        }
        None
    }

    /// The value stored under `key`.
    pub fn get(&self, key: &str) -> (r: Option<String>)
        ensures
            r is Some <==> self@.dom().contains(key@),
            r matches Some(v) ==> v@ == self@[key@],
    {
        proof {
            use_type_invariant(self);
            lemma_pairs_map_dom(self.pairs(), key@);
        }
        match self.find(key) {
            Some(i) => {
                proof {
                    lemma_pairs_map_value(self.pairs(), i as int);
                }
                Some(self.entries[i].1.clone())
            },
            None => {
                proof {
                    if self@.dom().contains(key@) {
                        let j = choose|j: int| 0 <= j < self.pairs().len() && self.pairs()[j].0 == key@;
                        assert(self.entry_seq()[j].0 != key@);
                    }
                }
                None
            },
        }
    }

    /// Stores `value` under `key`, replacing what was stored there. A key
    /// keeps the place where it first arrived; a new key comes last.
    pub fn insert(&mut self, key: String, value: String)
        ensures
            final(self)@ == old(self)@.insert(key@, value@),
            final(self).entry_seq() == stored(old(self).entry_seq(), key@, value@),
    {
        proof {
            use_type_invariant(&*self);
        }
        match self.find(key.as_str()) {
            Some(i) => {
                let ghost old_pairs = self.pairs();
                proof {
                    lemma_pairs_map_update(old_pairs, i as int, value@);
                    assert forall|j: int| 0 <= j < i implies old_pairs[j].0 != key@ by {
                        assert(old_pairs[j].0 != old_pairs[i as int].0);
                    }
                    lemma_key_position(old_pairs, key@, i as int);
                }
                let ghost vv = value@;
                let mut entries: Vec<(String, String)> = Vec::new();
                std::mem::swap(&mut entries, &mut self.entries);
                entries.set(i, (key, value));
                proof {
                    assert(entries@.map_values(|e: (String, String)| (e.0@, e.1@))
                        =~= old_pairs.update(i as int, (old_pairs[i as int].0, vv)));
                }
                self.entries = entries;
            },
            None => {
                let ghost old_pairs = self.pairs();
                let ghost old_seq = self.entry_seq();
                proof {
                    lemma_key_position(old_pairs, key@, old_pairs.len() as int);
                }
                let ghost kv = key@;
                let ghost vv = value@;
                let mut entries: Vec<(String, String)> = Vec::new();
                std::mem::swap(&mut entries, &mut self.entries);
                entries.push((key, value));
                proof {
                    let np = entries@.map_values(|e: (String, String)| (e.0@, e.1@));
                    assert(np =~= old_pairs.push((kv, vv)));
                    assert(np[old_pairs.len() as int] == (kv, vv));
                    assert(np.drop_last() =~= old_pairs);
                    assert(distinct_keys(np)) by {
                        assert forall|a: int, b: int|
                            0 <= a < np.len() && 0 <= b < np.len() && a != b implies np[a].0
                            != np[b].0 by {
                            if a < old_pairs.len() && b < old_pairs.len() {
                                assert(np[a] == old_pairs[a] && np[b] == old_pairs[b]);
                            } else if a < old_pairs.len() {
                                assert(np[a] == old_pairs[a]);
                                assert(old_seq[a].0 != kv);
                            } else if b < old_pairs.len() {
                                assert(np[b] == old_pairs[b]);
                                assert(old_seq[b].0 != kv);
                            }
                        }
                    }
                }
                self.entries = entries;
            },
        }
    }

    /// The number of keys.
    pub fn len(&self) -> (r: usize)
        ensures
            r == self.entry_seq().len(),
    {
        self.entries.len()
    }

    /// A copy of the entries, in the order in which their keys first arrived.
    pub fn entries(&self) -> (r: Vec<(String, String)>)
        ensures
            r@.map_values(|e: (String, String)| (e.0@, e.1@)) == self.entry_seq(),
            distinct_keys(self.entry_seq()),
            pairs_map(self.entry_seq()) == self@,
    {
        proof {
            use_type_invariant(self);
        }
        let mut r: Vec<(String, String)> = Vec::new();
        let mut i: usize = 0;
        while i < self.entries.len()
            invariant
                i <= self.entries@.len(),
                r@.len() == i,
                r@.map_values(|e: (String, String)| (e.0@, e.1@)) == self.pairs().take(i as int),
            decreases self.entries@.len() - i,
        {
            let k = self.entries[i].0.clone();
            let v = self.entries[i].1.clone();
            let ghost prev = r@;
            r.push((k, v));
            proof {
                assert(r@ == prev.push((k, v)));
                assert(self.pairs()[i as int] == (k@, v@));
                let m = r@.map_values(|e: (String, String)| (e.0@, e.1@));
                let t = self.pairs().take(i + 1);
                assert(m.len() == t.len());
                assert forall|j: int| 0 <= j < m.len() implies m[j] == t[j] by {
                    if j < i {
                        assert(prev.map_values(|e: (String, String)| (e.0@, e.1@))[j]
                            == self.pairs().take(i as int)[j]);
                        assert(m[j] == prev.map_values(|e: (String, String)| (e.0@, e.1@))[j]);
                    }
                }
                assert(m =~= t);
            }
            i = i + 1;
        }
        proof {
            assert(self.pairs().take(i as int) =~= self.pairs());
        }
        r
    }
}

impl View for StringMap {
    type V = Map<Seq<char>, Seq<char>>;

    closed spec fn view(&self) -> Map<Seq<char>, Seq<char>> {
        pairs_map(self.pairs())
    }
}

} // verus!
