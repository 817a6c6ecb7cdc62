//! The placeholder table: an insertion-ordered map from placeholder text to
//! its replacement.

use vstd::prelude::*;

verus! {

/// String equality (`<str as PartialEq>::eq`).
#[verifier::external_body]
pub(crate) fn str_equal(a: &str, b: &str) -> (r: bool)
    ensures
        r == (a@ == b@),
{
    a == b
}

/// Whether no key occurs twice.
pub open spec fn keys_distinct(s: Seq<(Seq<char>, Seq<char>)>) -> bool {
    forall|i: int, j: int| 0 <= i < j < s.len() ==> (#[trigger] s[i]).0 != (#[trigger] s[j]).0
}

/// The position of the first entry with key `k`, or `-1` when there is none.
pub open spec fn key_index(s: Seq<(Seq<char>, Seq<char>)>, k: Seq<char>) -> int
    decreases s.len(),
{
    if s.len() == 0 {
        -1
    } else if s[0].0 == k {
        0
    } else {
        let r = key_index(s.drop_first(), k);
        if r == -1 {
            -1
        } else {
            r + 1
        }
    }
}

/// The value stored under `k`, if any.
pub open spec fn lookup(s: Seq<(Seq<char>, Seq<char>)>, k: Seq<char>) -> Option<Seq<char>> {
    let i = key_index(s, k);
    if i >= 0 {
        Some(s[i].1)
    } else {
        None
    }
}

/// The table after setting `k` to `v`: an existing entry keeps its position
/// and takes the new value; a new key goes at the end.
pub open spec fn insert_entry(s: Seq<(Seq<char>, Seq<char>)>, k: Seq<char>, v: Seq<char>) -> Seq<
    (Seq<char>, Seq<char>),
> {
    let i = key_index(s, k);
    if i >= 0 {
        s.update(i, (k, v))
    } else {
        s.push((k, v))
    }
}

/// Facts about `key_index`.
pub proof fn lemma_key_index(s: Seq<(Seq<char>, Seq<char>)>, k: Seq<char>)
    ensures
        -1 <= key_index(s, k) < s.len(),
        key_index(s, k) >= 0 ==> s[key_index(s, k)].0 == k,
        key_index(s, k) >= 0 ==> forall|j: int| 0 <= j < key_index(s, k) ==> s[j].0 != k,
        key_index(s, k) == -1 ==> forall|j: int| 0 <= j < s.len() ==> s[j].0 != k,
    decreases s.len(),
{
    if s.len() > 0 {
        let t = s.drop_first();
        lemma_key_index(t, k);
        if s[0].0 != k {
            assert forall|j: int| 0 <= j < key_index(s, k) implies s[j].0 != k by {
                if j > 0 {
                    assert(s[j] == t[j - 1]);
                }
            }
            assert forall|j: int| 0 <= j < s.len() && key_index(s, k) == -1 implies s[j].0 != k by {
                if j > 0 {
                    assert(s[j] == t[j - 1]);
                }
            }
        }
    }
}

/// `key_index` is the first position holding the key.
pub proof fn lemma_key_index_first(s: Seq<(Seq<char>, Seq<char>)>, k: Seq<char>, i: int)
    requires
        0 <= i < s.len(),
        s[i].0 == k,
        forall|j: int| 0 <= j < i ==> s[j].0 != k,
    ensures
        key_index(s, k) == i,
{
    lemma_key_index(s, k);
}

/// `key_index` is `-1` when no entry holds the key.
pub proof fn lemma_key_index_absent(s: Seq<(Seq<char>, Seq<char>)>, k: Seq<char>)
    requires
        forall|j: int| 0 <= j < s.len() ==> s[j].0 != k,
    ensures
        key_index(s, k) == -1,
{
    lemma_key_index(s, k);
}

/// Insertion-ordered placeholder table; no key occurs twice.
#[derive(Debug)]
pub struct PlaceholderMap {
    entries: Vec<(String, String)>,
}

impl View for PlaceholderMap {
    type V = Seq<(Seq<char>, Seq<char>)>;

    closed spec fn view(&self) -> Seq<(Seq<char>, Seq<char>)> {
        self.entries@.map_values(|e: (String, String)| (e.0@, e.1@))
    }
}

impl PlaceholderMap {
    /// No key occurs twice.
    #[verifier::type_invariant]
    spec fn keys_unique(self) -> bool {
        keys_distinct(self@)
    }

    /// An empty table.
    pub fn new() -> (r: PlaceholderMap)
        ensures
            r@ == Seq::<(Seq<char>, Seq<char>)>::empty(),
    {
        let r = PlaceholderMap { entries: Vec::new() };
        assert(r@ =~= Seq::<(Seq<char>, Seq<char>)>::empty());
        r
    }

    /// The number of entries.
    pub fn len(&self) -> (r: usize)
        ensures
            r == self@.len(),
            keys_distinct(self@),
    {
        proof {
            use_type_invariant(self);
        }
        self.entries.len()
    }

    /// Whether the table has no entries.
    pub fn is_empty(&self) -> (r: bool)
        ensures
            r == (self@.len() == 0),
    {
        self.entries.len() == 0
    }

    /// The entries, in insertion order; no key occurs twice.
    pub fn entries(&self) -> (r: &Vec<(String, String)>)
        ensures
            r@.map_values(|e: (String, String)| (e.0@, e.1@)) == self@,
            keys_distinct(self@),
    {
        proof {
            use_type_invariant(self);
        }
        &self.entries
    }

    /// The position of the entry with key `key`.
    fn find(&self, key: &str) -> (r: Option<usize>)
        ensures
            match r {
                Some(i) => key_index(self@, key@) == i as int && i < self@.len(),
                None => key_index(self@, key@) == -1,
            },
    {
        let mut i: usize = 0;
        proof {
            lemma_key_index(self@, key@);
        }
        while i < self.entries.len()
            invariant
                0 <= i <= self.entries@.len(),
                self@.len() == self.entries@.len(),
                forall|j: int| 0 <= j < i ==> self@[j].0 != key@,
            decreases self.entries@.len() - i,
        {
            assert(self@[i as int] == (self.entries@[i as int].0@, self.entries@[i as int].1@));
            if str_equal(self.entries[i].0.as_str(), key) {
                assert(self@[i as int].0 == key@);
                proof {
                    lemma_key_index(self@, key@);
                }
                return Some(i);
            }
            i = i + 1;
        }
        proof {
            lemma_key_index(self@, key@);
        }
        None
    }

    /// The value stored under `key` (`HashMap::get`).
    pub fn get(&self, key: &str) -> (r: Option<&String>)
        ensures
            match r {
                Some(v) => lookup(self@, key@) == Some(v@),
                None => lookup(self@, key@).is_none(),
            },
    {
        match self.find(key) {
            Some(i) => {
                assert(self@[i as int] == (self.entries@[i as int].0@, self.entries@[i as int].1@));
                Some(&self.entries[i].1)
            },
            None => None,
        }
    }

    /// Whether `key` has an entry.
    pub fn contains_key(&self, key: &str) -> (r: bool)
        ensures
            r == (key_index(self@, key@) >= 0),
    {
        self.find(key).is_some()
    }

    /// Sets `key` to `value` (`HashMap::insert`).
    pub fn insert(&mut self, key: String, value: String)
        ensures
            final(self)@ == insert_entry(old(self)@, key@, value@),
            keys_distinct(final(self)@),
    {
        proof {
            use_type_invariant(&*self);
            lemma_key_index(old(self)@, key@);
        }
        let found = self.find(key.as_str());
        let mut entries: Vec<(String, String)> = Vec::new();
        std::mem::swap(&mut entries, &mut self.entries);
        let ghost before = entries@.map_values(|e: (String, String)| (e.0@, e.1@));
        assert(before == old(self)@);
        let ghost k = key@;
        let ghost v = value@;
        match found {
            Some(i) => {
                entries.set(i, (key, value));
                assert(entries@.map_values(|e: (String, String)| (e.0@, e.1@)) =~= before.update(
                    i as int,
                    (k, v),
                ));
            },
            None => {
                entries.push((key, value));
                assert(entries@.map_values(|e: (String, String)| (e.0@, e.1@)) =~= before.push(
                    (k, v),
                ));
            },
        }
        self.entries = entries;
    }

    /// Builds a table from pairs; a later pair with the same key replaces the
    /// value of an earlier one.
    pub fn from_pairs(pairs: &[(String, String)]) -> (r: PlaceholderMap)
        ensures
            r@ == insert_all(Seq::empty(), pairs@.map_values(|e: (String, String)| (e.0@, e.1@))),
            keys_distinct(r@),
    {
        let ghost ps = pairs@.map_values(|e: (String, String)| (e.0@, e.1@));
        let mut m = PlaceholderMap::new();
        let n = pairs.len();
        let mut i: usize = 0;
        while i < n
            invariant
                n == ps.len(),
                n == pairs@.len(),
                ps == pairs@.map_values(|e: (String, String)| (e.0@, e.1@)),
                0 <= i <= n,
                m@ == insert_all(Seq::empty(), ps.take(i as int)),
                keys_distinct(m@),
            decreases n - i,
        {
            let k = pairs[i].0.clone();
            let v = pairs[i].1.clone();
            assert(ps.take(i + 1).drop_last() =~= ps.take(i as int));
            m.insert(k, v);
            i = i + 1;
        }
        assert(ps.take(n as int) =~= ps);
        m
    }
}

impl Clone for PlaceholderMap {
    /// A copy of the table.
    fn clone(&self) -> (r: PlaceholderMap)
        ensures
            r@ == self@,
    {
        proof {
            use_type_invariant(self);
        }
        let mut entries: Vec<(String, String)> = Vec::new();
        let mut i: usize = 0;
        while i < self.entries.len()
            invariant
                0 <= i <= self.entries@.len(),
                entries@.len() == i,
                entries@.map_values(|e: (String, String)| (e.0@, e.1@)) == self.entries@.take(
                    i as int,
                ).map_values(|e: (String, String)| (e.0@, e.1@)),
            decreases self.entries@.len() - i,
        {
            let k = self.entries[i].0.clone();
            let v = self.entries[i].1.clone();
            let ghost prev = entries@;
            entries.push((k, v));
            proof {
                let f = |e: (String, String)| (e.0@, e.1@);
                let t = self.entries@.take(i + 1);
                assert forall|j: int| 0 <= j <= i implies entries@.map_values(f)[j] == t.map_values(
                    f,
                )[j] by {
                    if j < i {
                        assert(entries@[j] == prev[j]);
                        assert(prev.map_values(f)[j] == self.entries@.take(i as int).map_values(f)[j]);
                    }
                }
                assert(entries@.map_values(f) =~= t.map_values(f));
            }
            i = i + 1;
        }
        assert(self.entries@.take(i as int) =~= self.entries@);
        PlaceholderMap { entries }
    }
}

/// The table after inserting each pair in order.
pub open spec fn insert_all(
    s: Seq<(Seq<char>, Seq<char>)>,
    pairs: Seq<(Seq<char>, Seq<char>)>,
) -> Seq<(Seq<char>, Seq<char>)>
    decreases pairs.len(),
{
    if pairs.len() == 0 {
        s
    } else {
        insert_entry(insert_all(s, pairs.drop_last()), pairs.last().0, pairs.last().1)
    }
}

/// After setting a key, looking it up gives the value just set.
pub proof fn law_lookup_after_insert(s: Seq<(Seq<char>, Seq<char>)>, k: Seq<char>, v: Seq<char>)
    ensures
        lookup(insert_entry(s, k, v), k) == Some(v),
{
    lemma_key_index(s, k);
    let t = insert_entry(s, k, v);
    lemma_key_index(t, k);
    if key_index(s, k) >= 0 {
        let i = key_index(s, k);
        if key_index(t, k) != i {
            assert(t[i].0 == k);
        }
    } else {
        if key_index(t, k) != s.len() {
            assert(t[s.len() as int].0 == k);
        }
    }
}

/// Setting a key leaves every other key's lookup unchanged.
pub proof fn law_lookup_other_after_insert(
    s: Seq<(Seq<char>, Seq<char>)>,
    k: Seq<char>,
    v: Seq<char>,
    other: Seq<char>,
)
    requires
        other != k,
    ensures
        lookup(insert_entry(s, k, v), other) == lookup(s, other),
{
    lemma_key_index(s, k);
    lemma_key_index(s, other);
    let t = insert_entry(s, k, v);
    assert forall|j: int| 0 <= j < s.len() implies (#[trigger] t[j]).0 == other <==> s[j].0 == other by {
        if key_index(s, k) >= 0 && j == key_index(s, k) {
        }
    }
    let i = key_index(s, other);
    if i >= 0 {
        assert(t[i] == s[i]);
        lemma_key_index_first(t, other, i);
    } else {
        if key_index(s, k) < 0 {
            assert(t[s.len() as int].0 == k);
        }
        lemma_key_index_absent(t, other);
    }
}

} // verus!
