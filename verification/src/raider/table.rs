//! A small map from text keys to values, kept as a list of entries in which a
//! later entry for a key stands over an earlier one.
use vstd::prelude::*;
use vstd::string::*;
use crate::text::str_eq;

verus! {

/// A key of a table: a text, or a pair of texts. Keys are compared by their
/// views; `first_part` is the text a key starts with.
pub trait TextKey: View + Sized {
    spec fn first_part(k: Self::V) -> Seq<char>;

    fn same_key(&self, other: &Self) -> (r: bool)
        ensures
            r == (self@ == other@);

    fn same_first(&self, other: &Self) -> (r: bool)
        ensures
            r == (Self::first_part(self@) == Self::first_part(other@));

    fn copy_key(&self) -> (r: Self)
        ensures
            r@ == self@;
}

impl TextKey for String {
    open spec fn first_part(k: Seq<char>) -> Seq<char> {
        k
    }

    fn same_key(&self, other: &Self) -> (r: bool) {
        str_eq(self.as_str(), other.as_str())
    }

    fn same_first(&self, other: &Self) -> (r: bool) {
        str_eq(self.as_str(), other.as_str())
    }

    fn copy_key(&self) -> (r: Self) {
        self.clone()
    }
}

impl TextKey for (String, String) {
    open spec fn first_part(k: (Seq<char>, Seq<char>)) -> Seq<char> {
        k.0
    }

    fn same_key(&self, other: &Self) -> (r: bool) {
        str_eq(self.0.as_str(), other.0.as_str()) && str_eq(self.1.as_str(), other.1.as_str())
    }

    fn same_first(&self, other: &Self) -> (r: bool) {
        str_eq(self.0.as_str(), other.0.as_str())
    }

    fn copy_key(&self) -> (r: Self) {
        (self.0.clone(), self.1.clone())
    }
}

/// The map a list of entries stands for: each entry over those before it.
pub open spec fn map_of<K: View, V>(es: Seq<(K, V)>) -> Map<K::V, V>
    decreases es.len(),
{
    if es.len() == 0 {
        Map::empty()
    } else {
        map_of(es.drop_last()).insert(es.last().0@, es.last().1)
    }
}

/// Whether a key is hit by a removal aimed at `target`: the same key, or (when
/// `whole` is false) a key with the same first part.
pub open spec fn hits<K: TextKey>(k: K::V, target: K::V, whole: bool) -> bool {
    if whole {
        k == target
    } else {
        K::first_part(k) == K::first_part(target)
    }
}

/// The entries that a removal aimed at `target` leaves, in order.
pub open spec fn without<K: TextKey, V>(es: Seq<(K, V)>, target: K::V, whole: bool) -> Seq<(K, V)>
    decreases es.len(),
{
    if es.len() == 0 {
        Seq::empty()
    } else {
        let r = without(es.drop_last(), target, whole);
        if hits::<K>(es.last().0@, target, whole) {
            r
        } else {
            r.push(es.last())
        }
    }
}

/// The keys a removal aimed at `target` takes out.
pub open spec fn hit_keys<K: TextKey>(target: K::V, whole: bool) -> Set<K::V> {
    Set::new(|k: K::V| hits::<K>(k, target, whole))
}

proof fn lemma_last_entry<K: View, V>(es: Seq<(K, V)>, i: int)
    requires
        0 <= i < es.len(),
        forall|j: int| i < j < es.len() ==> es[j].0@ != es[i].0@,
    ensures
        map_of(es).contains_key(es[i].0@),
        map_of(es)[es[i].0@] == es[i].1,
    decreases es.len(),
{
    if i < es.len() - 1 {
        lemma_last_entry(es.drop_last(), i);
    }
}

proof fn lemma_no_entry<K: View, V>(es: Seq<(K, V)>, k: K::V)
    requires
        forall|j: int| 0 <= j < es.len() ==> es[j].0@ != k,
    ensures
        !map_of(es).contains_key(k),
    decreases es.len(),
{
    if es.len() > 0 {
        lemma_no_entry(es.drop_last(), k);
    }
}

proof fn lemma_some_entry<K: View, V>(es: Seq<(K, V)>, k: K::V)
    requires
        map_of(es).contains_key(k),
    ensures
        exists|j: int| 0 <= j < es.len() && es[j].0@ == k,
    decreases es.len(),
{
    if es.len() > 0 && es.last().0@ != k {
        lemma_some_entry(es.drop_last(), k);
        let j = choose|j: int| 0 <= j < es.len() - 1 && es.drop_last()[j].0@ == k;
        assert(es[j].0@ == k);
    }
}

proof fn lemma_without_len<K: TextKey, V>(es: Seq<(K, V)>, target: K::V, whole: bool)
    ensures
        without(es, target, whole).len() <= es.len(),
    decreases es.len(),
{
    if es.len() > 0 {
        lemma_without_len(es.drop_last(), target, whole);
    }
}

proof fn lemma_without<K: TextKey, V>(es: Seq<(K, V)>, target: K::V, whole: bool)
    ensures
        map_of(without(es, target, whole)) == map_of(es).remove_keys(hit_keys::<K>(target, whole)),
    decreases es.len(),
{
    if es.len() > 0 {
        lemma_without(es.drop_last(), target, whole);
        let r = without(es.drop_last(), target, whole);
        if !hits::<K>(es.last().0@, target, whole) {
            assert(r.push(es.last()).drop_last() =~= r);
        }
        assert(map_of(without(es, target, whole)) =~= map_of(es).remove_keys(hit_keys::<K>(target, whole)));
    }
}

/// A map from text keys to values.
pub struct Table<K, V> {
    entries: Vec<(K, V)>,
}

impl<K: TextKey, V> View for Table<K, V> {
    type V = Map<K::V, V>;

    closed spec fn view(&self) -> Map<K::V, V> {
        map_of(self.entries@)
    }
}

impl<K: TextKey, V> Table<K, V> {
    /// An empty table.
    pub fn new() -> (r: Self)
        ensures
            r@ == Map::<K::V, V>::empty(),
    {
        Table { entries: Vec::new() }
    }

    /// Empties the table.
    pub fn clear(&mut self)
        ensures
            final(self)@ == Map::<K::V, V>::empty(),
    {
        self.entries = Vec::new();
    }

    /// Whether the table holds nothing.
    pub fn is_empty(&self) -> (r: bool)
        ensures
            r == (self@ == Map::<K::V, V>::empty()),
    {
        if self.entries.len() == 0 {
            true
        } else {
            proof {
                lemma_last_entry(self.entries@, self.entries@.len() - 1);
                assert(!Map::<K::V, V>::empty().contains_key(self.entries@.last().0@));
            }
            false
        }
    }

    /// The value of `key`.
    pub fn get(&self, key: &K) -> (r: Option<&V>)
        ensures
            match r {
                Some(v) => self@.contains_key(key@) && self@[key@] == *v,
                None => !self@.contains_key(key@),
            },
    {
        let mut j: usize = self.entries.len();
        while j > 0
            invariant
                j <= self.entries@.len(),
                forall|t: int| j <= t < self.entries@.len() ==> self.entries@[t].0@ != key@,
            decreases j,
        {
            if self.entries[j - 1].0.same_key(key) {
                proof {
                    lemma_last_entry(self.entries@, j - 1);
                }
                return Some(&self.entries[j - 1].1);
            }
            j = j - 1;
        }
        proof {
            lemma_no_entry(self.entries@, key@);
        }
        None
    }

    /// Takes out every key a removal aimed at `target` hits (see `hits`).
    fn remove_where(&mut self, target: &K, whole: bool)
        ensures
            final(self)@ == old(self)@.remove_keys(hit_keys::<K>(target@, whole)),
    {
        let ghost orig = self.entries@;
        let mut p: usize = 0;
        let mut i: usize = 0;
        let n = self.entries.len();
        while p < n
            invariant
                n == orig.len(),
                p <= n,
                self.entries@ == without(orig.subrange(0, p as int), target@, whole) + orig.subrange(p as int, n as int),
                i == without(orig.subrange(0, p as int), target@, whole).len(),
                i <= p,
            decreases n - p,
        {
            let ghost before = without(orig.subrange(0, p as int), target@, whole);
            proof {
                lemma_without_len(orig.subrange(0, p + 1), target@, whole);
                assert(orig.subrange(0, p + 1).drop_last() =~= orig.subrange(0, p as int));
                assert(self.entries@[i as int] == orig[p as int]);
            }
            let hit = if whole {
                self.entries[i].0.same_key(target)
            } else {
                self.entries[i].0.same_first(target)
            };
            if hit {
                self.entries.remove(i);
                proof {
                    assert(self.entries@ =~= before + orig.subrange(p + 1, n as int));
                }
            } else {
                i = i + 1;
                proof {
                    assert(self.entries@ =~= before.push(orig[p as int]) + orig.subrange(p + 1, n as int));
                }
            }
            p = p + 1;
        }
        proof {
            assert(orig.subrange(0, n as int) =~= orig);
            assert(self.entries@ =~= without(orig, target@, whole));
            lemma_without(orig, target@, whole);
        }
    }

    /// Takes `key` out.
    pub fn remove(&mut self, key: &K)
        ensures
            final(self)@ == old(self)@.remove(key@),
    {
        self.remove_where(key, true);
        proof {
            assert(hit_keys::<K>(key@, true) =~= set![key@]);
            assert(old(self)@.remove_keys(set![key@]) =~= old(self)@.remove(key@));
        }
    }

    /// Sets `key` to `value`.
    pub fn insert(&mut self, key: K, value: V)
        ensures
            final(self)@ == old(self)@.insert(key@, value),
    {
        self.remove(&key);
        let ghost mid = self.entries@;
        self.entries.push((key, value));
        proof {
            assert(self.entries@.drop_last() =~= mid);
            assert(final(self)@ =~= old(self)@.insert(key@, value));
        }
    }

    /// Every key the table holds (some more than once).
    fn keys(&self) -> (r: Vec<K>)
        ensures
            forall|k: K::V| self@.contains_key(k) <==> exists|j: int| 0 <= j < r@.len() && (#[trigger] r@[j])@ == k,
    {
        let mut out: Vec<K> = Vec::new();
        let mut i: usize = 0;
        while i < self.entries.len()
            invariant
                i <= self.entries@.len(),
                out@.len() == i,
                forall|j: int| 0 <= j < i ==> (#[trigger] out@[j])@ == self.entries@[j].0@,
            decreases self.entries@.len() - i,
        {
            let k = self.entries[i].0.copy_key();
            out.push(k);
            i = i + 1;
        }
        proof {
            assert forall|k: K::V| self@.contains_key(k) implies exists|j: int| 0 <= j < out@.len() && (#[trigger] out@[j])@ == k by {
                lemma_some_entry(self.entries@, k);
                let t = choose|t: int| 0 <= t < self.entries@.len() && self.entries@[t].0@ == k;
                assert(out@[t]@ == k);
            }
            assert forall|k: K::V| (exists|j: int| 0 <= j < out@.len() && (#[trigger] out@[j])@ == k) implies self@.contains_key(k) by {
                let j = choose|j: int| 0 <= j < out@.len() && (#[trigger] out@[j])@ == k;
                lemma_no_entry_contra(self.entries@, k, j);
            }
        }
        out
    }
}

proof fn lemma_no_entry_contra<K: View, V>(es: Seq<(K, V)>, k: K::V, t: int)
    requires
        0 <= t < es.len(),
        es[t].0@ == k,
    ensures
        map_of(es).contains_key(k),
    decreases es.len(),
{
    if t < es.len() - 1 && es.last().0@ != k {
        lemma_no_entry_contra(es.drop_last(), k, t);
    }
}

impl<K: TextKey> Table<K, String> {
    /// The keys whose value is the text `s`.
    pub fn keys_with_text(&self, s: &str) -> (r: Vec<K>)
        ensures
            forall|k: K::V| (self@.contains_key(k) && self@[k]@ == s@) <==> exists|j: int| 0 <= j < r@.len() && (#[trigger] r@[j])@ == k,
    {
        let all = self.keys();
        let mut out: Vec<K> = Vec::new();
        let mut i: usize = 0;
        while i < all.len()
            invariant
                i <= all@.len(),
                forall|k: K::V| self@.contains_key(k) <==> exists|j: int| 0 <= j < all@.len() && (#[trigger] all@[j])@ == k,
                forall|j: int| 0 <= j < out@.len() ==> self@.contains_key((#[trigger] out@[j])@) && self@[out@[j]@]@ == s@,
                forall|t: int| 0 <= t < i ==> (self@.contains_key((#[trigger] all@[t])@) && self@[all@[t]@]@ == s@) ==> exists|j: int| 0 <= j < out@.len() && (#[trigger] out@[j])@ == all@[t]@,
            decreases all@.len() - i,
        {
            let ghost old_out = out@;
            let ghost key = all@[i as int]@;
            let found = match self.get(&all[i]) {
                Some(v) => str_eq(v.as_str(), s),
                None => false,
            };
            if found {
                let k = all[i].copy_key();
                out.push(k);
            }
            proof {
                assert forall|t: int| 0 <= t < i + 1 && (self@.contains_key((#[trigger] all@[t])@) && self@[all@[t]@]@ == s@) implies exists|j: int| 0 <= j < out@.len() && (#[trigger] out@[j])@ == all@[t]@ by {
                    if t < i {
                        let j = choose|j: int| 0 <= j < old_out.len() && (#[trigger] old_out[j])@ == all@[t]@;
                        assert(out@[j] == old_out[j]);
                    } else {
                        assert(found);
                        assert(out@[out@.len() - 1]@ == key);
                    }
                }
            }
            i = i + 1;
        }
        proof {
            assert forall|k: K::V| (self@.contains_key(k) && self@[k]@ == s@) implies exists|j: int| 0 <= j < out@.len() && (#[trigger] out@[j])@ == k by {
                let t = choose|t: int| 0 <= t < all@.len() && (#[trigger] all@[t])@ == k;
                assert(self@.contains_key(all@[t]@) && self@[all@[t]@]@ == s@);
            }
        }
        out
    }
}

impl<V> Table<(String, String), V> {
    /// Takes out every key whose first part is `first`.
    pub fn remove_first(&mut self, first: &str)
        ensures
            final(self)@ == old(self)@.remove_keys(Set::new(|k: (Seq<char>, Seq<char>)| k.0 == first@)),
    {
        let target = (String::from_str(first), String::new());
        self.remove_where(&target, false);
        proof {
            assert(hit_keys::<(String, String)>(target@, false) =~= Set::new(|k: (Seq<char>, Seq<char>)| k.0 == first@));
        }
    }
}

} // verus!
