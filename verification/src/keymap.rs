use vstd::prelude::*;

verus! {

/// The views of a list of configuration pairs.
pub open spec fn config_pairs_view(pairs: Seq<(String, String)>) -> Seq<(Seq<char>, Seq<char>)> {
    pairs.map_values(|p: (String, String)| (p.0@, p.1@))
}

/// A key type whose executable equality decides structural equality.
pub trait KeyEq: Sized + Copy {
    fn key_eq(&self, other: &Self) -> (r: bool)
        ensures
            r == (*self == *other),
    ;
}

/// The map described by a sequence of `(key, value)` entries, later entries
/// overwriting earlier ones.
pub open spec fn assoc_map<K, V>(entries: Seq<(K, V)>) -> Map<K, V>
    decreases entries.len(),
{
    if entries.len() == 0 {
        Map::empty()
    } else {
        assoc_map(entries.drop_last()).insert(entries.last().0, entries.last().1)
    }
}

proof fn lemma_assoc_skips_other_keys<K, V>(entries: Seq<(K, V)>, i: int, key: K)
    requires
        0 <= i <= entries.len(),
        forall|j: int| i <= j < entries.len() ==> (#[trigger] entries[j]).0 != key,
    ensures
        assoc_map(entries).contains_key(key) == assoc_map(entries.take(i)).contains_key(key),
        assoc_map(entries).contains_key(key) ==> assoc_map(entries)[key] == assoc_map(
            entries.take(i),
        )[key],
    decreases entries.len() - i,
{
    if i < entries.len() {
        lemma_assoc_skips_other_keys(entries.take(entries.len() - 1), i, key);
        assert(entries.take(entries.len() as int) =~= entries);
        assert(entries.take(entries.len() - 1).take(i) =~= entries.take(i));
    } else {
        assert(entries.take(entries.len() as int) =~= entries);
    }
}

proof fn lemma_assoc_found<K, V>(entries: Seq<(K, V)>, i: int, key: K)
    requires
        0 <= i < entries.len(),
        entries[i].0 == key,
        forall|j: int| i < j < entries.len() ==> (#[trigger] entries[j]).0 != key,
    ensures
        assoc_map(entries).contains_key(key),
        assoc_map(entries)[key] == entries[i].1,
{
    lemma_assoc_skips_other_keys(entries, i + 1, key);
    assert(entries.take(i + 1).drop_last() =~= entries.take(i));
    assert(entries.take(i + 1).last() == entries[i]);
}

/// A small association map from keystrokes to bound values; inserting an
/// existing key overwrites its binding.
#[verifier::reject_recursive_types(K)]
#[verifier::reject_recursive_types(V)]
pub struct Bindings<K, V> {
    entries: Vec<(K, V)>,
}

impl<K, V> vstd::view::View for Bindings<K, V> {
    type V = Map<K, V>;

    closed spec fn view(&self) -> Map<K, V> {
        assoc_map(self.entries@)
    }
}

impl<K: KeyEq, V: Copy> Bindings<K, V> {
    pub fn new() -> (r: Self)
        ensures
            r@ == Map::<K, V>::empty(),
    {
        Bindings { entries: Vec::new() }
    }

    /// Binds `value` to `key`, overwriting any earlier binding.
    pub fn insert(&mut self, key: K, value: V)
        ensures
            final(self)@ == old(self)@.insert(key, value),
    {
        self.entries.push((key, value));
        proof {
            assert(self.entries@.drop_last() =~= old(self).entries@);
        }
    }

    /// The value bound to `key`, if any.
    pub fn get(&self, key: K) -> (r: Option<V>)
        ensures
            r == if self@.contains_key(key) {
                Some(self@[key])
            } else {
                None::<V>
            },
    {
        let n: usize = self.entries.len();
        let mut idx: usize = n;
        while idx > 0
            invariant
                idx <= n,
                n == self.entries.len(),
                forall|j: int| idx <= j < n ==> (#[trigger] self.entries@[j]).0 != key,
            decreases idx,
        {
            idx = idx - 1;
            if self.entries[idx].0.key_eq(&key) {
                proof {
                    lemma_assoc_found(self.entries@, idx as int, key);
                }
                return Some(self.entries[idx].1);
            }
        }
        proof {
            lemma_assoc_skips_other_keys(self.entries@, 0, key);
            assert(self.entries@.take(0) =~= Seq::<(K, V)>::empty());
        }
        None
    }
}

} // verus!
