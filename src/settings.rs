use vstd::prelude::*;
use crate::defaults::SettingConstraint;

verus! {

/// Whether some entry of `s` has the key `k`.
pub open spec fn has_key<V>(s: Seq<(String, V)>, k: Seq<char>) -> bool {
    exists|i: int| 0 <= i < s.len() && (#[trigger] s[i]).0@ == k
}

/// Whether no two entries of `s` share a key.
pub open spec fn keys_unique<V>(s: Seq<(String, V)>) -> bool {
    forall|i: int, j: int| 0 <= i < s.len() && 0 <= j < s.len() && (#[trigger] s[i]).0@ == (#[trigger] s[j]).0@ ==> i == j
}

/// The map that a list of entries gives when each entry in turn is
/// inserted, so that a later entry replaces an earlier one with its key.
pub open spec fn entries_map<V>(s: Seq<(String, V)>) -> Map<Seq<char>, V>
    decreases s.len(),
{
    if s.len() == 0 {
        Map::empty()
    } else {
        entries_map(s.drop_last()).insert(s.last().0@, s.last().1)
    }
}

/// The value that `key` resolves to: its own value when it is set, else
/// its registered default, else `zero`.
pub open spec fn resolve_value<V>(values: Map<Seq<char>, V>, defaults: Map<Seq<char>, V>, key: Seq<char>, zero: V) -> V {
    if values.contains_key(key) {
        values[key]
    } else if defaults.contains_key(key) {
        defaults[key]
    } else {
        zero
    }
}

/// A parameter set: numeric parameters by name, each name at most once.
#[derive(Clone, Debug)]
pub struct Settings<V> {
    values: Vec<(String, V)>,
}

impl<V> View for Settings<V> {
    type V = Map<Seq<char>, V>;

    closed spec fn view(&self) -> Map<Seq<char>, V> {
        Map::new(
            |k: Seq<char>| has_key(self.values@, k),
            |k: Seq<char>| self.values@[choose|i: int| 0 <= i < self.values@.len() && (#[trigger] self.values@[i]).0@ == k].1,
        )
    }
}

impl<V: Copy> Settings<V> {
    pub closed spec fn wf(&self) -> bool {
        keys_unique(self.values@)
    }

    /// An empty parameter set.
    pub fn new() -> (r: Self)
        ensures
            r.wf(),
            r@ == Map::<Seq<char>, V>::empty(),
    {
        let r = Settings { values: Vec::new() };
        assert(r@ =~= Map::<Seq<char>, V>::empty());
        r
    }

    /// Number of parameters in the set.
    pub fn len(&self) -> (r: usize)
        requires
            self.wf(),
        ensures
            r == self@.len(),
    {
        proof {
            self.lemma_len();
        }
        self.values.len()
    }

    proof fn lemma_len(&self)
        requires
            self.wf(),
        ensures
            self@.dom().len() == self.values@.len(),
        decreases self.values@.len(),
    {
        let s = self.values@;
        let keys = Seq::new(s.len(), |i: int| s[i].0@);
        assert forall|i: int, j: int| 0 <= i < keys.len() && 0 <= j < keys.len() && i != j implies keys[i] != keys[j] by {
            assert(s[i].0@ == keys[i] && s[j].0@ == keys[j]);
        }
        assert(keys.no_duplicates());
        assert(self@.dom() =~= keys.to_set()) by {
            assert forall|k: Seq<char>| self@.dom().contains(k) implies keys.to_set().contains(k) by {
                let i = choose|i: int| 0 <= i < s.len() && (#[trigger] s[i]).0@ == k;
                assert(keys[i] == k);
            }
            assert forall|k: Seq<char>| keys.to_set().contains(k) implies self@.dom().contains(k) by {
                let i = choose|i: int| 0 <= i < keys.len() && keys[i] == k;
                assert(s[i].0@ == k);
            }
        }
        keys.unique_seq_to_set();
    }

    /// Position of the entry with key `key`, if there is one.
    fn find(&self, key: &str) -> (r: Option<usize>)
        requires
            self.wf(),
        ensures
            match r {
                Some(i) => i < self.values@.len() && self.values@[i as int].0@ == key@,
                None => !has_key(self.values@, key@),
            },
    {
        let k = key.to_owned();
        let mut i: usize = 0;
        while i < self.values.len()
            invariant
                i <= self.values@.len(),
                k@ == key@,
                forall|j: int| 0 <= j < i ==> (#[trigger] self.values@[j]).0@ != key@,
            decreases self.values@.len() - i,
        {
            if self.values[i].0 == k {
                return Some(i);
            }
            i = i + 1;
        }
        None
    }

    /// The value of `key`, if it is set.
    pub fn get(&self, key: &str) -> (r: Option<V>)
        requires
            self.wf(),
        ensures
            r == (if self@.contains_key(key@) { Some(self@[key@]) } else { None::<V> }),
    {
        match self.find(key) {
            Some(i) => {
                assert(self@.contains_key(key@));
                Some(self.values[i].1)
            },
            None => None,
        }
    }

    /// Sets `key` to `value`, replacing any value it had.
    pub fn insert(&mut self, key: String, value: V)
        requires
            old(self).wf(),
        ensures
            final(self).wf(),
            final(self)@ == old(self)@.insert(key@, value),
    {
        match self.find(key.as_str()) {
            Some(i) => {
                let ghost k = key@;
                self.values.set(i, (key, value));
                assert(self@ =~= old(self)@.insert(k, value)) by {
                    assert forall|q: Seq<char>| #[trigger] self@.contains_key(q) == old(self)@.insert(k, value).contains_key(q) by {
                        if has_key(self.values@, q) {
                            let j = choose|j: int| 0 <= j < self.values@.len() && (#[trigger] self.values@[j]).0@ == q;
                            if j != i {
                                assert(old(self).values@[j].0@ == q);
                            }
                        }
                        if has_key(old(self).values@, q) && q != k {
                            let j = choose|j: int| 0 <= j < old(self).values@.len() && (#[trigger] old(self).values@[j]).0@ == q;
                            assert(self.values@[j].0@ == q);
                        }
                        assert(self.values@[i as int].0@ == k);
                    }
                    assert forall|q: Seq<char>| #[trigger] self@.contains_key(q) implies self@[q] == old(self)@.insert(k, value)[q] by {
                        let j = choose|j: int| 0 <= j < self.values@.len() && (#[trigger] self.values@[j]).0@ == q;
                        if q != k {
                            assert(old(self).values@[j].0@ == q);
                            let j2 = choose|j2: int| 0 <= j2 < old(self).values@.len() && (#[trigger] old(self).values@[j2]).0@ == q;
                            assert(j2 == j);
                        } else {
                            assert(self.values@[i as int].0@ == k);
                        }
                    }
                }
            },
            None => {
                let ghost k = key@;
                self.values.push((key, value));
                let ghost n = old(self).values@.len();
                assert(self.values@[n as int].0@ == k);
                assert(self@ =~= old(self)@.insert(k, value)) by {
                    assert forall|q: Seq<char>| #[trigger] self@.contains_key(q) == old(self)@.insert(k, value).contains_key(q) by {
                        if has_key(self.values@, q) && q != k {
                            let j = choose|j: int| 0 <= j < self.values@.len() && (#[trigger] self.values@[j]).0@ == q;
                            assert(old(self).values@[j].0@ == q);
                        }
                        if has_key(old(self).values@, q) {
                            let j = choose|j: int| 0 <= j < old(self).values@.len() && (#[trigger] old(self).values@[j]).0@ == q;
                            assert(self.values@[j].0@ == q);
                        }
                    }
                    assert forall|q: Seq<char>| #[trigger] self@.contains_key(q) implies self@[q] == old(self)@.insert(k, value)[q] by {
                        let j = choose|j: int| 0 <= j < self.values@.len() && (#[trigger] self.values@[j]).0@ == q;
                        if q != k {
                            assert(old(self).values@[j].0@ == q);
                            let j2 = choose|j2: int| 0 <= j2 < old(self).values@.len() && (#[trigger] old(self).values@[j2]).0@ == q;
                            assert(self.values@[j2].0@ == q);
                        }
                    }
                }
            },
        }
    }

    /// A parameter set from a list of entries, inserted in order: of two
    /// entries with one key, the later one stands.
    pub fn from_entries(entries: &Vec<(String, V)>) -> (r: Self)
        ensures
            r.wf(),
            r@ == entries_map(entries@),
    {
        let mut r = Settings::new();
        let mut i: usize = 0;
        while i < entries.len()
            invariant
                i <= entries@.len(),
                r.wf(),
                r@ == entries_map(entries@.subrange(0, i as int)),
            decreases entries@.len() - i,
        {
            let key = entries[i].0.clone();
            let value = entries[i].1;
            r.insert(key, value);
            assert(entries@.subrange(0, i + 1).drop_last() =~= entries@.subrange(0, i as int));
            i = i + 1;
        }
        assert(entries@.subrange(0, entries@.len() as int) =~= entries@);
        r
    }

    /// The value of `key`: its own when set, else its value in `defaults`,
    /// else `zero`.
    pub fn resolve(&self, key: &str, defaults: &Settings<V>, zero: V) -> (r: V)
        requires
            self.wf(),
            defaults.wf(),
        ensures
            r == resolve_value(self@, defaults@, key@, zero),
    {
        match self.get(key) {
            Some(v) => v,
            None => match defaults.get(key) {
                Some(v) => v,
                None => zero,
            },
        }
    }

    /// Sets `key` to `value` only where the set already has `key`.
    pub fn update_existing(&mut self, key: &str, value: V)
        requires
            old(self).wf(),
        ensures
            final(self).wf(),
            final(self)@ == (if old(self)@.contains_key(key@) {
                old(self)@.insert(key@, value)
            } else {
                old(self)@
            }),
    {
        if self.find(key).is_some() {
            proof {
                assert(self@.contains_key(key@));
            }
            self.insert(key.to_owned(), value);
        } else {
            proof {
                assert(!self@.contains_key(key@));
            }
        }
    }

    /// The names of the parameters in the set, each once.
    pub fn keys(&self) -> (r: Vec<String>)
        requires
            self.wf(),
        ensures
            r@.len() == self@.len(),
            forall|i: int| 0 <= i < r@.len() ==> self@.contains_key(#[trigger] r@[i]@),
            forall|k: Seq<char>| #[trigger] self@.contains_key(k) ==> exists|i: int| 0 <= i < r@.len() && (#[trigger] r@[i])@ == k,
    {
        proof {
            self.lemma_len();
        }
        let mut r: Vec<String> = Vec::new();
        let mut i: usize = 0;
        while i < self.values.len()
            invariant
                i <= self.values@.len(),
                r@.len() == i,
                forall|j: int| 0 <= j < i ==> (#[trigger] r@[j])@ == self.values@[j].0@,
            decreases self.values@.len() - i,
        {
            r.push(self.values[i].0.clone());
            i = i + 1;
        }
        proof {
            assert forall|j: int| 0 <= j < r@.len() implies self@.contains_key(#[trigger] r@[j]@) by {
                assert(self.values@[j].0@ == r@[j]@);
            }
            assert forall|k: Seq<char>| #[trigger] self@.contains_key(k) implies exists|j: int| 0 <= j < r@.len() && (#[trigger] r@[j])@ == k by {
                let j = choose|j: int| 0 <= j < self.values@.len() && (#[trigger] self.values@[j]).0@ == k;
                assert(r@[j]@ == k);
            }
        }
        r
    }
}

impl<V: Copy> Settings<SettingConstraint<V>> {
    /// The parameter set that holds each constrained parameter at its
    /// default value.
    pub fn defaults(&self) -> (r: Settings<V>)
        requires
            self.wf(),
        ensures
            r.wf(),
            r@ == self@.map_values(|c: SettingConstraint<V>| c.default),
    {
        let mut values: Vec<(String, V)> = Vec::new();
        let mut i: usize = 0;
        while i < self.values.len()
            invariant
                i <= self.values@.len(),
                keys_unique(self.values@),
                values@.len() == i,
                forall|j: int| 0 <= j < i ==> (#[trigger] values@[j]).0@ == self.values@[j].0@ && values@[j].1
                    == self.values@[j].1.default,
            decreases self.values@.len() - i,
        {
            values.push((self.values[i].0.clone(), self.values[i].1.default));
            i = i + 1;
        }
        let r = Settings { values };
        proof {
            let s = self.values@;
            assert forall|a: int, b: int| 0 <= a < values@.len() && 0 <= b < values@.len() && (#[trigger] values@[a]).0@ == (#[trigger] values@[b]).0@ implies a == b by {
                assert(s[a].0@ == s[b].0@);
            }
            assert forall|k: Seq<char>| #[trigger] has_key(values@, k) == has_key(s, k) by {
                if has_key(values@, k) {
                    let a = choose|a: int| 0 <= a < values@.len() && (#[trigger] values@[a]).0@ == k;
                    assert(s[a].0@ == k);
                }
                if has_key(s, k) {
                    let a = choose|a: int| 0 <= a < s.len() && (#[trigger] s[a]).0@ == k;
                    assert(values@[a].0@ == k);
                }
            }
            assert forall|k: Seq<char>| #[trigger] r@.contains_key(k) implies r@[k] == self@[k].default by {
                let a = choose|a: int| 0 <= a < values@.len() && (#[trigger] values@[a]).0@ == k;
                let b = choose|b: int| 0 <= b < s.len() && (#[trigger] s[b]).0@ == k;
                assert(s[a].0@ == k);
            }
            assert(r@ =~= self@.map_values(|c: SettingConstraint<V>| c.default));
        }
        r
    }
}

/// The five parameters that shape a curve, after resolution.
#[derive(Clone, Copy, Debug)]
pub struct CurveParams<V> {
    pub range: V,
    pub offset: V,
    pub min_sens: V,
    pub max_sens: V,
    pub growth_base: V,
}

/// Resolves the curve parameters of `values` against `defaults`, with
/// `zero` for a name that neither has.
pub fn resolve_curve_params<V: Copy>(values: &Settings<V>, defaults: &Settings<V>, zero: V) -> (r: CurveParams<V>)
    requires
        values.wf(),
        defaults.wf(),
    ensures
        r.range == resolve_value(values@, defaults@, "range"@, zero),
        r.offset == resolve_value(values@, defaults@, "offset"@, zero),
        r.min_sens == resolve_value(values@, defaults@, "min_sens"@, zero),
        r.max_sens == resolve_value(values@, defaults@, "max_sens"@, zero),
        r.growth_base == resolve_value(values@, defaults@, "growth_base"@, zero),
{
    CurveParams {
        range: values.resolve("range", defaults, zero),
        offset: values.resolve("offset", defaults, zero),
        min_sens: values.resolve("min_sens", defaults, zero),
        max_sens: values.resolve("max_sens", defaults, zero),
        growth_base: values.resolve("growth_base", defaults, zero),
    }
}

} // verus!
