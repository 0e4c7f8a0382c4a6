//! A keyed collection of per-symbol activations in which a later write to a
//! symbol replaces an earlier one.
use vstd::prelude::*;

verus! {

/// The mapping that writing `vals[i]` under `keys[i]`, for each `i` in order,
/// leaves behind: a later write to a key replaces an earlier one.
pub open spec fn field_of<V>(keys: Seq<Seq<char>>, vals: Seq<V>) -> Map<Seq<char>, V>
    decreases keys.len(),
{
    if keys.len() == 0 || vals.len() == 0 {
        Map::empty()
    } else {
        field_of(keys.drop_last(), vals.drop_last()).insert(keys.last(), vals.last())
    }
}

/// No key occurs twice.
pub open spec fn distinct_keys(keys: Seq<Seq<char>>) -> bool {
    forall|i: int, j: int| 0 <= i < keys.len() && 0 <= j < keys.len() && i != j ==> keys[i] != keys[j]
}

/// Index `i` holds the last occurrence of `keys[i]`.
pub open spec fn is_last_occurrence(keys: Seq<Seq<char>>, i: int) -> bool {
    &&& 0 <= i < keys.len()
    &&& forall|j: int| i < j < keys.len() ==> keys[j] != keys[i]
}

/// The keys of `field_of(keys, vals)` are exactly the keys written.
pub proof fn lemma_field_dom<V>(keys: Seq<Seq<char>>, vals: Seq<V>)
    requires
        keys.len() == vals.len(),
    ensures
        forall|k: Seq<char>| field_of(keys, vals).contains_key(k) <==> keys.contains(k),
        field_of(keys, vals).dom().finite(),
    decreases keys.len(),
{
    if keys.len() > 0 {
        lemma_field_dom(keys.drop_last(), vals.drop_last());
        assert forall|k: Seq<char>| field_of(keys, vals).contains_key(k) <==> keys.contains(k) by {
            if keys.contains(k) {
                let i = choose|i: int| 0 <= i < keys.len() && keys[i] == k;
                if i < keys.len() - 1 {
                    assert(keys.drop_last()[i] == k);
                }
            }
            if keys.drop_last().contains(k) {
                let i = choose|i: int| 0 <= i < keys.len() - 1 && keys.drop_last()[i] == k;
                assert(keys[i] == k);
            }
        }
    }
}

/// Each key of `field_of(keys, vals)` holds the value of its last write.
pub proof fn lemma_field_last_write<V>(keys: Seq<Seq<char>>, vals: Seq<V>, i: int)
    requires
        keys.len() == vals.len(),
        is_last_occurrence(keys, i),
    ensures
        field_of(keys, vals).contains_key(keys[i]),
        field_of(keys, vals)[keys[i]] == vals[i],
    decreases keys.len(),
{
    if i < keys.len() - 1 {
        assert(keys.drop_last()[i] == keys[i]);
        lemma_field_last_write(keys.drop_last(), vals.drop_last(), i);
        assert(keys.last() != keys[i]);
    }
}

/// With no repeated key, the field has one entry per key.
pub proof fn lemma_field_len<V>(keys: Seq<Seq<char>>, vals: Seq<V>)
    requires
        keys.len() == vals.len(),
        distinct_keys(keys),
    ensures
        field_of(keys, vals).len() == keys.len(),
    decreases keys.len(),
{
    if keys.len() > 0 {
        let ks = keys.drop_last();
        assert(distinct_keys(ks));
        lemma_field_len(ks, vals.drop_last());
        lemma_field_dom(ks, vals.drop_last());
        assert(!ks.contains(keys.last()));
    }
}

/// Rewriting the value at one position of a key sequence without repeats
/// rewrites the value of that key in the field.
pub proof fn lemma_field_update<V>(keys: Seq<Seq<char>>, vals: Seq<V>, j: int, v: V)
    requires
        keys.len() == vals.len(),
        distinct_keys(keys),
        0 <= j < keys.len(),
    ensures
        field_of(keys, vals.update(j, v)) == field_of(keys, vals).insert(keys[j], v),
    decreases keys.len(),
{
    let nv = vals.update(j, v);
    if j == keys.len() - 1 {
        assert(nv.drop_last() =~= vals.drop_last());
        assert(field_of(keys, nv) =~= field_of(keys, vals).insert(keys[j], v));
    } else {
        let ks = keys.drop_last();
        assert(distinct_keys(ks));
        assert(nv.drop_last() =~= vals.drop_last().update(j, v));
        lemma_field_update(ks, vals.drop_last(), j, v);
        assert(ks[j] == keys[j]);
        assert(keys.last() != keys[j]);
        assert(field_of(keys, nv) =~= field_of(keys, vals).insert(keys[j], v));
    }
}

/// The symbols of a sequence of entries.
pub open spec fn entry_keys<V>(e: Seq<(String, V)>) -> Seq<Seq<char>> {
    e.map_values(|p: (String, V)| p.0@)
}

/// The values of a sequence of entries.
pub open spec fn entry_vals<V>(e: Seq<(String, V)>) -> Seq<V> {
    e.map_values(|p: (String, V)| p.1)
}

/// The contents of each symbol of a sequence.
pub open spec fn symbol_views(s: Seq<String>) -> Seq<Seq<char>> {
    s.map_values(|x: String| x@)
}

/// What a mapping holds under `k`, if anything.
pub open spec fn lookup<V>(m: Map<Seq<char>, V>, k: Seq<char>) -> Option<V> {
    if m.contains_key(k) {
        Some(m[k])
    } else {
        None
    }
}

/// Activation values keyed by symbol, one entry per distinct symbol.
pub struct ActivationField<V> {
    entries: Vec<(String, V)>,
}

impl<V> ActivationField<V> {
    /// The symbols of the entries, in storage order.
    pub closed spec fn keys(&self) -> Seq<Seq<char>> {
        entry_keys(self.entries@)
    }

    /// The values of the entries, in storage order.
    pub closed spec fn vals(&self) -> Seq<V> {
        entry_vals(self.entries@)
    }

    /// Well-formed: no symbol is stored twice.
    pub closed spec fn wf(&self) -> bool {
        distinct_keys(self.keys())
    }

    /// The field as a mapping from symbol to activation.
    pub closed spec fn view(&self) -> Map<Seq<char>, V> {
        field_of(self.keys(), self.vals())
    }

    /// An empty field.
    pub fn new() -> (r: Self)
        ensures
            r.wf(),
            r.view() == Map::<Seq<char>, V>::empty(),
    {
        let r = ActivationField { entries: Vec::new() };
        assert(r.keys().len() == 0);
        r
    }

    /// The number of distinct symbols held.
    pub fn len(&self) -> (r: usize)
        requires
            self.wf(),
        ensures
            r == self.view().len(),
    {
        proof {
            lemma_field_len(self.keys(), self.vals());
        }
        self.entries.len()
    }

    /// Position of `key` among the entries, if it is stored.
    fn find(&self, key: &String) -> (r: Option<usize>)
        requires
            self.wf(),
        ensures
            match r {
                Some(j) => j < self.keys().len() && self.keys()[j as int] == key@,
                None => !self.keys().contains(key@),
            },
    {
        let n: usize = self.entries.len();
        let mut j: usize = 0;
        while j < n
            invariant
                n == self.entries@.len(),
                j <= n,
                forall|m: int| 0 <= m < j ==> self.keys()[m] != key@,
            decreases n - j,
        {
            if self.entries[j].0 == *key {
                return Some(j);
            }
            j = j + 1;
        }
        None
    }

    /// Writes `value` under `key`, replacing what the key held before.
    pub fn insert(&mut self, key: String, value: V)
        requires
            old(self).wf(),
        ensures
            final(self).wf(),
            final(self).view() == old(self).view().insert(key@, value),
    {
        match self.find(&key) {
            Some(j) => {
                proof {
                    lemma_field_update(self.keys(), self.vals(), j as int, value);
                }
                self.entries.set(j, (key, value));
                assert(self.keys() =~= old(self).keys());
                assert(self.vals() =~= old(self).vals().update(j as int, value));
            },
            None => {
                let ghost k = key@;
                self.entries.push((key, value));
                assert(self.keys().drop_last() =~= old(self).keys());
                assert(self.vals().drop_last() =~= old(self).vals());
                assert(self.keys() =~= old(self).keys().push(k));
                assert forall|a: int, b: int|
                    0 <= a < self.keys().len() && 0 <= b < self.keys().len() && a != b
                    implies self.keys()[a] != self.keys()[b] by {
                    if a == self.keys().len() - 1 {
                        assert(old(self).keys()[b] == self.keys()[b]);
                    } else if b == self.keys().len() - 1 {
                        assert(old(self).keys()[a] == self.keys()[a]);
                    }
                }
            },
        }
    }

    /// The entries, one per distinct symbol, in the order symbols first arrived.
    pub fn into_entries(self) -> (r: Vec<(String, V)>)
        requires
            self.wf(),
        ensures
            distinct_keys(entry_keys(r@)),
            field_of(entry_keys(r@), entry_vals(r@)) == self.view(),
    {
        self.entries
    }
}

impl<V: Copy> ActivationField<V> {
    /// The activation held for `key`, if any.
    pub fn get(&self, key: &String) -> (r: Option<V>)
        requires
            self.wf(),
        ensures
            r == lookup(self.view(), key@),
    {
        proof {
            lemma_field_dom(self.keys(), self.vals());
        }
        match self.find(key) {
            Some(j) => {
                proof {
                    assert(is_last_occurrence(self.keys(), j as int));
                    lemma_field_last_write(self.keys(), self.vals(), j as int);
                }
                Some(self.entries[j].1)
            },
            None => None,
        }
    }

    /// The field that writing `values[i]` under `symbols[i]`, for each `i` in
    /// order, leaves behind.
    pub fn from_activations(symbols: &[String], values: &[V]) -> (r: Self)
        requires
            symbols@.len() == values@.len(),
        ensures
            r.wf(),
            r.view() == field_of(symbol_views(symbols@), values@),
    {
        let ghost keys = symbol_views(symbols@);
        let n: usize = symbols.len();
        let mut field = ActivationField::new();
        let mut i: usize = 0;
        while i < n
            invariant
                n == symbols@.len(),
                n == values@.len(),
                keys == symbol_views(symbols@),
                i <= n,
                field.wf(),
                field.view() == field_of(keys.subrange(0, i as int), values@.subrange(0, i as int)),
            decreases n - i,
        {
            field.insert(symbols[i].clone(), values[i]);
            proof {
                let ks = keys.subrange(0, i + 1);
                let vs = values@.subrange(0, i + 1);
                assert(ks.drop_last() =~= keys.subrange(0, i as int));
                assert(vs.drop_last() =~= values@.subrange(0, i as int));
            }
            i = i + 1;
        }
        assert(keys.subrange(0, n as int) =~= keys);
        assert(values@.subrange(0, n as int) =~= values@);
        field
    }
}

/// Processing no symbols yields an empty field.
pub proof fn lemma_no_symbols_empty_field<V>(symbols: Seq<String>, values: Seq<V>)
    requires
        symbols.len() == 0,
        values.len() == 0,
    ensures
        field_of(symbol_views(symbols), values) == Map::<Seq<char>, V>::empty(),
{
}

/// Processing a list of symbols, repeats included, yields one entry per
/// distinct symbol, and each symbol holds the value of its last occurrence.
pub proof fn lemma_one_entry_per_symbol<V>(symbols: Seq<String>, values: Seq<V>)
    requires
        symbols.len() == values.len(),
    ensures
        field_of(symbol_views(symbols), values).dom() == symbol_views(symbols).to_set(),
        field_of(symbol_views(symbols), values).len() == symbol_views(symbols).to_set().len(),
        forall|i: int|
            is_last_occurrence(symbol_views(symbols), i) ==> #[trigger] field_of(
                symbol_views(symbols),
                values,
            )[symbol_views(symbols)[i]] == values[i],
{
    let keys = symbol_views(symbols);
    lemma_field_dom(keys, values);
    assert(field_of(keys, values).dom() =~= keys.to_set());
    assert forall|i: int| is_last_occurrence(keys, i) implies #[trigger] field_of(keys, values)[keys[i]]
        == values[i] by {
        lemma_field_last_write(keys, values, i);
    }
}

} // verus!
