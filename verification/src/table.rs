//! A table keyed by strings that keeps its entries in ascending byte order
//! of their keys, so that walking it visits them in one fixed order.

use vstd::prelude::*;
use vstd::utf8::{encode_utf8, encode_utf8_decode_utf8};

verus! {

/// Whether `a` and `b` agree on their first `k` bytes and `a` comes first
/// from there: it ends at `k` while `b` goes on, or has the smaller byte.
pub open spec fn less_at(a: Seq<u8>, b: Seq<u8>, k: int) -> bool {
    &&& 0 <= k <= a.len()
    &&& k < b.len()
    &&& a.take(k) == b.take(k)
    &&& (k == a.len() || a[k] < b[k])
}

/// Lexicographic order on byte strings.
pub open spec fn bytes_less(a: Seq<u8>, b: Seq<u8>) -> bool {
    exists|k: int| less_at(a, b, k)
}

/// Order of keys: lexicographic on their UTF-8 bytes.
pub open spec fn key_less(a: Seq<char>, b: Seq<char>) -> bool {
    bytes_less(encode_utf8(a), encode_utf8(b))
}

/// Whether `keys` are in strictly ascending order.
pub open spec fn ascending(keys: Seq<Seq<char>>) -> bool {
    forall|i: int, j: int| 0 <= i < j < keys.len() ==> key_less(keys[i], keys[j])
}

/// The map that pairs `keys` with `values` position by position.
pub open spec fn paired<V>(keys: Seq<Seq<char>>, values: Seq<V>) -> Map<Seq<char>, V> {
    Map::new(|k: Seq<char>| keys.contains(k), |k: Seq<char>| values[keys.index_of(k)])
}

/// No key comes before itself.
pub proof fn lemma_key_less_irreflexive(a: Seq<char>)
    ensures
        !key_less(a, a),
{
}

/// The order of keys is transitive.
pub proof fn lemma_key_less_transitive(a: Seq<char>, b: Seq<char>, c: Seq<char>)
    requires
        key_less(a, b),
        key_less(b, c),
    ensures
        key_less(a, c),
{
    let x = encode_utf8(a);
    let y = encode_utf8(b);
    let z = encode_utf8(c);
    let k1 = choose|k: int| less_at(x, y, k);
    let k2 = choose|k: int| less_at(y, z, k);
    let k = if k1 <= k2 {
        k1
    } else {
        k2
    };
    assert(x.take(k) =~= x.take(k1).take(k));
    assert(y.take(k) =~= y.take(k1).take(k));
    assert(y.take(k) =~= y.take(k2).take(k));
    assert(z.take(k) =~= z.take(k2).take(k));
    if k1 < k2 {
        assert(y[k1] == y.take(k2)[k1]);
        assert(z[k1] == z.take(k2)[k1]);
    } else if k2 < k1 {
        assert(x[k2] == x.take(k1)[k2]);
        assert(y[k2] == y.take(k1)[k2]);
    }
    assert(less_at(x, z, k));
}

/// Two keys are the same or one comes before the other.
pub proof fn lemma_key_order_total(a: Seq<char>, b: Seq<char>)
    ensures
        a == b || key_less(a, b) || key_less(b, a),
{
    let x = encode_utf8(a);
    let y = encode_utf8(b);
    if x == y {
        encode_utf8_decode_utf8(a);
        encode_utf8_decode_utf8(b);
    } else {
        assert(x.take(0) =~= y.take(0));
        lemma_first_difference(x, y, 0);
    }
}

proof fn lemma_first_difference(x: Seq<u8>, y: Seq<u8>, k: int)
    requires
        0 <= k <= x.len(),
        k <= y.len(),
        x.take(k) == y.take(k),
        x != y,
    ensures
        bytes_less(x, y) || bytes_less(y, x),
    decreases x.len() - k,
{
    if k == x.len() && k == y.len() {
        assert(x.take(k) =~= x);
        assert(y.take(k) =~= y);
    } else if k == x.len() {
        assert(less_at(x, y, k));
    } else if k == y.len() {
        assert(less_at(y, x, k));
    } else if x[k] < y[k] {
        assert(less_at(x, y, k));
    } else if y[k] < x[k] {
        assert(less_at(y, x, k));
    } else {
        assert(x.take(k + 1) =~= x.take(k).push(x[k]));
        assert(y.take(k + 1) =~= y.take(k).push(y[k]));
        lemma_first_difference(x, y, k + 1);
    }
}

/// Ascending keys hold no key twice, and pairing them with values maps the
/// key at each position to the value at that position.
pub proof fn lemma_paired_at<V>(keys: Seq<Seq<char>>, values: Seq<V>, i: int)
    requires
        ascending(keys),
        keys.len() == values.len(),
        0 <= i < keys.len(),
    ensures
        paired(keys, values).contains_key(keys[i]),
        paired(keys, values)[keys[i]] == values[i],
        keys.index_of(keys[i]) == i,
{
    let j = keys.index_of(keys[i]);
    assert(keys.contains(keys[i]));
    if j < i {
        assert(key_less(keys[j], keys[i]));
    } else if i < j {
        assert(key_less(keys[i], keys[j]));
    }
}

/// Ascending keys hold no key twice.
pub proof fn lemma_ascending_distinct(keys: Seq<Seq<char>>, i: int, j: int)
    requires
        ascending(keys),
        0 <= i < keys.len(),
        0 <= j < keys.len(),
        keys[i] == keys[j],
    ensures
        i == j,
{
    if i < j {
        assert(key_less(keys[i], keys[j]));
    } else if j < i {
        assert(key_less(keys[j], keys[i]));
    }
}

/// Two ascending listings of the same keys are the same listing: the order
/// in which a table is walked is fixed by the keys it holds.
pub proof fn lemma_ascending_unique(a: Seq<Seq<char>>, b: Seq<Seq<char>>)
    requires
        ascending(a),
        ascending(b),
        forall|k: Seq<char>| a.contains(k) <==> b.contains(k),
    ensures
        a == b,
    decreases a.len(),
{
    if a.len() == 0 {
        if b.len() > 0 {
            assert(b.contains(b[0]));
        }
        assert(a =~= b);
    } else {
        assert(a.contains(a[0]));
        let j = b.index_of(a[0]);
        assert(b.contains(b[0]));
        let i = a.index_of(b[0]);
        if j > 0 {
            assert(key_less(b[0], b[j]));
            if i > 0 {
                assert(key_less(a[0], a[i]));
                lemma_key_less_transitive(a[0], b[0], a[0]);
            }
            lemma_key_less_irreflexive(a[0]);
        }
        assert(a[0] == b[0]);
        let ra = a.skip(1);
        let rb = b.skip(1);
        assert forall|k: Seq<char>| ra.contains(k) <==> rb.contains(k) by {
            if ra.contains(k) {
                let m = ra.index_of(k);
                assert(a[m + 1] == k);
                assert(key_less(a[0], a[m + 1]));
                lemma_key_less_irreflexive(k);
                assert(a.contains(k));
                let n = b.index_of(k);
                assert(n > 0);
                assert(rb[n - 1] == k);
            }
            if rb.contains(k) {
                let m = rb.index_of(k);
                assert(b[m + 1] == k);
                assert(key_less(b[0], b[m + 1]));
                lemma_key_less_irreflexive(k);
                assert(b.contains(k));
                let n = a.index_of(k);
                assert(n > 0);
                assert(ra[n - 1] == k);
            }
        }
        assert(ascending(ra)) by {
            assert forall|x: int, y: int| 0 <= x < y < ra.len() implies key_less(ra[x], ra[y]) by {
                assert(key_less(a[x + 1], a[y + 1]));
            }
        }
        assert(ascending(rb)) by {
            assert forall|x: int, y: int| 0 <= x < y < rb.len() implies key_less(rb[x], rb[y]) by {
                assert(key_less(b[x + 1], b[y + 1]));
            }
        }
        lemma_ascending_unique(ra, rb);
        assert(a =~= seq![a[0]] + ra);
        assert(b =~= seq![b[0]] + rb);
    }
}

proof fn lemma_paired_update<V>(keys: Seq<Seq<char>>, values: Seq<V>, i: int, value: V)
    requires
        ascending(keys),
        keys.len() == values.len(),
        0 <= i < keys.len(),
    ensures
        paired(keys, values.update(i, value)) == paired(keys, values).insert(keys[i], value),
{
    let before = paired(keys, values);
    let after = paired(keys, values.update(i, value));
    assert(keys.contains(keys[i]));
    assert forall|k: Seq<char>| #[trigger] after.contains_key(k) implies after[k] == before.insert(
        keys[i],
        value,
    )[k] by {
        let j = keys.index_of(k);
        lemma_paired_at(keys, values, j);
        lemma_paired_at(keys, values, i);
    }
    assert(after =~= before.insert(keys[i], value));
}

proof fn lemma_paired_insert<V>(
    keys: Seq<Seq<char>>,
    values: Seq<V>,
    pos: int,
    key: Seq<char>,
    value: V,
)
    requires
        ascending(keys),
        keys.len() == values.len(),
        0 <= pos <= keys.len(),
        forall|j: int| 0 <= j < pos ==> key_less(#[trigger] keys[j], key),
        forall|j: int| pos <= j < keys.len() ==> key_less(key, #[trigger] keys[j]),
    ensures
        ascending(keys.insert(pos, key)),
        paired(keys.insert(pos, key), values.insert(pos, value)) == paired(keys, values).insert(
            key,
            value,
        ),
        !paired(keys, values).contains_key(key),
{
    let new_keys = keys.insert(pos, key);
    let new_values = values.insert(pos, value);
    assert forall|i: int, j: int| 0 <= i < j < new_keys.len() implies key_less(
        new_keys[i],
        new_keys[j],
    ) by {
        if j < pos {
            assert(key_less(keys[i], keys[j]));
        } else if j == pos {
            assert(key_less(keys[i], key));
        } else if i < pos {
            assert(key_less(keys[i], keys[j - 1]));
        } else if i == pos {
            assert(key_less(key, keys[j - 1]));
        } else {
            assert(key_less(keys[i - 1], keys[j - 1]));
        }
    }
    lemma_key_less_irreflexive(key);
    if keys.contains(key) {
        let j = keys.index_of(key);
        assert(keys[j] == key);
        assert(false);
    }
    let before = paired(keys, values);
    let after = paired(new_keys, new_values);
    assert forall|k: Seq<char>| after.contains_key(k) <==> before.insert(key, value).contains_key(
        k,
    ) by {
        if keys.contains(k) {
            let j = keys.index_of(k);
            let j2 = if j < pos {
                j
            } else {
                j + 1
            };
            assert(new_keys[j2] == k);
        }
        if k == key {
            assert(new_keys[pos] == k);
        }
        if new_keys.contains(k) {
            let j = new_keys.index_of(k);
            if j < pos {
                assert(keys[j] == k);
            } else if j > pos {
                assert(keys[j - 1] == k);
            }
        }
    }
    assert forall|k: Seq<char>| #[trigger] after.contains_key(k) implies after[k] == before.insert(
        key,
        value,
    )[k] by {
        let j = new_keys.index_of(k);
        lemma_paired_at(new_keys, new_values, j);
        if j < pos {
            lemma_paired_at(keys, values, j);
        } else if j > pos {
            lemma_paired_at(keys, values, j - 1);
        }
    }
    assert(after =~= before.insert(key, value));
}

proof fn lemma_paired_remove<V>(keys: Seq<Seq<char>>, values: Seq<V>, pos: int)
    requires
        ascending(keys),
        keys.len() == values.len(),
        0 <= pos < keys.len(),
    ensures
        ascending(keys.remove(pos)),
        paired(keys.remove(pos), values.remove(pos)) == paired(keys, values).remove(keys[pos]),
{
    let new_keys = keys.remove(pos);
    let new_values = values.remove(pos);
    assert forall|i: int, j: int| 0 <= i < j < new_keys.len() implies key_less(
        new_keys[i],
        new_keys[j],
    ) by {
        let i0 = if i < pos {
            i
        } else {
            i + 1
        };
        let j0 = if j < pos {
            j
        } else {
            j + 1
        };
        assert(key_less(keys[i0], keys[j0]));
    }
    let before = paired(keys, values);
    let after = paired(new_keys, new_values);
    assert forall|k: Seq<char>| after.contains_key(k) <==> before.remove(keys[pos]).contains_key(
        k,
    ) by {
        if new_keys.contains(k) {
            let j = new_keys.index_of(k);
            let j0 = if j < pos {
                j
            } else {
                j + 1
            };
            assert(keys[j0] == k);
            if k == keys[pos] {
                lemma_ascending_distinct(keys, j0, pos);
            }
        }
        if keys.contains(k) && k != keys[pos] {
            let j = keys.index_of(k);
            let j2 = if j < pos {
                j
            } else {
                j - 1
            };
            assert(new_keys[j2] == k);
        }
    }
    assert forall|k: Seq<char>| #[trigger] after.contains_key(k) implies after[k] == before.remove(
        keys[pos],
    )[k] by {
        let j = new_keys.index_of(k);
        lemma_paired_at(new_keys, new_values, j);
        let j0 = if j < pos {
            j
        } else {
            j + 1
        };
        lemma_paired_at(keys, values, j0);
    }
    assert(after =~= before.remove(keys[pos]));
}

/// How one byte string stands to another.
enum Standing {
    Before,
    Same,
    After,
}

/// Compares two byte strings lexicographically.
fn standing(a: &[u8], b: &[u8]) -> (found: Standing)
    ensures
        match found {
            Standing::Before => bytes_less(a@, b@),
            Standing::Same => a@ == b@,
            Standing::After => bytes_less(b@, a@),
        },
{
    let mut i: usize = 0;
    assert(a@.take(0) =~= b@.take(0));
    while i < a.len() && i < b.len()
        invariant
            i <= a.len(),
            i <= b.len(),
            a@.take(i as int) == b@.take(i as int),
        decreases a.len() - i,
    {
        if a[i] < b[i] {
            assert(less_at(a@, b@, i as int));
            return Standing::Before;
        }
        if a[i] > b[i] {
            assert(less_at(b@, a@, i as int));
            return Standing::After;
        }
        assert(a@.take(i + 1) =~= a@.take(i as int).push(a@[i as int]));
        assert(b@.take(i + 1) =~= b@.take(i as int).push(b@[i as int]));
        i = i + 1;
    }
    if i < b.len() {
        assert(less_at(a@, b@, i as int));
        Standing::Before
    } else if i < a.len() {
        assert(less_at(b@, a@, i as int));
        Standing::After
    } else {
        assert(a@.take(i as int) =~= a@);
        assert(b@.take(i as int) =~= b@);
        Standing::Same
    }
}

/// Whether two keys are the same.
pub fn same_key(a: &str, b: &str) -> (same: bool)
    ensures
        same == (a@ == b@),
{
    proof {
        encode_utf8_decode_utf8(a@);
        encode_utf8_decode_utf8(b@);
    }
    match standing(a.as_bytes(), b.as_bytes()) {
        Standing::Same => true,
        Standing::Before => {
            proof {
                lemma_key_less_irreflexive(a@);
            }
            false
        },
        Standing::After => {
            proof {
                lemma_key_less_irreflexive(a@);
            }
            false
        },
    }
}

/// Entries under string keys, held in ascending order of the keys.
#[derive(Debug)]
pub struct KeyedTable<V> {
    keys: Vec<String>,
    values: Vec<V>,
}

impl<V> View for KeyedTable<V> {
    type V = Map<Seq<char>, V>;

    /// The entries as a map from key to value.
    closed spec fn view(&self) -> Map<Seq<char>, V> {
        paired(self.spec_keys(), self.values@)
    }
}

impl<V> KeyedTable<V> {
    /// The keys, ascending.
    pub closed spec fn spec_keys(&self) -> Seq<Seq<char>> {
        self.keys@.map_values(|k: String| k@)
    }

    /// The values, each at the position of its key.
    pub closed spec fn spec_values(&self) -> Seq<V> {
        self.values@
    }

    /// What every table keeps: one value per key, keys ascending.
    #[verifier::type_invariant]
    pub closed spec fn wf(&self) -> bool {
        &&& self.keys@.len() == self.values@.len()
        &&& ascending(self.spec_keys())
    }

    /// How the listing of a table and its map belong together.
    pub open spec fn listed(&self) -> bool {
        &&& self.spec_keys().len() == self.spec_values().len()
        &&& ascending(self.spec_keys())
        &&& self@ == paired(self.spec_keys(), self.spec_values())
        &&& self@.dom().finite()
        &&& self@.dom().len() == self.spec_keys().len()
        &&& forall|k: Seq<char>| self@.contains_key(k) <==> self.spec_keys().contains(k)
        &&& forall|i: int|
            0 <= i < self.spec_keys().len() ==> self@.contains_key(#[trigger] self.spec_keys()[i])
                && self@[self.spec_keys()[i]] == self.spec_values()[i]
    }

    /// A well-formed table is listed in key order.
    pub proof fn lemma_listed(&self)
        requires
            self.wf(),
        ensures
            self.listed(),
    {
        let keys = self.spec_keys();
        assert forall|i: int| 0 <= i < keys.len() implies self@.contains_key(#[trigger] keys[i])
            && self@[keys[i]] == self.spec_values()[i] by {
            lemma_paired_at(keys, self.values@, i);
        }
        assert(keys.no_duplicates()) by {
            assert forall|i: int, j: int| 0 <= i < keys.len() && 0 <= j < keys.len() && i != j implies keys[i]
                != keys[j] by {
                if keys[i] == keys[j] {
                    lemma_ascending_distinct(keys, i, j);
                }
            }
        }
        keys.unique_seq_to_set();
        vstd::seq_lib::seq_to_set_is_finite(keys);
        assert(self@.dom() =~= keys.to_set());
    }

    /// An empty table.
    pub fn new() -> (table: Self)
        ensures
            table@ == Map::<Seq<char>, V>::empty(),
            table.spec_keys() == Seq::<Seq<char>>::empty(),
    {
        let table = KeyedTable { keys: Vec::new(), values: Vec::new() };
        assert(table.spec_keys() =~= Seq::<Seq<char>>::empty());
        assert(table@ =~= Map::<Seq<char>, V>::empty());
        table
    }

    /// The number of entries.
    pub fn len(&self) -> (n: usize)
        ensures
            n == self.spec_keys().len(),
            n == self@.dom().len(),
            self.listed(),
    {
        proof {
            use_type_invariant(self);
            self.lemma_listed();
        }
        self.keys.len()
    }

    /// Whether the table holds no entry.
    pub fn is_empty(&self) -> (empty: bool)
        ensures
            empty == (self@.dom().len() == 0),
            empty == (self@ == Map::<Seq<char>, V>::empty()),
    {
        proof {
            use_type_invariant(self);
            self.lemma_listed();
            if self.keys@.len() == 0 {
                assert(self@ =~= Map::<Seq<char>, V>::empty());
            } else {
                assert(self@.contains_key(self.spec_keys()[0]));
            }
        }
        self.keys.len() == 0
    }

    /// Where `key` stands: its position if the table holds it, else the
    /// position at which it would be inserted.
    fn locate(&self, key: &str) -> (place: (usize, bool))
        ensures
            place.0 <= self.spec_keys().len(),
            place.1 ==> place.0 < self.spec_keys().len() && self.spec_keys()[place.0 as int] == key@,
            !place.1 ==> !self.spec_keys().contains(key@),
            forall|j: int| 0 <= j < place.0 ==> key_less(#[trigger] self.spec_keys()[j], key@),
            !place.1 ==> forall|j: int|
                place.0 <= j < self.spec_keys().len() ==> key_less(
                    key@,
                    #[trigger] self.spec_keys()[j],
                ),
    {
        proof {
            use_type_invariant(self);
        }
        let wanted: &[u8] = key.as_bytes();
        let mut i: usize = 0;
        while i < self.keys.len()
            invariant
                i <= self.keys.len(),
                self.wf(),
                wanted@ == encode_utf8(key@),
                forall|j: int| 0 <= j < i ==> key_less(#[trigger] self.spec_keys()[j], key@),
            decreases self.keys.len() - i,
        {
            match standing(self.keys[i].as_str().as_bytes(), wanted) {
                Standing::Before => {
                    i = i + 1;
                },
                Standing::Same => {
                    proof {
                        encode_utf8_decode_utf8(key@);
                        encode_utf8_decode_utf8(self.spec_keys()[i as int]);
                    }
                    return (i, true);
                },
                Standing::After => {
                    proof {
                        let keys = self.spec_keys();
                        assert forall|j: int| i <= j < keys.len() implies key_less(
                            key@,
                            #[trigger] keys[j],
                        ) by {
                            if j > i {
                                lemma_key_less_transitive(key@, keys[i as int], keys[j]);
                            }
                        }
                        lemma_key_less_irreflexive(key@);
                        if keys.contains(key@) {
                            let j = keys.index_of(key@);
                            assert(keys[j] == key@);
                            assert(false);
                        }
                    }
                    return (i, false);
                },
            }
        }
        proof {
            let keys = self.spec_keys();
            lemma_key_less_irreflexive(key@);
            if keys.contains(key@) {
                let j = keys.index_of(key@);
                assert(keys[j] == key@);
                assert(false);
            }
        }
        (i, false)
    }

    /// Whether the table holds an entry under `key`.
    pub fn contains_key(&self, key: &str) -> (held: bool)
        ensures
            held == self@.contains_key(key@),
    {
        let place = self.locate(key);
        place.1
    }

    /// The value under `key`, if the table holds one.
    pub fn get(&self, key: &str) -> (found: Option<&V>)
        ensures
            match found {
                Some(value) => self@.contains_key(key@) && *value == self@[key@],
                None => !self@.contains_key(key@),
            },
    {
        proof {
            use_type_invariant(self);
        }
        let place = self.locate(key);
        if place.1 {
            proof {
                lemma_paired_at(self.spec_keys(), self.values@, place.0 as int);
            }
            Some(&self.values[place.0])
        } else {
            None
        }
    }

    /// The value under `key`, for changing it in place.
    pub fn get_mut(&mut self, key: &str) -> (found: Option<&mut V>)
        ensures
            final(self).spec_keys() == old(self).spec_keys(),
            match found {
                Some(value) => old(self)@.contains_key(key@) && *value == old(self)@[key@]
                    && final(self)@ == old(self)@.insert(key@, *final(value)),
                None => !old(self)@.contains_key(key@) && *final(self) == *old(self),
            },
    {
        proof {
            use_type_invariant(&*self);
        }
        let place = self.locate(key);
        if place.1 {
            proof {
                lemma_paired_at(self.spec_keys(), self.values@, place.0 as int);
                assert forall|value: V|
                    paired(self.spec_keys(), #[trigger] self.values@.update(place.0 as int, value))
                        == paired(self.spec_keys(), self.values@).insert(key@, value) by {
                    lemma_paired_update(self.spec_keys(), self.values@, place.0 as int, value);
                }
            }
            Some(&mut self.values[place.0])
        } else {
            None
        }
    }

    /// Puts `value` under `key` and hands back the value it replaces.
    pub fn insert(&mut self, key: String, value: V) -> (replaced: Option<V>)
        ensures
            final(self)@ == old(self)@.insert(key@, value),
            replaced == (if old(self)@.contains_key(key@) {
                Some(old(self)@[key@])
            } else {
                None
            }),
    {
        proof {
            use_type_invariant(&*self);
        }
        let place = self.locate(key.as_str());
        let mut taken = KeyedTable { keys: Vec::new(), values: Vec::new() };
        assert(taken.spec_keys() =~= Seq::<Seq<char>>::empty());
        std::mem::swap(self, &mut taken);
        let KeyedTable { keys, values } = taken;
        let mut keys = keys;
        let mut values = values;
        let ghost old_keys = keys@.map_values(|k: String| k@);
        let ghost old_values = values@;
        if place.1 {
            let mut value = value;
            proof {
                lemma_paired_at(old_keys, old_values, place.0 as int);
                lemma_paired_update(old_keys, old_values, place.0 as int, value);
            }
            std::mem::swap(&mut values[place.0], &mut value);
            *self = KeyedTable { keys, values };
            Some(value)
        } else {
            proof {
                lemma_paired_insert(old_keys, old_values, place.0 as int, key@, value);
                assert(keys@.insert(place.0 as int, key).map_values(|k: String| k@)
                    =~= old_keys.insert(place.0 as int, key@));
            }
            keys.insert(place.0, key);
            values.insert(place.0, value);
            *self = KeyedTable { keys, values };
            None
        }
    }

    /// Takes the entry under `key` out of the table and hands back its value.
    pub fn remove(&mut self, key: &str) -> (removed: Option<V>)
        ensures
            final(self)@ == old(self)@.remove(key@),
            removed == (if old(self)@.contains_key(key@) {
                Some(old(self)@[key@])
            } else {
                None
            }),
    {
        proof {
            use_type_invariant(&*self);
        }
        let place = self.locate(key);
        if !place.1 {
            assert(self@.remove(key@) =~= self@);
            return None;
        }
        let mut taken = KeyedTable { keys: Vec::new(), values: Vec::new() };
        assert(taken.spec_keys() =~= Seq::<Seq<char>>::empty());
        std::mem::swap(self, &mut taken);
        let KeyedTable { keys, values } = taken;
        let mut keys = keys;
        let mut values = values;
        proof {
            let old_keys = keys@.map_values(|k: String| k@);
            lemma_paired_at(old_keys, values@, place.0 as int);
            lemma_paired_remove(old_keys, values@, place.0 as int);
            assert(keys@.remove(place.0 as int).map_values(|k: String| k@) =~= old_keys.remove(
                place.0 as int,
            ));
        }
        keys.remove(place.0);
        let value = values.remove(place.0);
        *self = KeyedTable { keys, values };
        Some(value)
    }

    /// The key at position `index` of the ascending listing.
    pub fn key_at(&self, index: usize) -> (key: &String)
        requires
            index < self.spec_keys().len(),
        ensures
            key@ == self.spec_keys()[index as int],
    {
        &self.keys[index]
    }

    /// The value at position `index` of the ascending listing.
    pub fn value_at(&self, index: usize) -> (value: &V)
        requires
            index < self.spec_keys().len(),
        ensures
            *value == self.spec_values()[index as int],
            self.listed(),
    {
        proof {
            use_type_invariant(self);
            self.lemma_listed();
        }
        &self.values[index]
    }

    /// The keys, ascending.
    pub fn keys(&self) -> (keys: Vec<String>)
        ensures
            keys@.map_values(|k: String| k@) == self.spec_keys(),
            self.listed(),
    {
        proof {
            use_type_invariant(self);
            self.lemma_listed();
        }
        let mut keys: Vec<String> = Vec::new();
        let mut i: usize = 0;
        while i < self.keys.len()
            invariant
                i <= self.keys.len(),
                keys@.map_values(|k: String| k@) == self.spec_keys().take(i as int),
            decreases self.keys.len() - i,
        {
            let ghost before = keys@;
            keys.push(self.keys[i].clone());
            assert(keys@.map_values(|k: String| k@) =~= before.map_values(|k: String| k@).push(
                self.keys@[i as int]@,
            ));
            i = i + 1;
        }
        assert(self.spec_keys().take(i as int) =~= self.spec_keys());
        keys
    }
}

} // verus!
