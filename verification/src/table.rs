//! A map kept as a vector of entries in ascending key order.

use vstd::prelude::*;

use crate::text;

verus! {

/// The outcome of comparing two keys.
#[derive(Clone, Copy, Debug, PartialEq, Eq, Structural)]
pub enum KeyOrder {
    Before,
    Same,
    After,
}

/// `a` comes before `b` in lexicographic order.
pub open spec fn before(a: Seq<int>, b: Seq<int>) -> bool
    decreases a.len(),
{
    if b.len() == 0 {
        false
    } else if a.len() == 0 {
        true
    } else if a[0] != b[0] {
        a[0] < b[0]
    } else {
        before(a.drop_first(), b.drop_first())
    }
}

/// Nothing comes before itself.
pub proof fn lemma_before_irreflexive(a: Seq<int>)
    ensures
        !before(a, a),
    decreases a.len(),
{
    if a.len() > 0 {
        lemma_before_irreflexive(a.drop_first());
    }
}

/// The order is transitive.
pub proof fn lemma_before_transitive(a: Seq<int>, b: Seq<int>, c: Seq<int>)
    requires
        before(a, b),
        before(b, c),
    ensures
        before(a, c),
    decreases a.len(),
{
    if a.len() > 0 && a[0] == b[0] && b[0] == c[0] {
        lemma_before_transitive(a.drop_first(), b.drop_first(), c.drop_first());
    }
}

/// One more element of a sequence adds that element.
pub proof fn lemma_take_next<T>(s: Seq<T>, i: int)
    requires
        0 <= i < s.len(),
    ensures
        s.take(i + 1) == s.take(i).push(s[i]),
        forall|x: T| #[trigger] s.take(i + 1).contains(x) <==> s.take(i).contains(x) || x == s[i],
{
    let longer = s.take(i + 1);
    let shorter = s.take(i);
    assert(longer =~= shorter.push(s[i]));
    assert forall|x: T| #[trigger] longer.contains(x) <==> shorter.contains(x) || x == s[i] by {
        if longer.contains(x) {
            let j = choose|j: int| 0 <= j < longer.len() && longer[j] == x;
            if j < i {
                assert(shorter[j] == x);
            }
        }
        if shorter.contains(x) {
            let j = choose|j: int| 0 <= j < shorter.len() && shorter[j] == x;
            assert(longer[j] == x);
        }
        assert(longer[i] == s[i]);
    }
}

/// A pushed element is held besides the others.
pub proof fn lemma_push_contains<T>(s: Seq<T>, x: T)
    ensures
        forall|y: T| #[trigger] s.push(x).contains(y) <==> s.contains(y) || y == x,
{
    assert(s.push(x).take(s.len() as int) =~= s);
    assert(s.push(x).take(s.len() as int + 1) =~= s.push(x));
    lemma_take_next(s.push(x), s.len() as int);
}

/// A map with the views of its values.
pub open spec fn shown<K, V: View>(map: Map<K, V>) -> Map<K, V::V> {
    map.map_values(|v: V| v@)
}

pub broadcast proof fn lemma_shown_insert<K, V: View>(map: Map<K, V>, key: K, value: V)
    ensures
        #[trigger] shown(map.insert(key, value)) == shown(map).insert(key, value@),
{
    assert(shown(map.insert(key, value)) =~= shown(map).insert(key, value@));
}

pub broadcast proof fn lemma_shown_remove<K, V: View>(map: Map<K, V>, key: K)
    ensures
        #[trigger] shown(map.remove(key)) == shown(map).remove(key),
{
    assert(shown(map.remove(key)) =~= shown(map).remove(key));
}

pub broadcast proof fn lemma_shown_empty<K, V: View>()
    ensures
        #[trigger] shown(Map::<K, V>::empty()) == Map::<K, V::V>::empty(),
{
    assert(shown(Map::<K, V>::empty()) =~= Map::<K, V::V>::empty());
}

pub broadcast group group_shown {
    lemma_shown_insert,
    lemma_shown_remove,
    lemma_shown_empty,
}

/// A key of a table: a value with a mathematical key, and a code that orders
/// the keys and tells them apart.
pub trait TableKey: Sized {
    type Key;

    spec fn key(&self) -> Self::Key;

    spec fn code(key: Self::Key) -> Seq<int>;

    proof fn lemma_code_injective(a: Self::Key, b: Self::Key)
        requires
            Self::code(a) == Self::code(b),
        ensures
            a == b,
    ;

    fn code_of(&self) -> (code: Vec<u64>)
        ensures
            numbers(code@) == Self::code(self.key()),
    ;
}

/// Machine integers as mathematical ones.
pub open spec fn numbers(code: Seq<u64>) -> Seq<int> {
    code.map_values(|n: u64| n as int)
}

proof fn lemma_first_difference(a: Seq<int>, b: Seq<int>, i: int)
    requires
        0 <= i <= a.len(),
        i < b.len(),
        forall|j: int| 0 <= j < i ==> a[j] == b[j],
        i == a.len() || a[i] < b[i],
    ensures
        before(a, b),
    decreases i,
{
    if i > 0 {
        lemma_first_difference(a.drop_first(), b.drop_first(), i - 1);
    }
}

fn compare<K: TableKey>(left: &K, right: &K) -> (order: KeyOrder)
    ensures
        order is Before ==> before(K::code(left.key()), K::code(right.key())),
        order is Same <==> left.key() == right.key(),
        order is After ==> before(K::code(right.key()), K::code(left.key())),
{
    let a = left.code_of();
    let b = right.code_of();
    let ghost x = numbers(a@);
    let ghost y = numbers(b@);
    proof {
        lemma_before_irreflexive(x);
        if x == y {
            K::lemma_code_injective(left.key(), right.key());
        }
    }
    let mut i: usize = 0;
    while i < a.len() && i < b.len()
        invariant
            i <= a.len(),
            i <= b.len(),
            x == numbers(a@),
            y == numbers(b@),
            x == K::code(left.key()),
            y == K::code(right.key()),
            !before(x, x),
            forall|j: int| 0 <= j < i ==> x[j] == y[j],
        decreases a.len() - i,
    {
        if a[i] < b[i] {
            proof {
                lemma_first_difference(x, y, i as int);
            }
            return KeyOrder::Before;
        }
        if b[i] < a[i] {
            proof {
                lemma_first_difference(y, x, i as int);
            }
            return KeyOrder::After;
        }
        i += 1;
    }
    if i < b.len() {
        proof {
            lemma_first_difference(x, y, i as int);
        }
        KeyOrder::Before
    } else if i < a.len() {
        proof {
            lemma_first_difference(y, x, i as int);
        }
        KeyOrder::After
    } else {
        assert(x =~= y);
        KeyOrder::Same
    }
}

/// Whether two values have the same key.
pub fn same_key<K: TableKey>(left: &K, right: &K) -> (same: bool)
    ensures
        same == (left.key() == right.key()),
{
    match compare(left, right) {
        KeyOrder::Same => true,
        _ => false,
    }
}

/// A finite map whose entries stand in ascending order of their keys.
#[derive(Debug)]
pub struct Table<K: TableKey, V> {
    keys: Vec<K>,
    values: Vec<V>,
}

spec fn sorted<K: TableKey>(keys: Seq<K>) -> bool {
    forall|i: int, j: int|
        0 <= i < j < keys.len() ==> before(
            K::code(#[trigger] keys[i].key()),
            K::code(#[trigger] keys[j].key()),
        )
}

/// The keys stand in ascending order.
pub open spec fn ascending<K: TableKey>(keys: Seq<K::Key>) -> bool {
    forall|i: int, j: int|
        0 <= i < j < keys.len() ==> before(
            K::code(#[trigger] keys[i]),
            K::code(#[trigger] keys[j]),
        )
}

spec fn holds<K: TableKey>(keys: Seq<K>, k: K::Key) -> bool {
    exists|i: int| 0 <= i < keys.len() && #[trigger] keys[i].key() == k
}

spec fn position<K: TableKey>(keys: Seq<K>, k: K::Key) -> int {
    choose|i: int| 0 <= i < keys.len() && #[trigger] keys[i].key() == k
}

spec fn contents<K: TableKey, V>(keys: Seq<K>, values: Seq<V>) -> Map<K::Key, V> {
    Map::new(|k: K::Key| holds(keys, k), |k: K::Key| values[position(keys, k)])
}

proof fn lemma_unique<K: TableKey>(keys: Seq<K>, i: int, j: int)
    requires
        sorted(keys),
        0 <= i < keys.len(),
        0 <= j < keys.len(),
        keys[i].key() == keys[j].key(),
    ensures
        i == j,
{
    lemma_before_irreflexive(K::code(keys[i].key()));
}

proof fn lemma_entry<K: TableKey, V>(keys: Seq<K>, values: Seq<V>, i: int)
    requires
        sorted(keys),
        keys.len() == values.len(),
        0 <= i < keys.len(),
    ensures
        contents(keys, values).contains_key(keys[i].key()),
        contents(keys, values)[keys[i].key()] == values[i],
        position(keys, keys[i].key()) == i,
{
    assert(holds(keys, keys[i].key()));
    lemma_unique(keys, i, position(keys, keys[i].key()));
}

proof fn lemma_size<K: TableKey, V>(keys: Seq<K>, values: Seq<V>)
    requires
        sorted(keys),
        keys.len() == values.len(),
    ensures
        contents(keys, values).dom().finite(),
        contents(keys, values).dom().len() == keys.len(),
{
    lemma_listing(keys, values);
    keys.map_values(|k: K| k.key()).unique_seq_to_set();
}

proof fn lemma_listing<K: TableKey, V>(keys: Seq<K>, values: Seq<V>)
    requires
        sorted(keys),
        keys.len() == values.len(),
    ensures
        keys.map_values(|k: K| k.key()).to_set() == contents(keys, values).dom(),
        keys.map_values(|k: K| k.key()).no_duplicates(),
        ascending::<K>(keys.map_values(|k: K| k.key())),
{
    let names = keys.map_values(|k: K| k.key());
    assert forall|i: int, j: int| 0 <= i < names.len() && 0 <= j < names.len() && i != j implies names[i]
        != names[j] by {
        if names[i] == names[j] {
            lemma_unique(keys, i, j);
        }
    }
    assert forall|k: K::Key| names.to_set().contains(k) <==> contents(keys, values).dom().contains(
        k,
    ) by {
        if names.to_set().contains(k) {
            let i = choose|i: int| 0 <= i < names.len() && names[i] == k;
            assert(keys[i].key() == k);
        }
        if holds(keys, k) {
            let i = position(keys, k);
            assert(names[i] == k);
        }
    }
    assert(names.to_set() =~= contents(keys, values).dom());
    assert forall|i: int, j: int| 0 <= i < j < names.len() implies before(
        K::code(#[trigger] names[i]),
        K::code(#[trigger] names[j]),
    ) by {
        assert(before(K::code(keys[i].key()), K::code(keys[j].key())));
    }
}

proof fn lemma_insert<K: TableKey, V>(keys: Seq<K>, values: Seq<V>, i: int, key: K, value: V)
    requires
        sorted(keys),
        keys.len() == values.len(),
        0 <= i <= keys.len(),
        forall|j: int| 0 <= j < i ==> before(K::code(#[trigger] keys[j].key()), K::code(key.key())),
        forall|j: int|
            i <= j < keys.len() ==> before(K::code(key.key()), K::code(#[trigger] keys[j].key())),
    ensures
        sorted(keys.insert(i, key)),
        contents(keys.insert(i, key), values.insert(i, value)) == contents(keys, values).insert(
            key.key(),
            value,
        ),
{
    let ks = keys.insert(i, key);
    let vs = values.insert(i, value);
    assert forall|a: int, b: int| 0 <= a < b < ks.len() implies before(
        K::code(#[trigger] ks[a].key()),
        K::code(#[trigger] ks[b].key()),
    ) by {
        let x = if a < i { a } else { a - 1 };
        let y = if b < i { b } else { b - 1 };
        if a != i && b != i {
            assert(before(K::code(keys[x].key()), K::code(keys[y].key())));
        } else if a == i {
            assert(ks[b] == keys[y]);
        } else {
            assert(ks[a] == keys[x]);
        }
    }
    let left = contents(ks, vs);
    let right = contents(keys, values).insert(key.key(), value);
    assert forall|k: K::Key|
        #![trigger left.dom().contains(k)]
        #![trigger right.dom().contains(k)]
        left.dom().contains(k) == right.dom().contains(k) && (left.dom().contains(k) ==> left[k]
            == right[k]) by {
        if k == key.key() {
            assert(ks[i].key() == k);
            lemma_entry(ks, vs, i);
        } else {
            if holds(keys, k) {
                let a = position(keys, k);
                let b = if a < i { a } else { a + 1 };
                assert(ks[b].key() == k);
                lemma_entry(ks, vs, b);
            }
            if holds(ks, k) {
                let b = position(ks, k);
                let a = if b < i { b } else { b - 1 };
                assert(keys[a].key() == k);
            }
        }
    }
    assert(left =~= right);
}

proof fn lemma_remove<K: TableKey, V>(keys: Seq<K>, values: Seq<V>, i: int)
    requires
        sorted(keys),
        keys.len() == values.len(),
        0 <= i < keys.len(),
    ensures
        sorted(keys.remove(i)),
        contents(keys.remove(i), values.remove(i)) == contents(keys, values).remove(keys[i].key()),
{
    let ks = keys.remove(i);
    let vs = values.remove(i);
    assert forall|a: int, b: int| 0 <= a < b < ks.len() implies before(
        K::code(#[trigger] ks[a].key()),
        K::code(#[trigger] ks[b].key()),
    ) by {
        let x = if a < i { a } else { a + 1 };
        let y = if b < i { b } else { b + 1 };
        assert(before(K::code(keys[x].key()), K::code(keys[y].key())));
    }
    let left = contents(ks, vs);
    let right = contents(keys, values).remove(keys[i].key());
    assert forall|k: K::Key|
        #![trigger left.dom().contains(k)]
        #![trigger right.dom().contains(k)]
        left.dom().contains(k) == right.dom().contains(k) && (left.dom().contains(k) ==> left[k]
            == right[k]) by {
        if holds(ks, k) {
            let b = position(ks, k);
            let a = if b < i { b } else { b + 1 };
            assert(keys[a].key() == k);
            lemma_entry(keys, values, a);
            if k == keys[i].key() {
                lemma_unique(keys, a, i);
            }
        }
        if holds(keys, k) && k != keys[i].key() {
            let a = position(keys, k);
            let b = if a < i { a } else { a - 1 };
            assert(ks[b].key() == k);
            lemma_entry(ks, vs, b);
        }
    }
    assert(left =~= right);
}

proof fn lemma_update<K: TableKey, V>(keys: Seq<K>, values: Seq<V>, i: int, value: V)
    requires
        sorted(keys),
        keys.len() == values.len(),
        0 <= i < keys.len(),
    ensures
        contents(keys, values.update(i, value)) == contents(keys, values).insert(
            keys[i].key(),
            value,
        ),
{
    let left = contents(keys, values.update(i, value));
    let right = contents(keys, values).insert(keys[i].key(), value);
    assert forall|k: K::Key|
        #![trigger left.dom().contains(k)]
        #![trigger right.dom().contains(k)]
        left.dom().contains(k) == right.dom().contains(k) && (left.dom().contains(k) ==> left[k]
            == right[k]) by {
        if holds(keys, k) {
            let a = position(keys, k);
            lemma_entry(keys, values, a);
            lemma_entry(keys, values.update(i, value), a);
            if k == keys[i].key() {
                lemma_unique(keys, a, i);
            }
        }
    }
    assert(left =~= right);
}

impl<K: TableKey, V> View for Table<K, V> {
    type V = Map<K::Key, V>;

    closed spec fn view(&self) -> Map<K::Key, V> {
        contents(self.keys@, self.values@)
    }
}

impl<K: TableKey, V> Table<K, V> {
    #[verifier::type_invariant]
    spec fn well_formed(self) -> bool {
        &&& self.keys.len() == self.values.len()
        &&& sorted(self.keys@)
    }

    /// The keys in ascending order.
    pub closed spec fn ordered_keys(self) -> Seq<K::Key> {
        self.keys@.map_values(|k: K| k.key())
    }

    pub fn new() -> (table: Self)
        ensures
            table@ == Map::<K::Key, V>::empty(),
    {
        let table = Table { keys: Vec::new(), values: Vec::new() };
        assert(table@ =~= Map::<K::Key, V>::empty());
        table
    }

    /// The number of entries. The listing of keys is complete, ascending and
    /// free of repetition.
    pub fn len(&self) -> (n: usize)
        ensures
            n == self@.len(),
            n == self.ordered_keys().len(),
            self@.dom().finite(),
            self.ordered_keys().to_set() == self@.dom(),
            self.ordered_keys().no_duplicates(),
            ascending::<K>(self.ordered_keys()),
    {
        proof {
            use_type_invariant(self);
            lemma_size(self.keys@, self.values@);
            lemma_listing(self.keys@, self.values@);
        }
        self.keys.len()
    }

    pub fn is_empty(&self) -> (empty: bool)
        ensures
            empty == (self@ == Map::<K::Key, V>::empty()),
    {
        proof {
            use_type_invariant(self);
            lemma_size(self.keys@, self.values@);
            if self.keys.len() > 0 {
                lemma_entry(self.keys@, self.values@, 0);
            } else {
                assert(self@ =~= Map::<K::Key, V>::empty());
            }
        }
        self.keys.len() == 0
    }

    /// The place of a key: where it stands, or where it would be inserted.
    fn search(&self, key: &K) -> (place: (bool, usize))
        ensures
            place.1 <= self.keys.len(),
            place.0 ==> place.1 < self.keys.len() && self.keys@[place.1 as int].key() == key.key(),
            place.0 == self@.contains_key(key.key()),
            !place.0 ==> {
                &&& forall|j: int|
                    0 <= j < place.1 ==> before(
                        K::code(#[trigger] self.keys@[j].key()),
                        K::code(key.key()),
                    )
                &&& forall|j: int|
                    place.1 <= j < self.keys.len() ==> before(
                        K::code(key.key()),
                        K::code(#[trigger] self.keys@[j].key()),
                    )
            },
    {
        proof {
            use_type_invariant(self);
        }
        let mut i: usize = 0;
        while i < self.keys.len()
            invariant
                i <= self.keys.len(),
                self.keys.len() == self.values.len(),
                sorted(self.keys@),
                forall|j: int|
                    0 <= j < i ==> before(
                        K::code(#[trigger] self.keys@[j].key()),
                        K::code(key.key()),
                    ),
            decreases self.keys.len() - i,
        {
            match compare(&self.keys[i], key) {
                KeyOrder::Before => {
                    i += 1;
                },
                KeyOrder::Same => {
                    proof {
                        lemma_entry(self.keys@, self.values@, i as int);
                    }
                    return (true, i);
                },
                KeyOrder::After => {
                    proof {
                        self.lemma_absent(key.key(), i as int);
                    }
                    return (false, i);
                },
            }
        }
        proof {
            self.lemma_absent(key.key(), i as int);
        }
        (false, i)
    }

    proof fn lemma_absent(self, k: K::Key, i: int)
        requires
            sorted(self.keys@),
            0 <= i <= self.keys.len(),
            forall|j: int| 0 <= j < i ==> before(K::code(#[trigger] self.keys@[j].key()), K::code(k)),
            i < self.keys.len() ==> before(K::code(k), K::code(self.keys@[i].key())),
        ensures
            !self@.contains_key(k),
            forall|j: int|
                i <= j < self.keys.len() ==> before(K::code(k), K::code(#[trigger] self.keys@[j].key())),
    {
        assert forall|j: int| i <= j < self.keys.len() implies before(
            K::code(k),
            K::code(#[trigger] self.keys@[j].key()),
        ) by {
            if j > i {
                lemma_before_transitive(
                    K::code(k),
                    K::code(self.keys@[i].key()),
                    K::code(self.keys@[j].key()),
                );
            }
        }
        lemma_before_irreflexive(K::code(k));
    }

    pub fn contains_key(&self, key: &K) -> (found: bool)
        ensures
            found == self@.contains_key(key.key()),
    {
        self.search(key).0
    }

    pub fn get(&self, key: &K) -> (value: Option<&V>)
        ensures
            match value {
                Some(v) => self@.contains_key(key.key()) && *v == self@[key.key()],
                None => !self@.contains_key(key.key()),
            },
    {
        proof {
            use_type_invariant(self);
        }
        let (found, i) = self.search(key);
        if found {
            proof {
                lemma_entry(self.keys@, self.values@, i as int);
            }
            Some(&self.values[i])
        } else {
            None
        }
    }

    pub fn get_mut(&mut self, key: &K) -> (value: Option<&mut V>)
        ensures
            match value {
                Some(v) => old(self)@.contains_key(key.key()) && *v == old(self)@[key.key()]
                    && final(self)@ == old(self)@.insert(key.key(), *final(v))
                    && final(self).ordered_keys() == old(self).ordered_keys(),
                None => !old(self)@.contains_key(key.key()) && *final(self) == *old(self),
            },
    {
        proof {
            use_type_invariant(&*self);
        }
        let (found, i) = self.search(key);
        if found {
            proof {
                lemma_entry(self.keys@, self.values@, i as int);
                assert forall|value: V| contents(self.keys@, #[trigger] self.values@.update(i as int, value))
                    == contents(self.keys@, self.values@).insert(key.key(), value) by {
                    lemma_update(self.keys@, self.values@, i as int, value);
                }
            }
            Some(&mut self.values[i])
        } else {
            None
        }
    }

    /// Sets the value of a key; a value that stood there is returned.
    pub fn insert(&mut self, key: K, value: V) -> (previous: Option<V>)
        ensures
            final(self)@ == old(self)@.insert(key.key(), value),
            match previous {
                Some(v) => old(self)@.contains_key(key.key()) && v == old(self)@[key.key()],
                None => !old(self)@.contains_key(key.key()),
            },
    {
        proof {
            use_type_invariant(&*self);
        }
        let (found, i) = self.search(&key);
        let mut whole = Table { keys: Vec::new(), values: Vec::new() };
        std::mem::swap(&mut whole, self);
        let Table { mut keys, mut values } = whole;
        if found {
            proof {
                lemma_entry(keys@, values@, i as int);
                lemma_update(keys@, values@, i as int, value);
            }
            let mut slot = value;
            std::mem::swap(&mut slot, &mut values[i]);
            *self = Table { keys, values };
            Some(slot)
        } else {
            proof {
                lemma_insert(keys@, values@, i as int, key, value);
            }
            keys.insert(i, key);
            values.insert(i, value);
            *self = Table { keys, values };
            None
        }
    }

    /// Takes a key's value out.
    pub fn remove(&mut self, key: &K) -> (removed: Option<V>)
        ensures
            final(self)@ == old(self)@.remove(key.key()),
            match removed {
                Some(v) => old(self)@.contains_key(key.key()) && v == old(self)@[key.key()],
                None => !old(self)@.contains_key(key.key()) && *final(self) == *old(self),
            },
    {
        proof {
            use_type_invariant(&*self);
        }
        let (found, i) = self.search(key);
        if found {
            let mut whole = Table { keys: Vec::new(), values: Vec::new() };
            std::mem::swap(&mut whole, self);
            let Table { mut keys, mut values } = whole;
            proof {
                lemma_entry(keys@, values@, i as int);
                lemma_remove(keys@, values@, i as int);
            }
            keys.remove(i);
            let value = values.remove(i);
            *self = Table { keys, values };
            Some(value)
        } else {
            assert(self@.remove(key.key()) =~= self@);
            None
        }
    }

    /// The key at a place in the order.
    pub fn key_at(&self, i: usize) -> (key: &K)
        requires
            i < self.ordered_keys().len(),
        ensures
            key.key() == self.ordered_keys()[i as int],
    {
        &self.keys[i]
    }

    /// The value at a place in the order of keys.
    pub fn value_at(&self, i: usize) -> (value: &V)
        requires
            i < self.ordered_keys().len(),
        ensures
            self@.contains_key(self.ordered_keys()[i as int]),
            *value == self@[self.ordered_keys()[i as int]],
    {
        proof {
            use_type_invariant(self);
            lemma_entry(self.keys@, self.values@, i as int);
        }
        &self.values[i]
    }
}

/// No item comes before one that stands ahead of it.
pub open spec fn nondescending<K: TableKey>(items: Seq<K>) -> bool {
    forall|i: int, j: int|
        0 <= i < j < items.len() ==> !before(
            K::code(#[trigger] items[j].key()),
            K::code(#[trigger] items[i].key()),
        )
}

/// The same items in ascending order of their keys.
pub fn sorted_items<K: TableKey>(items: Vec<K>) -> (ordered: Vec<K>)
    ensures
        ordered@.to_multiset() == items@.to_multiset(),
        nondescending(ordered@),
{
    let mut rest = items;
    let mut ordered: Vec<K> = Vec::new();
    proof {
        vstd::seq_lib::to_multiset_len(ordered@);
        assert(rest@.to_multiset().add(ordered@.to_multiset()) =~= items@.to_multiset());
    }
    while rest.len() > 0
        invariant
            rest@.to_multiset().add(ordered@.to_multiset()) == items@.to_multiset(),
            nondescending(ordered@),
        decreases rest.len(),
    {
        let ghost before_rest = rest@;
        let ghost before_ordered = ordered@;
        match rest.pop() {
            None => {},
            Some(item) => {
                let at = place_of(&ordered, &item);
                ordered.insert(at, item);
                proof {
                    vstd::seq_lib::to_multiset_insert(before_ordered, at as int, item);
                    assert(before_rest =~= rest@.push(item));
                    vstd::seq_lib::to_multiset_build(rest@, item);
                    assert(rest@.to_multiset().add(ordered@.to_multiset())
                        =~= before_rest.to_multiset().add(before_ordered.to_multiset()));
                    lemma_insert_nondescending(before_ordered, at as int, item);
                }
            },
        }
    }
    proof {
        vstd::seq_lib::to_multiset_len(rest@);
        assert(rest@.to_multiset().add(ordered@.to_multiset()) =~= ordered@.to_multiset());
    }
    ordered
}

/// The place in an ordered list where an item belongs, ahead of its equals.
fn place_of<K: TableKey>(items: &Vec<K>, item: &K) -> (at: usize)
    requires
        nondescending(items@),
    ensures
        at <= items.len(),
        forall|j: int| 0 <= j < at ==> before(K::code(#[trigger] items@[j].key()), K::code(item.key())),
        forall|j: int|
            at <= j < items.len() ==> !before(
                K::code(#[trigger] items@[j].key()),
                K::code(item.key()),
            ),
{
    let mut at: usize = 0;
    while at < items.len()
        invariant
            at <= items.len(),
            nondescending(items@),
            forall|j: int|
                0 <= j < at ==> before(K::code(#[trigger] items@[j].key()), K::code(item.key())),
        decreases items.len() - at,
    {
        match compare(&items[at], item) {
            KeyOrder::Before => {
                at += 1;
            },
            _ => {
                proof {
                    let here = K::code(items@[at as int].key());
                    let code = K::code(item.key());
                    assert forall|j: int| at <= j < items.len() implies !before(
                        K::code(#[trigger] items@[j].key()),
                        code,
                    ) by {
                        let there = K::code(items@[j].key());
                        if before(there, code) {
                            if here != code {
                                lemma_before_transitive(there, code, here);
                            }
                            lemma_before_irreflexive(here);
                        }
                    }
                }
                return at;
            },
        }
    }
    at
}

proof fn lemma_insert_nondescending<K: TableKey>(items: Seq<K>, at: int, item: K)
    requires
        nondescending(items),
        0 <= at <= items.len(),
        forall|j: int| 0 <= j < at ==> before(K::code(#[trigger] items[j].key()), K::code(item.key())),
        forall|j: int|
            at <= j < items.len() ==> !before(K::code(#[trigger] items[j].key()), K::code(item.key())),
    ensures
        nondescending(items.insert(at, item)),
{
    let all = items.insert(at, item);
    assert forall|i: int, j: int| 0 <= i < j < all.len() implies !before(
        K::code(#[trigger] all[j].key()),
        K::code(#[trigger] all[i].key()),
    ) by {
        let x = if i < at { i } else { i - 1 };
        let y = if j < at { j } else { j - 1 };
        if i != at && j != at {
            assert(!before(K::code(items[y].key()), K::code(items[x].key())));
        } else if j == at {
            assert(all[i] == items[x]);
            if before(K::code(item.key()), K::code(items[x].key())) {
                lemma_before_transitive(
                    K::code(item.key()),
                    K::code(items[x].key()),
                    K::code(item.key()),
                );
                lemma_before_irreflexive(K::code(item.key()));
            }
        } else {
            assert(all[j] == items[y]);
        }
    }
}

/// The code that orders texts by code point.
pub open spec fn text_code(text: Seq<char>) -> Seq<int> {
    text.map_values(|c: char| c as int + 1)
}

/// Different texts have different codes.
pub proof fn lemma_text_code_injective(a: Seq<char>, b: Seq<char>)
    requires
        text_code(a) == text_code(b),
    ensures
        a == b,
{
    assert(text_code(a).len() == a.len());
    assert(text_code(b).len() == b.len());
    assert forall|i: int| 0 <= i < a.len() implies a[i] == b[i] by {
        assert(text_code(a)[i] == a[i] as int + 1);
        assert(text_code(b)[i] == b[i] as int + 1);
    }
    assert(a =~= b);
}

/// Appends the code of a text.
pub fn push_text_code(code: &mut Vec<u64>, s: &str)
    ensures
        numbers(final(code)@) == numbers(old(code)@) + text_code(s@),
{
    let chars = text::chars_of(s);
    let ghost start = code@;
    for i in 0..chars.len()
        invariant
            chars@ == s@,
            code.len() == start.len() + i,
            forall|j: int| 0 <= j < start.len() ==> code@[j] == start[j],
            forall|j: int|
                0 <= j < i ==> code@[start.len() + j] == (#[trigger] chars@[j]) as int + 1,
    {
        code.push(text::code_point(chars[i]) + 1);
    }
    proof {
        let all = numbers(code@);
        let expected = numbers(start) + text_code(s@);
        assert forall|j: int| 0 <= j < all.len() implies all[j] == expected[j] by {
            if j >= start.len() {
                assert(text_code(s@)[j - start.len()] == chars@[j - start.len()] as int + 1);
            }
        }
        assert(all =~= expected);
    }
}

/// A name is its own key; names are ordered by code point.
impl TableKey for String {
    type Key = Seq<char>;

    open spec fn key(&self) -> Seq<char> {
        self@
    }

    open spec fn code(key: Seq<char>) -> Seq<int> {
        text_code(key)
    }

    proof fn lemma_code_injective(a: Seq<char>, b: Seq<char>) {
        lemma_text_code_injective(a, b);
    }

    fn code_of(&self) -> (code: Vec<u64>) {
        let mut code: Vec<u64> = Vec::new();
        push_text_code(&mut code, self.as_str());
        assert(numbers(Seq::<u64>::empty()) + text_code(self@) =~= text_code(self@));
        code
    }
}

} // verus!
