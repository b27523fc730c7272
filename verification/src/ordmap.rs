//! An ordered string-keyed map: an association list over parallel vectors,
//! with insertion order kept and keys unique.  Lookup is by key; iteration
//! is by position, in the order the keys were first inserted.
use vstd::prelude::*;

use crate::strutil::str_eq;

verus! {

/// Index of the first occurrence of `k` in `keys`, or `keys.len()` if absent.
pub open spec fn key_index(keys: Seq<Seq<char>>, k: Seq<char>) -> int
    decreases keys.len(),
{
    if keys.len() == 0 {
        0
    } else if keys[0] == k {
        0
    } else {
        1 + key_index(keys.drop_first(), k)
    }
}

pub proof fn lemma_key_index(keys: Seq<Seq<char>>, k: Seq<char>)
    ensures
        0 <= key_index(keys, k) <= keys.len(),
        keys.contains(k) <==> key_index(keys, k) < keys.len(),
        keys.contains(k) ==> keys[key_index(keys, k)] == k,
        forall|j: int| 0 <= j < key_index(keys, k) ==> keys[j] != k,
    decreases keys.len(),
{
    if keys.len() == 0 {
        assert(!keys.contains(k));
    } else if keys[0] == k {
        assert(keys.contains(k));
    } else {
        let rest = keys.drop_first();
        lemma_key_index(rest, k);
        assert(keys.contains(k) <==> rest.contains(k)) by {
            if keys.contains(k) {
                let i = choose|i: int| 0 <= i < keys.len() && keys[i] == k;
                assert(rest[i - 1] == k);
            }
            if rest.contains(k) {
                let i = choose|i: int| 0 <= i < rest.len() && rest[i] == k;
                assert(keys[i + 1] == k);
            }
        }
        assert(forall|j: int| 0 <= j < key_index(keys, k) ==> keys[j] != k) by {
            assert(forall|j: int| 1 <= j < key_index(keys, k) ==> keys[j] == rest[j - 1]);
        }
    }
}

pub proof fn lemma_contains_drop_first(keys: Seq<Seq<char>>, k: Seq<char>)
    requires
        keys.len() > 0,
    ensures
        keys.contains(k) <==> (keys[0] == k || keys.drop_first().contains(k)),
{
    let rest = keys.drop_first();
    if keys.contains(k) && keys[0] != k {
        let i = choose|i: int| 0 <= i < keys.len() && keys[i] == k;
        assert(rest[i - 1] == k);
    }
    if rest.contains(k) {
        let i = choose|i: int| 0 <= i < rest.len() && rest[i] == k;
        assert(keys[i + 1] == k);
    }
}

/// How the first-occurrence index shifts when a key is appended.
pub proof fn lemma_key_index_push(ks: Seq<Seq<char>>, x: Seq<char>, k: Seq<char>)
    ensures
        k != x ==> key_index(ks.push(x), k) == (if ks.contains(k) {
            key_index(ks, k)
        } else {
            ks.len() as int + 1
        }),
        k == x && !ks.contains(k) ==> key_index(ks.push(x), k) == ks.len(),
        ks.push(x).contains(k) <==> (ks.contains(k) || k == x),
    decreases ks.len(),
{
    lemma_key_index(ks, k);
    lemma_contains_drop_first(ks.push(x), k);
    if ks.len() == 0 {
        assert(ks.push(x)[0] == x);
        assert(ks.push(x).len() == 1);
        assert(!ks.contains(k));
        if k != x {
            assert(key_index(ks.push(x), k) == 1 + key_index(ks.push(x).drop_first(), k));
            assert(ks.push(x).drop_first() =~= Seq::<Seq<char>>::empty());
            assert(key_index(Seq::<Seq<char>>::empty(), k) == 0);
            assert(key_index(ks.push(x), k) == 1);
        } else {
            assert(key_index(ks.push(x), k) == 0);
        }
    } else {
        assert(ks.push(x)[0] == ks[0]);
        assert(ks.push(x).len() == ks.len() + 1);
        assert(ks.push(x).drop_first() =~= ks.drop_first().push(x));
        lemma_key_index_push(ks.drop_first(), x, k);
        lemma_contains_drop_first(ks, k);
        lemma_key_index(ks.drop_first(), k);
        if !ks.contains(k) {
            assert(ks[0] != k);
            assert(!ks.drop_first().contains(k));
        }
    }
}

/// In a duplicate-free key sequence, the key at position `i` indexes back to `i`.
pub proof fn lemma_index_of_position(ks: Seq<Seq<char>>, i: int)
    requires
        ks.no_duplicates(),
        0 <= i < ks.len(),
    ensures
        ks.contains(ks[i]),
        key_index(ks, ks[i]) == i,
{
    assert(ks.contains(ks[i]));
    lemma_key_index(ks, ks[i]);
    let ki = key_index(ks, ks[i]);
    assert(ks[ki] == ks[i]);
}

/// The keys of `ks`, in order, that do not occur in `avoid`.
pub open spec fn keys_not_in(ks: Seq<Seq<char>>, avoid: Seq<Seq<char>>) -> Seq<Seq<char>>
    decreases ks.len(),
{
    if ks.len() == 0 {
        Seq::empty()
    } else if avoid.contains(ks[0]) {
        keys_not_in(ks.drop_first(), avoid)
    } else {
        seq![ks[0]] + keys_not_in(ks.drop_first(), avoid)
    }
}

pub proof fn lemma_keys_not_in_push(ks: Seq<Seq<char>>, avoid: Seq<Seq<char>>, x: Seq<char>)
    ensures
        keys_not_in(ks.push(x), avoid) == if avoid.contains(x) {
            keys_not_in(ks, avoid)
        } else {
            keys_not_in(ks, avoid).push(x)
        },
    decreases ks.len(),
{
    if ks.len() == 0 {
        assert(ks.push(x)[0] == x);
        assert(ks.push(x).len() == 1);
        assert(ks.push(x).drop_first() =~= Seq::<Seq<char>>::empty());
        assert(keys_not_in(Seq::<Seq<char>>::empty(), avoid) == Seq::<Seq<char>>::empty());
        assert(keys_not_in(ks, avoid) == Seq::<Seq<char>>::empty());
        if avoid.contains(x) {
            assert(keys_not_in(ks.push(x), avoid) == keys_not_in(ks.push(x).drop_first(), avoid));
        } else {
            assert(keys_not_in(ks.push(x), avoid) == seq![x] + keys_not_in(
                ks.push(x).drop_first(),
                avoid,
            ));
            assert(keys_not_in(ks.push(x), avoid) =~= keys_not_in(ks, avoid).push(x));
        }
    } else {
        assert(ks.push(x)[0] == ks[0]);
        assert(ks.push(x).len() == ks.len() + 1);
        assert(ks.push(x).drop_first() =~= ks.drop_first().push(x));
        lemma_keys_not_in_push(ks.drop_first(), avoid, x);
        let rest = ks.drop_first();
        if avoid.contains(ks[0]) {
            assert(keys_not_in(ks.push(x), avoid) == keys_not_in(rest.push(x), avoid));
            assert(keys_not_in(ks, avoid) == keys_not_in(rest, avoid));
        } else {
            assert(keys_not_in(ks.push(x), avoid) == seq![ks[0]] + keys_not_in(
                rest.push(x),
                avoid,
            ));
            assert(keys_not_in(ks, avoid) == seq![ks[0]] + keys_not_in(rest, avoid));
            if !avoid.contains(x) {
                assert(seq![ks[0]] + keys_not_in(rest, avoid).push(x) =~= (seq![ks[0]]
                    + keys_not_in(rest, avoid)).push(x));
            }
        }
    }
}

/// An ordered map from `String` keys to values of type `V`.
#[derive(Debug)]
pub struct OrdMap<V> {
    keys: Vec<String>,
    vals: Vec<V>,
}

impl<V> OrdMap<V> {
    /// The keys, as character sequences, in insertion order.
    pub closed spec fn key_seq(&self) -> Seq<Seq<char>> {
        self.keys@.map_values(|s: String| s@)
    }

    /// The values, in the same order as `key_seq`.
    pub closed spec fn val_seq(&self) -> Seq<V> {
        self.vals@
    }

    /// Well-formed: parallel vectors of equal length, keys unique.
    pub open spec fn wf(&self) -> bool {
        &&& self.key_seq().len() == self.val_seq().len()
        &&& self.key_seq().no_duplicates()
    }

    pub open spec fn contains_key(&self, k: Seq<char>) -> bool {
        self.key_seq().contains(k)
    }

    /// The value stored under key `k` (meaningful only when `contains_key(k)`).
    pub open spec fn value_of(&self, k: Seq<char>) -> V {
        self.val_seq()[key_index(self.key_seq(), k)]
    }

    pub fn new() -> (r: OrdMap<V>)
        ensures
            r.wf(),
            r.key_seq() == Seq::<Seq<char>>::empty(),
            r.val_seq() == Seq::<V>::empty(),
    {
        let r = OrdMap { keys: Vec::new(), vals: Vec::new() };
        proof {
            assert(r.key_seq() =~= Seq::<Seq<char>>::empty());
        }
        r
    }

    pub fn len(&self) -> (r: usize)
        requires
            self.wf(),
        ensures
            r == self.key_seq().len(),
    {
        self.keys.len()
    }

    /// Position of `k` among the keys, if present.
    pub fn index_of(&self, k: &str) -> (r: Option<usize>)
        requires
            self.wf(),
        ensures
            match r {
                Some(i) => {
                    &&& self.contains_key(k@)
                    &&& i < self.key_seq().len()
                    &&& self.key_seq()[i as int] == k@
                    &&& i == key_index(self.key_seq(), k@)
                },
                None => !self.contains_key(k@),
            },
    {
        let n = self.keys.len();
        proof {
            assert(self.key_seq().len() == self.keys@.len());
        }
        let mut i: usize = 0;
        while i < n
            invariant
                self.wf(),
                n == self.keys@.len(),
                n == self.key_seq().len(),
                i <= n,
                forall|j: int| 0 <= j < i ==> self.key_seq()[j] != k@,
            decreases n - i,
        {
            if str_eq(self.keys[i].as_str(), k) {
                proof {
                    assert(self.key_seq()[i as int] == k@);
                    assert(self.key_seq().contains(k@));
                    lemma_key_index(self.key_seq(), k@);
                    let ki = key_index(self.key_seq(), k@);
                    assert(self.key_seq()[ki] == k@);
                    if ki < i {
                        assert(false);
                    }
                    if ki > i as int {
                        assert(self.key_seq()[i as int] != k@);
                        assert(false);
                    }
                }
                return Some(i);
            }
            i = i + 1;
        }
        proof {
            assert(!self.key_seq().contains(k@)) by {
                if self.key_seq().contains(k@) {
                    let j = choose|j: int|
                        0 <= j < self.key_seq().len() && self.key_seq()[j] == k@;
                    assert(self.key_seq()[j] != k@);
                }
            }
        }
        None
    }

    pub fn has(&self, k: &str) -> (r: bool)
        requires
            self.wf(),
        ensures
            r == self.contains_key(k@),
    {
        self.index_of(k).is_some()
    }

    pub fn get(&self, k: &str) -> (r: Option<&V>)
        requires
            self.wf(),
        ensures
            match r {
                Some(v) => self.contains_key(k@) && *v == self.value_of(k@),
                None => !self.contains_key(k@),
            },
    {
        match self.index_of(k) {
            Some(i) => Some(&self.vals[i]),
            None => None,
        }
    }

    /// Inserts `k -> v`: an existing key keeps its position and gets the new
    /// value; a new key is appended at the end.
    pub fn insert(&mut self, k: String, v: V)
        requires
            old(self).wf(),
        ensures
            final(self).wf(),
            old(self).contains_key(k@) ==> {
                &&& final(self).key_seq() == old(self).key_seq()
                &&& final(self).val_seq() == old(self).val_seq().update(
                    key_index(old(self).key_seq(), k@),
                    v,
                )
            },
            !old(self).contains_key(k@) ==> {
                &&& final(self).key_seq() == old(self).key_seq().push(k@)
                &&& final(self).val_seq() == old(self).val_seq().push(v)
            },
            final(self).contains_key(k@),
            final(self).value_of(k@) == v,
            forall|k2: Seq<char>|
                final(self).contains_key(k2) <==> (old(self).contains_key(k2) || k2 == k@),
            forall|k2: Seq<char>|
                k2 != k@ && old(self).contains_key(k2) ==> final(self).value_of(k2) == old(
                    self,
                ).value_of(k2),
    {
        proof {
            lemma_key_index(old(self).key_seq(), k@);
        }
        match self.index_of(k.as_str()) {
            Some(i) => {
                self.vals[i] = v;
                proof {
                    assert(self.key_seq() =~= old(self).key_seq());
                    assert forall|k2: Seq<char>|
                        k2 != k@ && old(self).contains_key(k2) implies self.value_of(k2) == old(
                        self,
                    ).value_of(k2) by {
                        lemma_key_index(self.key_seq(), k2);
                        let ki2 = key_index(self.key_seq(), k2);
                        assert(self.key_seq()[ki2] == k2);
                        assert(ki2 != i);
                    }
                }
            },
            None => {
                self.keys.push(k);
                self.vals.push(v);
                proof {
                    assert(self.key_seq() =~= old(self).key_seq().push(k@));
                    lemma_key_index_push(old(self).key_seq(), k@, k@);
                    assert(self.contains_key(k@));
                    assert(self.value_of(k@) == v);
                    assert forall|k2: Seq<char>|
                        self.contains_key(k2) <==> (old(self).contains_key(k2) || k2 == k@) by {
                        lemma_key_index_push(old(self).key_seq(), k@, k2);
                    }
                    assert forall|k2: Seq<char>|
                        k2 != k@ && old(self).contains_key(k2) implies self.value_of(k2) == old(
                        self,
                    ).value_of(k2) by {
                        lemma_key_index_push(old(self).key_seq(), k@, k2);
                        lemma_key_index(old(self).key_seq(), k2);
                    }
                }
            },
        }
    }

    /// Removes `k` and closes the gap, keeping the order of the other keys.
    pub fn remove(&mut self, k: &str)
        requires
            old(self).wf(),
        ensures
            final(self).wf(),
            old(self).contains_key(k@) ==> {
                &&& final(self).key_seq() == old(self).key_seq().remove(
                    key_index(old(self).key_seq(), k@),
                )
                &&& final(self).val_seq() == old(self).val_seq().remove(
                    key_index(old(self).key_seq(), k@),
                )
            },
            !old(self).contains_key(k@) ==> *final(self) == *old(self),
    {
        match self.index_of(k) {
            Some(i) => {
                proof {
                    assert(self.keys@.len() == self.key_seq().len());
                    assert(self.vals@.len() == self.val_seq().len());
                }
                self.keys.remove(i);
                self.vals.remove(i);
                proof {
                    let oldk = old(self).key_seq();
                    assert(self.key_seq() =~= oldk.remove(i as int));
                    assert(self.val_seq() =~= old(self).val_seq().remove(i as int));
                    assert forall|a: int, b: int|
                        0 <= a < self.key_seq().len() && 0 <= b < self.key_seq().len() && a != b
                        implies self.key_seq()[a] != self.key_seq()[b] by {
                        let a0: int = if a < i { a } else { a + 1 };
                        let b0: int = if b < i { b } else { b + 1 };
                        assert(self.key_seq()[a] == oldk[a0]);
                        assert(self.key_seq()[b] == oldk[b0]);
                    }
                }
            },
            None => {},
        }
    }

    pub fn key_at(&self, i: usize) -> (r: &String)
        requires
            self.wf(),
            i < self.key_seq().len(),
        ensures
            r@ == self.key_seq()[i as int],
    {
        &self.keys[i]
    }

    pub fn val_at(&self, i: usize) -> (r: &V)
        requires
            self.wf(),
            i < self.key_seq().len(),
        ensures
            *r == self.val_seq()[i as int],
    {
        &self.vals[i]
    }

    /// A fresh vector holding the keys in order.
    pub fn keys_cloned(&self) -> (r: Vec<String>)
        requires
            self.wf(),
        ensures
            r@.map_values(|s: String| s@) == self.key_seq(),
    {
        let mut r: Vec<String> = Vec::new();
        let mut i: usize = 0;
        while i < self.keys.len()
            invariant
                self.wf(),
                i <= self.keys@.len(),
                r@ =~= self.keys@.subrange(0, i as int),
            decreases self.keys.len() - i,
        {
            r.push(self.keys[i].clone());
            i = i + 1;
        }
        proof {
            assert(r@ =~= self.keys@);
            assert(r@.map_values(|s: String| s@) =~= self.key_seq());
        }
        r
    }
}

/// The character sequences of a sequence of strings.
pub open spec fn str_views(vs: Seq<String>) -> Seq<Seq<char>> {
    vs.map_values(|s: String| s@)
}

/// The mathematical model of an ordered string-to-string map: the key/value
/// pairs in insertion order.
pub type Ctx = Seq<(Seq<char>, Seq<char>)>;

pub open spec fn ctx_keys(c: Ctx) -> Seq<Seq<char>> {
    c.map_values(|p: (Seq<char>, Seq<char>)| p.0)
}

pub open spec fn ctx_contains(c: Ctx, k: Seq<char>) -> bool {
    ctx_keys(c).contains(k)
}

/// The value bound to `k` (meaningful only when `ctx_contains(c, k)`).
pub open spec fn ctx_value(c: Ctx, k: Seq<char>) -> Seq<char> {
    c[key_index(ctx_keys(c), k)].1
}

/// Insertion-order-preserving update: an existing key keeps its position and
/// takes the new value; a new key is appended.
pub open spec fn ctx_insert(c: Ctx, k: Seq<char>, v: Seq<char>) -> Ctx {
    if ctx_contains(c, k) {
        c.update(key_index(ctx_keys(c), k), (k, v))
    } else {
        c.push((k, v))
    }
}

/// What `ctx_insert` does to membership and to the inserted binding.
pub proof fn lemma_ctx_insert_contains(c: Ctx, k: Seq<char>, v: Seq<char>)
    ensures
        ctx_contains(ctx_insert(c, k, v), k),
        ctx_value(ctx_insert(c, k, v), k) == v,
        forall|k2: Seq<char>|
            #[trigger] ctx_contains(ctx_insert(c, k, v), k2) <==> (ctx_contains(c, k2) || k2 == k),
{
    lemma_key_index(ctx_keys(c), k);
    if ctx_contains(c, k) {
        let ki = key_index(ctx_keys(c), k);
        let c2 = c.update(ki, (k, v));
        assert(ctx_keys(c2) =~= ctx_keys(c));
        assert(c2[key_index(ctx_keys(c2), k)].1 == v);
    } else {
        let c2 = c.push((k, v));
        assert(ctx_keys(c2) =~= ctx_keys(c).push(k));
        lemma_key_index_push(ctx_keys(c), k, k);
        assert(c2[key_index(ctx_keys(c2), k)].1 == v);
        assert forall|k2: Seq<char>|
            #[trigger] ctx_contains(c2, k2) <==> (ctx_contains(c, k2) || k2 == k) by {
            lemma_key_index_push(ctx_keys(c), k, k2);
        }
    }
}

impl OrdMap<String> {
    /// The model of this map: its key/value pairs in order.
    pub open spec fn ctx(&self) -> Ctx {
        Seq::new(self.key_seq().len(), |i: int| (self.key_seq()[i], self.val_seq()[i]@))
    }
}

/// Lookup through the model agrees with lookup through the map.
pub proof fn lemma_ctx_lookup(m: &OrdMap<String>, k: Seq<char>)
    requires
        m.wf(),
    ensures
        ctx_contains(m.ctx(), k) == m.contains_key(k),
        m.contains_key(k) ==> ctx_value(m.ctx(), k) == m.value_of(k)@,
{
    assert(ctx_keys(m.ctx()) =~= m.key_seq());
    lemma_key_index(m.key_seq(), k);
}

/// `OrdMap::insert` realises `ctx_insert` on the model.
pub proof fn lemma_ctx_insert(before: &OrdMap<String>, after: &OrdMap<String>, k: Seq<char>, v: String)
    requires
        before.wf(),
        after.wf(),
        before.contains_key(k) ==> after.key_seq() == before.key_seq() && after.val_seq()
            == before.val_seq().update(key_index(before.key_seq(), k), v),
        !before.contains_key(k) ==> after.key_seq() == before.key_seq().push(k) && after.val_seq()
            == before.val_seq().push(v),
    ensures
        after.ctx() == ctx_insert(before.ctx(), k, v@),
{
    assert(ctx_keys(before.ctx()) =~= before.key_seq());
    lemma_key_index(before.key_seq(), k);
    if before.contains_key(k) {
        assert(after.ctx() =~= ctx_insert(before.ctx(), k, v@));
    } else {
        assert(after.ctx() =~= ctx_insert(before.ctx(), k, v@));
    }
}

impl OrdMap<String> {
    /// A fresh map with the same keys and the same string values.
    pub fn duplicate(&self) -> (r: Self)
        requires
            self.wf(),
        ensures
            r.wf(),
            r.key_seq() == self.key_seq(),
            r.val_seq() == self.val_seq(),
    {
        let mut keys: Vec<String> = Vec::new();
        let mut vals: Vec<String> = Vec::new();
        let mut i: usize = 0;
        while i < self.keys.len()
            invariant
                self.wf(),
                i <= self.keys@.len(),
                keys@ =~= self.keys@.subrange(0, i as int),
                vals@ =~= self.vals@.subrange(0, i as int),
            decreases self.keys.len() - i,
        {
            keys.push(self.keys[i].clone());
            vals.push(self.vals[i].clone());
            i = i + 1;
        }
        let r = OrdMap { keys, vals };
        proof {
            assert(r.keys@ =~= self.keys@);
            assert(r.vals@ =~= self.vals@);
            assert(r.key_seq() =~= self.key_seq());
        }
        r
    }
}

} // verus!
