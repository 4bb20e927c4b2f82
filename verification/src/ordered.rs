//! Ordered keys and a map that keeps its entries in key order.

use vstd::prelude::*;
use vstd::utf8::encode_utf8;
use vstd::string::StringSliceAdditionalSpecFns;
use crate::text::lemma_utf8_injective;

verus! {

/// Outcome of comparing one key with another.
pub enum Rank {
    Before,
    Same,
    After,
}

/// The views of the elements of a sequence.
pub open spec fn views<T: View>(s: Seq<T>) -> Seq<T::V> {
    Seq::new(s.len(), |i: int| s[i]@)
}

/// The view of an optional value.
pub open spec fn opt_view<T: View>(o: Option<T>) -> Option<T::V> {
    match o {
        Some(t) => Some(t@),
        None => None,
    }
}

/// A value that can be copied; the copy has the same view.
pub trait Duplicate: View + Sized {
    /// Makes a copy.
    fn duplicate(&self) -> (r: Self)
        ensures
            r@ == self@,
    ;
}

impl Duplicate for String {
    fn duplicate(&self) -> (r: Self) {
        self.clone()
    }
}

impl Duplicate for u64 {
    fn duplicate(&self) -> (r: Self) {
        *self
    }
}

impl<A: Duplicate, B: Duplicate> Duplicate for (A, B) {
    fn duplicate(&self) -> (r: Self) {
        (self.0.duplicate(), self.1.duplicate())
    }
}

/// Copies the elements of a vector.
pub fn duplicate_all<T: Duplicate>(items: &Vec<T>) -> (r: Vec<T>)
    ensures
        views(r@) == views(items@),
{
    let mut out: Vec<T> = Vec::new();
    let mut i: usize = 0;
    while i < items.len()
        invariant
            i <= items.len(),
            out.len() == i,
            forall|j: int| 0 <= j < i ==> out@[j]@ == items@[j]@,
        decreases items.len() - i,
    {
        out.push(items[i].duplicate());
        i += 1;
    }
    assert(views(out@) =~= views(items@));
    out
}

/// Copies an optional value.
pub fn duplicate_option<T: Duplicate>(item: &Option<T>) -> (r: Option<T>)
    ensures
        opt_view(r) == opt_view(*item),
{
    match item {
        Some(t) => Some(t.duplicate()),
        None => None,
    }
}

/// A value whose view is totally ordered.
pub trait Key: View + Sized {
    /// Whether `a` comes strictly before `b`.
    spec fn before(a: Self::V, b: Self::V) -> bool;

    /// Nothing comes before itself.
    proof fn before_irreflexive(a: Self::V)
        ensures
            !Self::before(a, a),
    ;

    /// The order is transitive.
    proof fn before_transitive(a: Self::V, b: Self::V, c: Self::V)
        requires
            Self::before(a, b),
            Self::before(b, c),
        ensures
            Self::before(a, c),
    ;

    /// Of two different views one comes before the other.
    proof fn before_connected(a: Self::V, b: Self::V)
        ensures
            a == b || Self::before(a, b) || Self::before(b, a),
    ;

    /// Compares two keys.
    fn rank(&self, other: &Self) -> (r: Rank)
        ensures
            match r {
                Rank::Before => Self::before(self@, other@),
                Rank::Same => self@ == other@,
                Rank::After => Self::before(other@, self@),
            },
    ;
}

/// The byte strings agree before position `i`, where `a` ends or holds the smaller byte.
pub open spec fn splits_at(a: Seq<u8>, b: Seq<u8>, i: int) -> bool {
    &&& 0 <= i < b.len()
    &&& i <= a.len()
    &&& forall|j: int| 0 <= j < i ==> a[j] == b[j]
    &&& i == a.len() || a[i] < b[i]
}

/// Lexicographic order of byte strings.
pub open spec fn bytes_before(a: Seq<u8>, b: Seq<u8>) -> bool {
    exists|i: int| splits_at(a, b, i)
}

/// Text is ordered by its UTF-8 bytes.
pub open spec fn text_before(a: Seq<char>, b: Seq<char>) -> bool {
    bytes_before(encode_utf8(a), encode_utf8(b))
}

/// Text does not come before itself.
pub proof fn text_before_irreflexive(a: Seq<char>)
    ensures
        !text_before(a, a),
{
}

/// The order of texts is transitive.
pub proof fn text_before_transitive(a: Seq<char>, b: Seq<char>, c: Seq<char>)
    requires
        text_before(a, b),
        text_before(b, c),
    ensures
        text_before(a, c),
{
    let (x, y, z) = (encode_utf8(a), encode_utf8(b), encode_utf8(c));
    let i = choose|i: int| splits_at(x, y, i);
    let j = choose|j: int| splits_at(y, z, j);
    if i < j {
        assert(splits_at(x, z, i));
    } else {
        assert(splits_at(x, z, j));
    }
}

proof fn bytes_before_connected(a: Seq<u8>, b: Seq<u8>, i: int)
    requires
        0 <= i <= a.len(),
        i <= b.len(),
        forall|j: int| 0 <= j < i ==> a[j] == b[j],
    ensures
        a == b || bytes_before(a, b) || bytes_before(b, a),
    decreases a.len() - i,
{
    if i == a.len() && i == b.len() {
        assert(a =~= b);
    } else if i == a.len() || (i < b.len() && a[i] < b[i]) {
        assert(splits_at(a, b, i));
    } else if i == b.len() || b[i] < a[i] {
        assert(splits_at(b, a, i));
    } else {
        bytes_before_connected(a, b, i + 1);
    }
}

/// Of two different texts one comes before the other.
pub proof fn text_before_connected(a: Seq<char>, b: Seq<char>)
    ensures
        a == b || text_before(a, b) || text_before(b, a),
{
    bytes_before_connected(encode_utf8(a), encode_utf8(b), 0);
    if encode_utf8(a) == encode_utf8(b) {
        lemma_utf8_injective(a, b);
    }
}

/// Compares two texts.
pub fn rank_str(a: &str, b: &str) -> (r: Rank)
    ensures
        match r {
            Rank::Before => text_before(a@, b@),
            Rank::Same => a@ == b@,
            Rank::After => text_before(b@, a@),
        },
{
    let x = a.as_bytes();
    let y = b.as_bytes();
    let mut i: usize = 0;
    while i < x.len() && i < y.len()
        invariant
            i <= x.len(),
            i <= y.len(),
            x@ == encode_utf8(a@),
            y@ == encode_utf8(b@),
            forall|j: int| 0 <= j < i ==> x@[j] == y@[j],
        decreases x.len() - i,
    {
        if x[i] < y[i] {
            assert(splits_at(x@, y@, i as int));
            return Rank::Before;
        }
        if y[i] < x[i] {
            assert(splits_at(y@, x@, i as int));
            return Rank::After;
        }
        i += 1;
    }
    if i < y.len() {
        assert(splits_at(x@, y@, i as int));
        Rank::Before
    } else if i < x.len() {
        assert(splits_at(y@, x@, i as int));
        Rank::After
    } else {
        proof {
            assert(x@ =~= y@);
            lemma_utf8_injective(a@, b@);
        }
        Rank::Same
    }
}

impl Key for String {
    open spec fn before(a: Seq<char>, b: Seq<char>) -> bool {
        text_before(a, b)
    }

    proof fn before_irreflexive(a: Seq<char>) {
        text_before_irreflexive(a);
    }

    proof fn before_transitive(a: Seq<char>, b: Seq<char>, c: Seq<char>) {
        text_before_transitive(a, b, c);
    }

    proof fn before_connected(a: Seq<char>, b: Seq<char>) {
        text_before_connected(a, b);
    }

    fn rank(&self, other: &Self) -> (r: Rank) {
        rank_str(self.as_str(), other.as_str())
    }
}

/// Compares two numbers.
pub fn rank_u64(a: u64, b: u64) -> (r: Rank)
    ensures
        match r {
            Rank::Before => a < b,
            Rank::Same => a == b,
            Rank::After => b < a,
        },
{
    if a < b {
        Rank::Before
    } else if b < a {
        Rank::After
    } else {
        Rank::Same
    }
}

/// Pairs are ordered by their first components, then by their second ones.
impl<A: Key, B: Key> Key for (A, B) {
    open spec fn before(a: (A::V, B::V), b: (A::V, B::V)) -> bool {
        A::before(a.0, b.0) || (a.0 == b.0 && B::before(a.1, b.1))
    }

    proof fn before_irreflexive(a: (A::V, B::V)) {
        A::before_irreflexive(a.0);
        B::before_irreflexive(a.1);
    }

    proof fn before_transitive(a: (A::V, B::V), b: (A::V, B::V), c: (A::V, B::V)) {
        if A::before(a.0, b.0) && A::before(b.0, c.0) {
            A::before_transitive(a.0, b.0, c.0);
        } else if a.0 == b.0 && b.0 == c.0 && B::before(a.1, b.1) && B::before(b.1, c.1) {
            B::before_transitive(a.1, b.1, c.1);
        }
    }

    proof fn before_connected(a: (A::V, B::V), b: (A::V, B::V)) {
        A::before_connected(a.0, b.0);
        B::before_connected(a.1, b.1);
    }

    fn rank(&self, other: &Self) -> (r: Rank) {
        match self.0.rank(&other.0) {
            Rank::Before => Rank::Before,
            Rank::After => Rank::After,
            Rank::Same => self.1.rank(&other.1),
        }
    }
}

/// `keys` lists the elements of `dom` in order, each once.
pub open spec fn lists<K: Key>(keys: Seq<K::V>, dom: Set<K::V>) -> bool {
    &&& forall|i: int, j: int| 0 <= i < j < keys.len() ==> K::before(#[trigger] keys[i], #[trigger] keys[j])
    &&& forall|i: int| 0 <= i < keys.len() ==> dom.contains(#[trigger] keys[i])
    &&& forall|k: K::V| #[trigger] dom.contains(k) ==> keys.contains(k)
}

/// The elements of `dom` in key order.
pub open spec fn sorted<K: Key>(dom: Set<K::V>) -> Seq<K::V> {
    choose|keys: Seq<K::V>| lists::<K>(keys, dom)
}

/// There is only one ordered listing of a set.
pub proof fn lemma_listing_unique<K: Key>(a: Seq<K::V>, b: Seq<K::V>, dom: Set<K::V>)
    requires
        lists::<K>(a, dom),
        lists::<K>(b, dom),
    ensures
        a == b,
    decreases a.len(),
{
    if a.len() == 0 {
        if b.len() > 0 {
            assert(dom.contains(b[0]));
            assert(a.contains(b[0]));
        }
        assert(a =~= b);
    } else {
        assert(dom.contains(a[0]));
        assert(b.contains(a[0]));
        assert(b.len() > 0);
        let last_a = a.last();
        let last_b = b.last();
        assert(dom.contains(last_a) && dom.contains(last_b));
        assert(a.contains(last_b) && b.contains(last_a));
        let i = choose|i: int| 0 <= i < a.len() && a[i] == last_b;
        let j = choose|j: int| 0 <= j < b.len() && b[j] == last_a;
        if last_a != last_b {
            assert(K::before(a[i], a[a.len() - 1]));
            assert(K::before(b[j], b[b.len() - 1]));
            K::before_transitive(last_a, last_b, last_a);
            K::before_irreflexive(last_a);
        }
        let rest = dom.remove(last_a);
        assert(lists::<K>(a.drop_last(), rest)) by {
            lemma_listing_drop_last::<K>(a, dom);
        }
        assert(lists::<K>(b.drop_last(), rest)) by {
            lemma_listing_drop_last::<K>(b, dom);
        }
        lemma_listing_unique::<K>(a.drop_last(), b.drop_last(), rest);
        assert(a =~= a.drop_last().push(last_a));
        assert(b =~= b.drop_last().push(last_b));
    }
}

proof fn lemma_listing_drop_last<K: Key>(a: Seq<K::V>, dom: Set<K::V>)
    requires
        lists::<K>(a, dom),
        a.len() > 0,
    ensures
        lists::<K>(a.drop_last(), dom.remove(a.last())),
{
    let front = a.drop_last();
    let rest = dom.remove(a.last());
    assert forall|i: int| 0 <= i < front.len() implies rest.contains(#[trigger] front[i]) by {
        assert(dom.contains(a[i]));
        assert(K::before(a[i], a[a.len() - 1]));
        K::before_irreflexive(a[i]);
    }
    assert forall|k: K::V| #[trigger] rest.contains(k) implies front.contains(k) by {
        assert(dom.contains(k));
        assert(a.contains(k));
        let i = choose|i: int| 0 <= i < a.len() && a[i] == k;
        assert(i < a.len() - 1);
        assert(front[i] == k);
    }
}

/// A listing has as many elements as the set it lists.
pub proof fn lemma_listing_len<K: Key>(keys: Seq<K::V>, dom: Set<K::V>)
    requires
        lists::<K>(keys, dom),
    ensures
        dom.finite(),
        dom.len() == keys.len(),
        sorted::<K>(dom) == keys,
        keys.no_duplicates(),
{
    assert forall|i: int, j: int| 0 <= i < keys.len() && 0 <= j < keys.len() && i != j implies keys[i]
        != keys[j] by {
        if i < j {
            assert(K::before(keys[i], keys[j]));
        } else {
            assert(K::before(keys[j], keys[i]));
        }
        K::before_irreflexive(keys[i]);
    }
    keys.unique_seq_to_set();
    assert(keys.to_set() =~= dom);
    lemma_listing_unique::<K>(sorted::<K>(dom), keys, dom);
}

/// A finite set can be listed, so `sorted` lists it.
pub proof fn lemma_listing_exists<K: Key>(dom: Set<K::V>)
    requires
        dom.finite(),
    ensures
        lists::<K>(sorted::<K>(dom), dom),
    decreases dom.len(),
{
    if dom.len() == 0 {
        assert(dom =~= Set::empty());
        assert(lists::<K>(Seq::empty(), dom));
    } else {
        let x = dom.choose();
        let rest = dom.remove(x);
        lemma_listing_exists::<K>(rest);
        let keys = lemma_listing_with::<K>(sorted::<K>(rest), rest, x);
        assert(rest.insert(x) =~= dom);
        assert(lists::<K>(keys, dom));
    }
}

proof fn lemma_listing_with<K: Key>(keys: Seq<K::V>, dom: Set<K::V>, x: K::V) -> (r: Seq<K::V>)
    requires
        lists::<K>(keys, dom),
        !dom.contains(x),
    ensures
        lists::<K>(r, dom.insert(x)),
    decreases keys.len(),
{
    if keys.len() == 0 {
        let r = seq![x];
        assert(r[0] == x);
        assert forall|k: K::V| #[trigger] dom.insert(x).contains(k) implies r.contains(k) by {
            if k != x {
                assert(keys.contains(k));
            }
        }
        r
    } else {
        let last = keys.last();
        assert(dom.contains(keys[keys.len() - 1]));
        K::before_connected(last, x);
        if K::before(last, x) {
            let r = keys.push(x);
            assert forall|i: int, j: int| 0 <= i < j < r.len() implies K::before(#[trigger] r[i], #[trigger] r[j]) by {
                if j == keys.len() && i < keys.len() - 1 {
                    assert(K::before(keys[i], keys[keys.len() - 1]));
                    K::before_transitive(keys[i], last, x);
                }
            }
            assert forall|k: K::V| #[trigger] dom.insert(x).contains(k) implies r.contains(k) by {
                if k == x {
                    assert(r[keys.len() as int] == k);
                } else {
                    assert(keys.contains(k));
                    let i = choose|i: int| 0 <= i < keys.len() && keys[i] == k;
                    assert(r[i] == k);
                }
            }
            assert forall|i: int| 0 <= i < r.len() implies dom.insert(x).contains(#[trigger] r[i]) by {
                if i < keys.len() {
                    assert(dom.contains(keys[i]));
                }
            }
            r
        } else {
            let rest = dom.remove(last);
            lemma_listing_drop_last::<K>(keys, dom);
            let front = lemma_listing_with::<K>(keys.drop_last(), rest, x);
            let r = front.push(last);
            assert forall|i: int| 0 <= i < r.len() implies dom.insert(x).contains(#[trigger] r[i]) by {
                if i < front.len() {
                    assert(rest.insert(x).contains(front[i]));
                }
            }
            assert forall|i: int, j: int| 0 <= i < j < r.len() implies K::before(#[trigger] r[i], #[trigger] r[j]) by {
                assert(rest.insert(x).contains(front[i]));
                if j == front.len() && front[i] != x {
                    assert(dom.contains(front[i]));
                    assert(keys.contains(front[i]));
                    let n = choose|n: int| 0 <= n < keys.len() && keys[n] == front[i];
                    assert(K::before(keys[n], keys[keys.len() - 1]));
                }
            }
            assert forall|k: K::V| #[trigger] dom.insert(x).contains(k) implies r.contains(k) by {
                if k == last {
                    assert(r[front.len() as int] == k);
                } else {
                    assert(rest.insert(x).contains(k));
                    assert(front.contains(k));
                    let i = choose|i: int| 0 <= i < front.len() && front[i] == k;
                    assert(r[i] == k);
                }
            }
            r
        }
    }
}

/// A map from keys to values that keeps its entries in key order.
#[derive(Debug, PartialEq, Eq)]
pub struct SortedMap<K: Key, V: View> {
    keys: Vec<K>,
    values: Vec<V>,
}

impl<K: Key, V: View> View for SortedMap<K, V> {
    type V = Map<K::V, V::V>;

    closed spec fn view(&self) -> Map<K::V, V::V> {
        Map::new(
            |k: K::V| exists|i: int| 0 <= i < self.keys.len() && #[trigger] self.keys[i]@ == k,
            |k: K::V| self.values[choose|i: int| 0 <= i < self.keys.len() && #[trigger] self.keys[i]@ == k]@,
        )
    }
}

impl<K: Key, V: View> SortedMap<K, V> {
    #[verifier::type_invariant]
    spec fn inv(self) -> bool {
        &&& self.keys.len() == self.values.len()
        &&& forall|i: int, j: int|
            0 <= i < j < self.keys.len() ==> K::before(#[trigger] self.keys[i]@, #[trigger] self.keys[j]@)
    }

    /// The keys in order.
    pub open spec fn keys(&self) -> Seq<K::V> {
        sorted::<K>(self@.dom())
    }

    proof fn lemma_unique(keys: Seq<K>, i: int, j: int)
        requires
            forall|i: int, j: int|
                0 <= i < j < keys.len() ==> K::before(#[trigger] keys[i]@, #[trigger] keys[j]@),
            0 <= i < keys.len(),
            0 <= j < keys.len(),
            keys[i]@ == keys[j]@,
        ensures
            i == j,
    {
        K::before_irreflexive(keys[i]@);
        if i < j {
            assert(K::before(keys[i]@, keys[j]@));
        } else if j < i {
            assert(K::before(keys[j]@, keys[i]@));
        }
    }

    proof fn lemma_at(self, i: int)
        requires
            self.inv(),
            0 <= i < self.keys.len(),
        ensures
            self@.contains_key(self.keys[i]@),
            self@[self.keys[i]@] == self.values[i]@,
    {
        let k = self.keys[i]@;
        let c = choose|c: int| 0 <= c < self.keys.len() && #[trigger] self.keys[c]@ == k;
        Self::lemma_unique(self.keys@, c, i);
    }

    proof fn lemma_keys(self)
        requires
            self.inv(),
        ensures
            views(self.keys@) == self.keys(),
            lists::<K>(self.keys(), self@.dom()),
            self@.dom().finite(),
            self@.dom().len() == self.keys.len(),
            self.keys().no_duplicates(),
    {
        let ks = views(self.keys@);
        assert forall|i: int| 0 <= i < ks.len() implies self@.dom().contains(#[trigger] ks[i]) by {
            self.lemma_at(i);
        }
        assert forall|k: K::V| #[trigger] self@.dom().contains(k) implies ks.contains(k) by {
            let c = choose|c: int| 0 <= c < self.keys.len() && #[trigger] self.keys[c]@ == k;
            assert(ks[c] == k);
        }
        lemma_listing_len::<K>(ks, self@.dom());
    }

    /// An empty map.
    pub fn new() -> (r: Self)
        ensures
            r@ == Map::<K::V, V::V>::empty(),
    {
        let r = SortedMap { keys: Vec::new(), values: Vec::new() };
        assert(r@ =~= Map::<K::V, V::V>::empty());
        r
    }

    /// The number of entries.
    pub fn len(&self) -> (r: usize)
        ensures
            r == self@.len(),
            r == self@.dom().len(),
            self@.dom().finite(),
            r == self.keys().len(),
            lists::<K>(self.keys(), self@.dom()),
    {
        proof {
            use_type_invariant(self);
            self.lemma_keys();
        }
        self.keys.len()
    }

    /// Whether there is no entry.
    pub fn is_empty(&self) -> (r: bool)
        ensures
            r == (self@ == Map::<K::V, V::V>::empty()),
    {
        proof {
            use_type_invariant(self);
            if self.keys.len() > 0 {
                self.lemma_at(0);
            }
        }
        let r = self.keys.len() == 0;
        assert(r ==> self@ =~= Map::<K::V, V::V>::empty());
        r
    }

    /// The key at a position in key order.
    pub fn key_at(&self, i: usize) -> (r: &K)
        requires
            i < self@.dom().len(),
        ensures
            r@ == self.keys()[i as int],
            self@.contains_key(r@),
    {
        proof {
            use_type_invariant(self);
            self.lemma_keys();
            self.lemma_at(i as int);
        }
        &self.keys[i]
    }

    /// The value at a position in key order.
    pub fn value_at(&self, i: usize) -> (r: &V)
        requires
            i < self@.dom().len(),
        ensures
            r@ == self@[self.keys()[i as int]],
            self@.contains_key(self.keys()[i as int]),
    {
        proof {
            use_type_invariant(self);
            self.lemma_keys();
            self.lemma_at(i as int);
        }
        &self.values[i]
    }

    /// Finds the position of a key, or the position where it belongs.
    fn find(&self, key: &K) -> (r: Result<usize, usize>)
        ensures
            self.inv(),
            match r {
                Ok(i) => i < self.keys.len() && self.keys[i as int]@ == key@,
                Err(i) => {
                    &&& i <= self.keys.len()
                    &&& forall|j: int| 0 <= j < i ==> K::before(#[trigger] self.keys[j]@, key@)
                    &&& forall|j: int| i <= j < self.keys.len() ==> K::before(key@, #[trigger] self.keys[j]@)
                },
            },
    {
        proof {
            use_type_invariant(self);
        }
        let mut low: usize = 0;
        let mut high: usize = self.keys.len();
        while low < high
            invariant
                self.inv(),
                low <= high <= self.keys.len(),
                forall|j: int| 0 <= j < low ==> K::before(#[trigger] self.keys[j]@, key@),
                forall|j: int| high <= j < self.keys.len() ==> K::before(key@, #[trigger] self.keys[j]@),
            decreases high - low,
        {
            let mid: usize = low + (high - low) / 2;
            match self.keys[mid].rank(key) {
                Rank::Same => {
                    return Ok(mid);
                },
                Rank::Before => {
                    proof {
                        assert forall|j: int| 0 <= j < mid + 1 implies K::before(#[trigger] self.keys[j]@, key@) by {
                            if j < mid {
                                K::before_transitive(self.keys[j]@, self.keys[mid as int]@, key@);
                            }
                        }
                    }
                    low = mid + 1;
                },
                Rank::After => {
                    proof {
                        assert forall|j: int| mid <= j < self.keys.len() implies K::before(key@, #[trigger] self.keys[j]@) by {
                            if j > mid {
                                K::before_transitive(key@, self.keys[mid as int]@, self.keys[j]@);
                            }
                        }
                    }
                    high = mid;
                },
            }
        }
        Err(low)
    }

    proof fn lemma_absent(self, key: K::V, at: int)
        requires
            self.inv(),
            0 <= at <= self.keys.len(),
            forall|j: int| 0 <= j < at ==> K::before(#[trigger] self.keys[j]@, key),
            forall|j: int| at <= j < self.keys.len() ==> K::before(key, #[trigger] self.keys[j]@),
        ensures
            !self@.contains_key(key),
    {
        if self@.contains_key(key) {
            let c = choose|c: int| 0 <= c < self.keys.len() && #[trigger] self.keys[c]@ == key;
            K::before_irreflexive(key);
            assert(K::before(self.keys[c]@, key) || K::before(key, self.keys[c]@));
        }
    }

    /// The value stored under a key.
    pub fn get(&self, key: &K) -> (r: Option<&V>)
        ensures
            match r {
                Some(v) => self@.contains_key(key@) && v@ == self@[key@],
                None => !self@.contains_key(key@),
            },
    {
        match self.find(key) {
            Ok(i) => {
                proof {
                    self.lemma_at(i as int);
                }
                Some(&self.values[i])
            },
            Err(i) => {
                proof {
                    self.lemma_absent(key@, i as int);
                }
                None
            },
        }
    }

    /// Whether a key has an entry.
    pub fn contains_key(&self, key: &K) -> (r: bool)
        ensures
            r == self@.contains_key(key@),
    {
        self.get(key).is_some()
    }

    /// Stores a value under a key and hands back the value it replaces.
    pub fn insert(&mut self, key: K, value: V) -> (r: Option<V>)
        ensures
            final(self)@ == old(self)@.insert(key@, value@),
            match r {
                Some(v) => old(self)@.contains_key(key@) && v@ == old(self)@[key@],
                None => !old(self)@.contains_key(key@),
            },
    {
        let place = self.find(&key);
        let ghost before = *self;
        let mut taken = SortedMap::new();
        std::mem::swap(&mut taken, self);
        let SortedMap { mut keys, mut values } = taken;
        let r = match place {
            Ok(i) => {
                let mut value = value;
                std::mem::swap(&mut value, &mut values[i]);
                proof {
                    before.lemma_at(i as int);
                }
                Some(value)
            },
            Err(i) => {
                proof {
                    before.lemma_absent(key@, i as int);
                }
                keys.insert(i, key);
                values.insert(i, value);
                None
            },
        };
        *self = SortedMap { keys, values };
        proof {
            let after = *self;
            assert(after@ =~= before@.insert(key@, value@)) by {
                Self::lemma_inserted(before, after, key, value, place);
            }
        }
        r
    }

    proof fn lemma_inserted(before: Self, after: Self, key: K, value: V, place: Result<usize, usize>)
        requires
            before.inv(),
            after.inv(),
            match place {
                Ok(i) => {
                    &&& i < before.keys.len()
                    &&& before.keys[i as int]@ == key@
                    &&& after.keys@ == before.keys@
                    &&& after.values@ == before.values@.update(i as int, value)
                },
                Err(i) => {
                    &&& i <= before.keys.len()
                    &&& after.keys@ == before.keys@.insert(i as int, key)
                    &&& after.values@ == before.values@.insert(i as int, value)
                },
            },
        ensures
            after@ =~= before@.insert(key@, value@),
    {
        assert forall|k: K::V| after@.contains_key(k) == before@.insert(key@, value@).contains_key(k) by {
            if after@.contains_key(k) {
                let c = choose|c: int| 0 <= c < after.keys.len() && #[trigger] after.keys[c]@ == k;
                match place {
                    Ok(i) => {
                        assert(before.keys[c]@ == k);
                    },
                    Err(i) => {
                        if c < i {
                            assert(before.keys[c]@ == k);
                        } else if c > i {
                            assert(before.keys[c - 1]@ == k);
                        }
                    },
                }
            }
            if before@.contains_key(k) {
                let c = choose|c: int| 0 <= c < before.keys.len() && #[trigger] before.keys[c]@ == k;
                match place {
                    Ok(i) => {
                        assert(after.keys[c]@ == k);
                    },
                    Err(i) => {
                        if c < i {
                            assert(after.keys[c]@ == k);
                        } else {
                            assert(after.keys[c + 1]@ == k);
                        }
                    },
                }
            }
            match place {
                Ok(i) => {
                    assert(after.keys[i as int]@ == key@);
                },
                Err(i) => {
                    assert(after.keys[i as int]@ == key@);
                },
            }
        }
        assert forall|k: K::V| after@.contains_key(k) implies after@[k] == before@.insert(key@, value@)[k] by {
            let c = choose|c: int| 0 <= c < after.keys.len() && #[trigger] after.keys[c]@ == k;
            after.lemma_at(c);
            match place {
                Ok(i) => {
                    before.lemma_at(c);
                    if c != i && k == key@ {
                        Self::lemma_unique(before.keys@, c, i as int);
                    }
                },
                Err(i) => {
                    if c < i {
                        before.lemma_at(c);
                        if k == key@ {
                            assert(after.keys[i as int]@ == key@);
                            Self::lemma_unique(after.keys@, c, i as int);
                        }
                    } else if c > i {
                        before.lemma_at(c - 1);
                        if k == key@ {
                            assert(after.keys[i as int]@ == key@);
                            Self::lemma_unique(after.keys@, c, i as int);
                        }
                    }
                },
            }
        }
    }

    /// Removes the entry of a key and hands back its value.
    pub fn remove(&mut self, key: &K) -> (r: Option<V>)
        ensures
            final(self)@ == old(self)@.remove(key@),
            match r {
                Some(v) => old(self)@.contains_key(key@) && v@ == old(self)@[key@],
                None => !old(self)@.contains_key(key@),
            },
    {
        let place = self.find(key);
        let ghost before = *self;
        match place {
            Err(i) => {
                proof {
                    before.lemma_absent(key@, i as int);
                    assert(before@.remove(key@) =~= before@);
                }
                None
            },
            Ok(i) => {
                let mut taken = SortedMap::new();
                std::mem::swap(&mut taken, self);
                let SortedMap { mut keys, mut values } = taken;
                let _ = keys.remove(i);
                let v = values.remove(i);
                *self = SortedMap { keys, values };
                proof {
                    let after = *self;
                    before.lemma_at(i as int);
                    assert forall|k: K::V| after@.contains_key(k) == before@.remove(key@).contains_key(k) by {
                        if after@.contains_key(k) {
                            let c = choose|c: int| 0 <= c < after.keys.len() && #[trigger] after.keys[c]@ == k;
                            let b = if c < i { c } else { c + 1 };
                            assert(before.keys[b]@ == k);
                            if k == key@ {
                                Self::lemma_unique(before.keys@, b, i as int);
                            }
                        }
                        if before@.remove(key@).contains_key(k) {
                            let c = choose|c: int| 0 <= c < before.keys.len() && #[trigger] before.keys[c]@ == k;
                            if c < i {
                                assert(after.keys[c]@ == k);
                            } else {
                                assert(after.keys[c - 1]@ == k);
                            }
                        }
                    }
                    assert forall|k: K::V| after@.contains_key(k) implies after@[k] == before@.remove(key@)[k] by {
                        let c = choose|c: int| 0 <= c < after.keys.len() && #[trigger] after.keys[c]@ == k;
                        after.lemma_at(c);
                        let b = if c < i { c } else { c + 1 };
                        before.lemma_at(b);
                    }
                    assert(after@ =~= before@.remove(key@));
                }
                Some(v)
            },
        }
    }
}

impl<K: Key + Duplicate, V: Duplicate> Clone for SortedMap<K, V> {
    fn clone(&self) -> (r: Self)
        ensures
            r@ == self@,
    {
        proof {
            use_type_invariant(self);
        }
        let keys = duplicate_all(&self.keys);
        let values = duplicate_all(&self.values);
        proof {
            assert(keys.len() == views(keys@).len());
            assert(values.len() == views(values@).len());
            assert forall|i: int| 0 <= i < self.keys.len() implies keys@[i]@ == #[trigger] self.keys@[i]@ by {
                assert(views(keys@)[i] == views(self.keys@)[i]);
            }
            assert forall|i: int| 0 <= i < self.keys.len() implies values@[i]@ == #[trigger] self.values@[i]@ by {
                assert(views(values@)[i] == views(self.values@)[i]);
            }
        }
        proof {
            assert forall|i: int, j: int| 0 <= i < j < keys.len() implies K::before(
                #[trigger] keys@[i]@,
                #[trigger] keys@[j]@,
            ) by {
                assert(K::before(self.keys@[i]@, self.keys@[j]@));
            }
        }
        let r = SortedMap { keys, values };
        proof {
            assert(views(r.keys@) == views(self.keys@));
            r.lemma_keys();
            self.lemma_keys();
            assert forall|k: K::V| r@.contains_key(k) == self@.contains_key(k) by {
                assert(r@.dom().contains(k) == r.keys().contains(k));
                assert(self@.dom().contains(k) == self.keys().contains(k));
            }
            assert forall|k: K::V| r@.contains_key(k) implies r@[k] == self@[k] by {
                let c = choose|c: int| 0 <= c < r.keys.len() && #[trigger] r.keys[c]@ == k;
                r.lemma_at(c);
                self.lemma_at(c);
            }
            assert(r@ =~= self@);
        }
        r
    }
}

impl<K: Key + Duplicate, V: Duplicate> Duplicate for SortedMap<K, V> {
    fn duplicate(&self) -> (r: Self) {
        self.clone()
    }
}

/// A growing list of values.
#[derive(Debug, PartialEq, Eq)]
pub struct List<T: View> {
    items: Vec<T>,
}

impl<T: View> View for List<T> {
    type V = Seq<T::V>;

    closed spec fn view(&self) -> Seq<T::V> {
        views(self.items@)
    }
}

impl<T: View> List<T> {
    /// An empty list.
    pub fn new() -> (r: Self)
        ensures
            r@ == Seq::<T::V>::empty(),
    {
        let r = List { items: Vec::new() };
        assert(r@ =~= Seq::<T::V>::empty());
        r
    }

    /// The number of elements.
    pub fn len(&self) -> (r: usize)
        ensures
            r == self@.len(),
    {
        self.items.len()
    }

    /// The element at a position.
    pub fn at(&self, i: usize) -> (r: &T)
        requires
            i < self@.len(),
        ensures
            r@ == self@[i as int],
    {
        &self.items[i]
    }

    /// Appends an element.
    pub fn push(&mut self, item: T)
        ensures
            final(self)@ == old(self)@.push(item@),
    {
        self.items.push(item);
        assert(self@ =~= old(self)@.push(item@));
    }
}

impl<T: Duplicate> Clone for List<T> {
    fn clone(&self) -> (r: Self)
        ensures
            r@ == self@,
    {
        List { items: duplicate_all(&self.items) }
    }
}

impl<T: Duplicate> Duplicate for List<T> {
    fn duplicate(&self) -> (r: Self) {
        self.clone()
    }
}

/// A set that keeps its elements in order.
#[derive(Debug, PartialEq, Eq)]
pub struct SortedSet<K: Key> {
    map: SortedMap<K, u64>,
}

impl<K: Key> View for SortedSet<K> {
    type V = Set<K::V>;

    closed spec fn view(&self) -> Set<K::V> {
        self.map@.dom()
    }
}

impl<K: Key> SortedSet<K> {
    /// The elements in order.
    pub open spec fn elements(&self) -> Seq<K::V> {
        sorted::<K>(self@)
    }

    /// An empty set.
    pub fn new() -> (r: Self)
        ensures
            r@ == Set::<K::V>::empty(),
    {
        let r = SortedSet { map: SortedMap::new() };
        assert(r@ =~= Set::<K::V>::empty());
        r
    }

    /// The number of elements.
    pub fn len(&self) -> (r: usize)
        ensures
            r == self@.len(),
            self@.finite(),
            r == self.elements().len(),
            lists::<K>(self.elements(), self@),
    {
        self.map.len()
    }

    /// Whether there is no element.
    pub fn is_empty(&self) -> (r: bool)
        ensures
            r == (self@ == Set::<K::V>::empty()),
    {
        let r = self.map.is_empty();
        proof {
            if self@ == Set::<K::V>::empty() {
                assert(self.map@ =~= Map::<K::V, u64>::empty());
            }
        }
        r
    }

    /// Whether an element is in the set.
    pub fn contains(&self, key: &K) -> (r: bool)
        ensures
            r == self@.contains(key@),
    {
        self.map.contains_key(key)
    }

    /// Adds an element; tells whether it is new.
    pub fn insert(&mut self, key: K) -> (r: bool)
        ensures
            final(self)@ == old(self)@.insert(key@),
            r == !old(self)@.contains(key@),
    {
        let r = self.map.insert(key, 0).is_none();
        assert(self@ =~= old(self)@.insert(key@));
        r
    }

    /// Removes an element; tells whether it was there.
    pub fn remove(&mut self, key: &K) -> (r: bool)
        ensures
            final(self)@ == old(self)@.remove(key@),
            r == old(self)@.contains(key@),
    {
        let r = self.map.remove(key).is_some();
        assert(self@ =~= old(self)@.remove(key@));
        r
    }

    /// The element at a position in order.
    pub fn at(&self, i: usize) -> (r: &K)
        requires
            i < self@.len(),
        ensures
            r@ == self.elements()[i as int],
            self@.contains(r@),
    {
        self.map.key_at(i)
    }
}

impl<K: Key + Duplicate> SortedSet<K> {
    /// Copies of the elements in order.
    pub fn to_vec(&self) -> (r: Vec<K>)
        ensures
            views(r@) == self.elements(),
    {
        let n: usize = self.len();
        let mut out: Vec<K> = Vec::new();
        let mut i: usize = 0;
        while i < n
            invariant
                i <= n,
                n == self@.len(),
                n == self.elements().len(),
                out.len() == i,
                forall|j: int| 0 <= j < i ==> out@[j]@ == self.elements()[j],
            decreases n - i,
        {
            out.push(self.at(i).duplicate());
            i += 1;
        }
        assert(views(out@) =~= self.elements());
        out
    }
}

impl<K: Key + Duplicate> Clone for SortedSet<K> {
    fn clone(&self) -> (r: Self)
        ensures
            r@ == self@,
    {
        SortedSet { map: self.map.clone() }
    }
}

impl<K: Key + Duplicate> Duplicate for SortedSet<K> {
    fn duplicate(&self) -> (r: Self) {
        self.clone()
    }
}

/// The map in which an item has been appended to the list of a key.
pub open spec fn appended<K, T>(m: Map<K, Seq<T>>, key: K, item: T) -> Map<K, Seq<T>> {
    m.insert(
        key,
        (if m.contains_key(key) {
            m[key]
        } else {
            Seq::empty()
        }).push(item),
    )
}

/// Appends an item to the list of a key.
pub fn append_to<K: Key, T: View>(map: &mut SortedMap<K, List<T>>, key: K, item: T)
    ensures
        final(map)@ == appended(old(map)@, key@, item@),
{
    let mut list = match map.remove(&key) {
        Some(list) => list,
        None => List::new(),
    };
    list.push(item);
    let _ = map.insert(key, list);
    assert(map@ =~= appended(old(map)@, key@, item@));
}

/// The map in which an item has been added to the set of a key.
pub open spec fn included<K, T>(m: Map<K, Set<T>>, key: K, item: T) -> Map<K, Set<T>> {
    m.insert(
        key,
        (if m.contains_key(key) {
            m[key]
        } else {
            Set::empty()
        }).insert(item),
    )
}

/// Adds an item to the set of a key.
pub fn include_in<K: Key, T: Key>(map: &mut SortedMap<K, SortedSet<T>>, key: K, item: T)
    ensures
        final(map)@ == included(old(map)@, key@, item@),
{
    let mut set = match map.remove(&key) {
        Some(set) => set,
        None => SortedSet::new(),
    };
    let _ = set.insert(item);
    let _ = map.insert(key, set);
    assert(map@ =~= included(old(map)@, key@, item@));
}

/// The first elements of a sequence, at most `n`.
pub open spec fn first_n<T>(s: Seq<T>, n: nat) -> Seq<T> {
    if n <= s.len() {
        s.take(n as int)
    } else {
        s
    }
}

/// The values of those keys that a map holds.
pub open spec fn looked_up<K, V>(m: Map<K, V>, keys: Seq<K>) -> Seq<V>
    decreases keys.len(),
{
    if keys.len() == 0 {
        Seq::empty()
    } else {
        let sofar = looked_up(m, keys.drop_last());
        if m.contains_key(keys.last()) {
            sofar.push(m[keys.last()])
        } else {
            sofar
        }
    }
}

/// Where a map holds every key, looking them up leaves none out.
pub proof fn lemma_looked_up_all<K, V>(m: Map<K, V>, keys: Seq<K>)
    requires
        forall|i: int| 0 <= i < keys.len() ==> m.contains_key(#[trigger] keys[i]),
    ensures
        looked_up(m, keys) == keys.map_values(|k: K| m[k]),
    decreases keys.len(),
{
    if keys.len() > 0 {
        lemma_looked_up_all(m, keys.drop_last());
    }
    assert(looked_up(m, keys) =~= keys.map_values(|k: K| m[k]));
}

/// The value of a key that is looked up is among the values found.
pub proof fn lemma_looked_up_contains<K, V>(m: Map<K, V>, keys: Seq<K>, key: K)
    requires
        keys.contains(key),
        m.contains_key(key),
    ensures
        looked_up(m, keys).contains(m[key]),
    decreases keys.len(),
{
    let sofar = looked_up(m, keys.drop_last());
    if keys.last() == key {
        assert(looked_up(m, keys).last() == m[key]);
    } else {
        let k = choose|k: int| 0 <= k < keys.len() && keys[k] == key;
        assert(keys.drop_last()[k] == key);
        lemma_looked_up_contains(m, keys.drop_last(), key);
        let at = choose|at: int| 0 <= at < sofar.len() && sofar[at] == m[key];
        assert(looked_up(m, keys)[at] == m[key]);
    }
}

/// Whether a table lists an item under a key.
pub open spec fn is_listed<K, T>(table: Map<K, Seq<T>>, key: K, item: T) -> bool {
    table.contains_key(key) && table[key].contains(item)
}

/// An item that is appended is listed, and what was listed before still is.
pub proof fn lemma_appended_lists<K, T>(table: Map<K, Seq<T>>, key: K, item: T)
    ensures
        is_listed(appended(table, key, item), key, item),
        forall|k: K, t: T| #[trigger] is_listed(table, k, t) ==> is_listed(appended(table, key, item), k, t),
{
    let after = appended(table, key, item);
    assert(after[key].last() == item);
    assert forall|k: K, t: T| #[trigger] is_listed(table, k, t) implies is_listed(after, k, t) by {
        let at = choose|at: int| 0 <= at < table[k].len() && table[k][at] == t;
        assert(after[k][at] == t);
    }
}

/// Copies the values of the first keys of a list, leaving out those without a value.
pub fn look_up<K: Key, V: Duplicate>(map: &SortedMap<K, V>, keys: &List<K>, limit: usize) -> (r: Vec<V>)
    ensures
        views(r@) == looked_up(map@, first_n(keys@, limit as nat)),
{
    let n: usize = if limit < keys.len() {
        limit
    } else {
        keys.len()
    };
    let ghost wanted = first_n(keys@, limit as nat);
    let mut out: Vec<V> = Vec::new();
    let mut i: usize = 0;
    assert(views(out@) =~= looked_up(map@, wanted.take(0)));
    while i < n
        invariant
            i <= n <= keys@.len(),
            wanted == keys@.take(n as int),
            views(out@) == looked_up(map@, wanted.take(i as int)),
        decreases n - i,
    {
        assert(wanted.take(i + 1).drop_last() =~= wanted.take(i as int));
        let ghost done = out@;
        if let Some(value) = map.get(keys.at(i)) {
            out.push(value.duplicate());
            assert(views(out@) =~= views(done).push(value@));
        }
        i += 1;
    }
    assert(wanted.take(n as int) =~= wanted);
    out
}

/// The values that meet a condition, in the order of the keys.
pub open spec fn selected<K, V>(m: Map<K, V>, keys: Seq<K>, wanted: spec_fn(V) -> bool) -> Seq<V>
    decreases keys.len(),
{
    if keys.len() == 0 {
        Seq::empty()
    } else {
        let sofar = selected(m, keys.drop_last(), wanted);
        if wanted(m[keys.last()]) {
            sofar.push(m[keys.last()])
        } else {
            sofar
        }
    }
}

/// The value of a key that meets the condition is among the values selected.
pub proof fn lemma_selected_contains<K, V>(m: Map<K, V>, keys: Seq<K>, wanted: spec_fn(V) -> bool, key: K)
    requires
        keys.contains(key),
        wanted(m[key]),
    ensures
        selected(m, keys, wanted).contains(m[key]),
    decreases keys.len(),
{
    let sofar = selected(m, keys.drop_last(), wanted);
    if keys.last() == key {
        assert(selected(m, keys, wanted).last() == m[key]);
    } else {
        let k = choose|k: int| 0 <= k < keys.len() && keys[k] == key;
        assert(keys.drop_last()[k] == key);
        lemma_selected_contains(m, keys.drop_last(), wanted, key);
        let at = choose|at: int| 0 <= at < sofar.len() && sofar[at] == m[key];
        assert(selected(m, keys, wanted)[at] == m[key]);
    }
}

/// What the first keys select comes first in what all of them select.
pub proof fn lemma_selected_prefix<K, V>(m: Map<K, V>, keys: Seq<K>, wanted: spec_fn(V) -> bool, i: int)
    requires
        0 <= i <= keys.len(),
    ensures
        selected(m, keys.take(i), wanted).len() <= selected(m, keys, wanted).len(),
        selected(m, keys, wanted).take(selected(m, keys.take(i), wanted).len() as int) == selected(
            m,
            keys.take(i),
            wanted,
        ),
    decreases keys.len(),
{
    let part = selected(m, keys.take(i), wanted);
    if i == keys.len() {
        assert(keys.take(i) =~= keys);
        assert(part.take(part.len() as int) =~= part);
    } else {
        lemma_selected_prefix(m, keys.drop_last(), wanted, i);
        assert(keys.drop_last().take(i) =~= keys.take(i));
        let sofar = selected(m, keys.drop_last(), wanted);
        assert(selected(m, keys, wanted).take(part.len() as int) =~= sofar.take(part.len() as int));
    }
}

/// Inserts an element behind all those that need not come after it.
pub open spec fn insert_sorted<T>(s: Seq<T>, x: T, after: spec_fn(T, T) -> bool) -> Seq<T>
    decreases s.len(),
{
    if s.len() == 0 || !after(s.last(), x) {
        s.push(x)
    } else {
        insert_sorted(s.drop_last(), x, after).push(s.last())
    }
}

/// Sorts a sequence, keeping the order of elements neither of which comes after the
/// other.
pub open spec fn stable_sort<T>(s: Seq<T>, after: spec_fn(T, T) -> bool) -> Seq<T>
    decreases s.len(),
{
    if s.len() == 0 {
        Seq::empty()
    } else {
        insert_sorted(stable_sort(s.drop_last(), after), s.last(), after)
    }
}

/// Inserting puts the element at the position behind which every element comes after it.
pub proof fn lemma_insert_sorted_at<T>(s: Seq<T>, x: T, after: spec_fn(T, T) -> bool, at: int)
    requires
        0 <= at <= s.len(),
        at == 0 || !after(s[at - 1], x),
        forall|i: int| at <= i < s.len() ==> after(#[trigger] s[i], x),
    ensures
        insert_sorted(s, x, after) == s.insert(at, x),
    decreases s.len(),
{
    if at == s.len() {
        assert(insert_sorted(s, x, after) =~= s.insert(at, x));
    } else {
        lemma_insert_sorted_at(s.drop_last(), x, after, at);
        assert(insert_sorted(s, x, after) =~= s.insert(at, x));
    }
}

/// Sorting keeps the elements: as many of each as before.
pub proof fn lemma_stable_sort_multiset<T>(s: Seq<T>, after: spec_fn(T, T) -> bool)
    ensures
        stable_sort(s, after).to_multiset() == s.to_multiset(),
        stable_sort(s, after).len() == s.len(),
    decreases s.len(),
{
    broadcast use vstd::seq_lib::group_to_multiset_ensures;

    if s.len() > 0 {
        lemma_stable_sort_multiset(s.drop_last(), after);
        lemma_insert_multiset(stable_sort(s.drop_last(), after), s.last(), after);
        assert(s =~= s.drop_last().push(s.last()));
    }
}

proof fn lemma_insert_multiset<T>(s: Seq<T>, x: T, after: spec_fn(T, T) -> bool)
    ensures
        insert_sorted(s, x, after).to_multiset() == s.to_multiset().insert(x),
        insert_sorted(s, x, after).len() == s.len() + 1,
    decreases s.len(),
{
    broadcast use vstd::seq_lib::group_to_multiset_ensures;

    if s.len() == 0 || !after(s.last(), x) {
    } else {
        lemma_insert_multiset(s.drop_last(), x, after);
        assert(s =~= s.drop_last().push(s.last()));
        assert(insert_sorted(s, x, after).to_multiset() =~= s.to_multiset().insert(x));
    }
}

/// Sorting leaves no element before one that it comes after.
pub proof fn lemma_stable_sort_ordered<T>(s: Seq<T>, after: spec_fn(T, T) -> bool)
    requires
        forall|a: T, b: T| #![trigger after(a, b)] after(a, b) ==> !after(b, a),
        forall|a: T, b: T, c: T| #![trigger after(a, b), after(c, b)] after(a, b) && !after(c, b) ==> after(a, c),
    ensures
        forall|i: int, j: int|
            0 <= i < j < stable_sort(s, after).len() ==> !after(
                #[trigger] stable_sort(s, after)[i],
                #[trigger] stable_sort(s, after)[j],
            ),
    decreases s.len(),
{
    if s.len() > 0 {
        lemma_stable_sort_ordered(s.drop_last(), after);
        lemma_insert_ordered(stable_sort(s.drop_last(), after), s.last(), after);
    }
}

proof fn lemma_insert_ordered<T>(s: Seq<T>, x: T, after: spec_fn(T, T) -> bool)
    requires
        forall|a: T, b: T| #![trigger after(a, b)] after(a, b) ==> !after(b, a),
        forall|a: T, b: T, c: T| #![trigger after(a, b), after(c, b)] after(a, b) && !after(c, b) ==> after(a, c),
        forall|i: int, j: int| 0 <= i < j < s.len() ==> !after(#[trigger] s[i], #[trigger] s[j]),
    ensures
        forall|i: int, j: int|
            0 <= i < j < insert_sorted(s, x, after).len() ==> !after(
                #[trigger] insert_sorted(s, x, after)[i],
                #[trigger] insert_sorted(s, x, after)[j],
            ),
        forall|i: int|
            0 <= i < insert_sorted(s, x, after).len() ==> insert_sorted(s, x, after)[i] == x || s.contains(
                #[trigger] insert_sorted(s, x, after)[i],
            ),
    decreases s.len(),
{
    let r = insert_sorted(s, x, after);
    if s.len() == 0 || !after(s.last(), x) {
        assert forall|i: int, j: int| 0 <= i < j < r.len() implies !after(#[trigger] r[i], #[trigger] r[j]) by {
            if j == r.len() - 1 {
                if i < s.len() - 1 {
                    assert(!after(s[i], s[s.len() - 1]));
                    if after(s[i], x) {
                        assert(after(s[i], s.last()));
                    }
                }
            } else {
                assert(!after(s[i], s[j]));
            }
        }
        assert forall|i: int| 0 <= i < r.len() implies r[i] == x || s.contains(#[trigger] r[i]) by {
            if i < s.len() {
                assert(s[i] == r[i]);
            }
        }
    } else {
        let front = s.drop_last();
        lemma_insert_ordered(front, x, after);
        let f = insert_sorted(front, x, after);
        assert forall|i: int| 0 <= i < f.len() implies !after(#[trigger] f[i], s.last()) by {
            if f[i] == x {
                assert(after(s.last(), x));
            } else {
                assert(front.contains(f[i]));
                let k = choose|k: int| 0 <= k < front.len() && front[k] == f[i];
                assert(!after(s[k], s[s.len() - 1]));
            }
        }
        assert forall|i: int, j: int| 0 <= i < j < r.len() implies !after(#[trigger] r[i], #[trigger] r[j]) by {
            if j < r.len() - 1 {
                assert(!after(f[i], f[j]));
            }
        }
        assert forall|i: int| 0 <= i < r.len() implies r[i] == x || s.contains(#[trigger] r[i]) by {
            if i < f.len() {
                assert(r[i] == f[i]);
                if f[i] != x {
                    assert(front.contains(f[i]));
                    let k = choose|k: int| 0 <= k < front.len() && front[k] == f[i];
                    assert(s[k] == f[i]);
                }
            } else {
                assert(s[s.len() - 1] == r[i]);
            }
        }
    }
}

/// A text comes before another exactly if their UTF-8 bytes agree up to some place where the
/// first ends or has the smaller byte.
pub proof fn law_text_order(a: Seq<char>, b: Seq<char>, i: int)
    ensures
        0 <= i < encode_utf8(b).len() && i <= encode_utf8(a).len() && (forall|j: int|
            0 <= j < i ==> encode_utf8(a)[j] == encode_utf8(b)[j]) && (i == encode_utf8(a).len() || encode_utf8(a)[i]
            < encode_utf8(b)[i]) ==> text_before(a, b) && !text_before(b, a),
        a == b ==> !text_before(a, b),
        a != b ==> text_before(a, b) || text_before(b, a),
{
    text_before_irreflexive(a);
    text_before_connected(a, b);
    if 0 <= i < encode_utf8(b).len() && i <= encode_utf8(a).len() && (forall|j: int|
        0 <= j < i ==> encode_utf8(a)[j] == encode_utf8(b)[j]) && (i == encode_utf8(a).len() || encode_utf8(a)[i]
        < encode_utf8(b)[i]) {
        assert(splits_at(encode_utf8(a), encode_utf8(b), i));
        if text_before(b, a) {
            text_before_transitive(a, b, a);
        }
    }
}

/// The first of a sequence are those at its start, as many as are wanted and there are.
pub proof fn law_first_ones<T>(s: Seq<T>, n: nat)
    ensures
        first_n(s, n).len() == if n <= s.len() {
            n
        } else {
            s.len()
        },
        forall|i: int| 0 <= i < first_n(s, n).len() ==> #[trigger] first_n(s, n)[i] == s[i],
{
}

} // verus!
