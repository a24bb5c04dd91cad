//! Small verified containers that mirror the storage mappers of the contract:
//! an insertion-ordered set with swap removal (and order-keeping removal),
//! and an association map keyed by values with executable equality.
use vstd::prelude::*;

verus! {

/// Executable equality that agrees with spec equality.
pub trait ExecEq: Sized {
    fn exec_eq(&self, other: &Self) -> (r: bool)
        ensures
            r == (*self == *other),
    ;
}

impl ExecEq for u64 {
    fn exec_eq(&self, other: &Self) -> (r: bool) {
        *self == *other
    }
}

/// Index of `k` in a sequence without duplicates that contains it.
pub proof fn lemma_index_of_unique<K>(s: Seq<K>, i: int)
    requires
        s.no_duplicates(),
        0 <= i < s.len(),
    ensures
        s.index_of(s[i]) == i,
{
    assert(s.contains(s[i]));
    let j = s.index_of(s[i]);
    assert(0 <= j < s.len() && s[j] == s[i]);
}

/// Position of `k` in `v`, found by a linear scan.
fn find<K: ExecEq>(v: &Vec<K>, k: &K) -> (r: Option<usize>)
    ensures
        match r {
            Some(i) => i < v@.len() && v@[i as int] == *k && v@.contains(*k)
                && forall|j: int| 0 <= j < i ==> v@[j] != *k,
            None => !v@.contains(*k),
        },
{
    let mut i: usize = 0;
    while i < v.len()
        invariant
            i <= v@.len(),
            forall|j: int| 0 <= j < i ==> v@[j] != *k,
        decreases v@.len() - i,
    {
        if v[i].exec_eq(k) {
            return Some(i);
        }
        i = i + 1;
    }
    None
}

/// The first position of `k` in `s` (meaningful when `s` contains `k`).
pub open spec fn first_index_of<K>(s: Seq<K>, k: K) -> int {
    choose|i: int| 0 <= i < s.len() && s[i] == k && forall|j: int| 0 <= j < i ==> s[j] != k
}

/// `s` with `k` appended unless it is there already.
pub open spec fn set_insert<K>(s: Seq<K>, k: K) -> Seq<K> {
    if s.contains(k) {
        s
    } else {
        s.push(k)
    }
}

/// `s` with the first `k` replaced by the last element, and the last slot dropped.
pub open spec fn set_swap_remove<K>(s: Seq<K>, k: K) -> Seq<K> {
    if s.contains(k) {
        s.update(first_index_of(s, k), s.last()).drop_last()
    } else {
        s
    }
}

/// `s` with the first `k` removed and the order of the rest kept.
pub open spec fn set_remove_keep_order<K>(s: Seq<K>, k: K) -> Seq<K> {
    if s.contains(k) {
        s.remove(first_index_of(s, k))
    } else {
        s
    }
}

/// A position with no earlier occurrence is the first position.
pub proof fn lemma_first_index<K>(s: Seq<K>, i: int)
    requires
        0 <= i < s.len(),
        forall|j: int| 0 <= j < i ==> s[j] != s[i],
    ensures
        first_index_of(s, s[i]) == i,
        s.contains(s[i]),
{
    let k = s[i];
    assert(0 <= i < s.len() && s[i] == k && forall|j: int| 0 <= j < i ==> s[j] != k);
    let c = first_index_of(s, k);
    if c < i {
        assert(s[c] == k);
    }
    if c > i {
        assert(s[i] != k);
    }
}

/// In a sequence without duplicates every position is the first one of its element.
pub proof fn lemma_first_index_unique<K>(s: Seq<K>, i: int)
    requires
        s.no_duplicates(),
        0 <= i < s.len(),
    ensures
        first_index_of(s, s[i]) == i,
{
    lemma_first_index(s, i);
}

/// Insertion keeps a sequence free of duplicates.
pub proof fn lemma_set_insert_no_dup<K>(s: Seq<K>, k: K)
    requires
        s.no_duplicates(),
    ensures
        set_insert(s, k).no_duplicates(),
        set_insert(s, k).contains(k),
        forall|x: K| #[trigger] set_insert(s, k).contains(x) <==> (s.contains(x) || x == k),
{
    let t = set_insert(s, k);
    if !s.contains(k) {
        assert forall|a: int, b: int| 0 <= a < b < t.len() implies t[a] != t[b] by {
            if b == s.len() {
                assert(s.contains(s[a]));
            } else {
                assert(s[a] != s[b]);
            }
        }
        assert(t[s.len() as int] == k);
        assert forall|x: K| #[trigger] t.contains(x) implies (s.contains(x) || x == k) by {
            let i = choose|i: int| 0 <= i < t.len() && t[i] == x;
            if i < s.len() {
                assert(s[i] == x);
            }
        }
        assert forall|x: K| s.contains(x) implies #[trigger] t.contains(x) by {
            let i = choose|i: int| 0 <= i < s.len() && s[i] == x;
            assert(t[i] == x);
        }
    }
}

/// Swap removal keeps a sequence free of duplicates and takes out exactly `k`.
pub proof fn lemma_set_swap_remove_no_dup<K>(s: Seq<K>, k: K)
    requires
        s.no_duplicates(),
    ensures
        set_swap_remove(s, k).no_duplicates(),
        forall|x: K| #[trigger] set_swap_remove(s, k).contains(x) <==> (s.contains(x) && x != k),
{
    let t = set_swap_remove(s, k);
    if s.contains(k) {
        let i = s.index_of(k);
        lemma_first_index_unique(s, i);
        let n = s.len() - 1;
        let pos = |a: int| if a == i { n } else { a };
        assert forall|a: int| 0 <= a < t.len() implies #[trigger] t[a] == s[pos(a)] && pos(a) != i by {}
        assert forall|a: int, b: int| 0 <= a < b < t.len() implies t[a] != t[b] by {
            assert(t[a] == s[pos(a)] && t[b] == s[pos(b)]);
        }
        assert forall|x: K| #[trigger] t.contains(x) implies (s.contains(x) && x != k) by {
            let a = choose|a: int| 0 <= a < t.len() && t[a] == x;
            assert(t[a] == s[pos(a)]);
        }
        assert forall|x: K| s.contains(x) && x != k implies #[trigger] t.contains(x) by {
            let j = choose|j: int| 0 <= j < s.len() && s[j] == x;
            if j == n {
                assert(t[i] == x);
            } else {
                assert(t[j] == x);
            }
        }
    }
}

/// Order-keeping removal keeps a sequence free of duplicates and takes out exactly `k`.
pub proof fn lemma_set_remove_keep_order_no_dup<K>(s: Seq<K>, k: K)
    requires
        s.no_duplicates(),
    ensures
        set_remove_keep_order(s, k).no_duplicates(),
        forall|x: K| #[trigger] set_remove_keep_order(s, k).contains(x) <==> (s.contains(x) && x != k),
{
    let t = set_remove_keep_order(s, k);
    if s.contains(k) {
        let i = s.index_of(k);
        lemma_first_index_unique(s, i);
        let pos = |a: int| if a < i { a } else { a + 1 };
        assert forall|a: int| 0 <= a < t.len() implies #[trigger] t[a] == s[pos(a)] && pos(a) != i by {}
        assert forall|a: int, b: int| 0 <= a < b < t.len() implies t[a] != t[b] by {
            assert(t[a] == s[pos(a)] && t[b] == s[pos(b)]);
        }
        assert forall|x: K| #[trigger] t.contains(x) implies (s.contains(x) && x != k) by {
            let a = choose|a: int| 0 <= a < t.len() && t[a] == x;
            assert(t[a] == s[pos(a)]);
        }
        assert forall|x: K| s.contains(x) && x != k implies #[trigger] t.contains(x) by {
            let j = choose|j: int| 0 <= j < s.len() && s[j] == x;
            if j < i {
                assert(t[j] == x);
            } else {
                assert(t[j - 1] == x);
            }
        }
    }
}

/// A set that keeps insertion order; `swap_remove` moves the last element
/// into the freed slot, `remove_keep_order` shifts the tail.
pub struct UnorderedSet<K> {
    elems: Vec<K>,
}

impl<K> View for UnorderedSet<K> {
    type V = Seq<K>;

    closed spec fn view(&self) -> Seq<K> {
        self.elems@
    }
}

impl<K: ExecEq + Copy> UnorderedSet<K> {
    pub fn new() -> (r: Self)
        ensures
            r@ == Seq::<K>::empty(),
    {
        UnorderedSet { elems: Vec::new() }
    }

    pub fn len(&self) -> (r: usize)
        ensures
            r == self@.len(),
    {
        self.elems.len()
    }

    pub fn is_empty(&self) -> (r: bool)
        ensures
            r == (self@.len() == 0),
    {
        self.elems.len() == 0
    }

    pub fn contains(&self, k: &K) -> (r: bool)
        ensures
            r == self@.contains(*k),
    {
        find(&self.elems, k).is_some()
    }

    /// The element at position `i`.
    pub fn get(&self, i: usize) -> (r: K)
        requires
            i < self@.len(),
        ensures
            r == self@[i as int],
    {
        self.elems[i]
    }

    pub fn insert(&mut self, k: K) -> (added: bool)
        ensures
            added == !old(self)@.contains(k),
            final(self)@ == set_insert(old(self)@, k),
    {
        if self.contains(&k) {
            false
        } else {
            self.elems.push(k);
            true
        }
    }

    pub fn swap_remove(&mut self, k: &K) -> (removed: bool)
        ensures
            removed == old(self)@.contains(*k),
            final(self)@ == set_swap_remove(old(self)@, *k),
    {
        match find(&self.elems, k) {
            None => false,
            Some(i) => {
                proof {
                    lemma_first_index(self.elems@, i as int);
                }
                self.elems.swap_remove(i);
                true
            },
        }
    }

    pub fn remove_keep_order(&mut self, k: &K) -> (removed: bool)
        ensures
            removed == old(self)@.contains(*k),
            final(self)@ == set_remove_keep_order(old(self)@, *k),
    {
        match find(&self.elems, k) {
            None => false,
            Some(i) => {
                proof {
                    lemma_first_index(self.elems@, i as int);
                }
                self.elems.remove(i);
                true
            },
        }
    }

    /// The elements, in order.
    pub fn to_vec(&self) -> (r: Vec<K>)
        ensures
            r@ == self@,
    {
        let mut r: Vec<K> = Vec::new();
        let mut i: usize = 0;
        while i < self.elems.len()
            invariant
                i <= self.elems@.len(),
                r@ == self.elems@.subrange(0, i as int),
            decreases self.elems@.len() - i,
        {
            r.push(self.elems[i]);
            i = i + 1;
        }
        assert(self.elems@.subrange(0, self.elems@.len() as int) =~= self.elems@);
        r
    }
}

/// Every element of `list` is new to `s` and occurs once in `list`.
pub open spec fn fresh_and_distinct<K>(s: Seq<K>, list: Seq<K>) -> bool {
    forall|i: int|
        0 <= i < list.len() ==> !s.contains(#[trigger] list[i]) && forall|j: int|
            0 <= j < i ==> list[j] != list[i]
}

/// Every element of `list` is in `s` and occurs once in `list`.
pub open spec fn present_and_distinct<K>(s: Seq<K>, list: Seq<K>) -> bool {
    forall|i: int|
        0 <= i < list.len() ==> s.contains(#[trigger] list[i]) && forall|j: int|
            0 <= j < i ==> list[j] != list[i]
}

/// `s` after inserting the elements of `list` one after the other.
pub open spec fn set_insert_all<K>(s: Seq<K>, list: Seq<K>) -> Seq<K>
    decreases list.len(),
{
    if list.len() == 0 {
        s
    } else {
        set_insert(set_insert_all(s, list.drop_last()), list.last())
    }
}

/// Inserting elements one by one keeps a sequence free of duplicates and
/// adds exactly the listed elements.
pub proof fn lemma_set_insert_all_no_dup<K>(s: Seq<K>, list: Seq<K>)
    requires
        s.no_duplicates(),
    ensures
        set_insert_all(s, list).no_duplicates(),
        forall|x: K| #[trigger] set_insert_all(s, list).contains(x) <==> (s.contains(x)
            || list.contains(x)),
    decreases list.len(),
{
    if list.len() > 0 {
        let pre = list.drop_last();
        lemma_set_insert_all_no_dup(s, pre);
        lemma_set_insert_no_dup(set_insert_all(s, pre), list.last());
        assert forall|x: K| list.contains(x) <==> (pre.contains(x) || x == list.last()) by {
            if list.contains(x) {
                let a = choose|a: int| 0 <= a < list.len() && list[a] == x;
                if a < pre.len() {
                    assert(pre[a] == x);
                }
            }
            if pre.contains(x) {
                let a = choose|a: int| 0 <= a < pre.len() && pre[a] == x;
                assert(list[a] == x);
            }
        }
    }
}

/// `s` after swap-removing the elements of `list` one after the other.
pub open spec fn set_swap_remove_all<K>(s: Seq<K>, list: Seq<K>) -> Seq<K>
    decreases list.len(),
{
    if list.len() == 0 {
        s
    } else {
        set_swap_remove(set_swap_remove_all(s, list.drop_last()), list.last())
    }
}

/// `s` after removing the elements of `list` one after the other, keeping order.
pub open spec fn set_remove_keep_order_all<K>(s: Seq<K>, list: Seq<K>) -> Seq<K>
    decreases list.len(),
{
    if list.len() == 0 {
        s
    } else {
        set_remove_keep_order(set_remove_keep_order_all(s, list.drop_last()), list.last())
    }
}

/// Appending new, distinct elements keeps a sequence free of duplicates.
pub proof fn lemma_append_fresh_no_dup<K>(s: Seq<K>, list: Seq<K>)
    requires
        s.no_duplicates(),
        fresh_and_distinct(s, list),
    ensures
        (s + list).no_duplicates(),
        forall|x: K| #[trigger] (s + list).contains(x) <==> (s.contains(x) || list.contains(x)),
{
    let t = s + list;
    assert forall|a: int, b: int| 0 <= a < b < t.len() implies t[a] != t[b] by {
        if b < s.len() {
            assert(s[a] != s[b]);
        } else if a < s.len() {
            assert(t[b] == list[b - s.len()]);
            assert(!s.contains(list[b - s.len()]));
            assert(s.contains(s[a]));
        } else {
            assert(list[a - s.len()] != list[b - s.len()]);
        }
    }
    assert forall|x: K| #[trigger] t.contains(x) implies (s.contains(x) || list.contains(x)) by {
        let a = choose|a: int| 0 <= a < t.len() && t[a] == x;
        if a < s.len() {
            assert(s[a] == x);
        } else {
            assert(list[a - s.len()] == x);
        }
    }
    assert forall|x: K| (s.contains(x) || list.contains(x)) implies #[trigger] t.contains(x) by {
        if s.contains(x) {
            let a = choose|a: int| 0 <= a < s.len() && s[a] == x;
            assert(t[a] == x);
        } else {
            let a = choose|a: int| 0 <= a < list.len() && list[a] == x;
            assert(t[s.len() + a] == x);
        }
    }
}

/// Removing elements one by one keeps a sequence free of duplicates and
/// takes out exactly the listed elements.
pub proof fn lemma_swap_remove_all_no_dup<K>(s: Seq<K>, list: Seq<K>)
    requires
        s.no_duplicates(),
    ensures
        set_swap_remove_all(s, list).no_duplicates(),
        forall|x: K| #[trigger] set_swap_remove_all(s, list).contains(x) <==> (s.contains(x)
            && !list.contains(x)),
    decreases list.len(),
{
    if list.len() > 0 {
        let pre = list.drop_last();
        lemma_swap_remove_all_no_dup(s, pre);
        lemma_set_swap_remove_no_dup(set_swap_remove_all(s, pre), list.last());
        assert forall|x: K| list.contains(x) <==> (pre.contains(x) || x == list.last()) by {
            if list.contains(x) {
                let a = choose|a: int| 0 <= a < list.len() && list[a] == x;
                if a < pre.len() {
                    assert(pre[a] == x);
                }
            }
            if pre.contains(x) {
                let a = choose|a: int| 0 <= a < pre.len() && pre[a] == x;
                assert(list[a] == x);
            }
        }
    }
}

/// Order-keeping removal of listed elements keeps a sequence free of
/// duplicates and takes out exactly the listed elements.
pub proof fn lemma_remove_keep_order_all_no_dup<K>(s: Seq<K>, list: Seq<K>)
    requires
        s.no_duplicates(),
    ensures
        set_remove_keep_order_all(s, list).no_duplicates(),
        forall|x: K| #[trigger] set_remove_keep_order_all(s, list).contains(x) <==> (s.contains(x)
            && !list.contains(x)),
    decreases list.len(),
{
    if list.len() > 0 {
        let pre = list.drop_last();
        lemma_remove_keep_order_all_no_dup(s, pre);
        lemma_set_remove_keep_order_no_dup(set_remove_keep_order_all(s, pre), list.last());
        assert forall|x: K| list.contains(x) <==> (pre.contains(x) || x == list.last()) by {
            if list.contains(x) {
                let a = choose|a: int| 0 <= a < list.len() && list[a] == x;
                if a < pre.len() {
                    assert(pre[a] == x);
                }
            }
            if pre.contains(x) {
                let a = choose|a: int| 0 <= a < pre.len() && pre[a] == x;
                assert(list[a] == x);
            }
        }
    }
}

/// Inserting new, distinct elements one by one appends them in order.
pub proof fn lemma_set_insert_all_fresh<K>(s: Seq<K>, list: Seq<K>)
    requires
        fresh_and_distinct(s, list),
    ensures
        set_insert_all(s, list) == s + list,
    decreases list.len(),
{
    if list.len() > 0 {
        let pre = list.drop_last();
        let n = list.len() - 1;
        assert forall|i: int| 0 <= i < pre.len() implies !s.contains(#[trigger] pre[i]) && forall|
            j: int,
        | 0 <= j < i ==> pre[j] != pre[i] by {
            assert(pre[i] == list[i]);
            assert forall|j: int| 0 <= j < i implies pre[j] != pre[i] by {
                assert(pre[j] == list[j]);
            }
        }
        lemma_set_insert_all_fresh(s, pre);
        let last = list[n];
        assert(!s.contains(list[n]));
        if (s + pre).contains(last) {
            let a = choose|a: int| 0 <= a < (s + pre).len() && (s + pre)[a] == last;
            if a < s.len() {
                assert(s[a] == last);
            } else {
                assert(list[a - s.len()] == pre[a - s.len()]);
                assert(list[a - s.len()] != list[n]);
            }
        }
        assert(s + list =~= (s + pre).push(last));
    }
}

/// Swap-removing an element that lies past a prefix keeps the prefix.
proof fn lemma_swap_remove_keeps_prefix<K>(t: Seq<K>, s: Seq<K>, k: K)
    requires
        t.no_duplicates(),
        s.len() <= t.len(),
        t.subrange(0, s.len() as int) == s,
        !s.contains(k),
    ensures
        s.len() <= set_swap_remove(t, k).len(),
        set_swap_remove(t, k).subrange(0, s.len() as int) == s,
{
    if t.contains(k) {
        let j = t.index_of(k);
        lemma_first_index_unique(t, j);
        if j < s.len() {
            assert(t.subrange(0, s.len() as int)[j] == t[j]);
            assert(s[j] == k);
        }
        let r = set_swap_remove(t, k);
        assert(r.subrange(0, s.len() as int) =~= s) by {
            assert forall|a: int| 0 <= a < s.len() implies r[a] == s[a] by {
                assert(t.subrange(0, s.len() as int)[a] == t[a]);
            }
        }
    }
}

/// Order-keeping removal of an element that lies past a prefix keeps the prefix.
proof fn lemma_remove_keep_order_keeps_prefix<K>(t: Seq<K>, s: Seq<K>, k: K)
    requires
        t.no_duplicates(),
        s.len() <= t.len(),
        t.subrange(0, s.len() as int) == s,
        !s.contains(k),
    ensures
        s.len() <= set_remove_keep_order(t, k).len(),
        set_remove_keep_order(t, k).subrange(0, s.len() as int) == s,
{
    if t.contains(k) {
        let j = t.index_of(k);
        lemma_first_index_unique(t, j);
        if j < s.len() {
            assert(t.subrange(0, s.len() as int)[j] == t[j]);
            assert(s[j] == k);
        }
        let r = set_remove_keep_order(t, k);
        assert(r.subrange(0, s.len() as int) =~= s) by {
            assert forall|a: int| 0 <= a < s.len() implies r[a] == s[a] by {
                assert(t.subrange(0, s.len() as int)[a] == t[a]);
            }
        }
    }
}

/// Removing elements that are not in a prefix, one after the other, keeps the prefix.
proof fn lemma_remove_all_keeps_prefix<K>(t: Seq<K>, s: Seq<K>, list: Seq<K>)
    requires
        t.no_duplicates(),
        s.len() <= t.len(),
        t.subrange(0, s.len() as int) == s,
        forall|i: int| 0 <= i < list.len() ==> !s.contains(#[trigger] list[i]),
    ensures
        s.len() <= set_swap_remove_all(t, list).len(),
        set_swap_remove_all(t, list).subrange(0, s.len() as int) == s,
        s.len() <= set_remove_keep_order_all(t, list).len(),
        set_remove_keep_order_all(t, list).subrange(0, s.len() as int) == s,
    decreases list.len(),
{
    if list.len() > 0 {
        let pre = list.drop_last();
        assert forall|i: int| 0 <= i < pre.len() implies !s.contains(#[trigger] pre[i]) by {
            assert(pre[i] == list[i]);
        }
        lemma_remove_all_keeps_prefix(t, s, pre);
        lemma_swap_remove_all_no_dup(t, pre);
        lemma_remove_keep_order_all_no_dup(t, pre);
        assert(!s.contains(list[list.len() - 1]));
        lemma_swap_remove_keeps_prefix(set_swap_remove_all(t, pre), s, list.last());
        lemma_remove_keep_order_keeps_prefix(set_remove_keep_order_all(t, pre), s, list.last());
    }
}

/// A sequence without duplicates that starts with `s` and holds only
/// elements of `s` is `s`.
proof fn lemma_prefix_only<K>(r: Seq<K>, s: Seq<K>)
    requires
        r.no_duplicates(),
        s.len() <= r.len(),
        r.subrange(0, s.len() as int) == s,
        forall|x: K| #[trigger] r.contains(x) ==> s.contains(x),
    ensures
        r == s,
{
    if r.len() > s.len() {
        let n = s.len() as int;
        assert(r.contains(r[n]));
        let a = choose|a: int| 0 <= a < s.len() && s[a] == r[n];
        assert(r.subrange(0, n)[a] == r[a]);
    }
    assert(r =~= s) by {
        assert forall|a: int| 0 <= a < s.len() implies r[a] == s[a] by {
            assert(r.subrange(0, s.len() as int)[a] == r[a]);
        }
    }
}

/// Swap-removing, one after the other, the elements just appended gives the
/// sequence back.
pub proof fn lemma_swap_remove_all_appended<K>(s: Seq<K>, list: Seq<K>)
    requires
        s.no_duplicates(),
        fresh_and_distinct(s, list),
    ensures
        set_swap_remove_all(s + list, list) == s,
        present_and_distinct(s + list, list),
{
    lemma_append_fresh_no_dup(s, list);
    let t = s + list;
    assert(t.subrange(0, s.len() as int) =~= s);
    lemma_remove_all_keeps_prefix(t, s, list);
    lemma_swap_remove_all_no_dup(t, list);
    lemma_prefix_only(set_swap_remove_all(t, list), s);
    assert forall|i: int| 0 <= i < list.len() implies t.contains(#[trigger] list[i]) && forall|
        j: int,
    | 0 <= j < i ==> list[j] != list[i] by {
        assert(t[s.len() + i] == list[i]);
    }
}

/// Removing, one after the other and keeping order, the elements just
/// appended gives the sequence back.
pub proof fn lemma_remove_keep_order_all_appended<K>(s: Seq<K>, list: Seq<K>)
    requires
        s.no_duplicates(),
        fresh_and_distinct(s, list),
    ensures
        set_remove_keep_order_all(s + list, list) == s,
        present_and_distinct(s + list, list),
{
    lemma_append_fresh_no_dup(s, list);
    let t = s + list;
    assert(t.subrange(0, s.len() as int) =~= s);
    lemma_remove_all_keeps_prefix(t, s, list);
    lemma_remove_keep_order_all_no_dup(t, list);
    lemma_prefix_only(set_remove_keep_order_all(t, list), s);
    lemma_swap_remove_all_appended(s, list);
}

/// Whether `list[i]` occurs in `list` before position `i`.
fn occurs_before<K: ExecEq>(list: &Vec<K>, i: usize) -> (r: bool)
    requires
        i < list@.len(),
    ensures
        r == exists|j: int| 0 <= j < i && list@[j] == list@[i as int],
{
    let mut j: usize = 0;
    while j < i
        invariant
            j <= i < list@.len(),
            forall|k: int| 0 <= k < j ==> list@[k] != list@[i as int],
        decreases i - j,
    {
        if list[j].exec_eq(&list[i]) {
            return true;
        }
        j = j + 1;
    }
    false
}

impl<K: ExecEq + Copy> UnorderedSet<K> {
    /// Whether every element of `list` is new to the set and occurs once in `list`.
    pub fn all_fresh_and_distinct(&self, list: &Vec<K>) -> (r: bool)
        ensures
            r == fresh_and_distinct(self@, list@),
    {
        let mut i: usize = 0;
        while i < list.len()
            invariant
                i <= list@.len(),
                forall|a: int|
                    0 <= a < i ==> !self@.contains(#[trigger] list@[a]) && forall|j: int|
                        0 <= j < a ==> list@[j] != list@[a],
            decreases list@.len() - i,
        {
            if self.contains(&list[i]) || occurs_before(list, i) {
                return false;
            }
            i = i + 1;
        }
        true
    }

    /// Whether every element of `list` is in the set and occurs once in `list`.
    pub fn all_present_and_distinct(&self, list: &Vec<K>) -> (r: bool)
        ensures
            r == present_and_distinct(self@, list@),
    {
        let mut i: usize = 0;
        while i < list.len()
            invariant
                i <= list@.len(),
                forall|a: int|
                    0 <= a < i ==> self@.contains(#[trigger] list@[a]) && forall|j: int|
                        0 <= j < a ==> list@[j] != list@[a],
            decreases list@.len() - i,
        {
            if !self.contains(&list[i]) || occurs_before(list, i) {
                return false;
            }
            i = i + 1;
        }
        true
    }

    /// Appends the elements of `list`, all of them new and distinct.
    pub fn insert_all(&mut self, list: &Vec<K>)
        requires
            fresh_and_distinct(old(self)@, list@),
        ensures
            final(self)@ == old(self)@ + list@,
    {
        let ghost s = self@;
        let mut i: usize = 0;
        while i < list.len()
            invariant
                i <= list@.len(),
                fresh_and_distinct(s, list@),
                self@ == s + list@.subrange(0, i as int),
            decreases list@.len() - i,
        {
            let k = list[i];
            proof {
                assert(!s.contains(list@[i as int]));
                if (s + list@.subrange(0, i as int)).contains(k) {
                    let a = choose|a: int|
                        0 <= a < (s + list@.subrange(0, i as int)).len()
                            && (s + list@.subrange(0, i as int))[a] == k;
                    if a < s.len() {
                        assert(s[a] == k);
                    } else {
                        assert(list@[a - s.len()] == list@[i as int]);
                    }
                }
            }
            self.insert(k);
            assert(s + list@.subrange(0, i + 1) =~= (s + list@.subrange(0, i as int)).push(k));
            i = i + 1;
        }
        assert(list@.subrange(0, list@.len() as int) =~= list@);
    }

    /// Inserts the elements of `list` one after the other.
    pub fn insert_each(&mut self, list: &Vec<K>)
        ensures
            final(self)@ == set_insert_all(old(self)@, list@),
    {
        let ghost s = self@;
        let mut i: usize = 0;
        while i < list.len()
            invariant
                i <= list@.len(),
                self@ == set_insert_all(s, list@.subrange(0, i as int)),
            decreases list@.len() - i,
        {
            self.insert(list[i]);
            assert(list@.subrange(0, i + 1).drop_last() =~= list@.subrange(0, i as int));
            i = i + 1;
        }
        assert(list@.subrange(0, list@.len() as int) =~= list@);
    }

    /// Swap-removes the elements of `list` one after the other.
    pub fn swap_remove_all(&mut self, list: &Vec<K>)
        ensures
            final(self)@ == set_swap_remove_all(old(self)@, list@),
    {
        let ghost s = self@;
        let mut i: usize = 0;
        while i < list.len()
            invariant
                i <= list@.len(),
                self@ == set_swap_remove_all(s, list@.subrange(0, i as int)),
            decreases list@.len() - i,
        {
            self.swap_remove(&list[i]);
            assert(list@.subrange(0, i + 1).drop_last() =~= list@.subrange(0, i as int));
            i = i + 1;
        }
        assert(list@.subrange(0, list@.len() as int) =~= list@);
    }

    /// Removes the elements of `list` one after the other, keeping order.
    pub fn remove_keep_order_all(&mut self, list: &Vec<K>)
        ensures
            final(self)@ == set_remove_keep_order_all(old(self)@, list@),
    {
        let ghost s = self@;
        let mut i: usize = 0;
        while i < list.len()
            invariant
                i <= list@.len(),
                self@ == set_remove_keep_order_all(s, list@.subrange(0, i as int)),
            decreases list@.len() - i,
        {
            self.remove_keep_order(&list[i]);
            assert(list@.subrange(0, i + 1).drop_last() =~= list@.subrange(0, i as int));
            i = i + 1;
        }
        assert(list@.subrange(0, list@.len() as int) =~= list@);
    }
}

/// A map from keys with executable equality to values, kept as two
/// parallel vectors with distinct keys.
pub struct AssocMap<K, V> {
    keys: Vec<K>,
    vals: Vec<V>,
}

impl<K, V: View> View for AssocMap<K, V> {
    type V = Map<K, V::V>;

    closed spec fn view(&self) -> Map<K, V::V> {
        Map::new(
            |k: K| self.keys@.contains(k),
            |k: K| self.vals@[self.keys@.index_of(k)]@,
        )
    }
}

impl<K: ExecEq + Copy, V: View> AssocMap<K, V> {
    pub closed spec fn wf(&self) -> bool {
        &&& self.keys@.no_duplicates()
        &&& self.keys@.len() == self.vals@.len()
    }

    proof fn lemma_entry(&self, i: int)
        requires
            self.wf(),
            0 <= i < self.keys@.len(),
        ensures
            self@.contains_key(self.keys@[i]),
            self@[self.keys@[i]] == self.vals@[i]@,
    {
        lemma_index_of_unique(self.keys@, i);
    }

    pub fn new() -> (r: Self)
        ensures
            r.wf(),
            r@ == Map::<K, V::V>::empty(),
    {
        let r = AssocMap { keys: Vec::new(), vals: Vec::new() };
        assert(r@ =~= Map::<K, V::V>::empty());
        r
    }

    pub fn contains_key(&self, k: &K) -> (r: bool)
        requires
            self.wf(),
        ensures
            r == self@.contains_key(*k),
    {
        find(&self.keys, k).is_some()
    }

    pub fn get(&self, k: &K) -> (r: Option<&V>)
        requires
            self.wf(),
        ensures
            match r {
                Some(v) => self@.contains_key(*k) && v@ == self@[*k],
                None => !self@.contains_key(*k),
            },
    {
        match find(&self.keys, k) {
            None => None,
            Some(i) => {
                proof {
                    self.lemma_entry(i as int);
                }
                Some(&self.vals[i])
            },
        }
    }

    pub fn insert(&mut self, k: K, v: V)
        requires
            old(self).wf(),
        ensures
            final(self).wf(),
            final(self)@ == old(self)@.insert(k, v@),
    {
        let ghost old_keys = self.keys@;
        let ghost old_vals = self.vals@;
        let ghost old_view = self@;
        let ghost vv = v@;
        match find(&self.keys, &k) {
            Some(i) => {
                self.vals.set(i, v);
                proof {
                    assert forall|key: K| #[trigger] self@.contains_key(key) implies self@[key]
                        == old_view.insert(k, vv)[key] by {
                        let j = self.keys@.index_of(key);
                        lemma_index_of_unique(self.keys@, i as int);
                        if key != k {
                            assert(old_keys.contains(key));
                            assert(j != i);
                        }
                    }
                    assert(self@ =~= old_view.insert(k, vv));
                }
            },
            None => {
                self.keys.push(k);
                self.vals.push(v);
                proof {
                    let n = old_keys.len() as int;
                    assert forall|a: int, b: int|
                        0 <= a < b < self.keys@.len() implies self.keys@[a] != self.keys@[b] by {
                        if b == n {
                            assert(old_keys.contains(old_keys[a]));
                        } else {
                            assert(old_keys[a] != old_keys[b]);
                        }
                    }
                    assert forall|key: K| #[trigger] self@.contains_key(key) implies self@[key]
                        == old_view.insert(k, vv)[key] by {
                        let j = self.keys@.index_of(key);
                        lemma_index_of_unique(self.keys@, j);
                        if key == k {
                            lemma_index_of_unique(self.keys@, n);
                        } else {
                            assert(j != n);
                            assert(old_keys.contains(key));
                            lemma_index_of_unique(old_keys, old_keys.index_of(key));
                            assert(old_keys[j] == key);
                            lemma_index_of_unique(old_keys, j);
                        }
                    }
                    assert forall|key: K| #[trigger] old_view.insert(k, vv).contains_key(key)
                        implies self@.contains_key(key) by {
                        if key == k {
                            assert(self.keys@[n] == k);
                        } else {
                            let j = old_keys.index_of(key);
                            assert(self.keys@[j] == key);
                        }
                    }
                    assert(self@ =~= old_view.insert(k, vv));
                }
            },
        }
    }

    /// Removes the entry of `k`, handing back its value.
    pub fn take(&mut self, k: &K) -> (r: Option<V>)
        requires
            old(self).wf(),
        ensures
            final(self).wf(),
            final(self)@ == old(self)@.remove(*k),
            match r {
                Some(v) => old(self)@.contains_key(*k) && v@ == old(self)@[*k],
                None => !old(self)@.contains_key(*k),
            },
    {
        let ghost old_keys = self.keys@;
        let ghost old_vals = self.vals@;
        let ghost old_view = self@;
        match find(&self.keys, k) {
            None => {
                assert(old_view.remove(*k) =~= old_view);
                None
            },
            Some(i) => {
                proof {
                    self.lemma_entry(i as int);
                }
                let n = self.keys.len() - 1;
                self.keys.swap_remove(i);
                let v = self.vals.swap_remove(i);
                proof {
                    let t = self.keys@;
                    // position in the old keys of what now stands at `a`
                    assert forall|a: int, b: int| 0 <= a < b < t.len() implies t[a] != t[b] by {
                        let sa = if a == i { n as int } else { a };
                        let sb = if b == i { n as int } else { b };
                        assert(t[a] == old_keys[sa] && t[b] == old_keys[sb]);
                    }
                    assert forall|key: K| #[trigger] self@.contains_key(key) implies self@[key]
                        == old_view.remove(*k)[key] && old_view.remove(*k).contains_key(key) by {
                        let j = t.index_of(key);
                        lemma_index_of_unique(t, j);
                        let sj = if j == i { n as int } else { j };
                        assert(old_keys[sj] == key);
                        lemma_index_of_unique(old_keys, sj);
                        assert(sj != i);
                    }
                    assert forall|key: K| #[trigger] old_view.remove(*k).contains_key(key)
                        implies self@.contains_key(key) by {
                        let sj = old_keys.index_of(key);
                        lemma_index_of_unique(old_keys, sj);
                        assert(sj != i);
                        if sj == n {
                            assert(t[i as int] == key);
                        } else {
                            assert(t[sj] == key);
                        }
                    }
                    assert(self@ =~= old_view.remove(*k));
                }
                Some(v)
            },
        }
    }
}

} // verus!
