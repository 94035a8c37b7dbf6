//! Stable ordering: a comparison of (text, number) keys and a sort of
//! indices by it, ties kept in index order.

use vstd::prelude::*;

verus! {

/// A sort key: compared by `text` (character by character, shorter prefix
/// first), then by `num`.
pub struct SortItem {
    pub text: Vec<char>,
    pub num: i128,
}

/// Lexicographic comparison of character sequences: -1, 0 or 1.
pub open spec fn lex_order(a: Seq<char>, b: Seq<char>) -> int
    decreases a.len(),
{
    if a.len() == 0 && b.len() == 0 {
        0
    } else if a.len() == 0 {
        -1
    } else if b.len() == 0 {
        1
    } else if a[0] < b[0] {
        -1
    } else if a[0] > b[0] {
        1
    } else {
        lex_order(a.drop_first(), b.drop_first())
    }
}

/// Comparison of integers: -1, 0 or 1.
pub open spec fn num_order(a: int, b: int) -> int {
    if a < b { -1 } else if a > b { 1 } else { 0 }
}

/// Comparison of sort keys: by text, then by number.
pub open spec fn key_order(a: (Seq<char>, int), b: (Seq<char>, int)) -> int {
    let t = lex_order(a.0, b.0);
    if t != 0 { t } else { num_order(a.1, b.1) }
}

pub proof fn lemma_lex_antisym(a: Seq<char>, b: Seq<char>)
    ensures
        lex_order(a, b) == -lex_order(b, a),
        -1 <= lex_order(a, b) <= 1,
        lex_order(a, b) == 0 ==> a == b,
    decreases a.len(),
{
    if a.len() > 0 && b.len() > 0 && a[0] == b[0] {
        lemma_lex_antisym(a.drop_first(), b.drop_first());
        if lex_order(a, b) == 0 {
            assert(a == seq![a[0]] + a.drop_first());
            assert(b == seq![b[0]] + b.drop_first());
        }
    } else if a.len() == 0 && b.len() == 0 {
        assert(a =~= b);
    }
}

pub proof fn lemma_lex_trans(a: Seq<char>, b: Seq<char>, c: Seq<char>)
    requires
        lex_order(a, b) <= 0,
        lex_order(b, c) <= 0,
    ensures
        lex_order(a, c) <= 0,
        (lex_order(a, b) < 0 || lex_order(b, c) < 0) ==> lex_order(a, c) < 0,
    decreases a.len(),
{
    lemma_lex_antisym(a, b);
    lemma_lex_antisym(b, c);
    lemma_lex_antisym(a, c);
    if a.len() > 0 && b.len() > 0 && c.len() > 0 {
        if a[0] == b[0] && b[0] == c[0] {
            lemma_lex_trans(a.drop_first(), b.drop_first(), c.drop_first());
        }
    }
}

/// The mathematical value of a sort key.
pub open spec fn item_view(k: SortItem) -> (Seq<char>, int) {
    (k.text@, k.num as int)
}

/// Index `a` goes before index `b`: its key is smaller (larger when
/// `reverse`), or the keys tie and `a < b`.
pub open spec fn before(keys: Seq<(Seq<char>, int)>, reverse: bool, a: int, b: int) -> bool {
    let c = if reverse { key_order(keys[b], keys[a]) } else { key_order(keys[a], keys[b]) };
    c < 0 || (c == 0 && a < b)
}

/// `p` lists each of `0..n` exactly once, in `before` order.
pub open spec fn sorted_perm(p: Seq<usize>, keys: Seq<(Seq<char>, int)>, reverse: bool) -> bool {
    &&& p.len() == keys.len()
    &&& forall|i: int| 0 <= i < p.len() ==> #[trigger] p[i] < keys.len()
    &&& forall|i: int, j: int| 0 <= i < j < p.len() ==> before(keys, reverse, p[i] as int, p[j] as int)
}

proof fn lemma_key_props(x: (Seq<char>, int), y: (Seq<char>, int))
    ensures
        key_order(x, y) == -key_order(y, x),
        -1 <= key_order(x, y) <= 1,
        key_order(x, y) == 0 ==> x == y,
{
    lemma_lex_antisym(x.0, y.0);
}

proof fn lemma_key_trans(x: (Seq<char>, int), y: (Seq<char>, int), z: (Seq<char>, int))
    requires
        key_order(x, y) <= 0,
        key_order(y, z) <= 0,
    ensures
        key_order(x, z) <= 0,
        (key_order(x, y) < 0 || key_order(y, z) < 0) ==> key_order(x, z) < 0,
{
    lemma_key_props(x, y);
    lemma_key_props(y, z);
    lemma_key_props(x, z);
    lemma_lex_antisym(x.0, y.0);
    lemma_lex_antisym(y.0, z.0);
    lemma_lex_antisym(x.0, z.0);
    if lex_order(x.0, y.0) <= 0 && lex_order(y.0, z.0) <= 0 {
        lemma_lex_trans(x.0, y.0, z.0);
    }
}

pub proof fn lemma_before_trans(keys: Seq<(Seq<char>, int)>, reverse: bool, a: int, b: int, c: int)
    requires
        0 <= a < keys.len(),
        0 <= b < keys.len(),
        0 <= c < keys.len(),
        before(keys, reverse, a, b),
        before(keys, reverse, b, c),
    ensures
        before(keys, reverse, a, c),
{
    if reverse {
        lemma_key_props(keys[b], keys[a]);
        lemma_key_props(keys[c], keys[b]);
        lemma_key_trans(keys[c], keys[b], keys[a]);
    } else {
        lemma_key_props(keys[a], keys[b]);
        lemma_key_props(keys[b], keys[c]);
        lemma_key_trans(keys[a], keys[b], keys[c]);
    }
}

pub proof fn lemma_before_total(keys: Seq<(Seq<char>, int)>, reverse: bool, a: int, b: int)
    requires
        0 <= a < keys.len(),
        0 <= b < keys.len(),
        a != b,
    ensures
        before(keys, reverse, a, b) != before(keys, reverse, b, a),
{
    lemma_key_props(keys[a], keys[b]);
}

fn lex_order_exec(a: &Vec<char>, b: &Vec<char>) -> (r: i8)
    ensures
        r as int == lex_order(a@, b@),
{
    let n = if a.len() < b.len() { a.len() } else { b.len() };
    let mut i: usize = 0;
    assert(a@.skip(0) == a@ && b@.skip(0) == b@);
    while i < n
        invariant
            n <= a@.len(),
            n <= b@.len(),
            n == a@.len() || n == b@.len(),
            i <= n,
            lex_order(a@, b@) == lex_order(a@.skip(i as int), b@.skip(i as int)),
        decreases n - i,
    {
        let ghost sa = a@.skip(i as int);
        let ghost sb = b@.skip(i as int);
        assert(sa[0] == a@[i as int] && sb[0] == b@[i as int]);
        if a[i] < b[i] {
            return -1;
        }
        if a[i] > b[i] {
            return 1;
        }
        assert(sa.drop_first() == a@.skip(i + 1));
        assert(sb.drop_first() == b@.skip(i + 1));
        i = i + 1;
    }
    let ghost sa = a@.skip(i as int);
    let ghost sb = b@.skip(i as int);
    if a.len() == b.len() {
        assert(sa.len() == 0 && sb.len() == 0);
        0
    } else if a.len() < b.len() {
        assert(sa.len() == 0 && sb.len() > 0);
        -1
    } else {
        assert(sa.len() > 0 && sb.len() == 0);
        1
    }
}

/// Compares two sort keys.
pub fn key_order_exec(a: &SortItem, b: &SortItem) -> (r: i8)
    ensures
        r as int == key_order(item_view(*a), item_view(*b)),
{
    let t = lex_order_exec(&a.text, &b.text);
    if t != 0 {
        t
    } else if a.num < b.num {
        -1
    } else if a.num > b.num {
        1
    } else {
        0
    }
}

/// The values of a list of sort keys.
pub open spec fn items_view(keys: Seq<SortItem>) -> Seq<(Seq<char>, int)> {
    keys.map_values(|k: SortItem| item_view(k))
}

fn before_exec(keys: &Vec<SortItem>, reverse: bool, a: usize, b: usize) -> (r: bool)
    requires
        a < keys@.len(),
        b < keys@.len(),
    ensures
        r == before(items_view(keys@), reverse, a as int, b as int),
{
    let c = if reverse { key_order_exec(&keys[b], &keys[a]) } else { key_order_exec(&keys[a], &keys[b]) };
    c < 0 || (c == 0 && a < b)
}

/// The indices `0..keys.len()` in stable sorted order: ascending by key, or
/// descending when `reverse`; equal keys keep their index order.
pub fn sort_indices(keys: &Vec<SortItem>, reverse: bool) -> (p: Vec<usize>)
    ensures
        sorted_perm(p@, items_view(keys@), reverse),
        p@ == sorted_order(items_view(keys@), reverse),
{
    let ghost ks = items_view(keys@);
    let n = keys.len();
    let mut p: Vec<usize> = Vec::new();
    for i in 0..n
        invariant
            n == keys@.len(),
            ks == items_view(keys@),
            ks.len() == n,
            p@.len() == i,
            forall|x: int| 0 <= x < p@.len() ==> #[trigger] p@[x] < i,
            forall|x: int, y: int| 0 <= x < y < p@.len() ==> before(ks, reverse, p@[x] as int, p@[y] as int),
    {
        let mut lo: usize = 0;
        let mut hi: usize = p.len();
        while lo < hi
            invariant
                n == keys@.len(),
                ks == items_view(keys@),
                ks.len() == n,
                i < n,
                p@.len() == i,
                lo <= hi <= p@.len(),
                forall|x: int| 0 <= x < p@.len() ==> #[trigger] p@[x] < i,
                forall|x: int, y: int| 0 <= x < y < p@.len() ==> before(ks, reverse, p@[x] as int, p@[y] as int),
                forall|x: int| 0 <= x < lo ==> !before(ks, reverse, i as int, #[trigger] p@[x] as int),
                forall|x: int| hi <= x < p@.len() ==> before(ks, reverse, i as int, #[trigger] p@[x] as int),
            decreases hi - lo,
        {
            let mid = lo + (hi - lo) / 2;
            if before_exec(keys, reverse, i, p[mid]) {
                assert forall|x: int| mid <= x < p@.len() implies before(ks, reverse, i as int, #[trigger] p@[x] as int) by {
                    if x > mid {
                        lemma_before_trans(ks, reverse, i as int, p@[mid as int] as int, p@[x] as int);
                    }
                }
                hi = mid;
            } else {
                assert forall|x: int| 0 <= x <= mid implies !before(ks, reverse, i as int, #[trigger] p@[x] as int) by {
                    if x < mid && before(ks, reverse, i as int, p@[x] as int) {
                        lemma_before_trans(ks, reverse, i as int, p@[x] as int, p@[mid as int] as int);
                    }
                }
                lo = mid + 1;
            }
        }
        let ghost old_p = p@;
        p.insert(lo, i);
        assert forall|x: int, y: int| 0 <= x < y < p@.len() implies before(ks, reverse, p@[x] as int, p@[y] as int) by {
            if y < lo {
                assert(p@[x] == old_p[x] && p@[y] == old_p[y]);
            } else if y == lo {
                assert(p@[x] == old_p[x]);
                assert(!before(ks, reverse, i as int, old_p[x] as int));
                lemma_before_total(ks, reverse, i as int, old_p[x] as int);
            } else if x < lo {
                assert(p@[x] == old_p[x] && p@[y] == old_p[y - 1]);
            } else if x == lo {
                assert(p@[y] == old_p[y - 1]);
            } else {
                assert(p@[x] == old_p[x - 1] && p@[y] == old_p[y - 1]);
            }
        }
        assert forall|x: int| 0 <= x < p@.len() implies #[trigger] p@[x] < i + 1 by {
            if x < lo {
                assert(p@[x] == old_p[x]);
            } else if x > lo {
                assert(p@[x] == old_p[x - 1]);
            }
        }
    }
    proof {
        lemma_sorted_perm_unique(p@, ks, reverse);
    }
    p
}

} // verus!

verus! {

/// The stable sorted order of `keys` (the one `sorted_perm` allows; see
/// `lemma_sorted_perm_unique`).
pub open spec fn sorted_order(keys: Seq<(Seq<char>, int)>, reverse: bool) -> Seq<usize> {
    choose|p: Seq<usize>| sorted_perm(p, keys, reverse)
}

proof fn lemma_sorted_perm_no_dup(p: Seq<usize>, keys: Seq<(Seq<char>, int)>, reverse: bool)
    requires
        sorted_perm(p, keys, reverse),
    ensures
        p.no_duplicates(),
{
    assert forall|i: int, j: int| 0 <= i < p.len() && 0 <= j < p.len() && i != j implies p[i] != p[j] by {
        lemma_key_props(keys[p[i] as int], keys[p[i] as int]);
        if i < j {
            assert(before(keys, reverse, p[i] as int, p[j] as int));
        } else {
            assert(before(keys, reverse, p[j] as int, p[i] as int));
        }
    }
}

/// A duplicate-free list of `n` indices below `n` holds every index below `n`.
proof fn lemma_perm_covers(p: Seq<usize>, n: nat, x: int)
    requires
        p.len() == n,
        p.no_duplicates(),
        forall|i: int| 0 <= i < p.len() ==> #[trigger] p[i] < n,
        0 <= x < n,
    ensures
        exists|i: int| 0 <= i < p.len() && p[i] == x,
{
    let q = p.map_values(|v: usize| v as int);
    assert(q.no_duplicates()) by {
        assert forall|i: int, j: int| 0 <= i < q.len() && 0 <= j < q.len() && i != j implies q[i] != q[j] by {
            assert(p[i] != p[j]);
        }
    }
    q.unique_seq_to_set();
    let s = q.to_set();
    let r = vstd::set_lib::set_int_range(0, n as int);
    vstd::set_lib::lemma_int_range(0, n as int);
    assert(s.subset_of(r)) by {
        assert forall|v: int| s.contains(v) implies r.contains(v) by {
            let i = choose|i: int| 0 <= i < q.len() && q[i] == v;
            assert(p[i] < n);
        }
    }
    vstd::set_lib::lemma_subset_equality(s, r);
    assert(r.contains(x));
    assert(s.contains(x));
    let i = choose|i: int| 0 <= i < q.len() && q[i] == x;
    assert(p[i] == x);
}

proof fn lemma_sorted_prefix_eq(p: Seq<usize>, q: Seq<usize>, keys: Seq<(Seq<char>, int)>, reverse: bool, k: int)
    requires
        sorted_perm(p, keys, reverse),
        sorted_perm(q, keys, reverse),
        0 <= k <= p.len(),
    ensures
        p.take(k) == q.take(k),
    decreases k,
{
    if k > 0 {
        lemma_sorted_prefix_eq(p, q, keys, reverse, k - 1);
        let i = k - 1;
        let a = p[i];
        let b = q[i];
        if a != b {
            lemma_sorted_perm_no_dup(p, keys, reverse);
            lemma_sorted_perm_no_dup(q, keys, reverse);
            lemma_perm_covers(q, keys.len(), a as int);
            lemma_perm_covers(p, keys.len(), b as int);
            let j = choose|j: int| 0 <= j < q.len() && q[j] == a;
            let m = choose|m: int| 0 <= m < p.len() && p[m] == b;
            if j < i {
                assert(q.take(k - 1)[j] == p.take(k - 1)[j]);
                assert(p[j] == a);
            }
            if m < i {
                assert(q.take(k - 1)[m] == p.take(k - 1)[m]);
                assert(q[m] == b);
            }
            assert(j > i && m > i);
            assert(before(keys, reverse, b as int, a as int));
            assert(before(keys, reverse, a as int, b as int));
            lemma_before_total(keys, reverse, a as int, b as int);
        }
        assert(p.take(k) =~= p.take(k - 1).push(a));
        assert(q.take(k) =~= q.take(k - 1).push(b));
    }
}

/// There is only one stable sorted order.
pub proof fn lemma_sorted_perm_unique(p: Seq<usize>, keys: Seq<(Seq<char>, int)>, reverse: bool)
    requires
        sorted_perm(p, keys, reverse),
    ensures
        p == sorted_order(keys, reverse),
{
    let q = sorted_order(keys, reverse);
    assert(sorted_perm(q, keys, reverse));
    lemma_sorted_prefix_eq(p, q, keys, reverse, p.len() as int);
    assert(p.take(p.len() as int) == p);
    assert(q.take(q.len() as int) == q);
}

} // verus!
