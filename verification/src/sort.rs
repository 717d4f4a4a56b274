//! Stable sorting by a composite key, as `sort_by`/`sort_by_key` order
//! elements: ascending keys, equal keys in their original order.
use vstd::prelude::*;

verus! {

/// A sort key compared field by field: a number, an optional number (absent
/// first) and a text (lexicographic by character).
#[derive(Debug, Clone)]
pub struct SortKey {
    pub primary: u64,
    pub secondary: Option<u64>,
    pub tertiary: Vec<char>,
}

pub type KeyView = (u64, Option<u64>, Seq<char>);

pub open spec fn key_view(k: SortKey) -> KeyView {
    (k.primary, k.secondary, k.tertiary@)
}

pub open spec fn key_views(ks: Seq<SortKey>) -> Seq<KeyView> {
    ks.map_values(|k: SortKey| key_view(k))
}

pub open spec fn opt_lt(a: Option<u64>, b: Option<u64>) -> bool {
    match (a, b) {
        (None, Some(_)) => true,
        (Some(x), Some(y)) => x < y,
        _ => false,
    }
}

/// Lexicographic order of texts by code point, which is also the byte order
/// of their UTF-8 encodings (the order of `String`).
pub open spec fn text_lt(a: Seq<char>, b: Seq<char>) -> bool
    decreases a.len(),
{
    if a.len() == 0 {
        b.len() > 0
    } else if b.len() == 0 {
        false
    } else if a[0] != b[0] {
        (a[0] as u32) < (b[0] as u32)
    } else {
        text_lt(a.drop_first(), b.drop_first())
    }
}

pub open spec fn key_lt(a: KeyView, b: KeyView) -> bool {
    a.0 < b.0 || (a.0 == b.0 && (opt_lt(a.1, b.1) || (a.1 == b.1 && text_lt(a.2, b.2))))
}

pub fn text_less(a: &Vec<char>, b: &Vec<char>) -> (r: bool)
    ensures
        r == text_lt(a@, b@),
{
    let mut i: usize = 0;
    assert(a@.subrange(0, a.len() as int) =~= a@);
    assert(b@.subrange(0, b.len() as int) =~= b@);
    while i < a.len() && i < b.len() && a[i] == b[i]
        invariant
            i <= a.len(),
            i <= b.len(),
            text_lt(a@, b@) == text_lt(a@.subrange(i as int, a.len() as int), b@.subrange(i as int, b.len() as int)),
        decreases a.len() - i,
    {
        assert(a@.subrange(i as int, a.len() as int).drop_first() =~= a@.subrange(i + 1, a.len() as int));
        assert(b@.subrange(i as int, b.len() as int).drop_first() =~= b@.subrange(i + 1, b.len() as int));
        i = i + 1;
    }
    if i == a.len() {
        i < b.len()
    } else if i == b.len() {
        false
    } else {
        (a[i] as u32) < (b[i] as u32)
    }
}

pub fn key_less(a: &SortKey, b: &SortKey) -> (r: bool)
    ensures
        r == key_lt(key_view(*a), key_view(*b)),
{
    if a.primary != b.primary {
        return a.primary < b.primary;
    }
    let second = match (a.secondary, b.secondary) {
        (None, Some(_)) => true,
        (Some(x), Some(y)) => x < y,
        _ => false,
    };
    if second {
        return true;
    }
    if a.secondary != b.secondary {
        return false;
    }
    text_less(&a.tertiary, &b.tertiary)
}

/// Where a stable insertion puts element `i`: before the first element whose
/// key is greater.
pub open spec fn insert_pos(order: Seq<int>, keys: Seq<KeyView>, i: int) -> int
    decreases order.len(),
{
    if order.len() == 0 {
        0
    } else if key_lt(keys[i], keys[order[0]]) {
        0
    } else {
        1 + insert_pos(order.drop_first(), keys, i)
    }
}

/// The positions of the first `n` elements in stably sorted order.
pub open spec fn sorted_order(keys: Seq<KeyView>, n: nat) -> Seq<int>
    decreases n,
{
    if n == 0 {
        Seq::empty()
    } else {
        let o = sorted_order(keys, (n - 1) as nat);
        o.insert(insert_pos(o, keys, n - 1), n - 1)
    }
}

pub open spec fn stable_order(keys: Seq<KeyView>) -> Seq<int> {
    sorted_order(keys, keys.len())
}

/// The elements in stably sorted order of their keys.
pub open spec fn stably_sorted<T>(items: Seq<T>, keys: Seq<KeyView>) -> Seq<T> {
    stable_order(keys).map_values(|k: int| items[k])
}

proof fn lemma_insert_pos_bound(order: Seq<int>, keys: Seq<KeyView>, i: int)
    ensures
        0 <= insert_pos(order, keys, i) <= order.len(),
    decreases order.len(),
{
    if order.len() > 0 && !key_lt(keys[i], keys[order[0]]) {
        lemma_insert_pos_bound(order.drop_first(), keys, i);
    }
}

/// The sorted order is a permutation of the positions.
pub proof fn lemma_sorted_order_perm(keys: Seq<KeyView>, n: nat)
    ensures
        sorted_order(keys, n).len() == n,
        sorted_order(keys, n).no_duplicates(),
        forall|j: int| 0 <= j < n ==> 0 <= #[trigger] sorted_order(keys, n)[j] < n,
        forall|k: int| 0 <= k < n ==> sorted_order(keys, n).contains(k),
    decreases n,
{
    if n > 0 {
        let o = sorted_order(keys, (n - 1) as nat);
        lemma_sorted_order_perm(keys, (n - 1) as nat);
        let p = insert_pos(o, keys, n - 1);
        lemma_insert_pos_bound(o, keys, n - 1);
        let r = o.insert(p, n - 1);
        assert(r.len() == n);
        assert forall|j: int| 0 <= j < n implies 0 <= #[trigger] r[j] < n by {
            if j < p {
                assert(r[j] == o[j]);
            } else if j > p {
                assert(r[j] == o[j - 1]);
            }
        }
        assert forall|a: int, b: int| 0 <= a < b < n implies r[a] != r[b] by {
            if a != p && b != p {
                let ia = if a < p {
                    a
                } else {
                    a - 1
                };
                let ib = if b < p {
                    b
                } else {
                    b - 1
                };
                assert(r[a] == o[ia]);
                assert(r[b] == o[ib]);
            } else if a == p {
                let ib = b - 1;
                assert(r[b] == o[ib]);
            } else {
                assert(r[a] == o[a]);
            }
        }
        assert forall|k: int| 0 <= k < n implies r.contains(k) by {
            if k == n - 1 {
                assert(r[p] == k);
            } else {
                assert(o.contains(k));
                let j = choose|j: int| 0 <= j < o.len() && o[j] == k;
                if j < p {
                    assert(r[j] == k);
                } else {
                    assert(r[j + 1] == k);
                }
            }
        }
    }
}

fn find_insert_pos(order: &Vec<usize>, keys: &Vec<SortKey>, i: usize) -> (r: usize)
    requires
        i < keys.len(),
        forall|j: int| 0 <= j < order.len() ==> #[trigger] order@[j] < keys.len(),
    ensures
        r as int == insert_pos(order@.map_values(|x: usize| x as int), key_views(keys@), i as int),
        r <= order.len(),
{
    let ghost ov = order@.map_values(|x: usize| x as int);
    let ghost kv = key_views(keys@);
    let mut j: usize = 0;
    assert(ov.subrange(0, ov.len() as int) =~= ov);
    while j < order.len()
        invariant
            j <= order.len(),
            ov == order@.map_values(|x: usize| x as int),
            kv == key_views(keys@),
            i < keys.len(),
            forall|t: int| 0 <= t < order.len() ==> #[trigger] order@[t] < keys.len(),
            insert_pos(ov, kv, i as int) == j + insert_pos(ov.subrange(j as int, ov.len() as int), kv, i as int),
        decreases order.len() - j,
    {
        let k = order[j];
        assert(ov.subrange(j as int, ov.len() as int)[0] == k as int);
        if key_less(&keys[i], &keys[k]) {
            return j;
        }
        assert(ov.subrange(j as int, ov.len() as int).drop_first() =~= ov.subrange(j + 1, ov.len() as int));
        j = j + 1;
    }
    j
}

/// The stable sorted order of the keys.
pub fn sort_order(keys: &Vec<SortKey>) -> (r: Vec<usize>)
    ensures
        r@.map_values(|x: usize| x as int) == stable_order(key_views(keys@)),
{
    let ghost kv = key_views(keys@);
    let mut order: Vec<usize> = Vec::new();
    let mut i: usize = 0;
    assert(order@.map_values(|x: usize| x as int) =~= sorted_order(kv, 0));
    while i < keys.len()
        invariant
            i <= keys.len(),
            kv == key_views(keys@),
            order@.map_values(|x: usize| x as int) == sorted_order(kv, i as nat),
        decreases keys.len() - i,
    {
        proof {
            lemma_sorted_order_perm(kv, i as nat);
            assert forall|j: int| 0 <= j < order.len() implies #[trigger] order@[j] < keys.len() by {
                assert(sorted_order(kv, i as nat)[j] == order@[j] as int);
            }
        }
        let p = find_insert_pos(&order, keys, i);
        let ghost before = order@;
        order.insert(p, i);
        assert(order@.map_values(|x: usize| x as int) =~= before.map_values(|x: usize| x as int).insert(
            p as int,
            i as int,
        ));
        i = i + 1;
    }
    order
}

/// Rearranges the items into the given order, which is a permutation of
/// their positions.
pub fn permute<T>(items: Vec<T>, order: &Vec<usize>) -> (r: Vec<T>)
    requires
        order@.len() == items@.len(),
        order@.no_duplicates(),
        forall|j: int| 0 <= j < order@.len() ==> #[trigger] order@[j] < items@.len(),
    ensures
        r@ == order@.map_values(|k: usize| items@[k as int]),
{
    let ghost original = items@;
    let n = items.len();
    let mut items = items;
    let mut slots: Vec<Option<T>> = Vec::new();
    while items.len() > 0
        invariant
            n == original.len(),
            items@ == original.take(items.len() as int),
            slots@.len() + items@.len() == n,
            forall|k: int| 0 <= k < slots@.len() ==> #[trigger] slots@[k] == Some(original[n - 1 - k]),
        decreases items.len(),
    {
        let x = items.pop().unwrap();
        slots.push(Some(x));
        assert(items@ =~= original.take(items.len() as int));
    }
    let mut out: Vec<T> = Vec::new();
    let mut j: usize = 0;
    while j < order.len()
        invariant
            n == original.len(),
            n == order@.len(),
            slots@.len() == n,
            order@.no_duplicates(),
            forall|t: int| 0 <= t < order@.len() ==> #[trigger] order@[t] < n,
            j <= order.len(),
            forall|t: int| j <= t < order@.len() ==> slots@[n - 1 - order@[t]] == Some(original[#[trigger] order@[t] as int]),
            out@ == order@.take(j as int).map_values(|k: usize| original[k as int]),
        decreases order.len() - j,
    {
        let k = n - 1 - order[j];
        let ghost before = slots@;
        let taken = slots.remove(k);
        slots.insert(k, None);
        assert(taken == Some(original[order@[j as int] as int]));
        assert forall|t: int| j + 1 <= t < order@.len() implies slots@[n - 1 - order@[t]] == Some(
            original[#[trigger] order@[t] as int],
        ) by {
            assert(order@[t] != order@[j as int]);
            assert(slots@[n - 1 - order@[t]] == before[n - 1 - order@[t]]);
        }
        match taken {
            Some(x) => {
                out.push(x);
            },
            None => {},
        }
        assert(out@ =~= order@.take(j + 1).map_values(|k: usize| original[k as int]));
        j = j + 1;
    }
    assert(order@.take(order.len() as int) =~= order@);
    out
}

/// Sorts items stably by their keys.
pub fn stable_sort<T>(items: Vec<T>, keys: &Vec<SortKey>) -> (r: Vec<T>)
    requires
        items@.len() == keys@.len(),
    ensures
        r@ == stably_sorted(items@, key_views(keys@)),
{
    let order = sort_order(keys);
    let ghost ov = order@.map_values(|x: usize| x as int);
    proof {
        lemma_sorted_order_perm(key_views(keys@), keys@.len());
        assert forall|j: int| 0 <= j < order@.len() implies #[trigger] order@[j] < items@.len() by {
            assert(ov[j] == order@[j] as int);
        }
        assert(order@.no_duplicates()) by {
            assert forall|a: int, b: int| 0 <= a < b < order@.len() implies order@[a] != order@[b] by {
                assert(ov[a] == order@[a] as int);
                assert(ov[b] == order@[b] as int);
            }
        }
    }
    let ghost original = items@;
    let r = permute(items, &order);
    assert(r@ =~= stably_sorted(original, key_views(keys@)));
    r
}

/// The items, last first.
pub fn reversed<T>(items: Vec<T>) -> (r: Vec<T>)
    ensures
        r@.len() == items@.len(),
        forall|k: int| 0 <= k < r@.len() ==> #[trigger] r@[k] == items@[items@.len() - 1 - k],
{
    let ghost original = items@;
    let mut items = items;
    let mut out: Vec<T> = Vec::new();
    while items.len() > 0
        invariant
            items@ == original.take(items@.len() as int),
            out@.len() + items@.len() == original.len(),
            forall|k: int| 0 <= k < out@.len() ==> #[trigger] out@[k] == original[original.len() - 1 - k],
        decreases items.len(),
    {
        let x = items.pop().unwrap();
        out.push(x);
        assert(items@ =~= original.take(items@.len() as int));
    }
    out
}


proof fn lemma_text_lt_irreflexive(a: Seq<char>)
    ensures
        !text_lt(a, a),
    decreases a.len(),
{
    if a.len() > 0 {
        lemma_text_lt_irreflexive(a.drop_first());
    }
}

proof fn lemma_text_lt_transitive(a: Seq<char>, b: Seq<char>, c: Seq<char>)
    requires
        text_lt(a, b),
        text_lt(b, c),
    ensures
        text_lt(a, c),
    decreases a.len(),
{
    if a.len() > 0 && a[0] == b[0] && b[0] == c[0] {
        lemma_text_lt_transitive(a.drop_first(), b.drop_first(), c.drop_first());
    }
}

proof fn lemma_text_lt_total(a: Seq<char>, b: Seq<char>)
    requires
        a != b,
    ensures
        text_lt(a, b) || text_lt(b, a),
    decreases a.len(),
{
    if a.len() == 0 {
        assert(b.len() > 0) by {
            if b.len() == 0 {
                assert(a =~= b);
            }
        }
    } else if b.len() > 0 && a[0] == b[0] {
        assert(a.drop_first() != b.drop_first()) by {
            if a.drop_first() == b.drop_first() {
                assert(a =~= seq![a[0]] + a.drop_first());
                assert(b =~= seq![b[0]] + b.drop_first());
            }
        }
        lemma_text_lt_total(a.drop_first(), b.drop_first());
    } else if b.len() > 0 {
        vstd::utf8::char_u32_cast(a[0], a[0] as u32);
        vstd::utf8::char_u32_cast(b[0], b[0] as u32);
    }
}

proof fn lemma_key_lt_order(a: KeyView, b: KeyView, c: KeyView)
    ensures
        !key_lt(a, a),
        key_lt(a, b) && key_lt(b, c) ==> key_lt(a, c),
        a != b ==> key_lt(a, b) || key_lt(b, a),
{
    lemma_text_lt_irreflexive(a.2);
    if key_lt(a, b) && key_lt(b, c) && a.0 == b.0 && b.0 == c.0 && a.1 == b.1 && b.1 == c.1 {
        lemma_text_lt_transitive(a.2, b.2, c.2);
    }
    if a != b && a.0 == b.0 && a.1 == b.1 {
        lemma_text_lt_total(a.2, b.2);
    }
}

proof fn lemma_insert_pos_split(order: Seq<int>, keys: Seq<KeyView>, i: int)
    requires
        forall|j: int| 0 <= j < order.len() ==> 0 <= #[trigger] order[j] < keys.len(),
        0 <= i < keys.len(),
    ensures
        forall|j: int| 0 <= j < insert_pos(order, keys, i) ==> !key_lt(keys[i], keys[#[trigger] order[j]]),
        insert_pos(order, keys, i) < order.len() ==> key_lt(keys[i], keys[order[insert_pos(order, keys, i)]]),
    decreases order.len(),
{
    lemma_insert_pos_bound(order, keys, i);
    if order.len() > 0 && !key_lt(keys[i], keys[order[0]]) {
        let rest = order.drop_first();
        lemma_insert_pos_split(rest, keys, i);
        lemma_insert_pos_bound(rest, keys, i);
        let q = insert_pos(rest, keys, i);
        if q < rest.len() {
            assert(order[q + 1] == rest[q]);
        }
        assert forall|j: int| 0 <= j < insert_pos(order, keys, i) implies !key_lt(keys[i], keys[#[trigger] order[j]]) by {
            if j > 0 {
                assert(order[j] == rest[j - 1]);
            }
        }
    }
}

/// Of any two positions in the sorted order, the later one's key is not
/// smaller, and of two equal keys the earlier element comes first.
pub open spec fn stably_ordered(order: Seq<int>, keys: Seq<KeyView>) -> bool {
    forall|a: int, b: int|
        0 <= a < b < order.len() ==> !key_lt(keys[#[trigger] order[b]], keys[#[trigger] order[a]])
            && (keys[order[a]] == keys[order[b]] ==> order[a] < order[b])
}

proof fn lemma_sorted_order_ordered(keys: Seq<KeyView>, n: nat)
    requires
        n <= keys.len(),
    ensures
        stably_ordered(sorted_order(keys, n), keys),
    decreases n,
{
    if n > 0 {
        let m = (n - 1) as nat;
        let o = sorted_order(keys, m);
        let x = n - 1;
        lemma_sorted_order_ordered(keys, m);
        lemma_sorted_order_perm(keys, m);
        lemma_insert_pos_bound(o, keys, x);
        lemma_insert_pos_split(o, keys, x);
        let p = insert_pos(o, keys, x);
        let r = o.insert(p, x);
        assert(sorted_order(keys, n) == r);
        assert forall|a: int, b: int| 0 <= a < b < r.len() implies !key_lt(keys[#[trigger] r[b]], keys[#[trigger] r[a]])
            && (keys[r[a]] == keys[r[b]] ==> r[a] < r[b]) by {
            if a != p && b != p {
                let ia = if a < p { a } else { a - 1 };
                let ib = if b < p { b } else { b - 1 };
                assert(r[a] == o[ia]);
                assert(r[b] == o[ib]);
            } else if a == p {
                let y = o[b - 1];
                assert(r[b] == y);
                assert(r[a] == x);
                let k0 = keys[o[p]];
                if p < b - 1 {
                    assert(!key_lt(keys[o[b - 1]], keys[o[p]]));
                }
                lemma_key_lt_order(keys[x], k0, keys[y]);
                lemma_key_lt_order(k0, keys[y], keys[x]);
                lemma_key_lt_order(keys[y], keys[x], k0);
                lemma_key_lt_order(keys[y], k0, keys[x]);
                lemma_key_lt_order(keys[x], keys[y], k0);
            } else {
                assert(r[a] == o[a]);
                assert(r[b] == x);
                assert(!key_lt(keys[x], keys[o[a]]));
                assert(o[a] < m);
            }
        }
    }
}

/// Sorting law: in the stable order every key is at most the keys after
/// it, and elements with equal keys keep their original relative order.
pub proof fn law_stable_order_is_sorted_and_stable(keys: Seq<KeyView>)
    ensures
        stably_ordered(stable_order(keys), keys),
{
    lemma_sorted_order_ordered(keys, keys.len());
}

} // verus!
