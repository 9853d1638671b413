//! Generic grammar of counted lists, and the two laws every record grammar
//! of this crate satisfies: parsing an encoding gives the value back, and a
//! successful parse consumed exactly the encoding of what it returned.

use vstd::prelude::*;

use crate::wire::{
    le16, le_i16, lemma_i16_roundtrip, lemma_le16_canonical, lemma_le16_roundtrip,
    lemma_u16_of_i16, put_u16,
};
use crate::reader::{rd_i16, rd_u16};

verus! {

/// Concatenated encodings of a list, first element first.
pub open spec fn enc_list<T>(v: Seq<T>, g: spec_fn(T) -> Seq<u8>) -> Seq<u8>
    decreases v.len(),
{
    if v.len() == 0 {
        Seq::empty()
    } else {
        enc_list(v.drop_last(), g) + g(v.last())
    }
}

/// Parses `n` consecutive elements starting at `pos`.
pub open spec fn parse_list<T>(
    s: Seq<u8>,
    pos: int,
    n: nat,
    f: spec_fn(Seq<u8>, int) -> Option<(T, int)>,
) -> Option<(Seq<T>, int)>
    decreases n,
{
    if n == 0 {
        Some((Seq::empty(), pos))
    } else {
        match parse_list(s, pos, (n - 1) as nat, f) {
            Some((v, p)) => match f(s, p) {
                Some((x, q)) => Some((v.push(x), q)),
                None => None,
            },
            None => None,
        }
    }
}

/// `f` parses back the encoding `g(x)` wherever it sits in `s`.
pub open spec fn elem_roundtrips<T>(
    s: Seq<u8>,
    f: spec_fn(Seq<u8>, int) -> Option<(T, int)>,
    g: spec_fn(T) -> Seq<u8>,
    x: T,
) -> bool {
    forall|p: int|
        0 <= p && p + g(x).len() <= s.len() && #[trigger] s.subrange(p, p + g(x).len()) == g(x)
            ==> f(s, p) == Some((x, p + g(x).len()))
}

/// Whatever `f` parses from `s` was the encoding `g` of its result.
pub open spec fn elem_canonical<T>(
    s: Seq<u8>,
    f: spec_fn(Seq<u8>, int) -> Option<(T, int)>,
    g: spec_fn(T) -> Seq<u8>,
) -> bool {
    forall|p: int|
        0 <= p ==> match #[trigger] f(s, p) {
            Some((x, q)) => p <= q <= s.len() && s.subrange(p, q) == g(x),
            None => true,
        }
}

pub proof fn lemma_list_roundtrip<T>(
    s: Seq<u8>,
    pos: int,
    v: Seq<T>,
    f: spec_fn(Seq<u8>, int) -> Option<(T, int)>,
    g: spec_fn(T) -> Seq<u8>,
)
    requires
        0 <= pos,
        pos + enc_list(v, g).len() <= s.len(),
        s.subrange(pos, pos + enc_list(v, g).len()) == enc_list(v, g),
        forall|i: int| 0 <= i < v.len() ==> elem_roundtrips(s, f, g, #[trigger] v[i]),
    ensures
        parse_list(s, pos, v.len(), f) == Some((v, pos + enc_list(v, g).len())),
    decreases v.len(),
{
    if v.len() > 0 {
        let init = v.drop_last();
        let e = enc_list(init, g);
        let x = v.last();
        let whole = enc_list(v, g);
        assert(whole == e + g(x));
        assert(whole.subrange(0, e.len() as int) =~= e);
        assert(whole.subrange(e.len() as int, whole.len() as int) =~= g(x));
        assert(s.subrange(pos, pos + e.len()) =~= s.subrange(pos, pos + whole.len()).subrange(0, e.len() as int));
        assert forall|i: int| 0 <= i < init.len() implies elem_roundtrips(s, f, g, #[trigger] init[i]) by {
            assert(init[i] == v[i]);
        }
        lemma_list_roundtrip(s, pos, init, f, g);
        let p = pos + e.len();
        assert(s.subrange(p, p + g(x).len()) =~= s.subrange(pos, pos + enc_list(v, g).len()).subrange(e.len() as int, enc_list(v, g).len() as int));
        assert(v[v.len() - 1] == x);
        assert(elem_roundtrips(s, f, g, v[v.len() - 1]));
        assert(s.subrange(p, p + g(x).len()) == g(x));
        assert(f(s, p) == Some((x, p + g(x).len())));
        assert(init.push(x) =~= v);
    }
}

pub proof fn lemma_list_canonical<T>(
    s: Seq<u8>,
    pos: int,
    n: nat,
    f: spec_fn(Seq<u8>, int) -> Option<(T, int)>,
    g: spec_fn(T) -> Seq<u8>,
)
    requires
        0 <= pos <= s.len(),
        elem_canonical(s, f, g),
    ensures
        match parse_list(s, pos, n, f) {
            Some((v, q)) => v.len() == n && pos <= q <= s.len() && s.subrange(pos, q) == enc_list(v, g),
            None => true,
        },
    decreases n,
{
    if n > 0 {
        lemma_list_canonical(s, pos, (n - 1) as nat, f, g);
        match parse_list(s, pos, (n - 1) as nat, f) {
            Some((v, p)) => {
                match f(s, p) {
                    Some((x, q)) => {
                        assert(v.push(x).drop_last() =~= v);
                        assert(s.subrange(pos, q) =~= s.subrange(pos, p) + s.subrange(p, q));
                    },
                    None => {},
                }
            },
            None => {},
        }
    }
}

/// Once an element fails to parse, every longer list fails too.
pub proof fn lemma_parse_list_fail<T>(
    s: Seq<u8>,
    pos: int,
    k: nat,
    n: nat,
    f: spec_fn(Seq<u8>, int) -> Option<(T, int)>,
)
    requires
        k < n,
        parse_list(s, pos, k, f) is Some,
        f(s, parse_list(s, pos, k, f)->Some_0.1) is None,
    ensures
        parse_list(s, pos, n, f) is None,
    decreases n,
{
    if n > k + 1 {
        lemma_parse_list_fail(s, pos, k, (n - 1) as nat, f);
    }
}

pub proof fn lemma_enc_list_len<T>(v: Seq<T>, g: spec_fn(T) -> Seq<u8>, w: int)
    requires
        forall|i: int| 0 <= i < v.len() ==> (#[trigger] g(v[i])).len() == w,
    ensures
        enc_list(v, g).len() == v.len() * w,
    decreases v.len(),
{
    if v.len() > 0 {
        assert forall|i: int| 0 <= i < v.drop_last().len() implies (#[trigger] g(v.drop_last()[i])).len() == w by {
            assert(v.drop_last()[i] == v[i]);
        }
        lemma_enc_list_len(v.drop_last(), g, w);
        assert(g(v[v.len() - 1]).len() == w);
        assert((v.len() - 1) * w + w == v.len() * w) by (nonlinear_arith);
    }
}

// ---------------------------------------------------------------------------
// Lists of u16 / i16
// ---------------------------------------------------------------------------

pub open spec fn g_u16() -> spec_fn(u16) -> Seq<u8> {
    |x: u16| le16(x)
}

pub open spec fn f_u16() -> spec_fn(Seq<u8>, int) -> Option<(u16, int)> {
    |s: Seq<u8>, p: int| rd_u16(s, p)
}

pub proof fn lemma_u16_elem(s: Seq<u8>)
    ensures
        elem_canonical(s, f_u16(), g_u16()),
        forall|x: u16| elem_roundtrips(s, f_u16(), g_u16(), x),
{
    assert forall|p: int| 0 <= p implies match #[trigger] f_u16()(s, p) {
        Some((x, q)) => p <= q <= s.len() && s.subrange(p, q) == g_u16()(x),
        None => true,
    } by {
        if p + 2 <= s.len() {
            lemma_le16_canonical(s.subrange(p, p + 2));
        }
    }
    assert forall|x: u16| elem_roundtrips(s, f_u16(), g_u16(), x) by {
        lemma_le16_roundtrip(x);
    }
}

pub proof fn lemma_le16_of_i16(x: i16)
    ensures
        (crate::wire::from_le16(le_i16(x)) as i16) == x,
        le_i16(x).len() == 2,
{
    lemma_le16_roundtrip(x as u16);
    lemma_i16_roundtrip(x);
}

pub proof fn lemma_le_i16_canonical(s: Seq<u8>)
    requires
        s.len() == 2,
    ensures
        le_i16(crate::wire::from_le16(s) as i16) =~= s,
{
    lemma_le16_canonical(s);
    lemma_u16_of_i16(crate::wire::from_le16(s));
}

/// Appends the encodings of `v` in order.
pub fn put_u16s(bytes: &mut Vec<u8>, v: &Vec<u16>)
    ensures
        final(bytes)@ == old(bytes)@ + enc_list(v@, g_u16()),
{
    let ghost start = bytes@;
    let mut i: usize = 0;
    while i < v.len()
        invariant
            i <= v@.len(),
            bytes@ == start + enc_list(v@.subrange(0, i as int), g_u16()),
        decreases v.len() - i,
    {
        let ghost before = bytes@;
        put_u16(bytes, v[i]);
        proof {
            let sub1 = v@.subrange(0, i + 1);
            assert(sub1.drop_last() =~= v@.subrange(0, i as int));
            assert(enc_list(sub1, g_u16()) == enc_list(v@.subrange(0, i as int), g_u16()) + le16(
                v@[i as int],
            ));
            assert(bytes@ =~= start + enc_list(sub1, g_u16()));
        }
        i = i + 1;
    }
    assert(v@.subrange(0, v@.len() as int) =~= v@);
}

// ---------------------------------------------------------------------------
// Pigeonhole on small channel ids
// ---------------------------------------------------------------------------

/// Distinct values below `bound` number at most `bound`.
pub proof fn lemma_distinct_below(ids: Seq<u16>, bound: int)
    requires
        0 <= bound,
        forall|k: int| 0 <= k < ids.len() ==> (ids[k] as int) < bound,
        forall|k: int, l: int| 0 <= k < l < ids.len() ==> ids[k] != ids[l],
    ensures
        ids.len() <= bound,
{
    let m = ids.map_values(|x: u16| x as int);
    assert(m.no_duplicates()) by {
        assert forall|i: int, j: int| 0 <= i < m.len() && 0 <= j < m.len() && i != j implies m[i]
            != m[j] by {
            if i < j {
                assert(ids[i] != ids[j]);
            } else {
                assert(ids[j] != ids[i]);
            }
        }
    }
    m.unique_seq_to_set();
    vstd::set_lib::lemma_int_range(0, bound);
    assert(m.to_set().subset_of(vstd::set_lib::set_int_range(0, bound))) by {
        assert forall|x: int| m.to_set().contains(x) implies vstd::set_lib::set_int_range(
            0,
            bound,
        ).contains(x) by {
            assert(m.contains(x));
            let k = choose|k: int| 0 <= k < m.len() && m[k] == x;
            assert(m[k] == ids[k] as int);
        }
    }
    vstd::set_lib::lemma_len_subset(m.to_set(), vstd::set_lib::set_int_range(0, bound));
}

// ---------------------------------------------------------------------------
// Stable ordering by a 32-bit key
// ---------------------------------------------------------------------------

/// Places `x` after every element of `sorted` whose key is not greater than
/// its own.
pub open spec fn insert_by_key<T>(sorted: Seq<T>, x: T, key: spec_fn(T) -> u32) -> Seq<T>
    decreases sorted.len(),
{
    if sorted.len() == 0 {
        seq![x]
    } else if key(sorted.last()) <= key(x) {
        sorted.push(x)
    } else {
        insert_by_key(sorted.drop_last(), x, key).push(sorted.last())
    }
}

/// `s` in ascending key order; elements with equal keys keep their relative
/// order (a stable sort).
pub open spec fn sort_by_key<T>(s: Seq<T>, key: spec_fn(T) -> u32) -> Seq<T>
    decreases s.len(),
{
    if s.len() == 0 {
        Seq::empty()
    } else {
        insert_by_key(sort_by_key(s.drop_last(), key), s.last(), key)
    }
}

proof fn lemma_insert_at_key<T>(sorted: Seq<T>, x: T, key: spec_fn(T) -> u32, j: int)
    requires
        0 <= j <= sorted.len(),
        forall|i: int| j <= i < sorted.len() ==> key(#[trigger] sorted[i]) > key(x),
        j > 0 ==> key(sorted[j - 1]) <= key(x),
    ensures
        insert_by_key(sorted, x, key) == sorted.insert(j, x),
    decreases sorted.len(),
{
    if sorted.len() == 0 {
        assert(seq![x] =~= sorted.insert(j, x));
    } else if j == sorted.len() {
        assert(sorted.push(x) =~= sorted.insert(j, x));
    } else {
        let init = sorted.drop_last();
        assert forall|i: int| j <= i < init.len() implies key(#[trigger] init[i]) > key(x) by {
            assert(init[i] == sorted[i]);
        }
        lemma_insert_at_key(init, x, key, j);
        assert(init.insert(j, x).push(sorted.last()) =~= sorted.insert(j, x));
    }
}

/// Positions of `items` in ascending key order, ties in input order;
/// `keys` holds the key of each item.
pub(crate) fn stable_sort_positions<T>(
    keys: &Vec<u32>,
    Ghost(items): Ghost<Seq<T>>,
    Ghost(key): Ghost<spec_fn(T) -> u32>,
) -> (order: Vec<usize>)
    requires
        keys@.len() == items.len(),
        forall|i: int| 0 <= i < items.len() ==> keys@[i] == key(#[trigger] items[i]),
    ensures
        order@.len() == items.len(),
        forall|i: int| 0 <= i < order@.len() ==> (#[trigger] order@[i]) < items.len(),
        order@.map_values(|i: usize| items[i as int]) == sort_by_key(items, key),
{
    let mut order: Vec<usize> = Vec::new();
    let mut k: usize = 0;
    while k < keys.len()
        invariant
            k <= keys@.len(),
            keys@.len() == items.len(),
            forall|i: int| 0 <= i < items.len() ==> keys@[i] == key(#[trigger] items[i]),
            order@.len() == k,
            forall|i: int| 0 <= i < order@.len() ==> (#[trigger] order@[i]) < items.len(),
            order@.map_values(|i: usize| items[i as int]) == sort_by_key(items.take(k as int), key),
        decreases keys.len() - k,
    {
        let kk = keys[k];
        let mut j: usize = order.len();
        while j > 0 && keys[order[j - 1]] > kk
            invariant
                j <= order@.len(),
                keys@.len() == items.len(),
                forall|i: int| 0 <= i < items.len() ==> keys@[i] == key(#[trigger] items[i]),
                forall|i: int| 0 <= i < order@.len() ==> (#[trigger] order@[i]) < items.len(),
                forall|i: int| j <= i < order@.len() ==> key(#[trigger] items[order@[i] as int]) > kk,
                kk == key(items[k as int]),
            decreases j,
        {
            j = j - 1;
        }
        let ghost before = order@;
        order.insert(j, k);
        proof {
            let sorted = before.map_values(|i: usize| items[i as int]);
            assert forall|i: int| j <= i < sorted.len() implies key(#[trigger] sorted[i]) > key(items[k as int]) by {}
            if j > 0 {
                assert(key(sorted[j - 1]) <= key(items[k as int]));
            }
            lemma_insert_at_key(sorted, items[k as int], key, j as int);
            assert(items.take(k + 1).drop_last() =~= items.take(k as int));
            assert(order@.map_values(|i: usize| items[i as int]) =~= sorted.insert(j as int, items[k as int]));
        }
        k = k + 1;
    }
    assert(items.take(items.len() as int) =~= items);
    order
}

/// A sequence already in ascending key order is its own stable sort.
pub proof fn lemma_sort_by_key_sorted<T>(s: Seq<T>, key: spec_fn(T) -> u32)
    requires
        forall|i: int, j: int| 0 <= i < j < s.len() ==> key(s[i]) < key(s[j]),
    ensures
        sort_by_key(s, key) == s,
    decreases s.len(),
{
    if s.len() > 0 {
        let init = s.drop_last();
        assert forall|i: int, j: int| 0 <= i < j < init.len() implies key(init[i]) < key(init[j]) by {
            assert(init[i] == s[i] && init[j] == s[j]);
        }
        lemma_sort_by_key_sorted(init, key);
        if init.len() > 0 {
            assert(init.last() == s[s.len() - 2]);
            assert(key(init.last()) < key(s.last()));
        }
        assert(init.push(s.last()) =~= s);
    }
}


/// `s` is in non-decreasing key order.
pub open spec fn key_sorted<T>(s: Seq<T>, key: spec_fn(T) -> u32) -> bool {
    forall|i: int, j: int| 0 <= i < j < s.len() ==> key(#[trigger] s[i]) <= key(#[trigger] s[j])
}

/// No two distinct items of `m` share a key.
pub open spec fn keys_distinct<T>(m: vstd::multiset::Multiset<T>, key: spec_fn(T) -> u32) -> bool {
    forall|x: T, y: T| m.count(x) > 0 && m.count(y) > 0 && key(x) == key(y) ==> x == y
}

proof fn lemma_insert_by_key_items<T>(sorted: Seq<T>, x: T, key: spec_fn(T) -> u32)
    requires
        key_sorted(sorted, key),
    ensures
        insert_by_key(sorted, x, key).to_multiset() == sorted.to_multiset().insert(x),
        key_sorted(insert_by_key(sorted, x, key), key),
    decreases sorted.len(),
{
    broadcast use vstd::seq_lib::group_to_multiset_ensures;
    if sorted.len() == 0 {
        assert(sorted.push(x) =~= seq![x]);
    } else if key(sorted.last()) <= key(x) {
        assert forall|i: int, j: int| 0 <= i < j < sorted.push(x).len() implies key(#[trigger] sorted.push(x)[i]) <= key(
            #[trigger] sorted.push(x)[j],
        ) by {
            if j == sorted.len() {
                assert(key(sorted[i]) <= key(sorted.last()));
            }
        }
    } else {
        let init = sorted.drop_last();
        let last = sorted.last();
        assert(key_sorted(init, key)) by {
            assert forall|i: int, j: int| 0 <= i < j < init.len() implies key(#[trigger] init[i]) <= key(#[trigger] init[j]) by {
                assert(init[i] == sorted[i] && init[j] == sorted[j]);
            }
        }
        lemma_insert_by_key_items(init, x, key);
        let r = insert_by_key(init, x, key);
        assert(init.push(last) =~= sorted);
        assert(r.push(last).to_multiset() =~= init.to_multiset().insert(x).insert(last));
        assert(sorted.to_multiset().insert(x) =~= init.to_multiset().insert(last).insert(x));
        assert forall|i: int, j: int| 0 <= i < j < r.push(last).len() implies key(#[trigger] r.push(last)[i]) <= key(
            #[trigger] r.push(last)[j],
        ) by {
            if j == r.len() {
                let y = r[i];
                assert(r.contains(y));
                assert(r.to_multiset().count(y) > 0);
                if y != x {
                    assert(init.to_multiset().count(y) > 0);
                    assert(init.contains(y));
                    let k = choose|k: int| 0 <= k < init.len() && init[k] == y;
                    assert(sorted[k] == y);
                    assert(key(sorted[k]) <= key(sorted[sorted.len() - 1]));
                }
            }
        }
    }
}

/// A stable sort keeps the items and puts them in key order.
pub proof fn lemma_sort_by_key_items<T>(s: Seq<T>, key: spec_fn(T) -> u32)
    ensures
        sort_by_key(s, key).to_multiset() == s.to_multiset(),
        key_sorted(sort_by_key(s, key), key),
    decreases s.len(),
{
    broadcast use vstd::seq_lib::group_to_multiset_ensures;
    if s.len() == 0 {
        assert(sort_by_key(s, key).to_multiset() =~= s.to_multiset());
    } else {
        lemma_sort_by_key_items(s.drop_last(), key);
        lemma_insert_by_key_items(sort_by_key(s.drop_last(), key), s.last(), key);
        assert(s.drop_last().push(s.last()) =~= s);
    }
}

/// Two sequences in key order with the same items, no two of which share a
/// key, are the same sequence.
pub proof fn lemma_key_sorted_unique<T>(a: Seq<T>, b: Seq<T>, key: spec_fn(T) -> u32)
    requires
        a.to_multiset() == b.to_multiset(),
        key_sorted(a, key),
        key_sorted(b, key),
        keys_distinct(a.to_multiset(), key),
    ensures
        a == b,
    decreases a.len(),
{
    broadcast use vstd::seq_lib::group_to_multiset_ensures;
    assert(a.len() == a.to_multiset().len());
    assert(b.len() == b.to_multiset().len());
    if a.len() == 0 {
        assert(a =~= b);
    } else {
        let la = a.last();
        let lb = b.last();
        assert(a.contains(la));
        assert(b.to_multiset().count(la) > 0);
        let k = choose|k: int| 0 <= k < b.len() && b[k] == la;
        if k < b.len() - 1 {
            assert(key(b[k]) <= key(b[b.len() - 1]));
        }
        assert(b.contains(lb));
        assert(a.to_multiset().count(lb) > 0);
        let m = choose|m: int| 0 <= m < a.len() && a[m] == lb;
        if m < a.len() - 1 {
            assert(key(a[m]) <= key(a[a.len() - 1]));
        }
        assert(la == lb);
        let ai = a.drop_last();
        let bi = b.drop_last();
        assert(ai.push(la) =~= a);
        assert(bi.push(lb) =~= b);
        assert(ai.to_multiset() =~= a.to_multiset().remove(la));
        assert(bi.to_multiset() =~= b.to_multiset().remove(lb));
        assert(key_sorted(ai, key)) by {
            assert forall|i: int, j: int| 0 <= i < j < ai.len() implies key(#[trigger] ai[i]) <= key(#[trigger] ai[j]) by {
                assert(ai[i] == a[i] && ai[j] == a[j]);
            }
        }
        assert(key_sorted(bi, key)) by {
            assert forall|i: int, j: int| 0 <= i < j < bi.len() implies key(#[trigger] bi[i]) <= key(#[trigger] bi[j]) by {
                assert(bi[i] == b[i] && bi[j] == b[j]);
            }
        }
        assert(keys_distinct(ai.to_multiset(), key)) by {
            assert forall|x: T, y: T| ai.to_multiset().count(x) > 0 && ai.to_multiset().count(y) > 0 && key(x) == key(y) implies x == y by {
                assert(a.to_multiset().count(x) > 0);
                assert(a.to_multiset().count(y) > 0);
            }
        }
        lemma_key_sorted_unique(ai, bi, key);
        assert(a =~= b);
    }
}

} // verus!
