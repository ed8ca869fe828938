//! Stable ordering of items by a key: the `sort_by` the listings use.
use vstd::prelude::*;

use crate::text::{seq_lt, seq_le};

verus! {

/// A sort key: two integers, then a text, compared in that order.
pub struct SortKey {
    pub major: i64,
    pub minor: i64,
    pub text: Vec<char>,
}

/// The mathematical value of a sort key.
pub struct KeyV {
    pub major: i64,
    pub minor: i64,
    pub text: Seq<char>,
}

impl View for SortKey {
    type V = KeyV;

    open spec fn view(&self) -> KeyV {
        KeyV { major: self.major, minor: self.minor, text: self.text@ }
    }
}

/// Strict order on keys: by `major`, then `minor`, then `text`.
pub open spec fn key_lt(x: KeyV, y: KeyV) -> bool {
    x.major < y.major || (x.major == y.major && (x.minor < y.minor || (x.minor == y.minor
        && seq_lt(x.text, y.text))))
}

/// The order a sort is asked for: ascending, or descending.
pub open spec fn before(x: KeyV, y: KeyV, descending: bool) -> bool {
    if descending {
        key_lt(y, x)
    } else {
        key_lt(x, y)
    }
}

/// Positions `order` list every index below `n` once, ordered by key in the
/// asked direction, items with equal keys kept in their original order.
pub open spec fn sorted_permutation(order: Seq<usize>, keys: Seq<KeyV>, descending: bool) -> bool {
    &&& order.len() == keys.len()
    &&& order.no_duplicates()
    &&& forall|k: int| 0 <= k < order.len() ==> (#[trigger] order[k]) < keys.len()
    &&& forall|a: int, b: int|
        0 <= a < b < order.len() ==> (before(keys[order[a] as int], keys[order[b] as int], descending)
            || (keys[order[a] as int] == keys[order[b] as int] && order[a] < order[b]))
}

pub proof fn lemma_seq_lt_irreflexive(a: Seq<char>)
    ensures
        !seq_lt(a, a),
    decreases a.len(),
{
    if a.len() > 0 {
        lemma_seq_lt_irreflexive(a.drop_first());
    }
}

pub proof fn lemma_seq_lt_transitive(a: Seq<char>, b: Seq<char>, c: Seq<char>)
    requires
        seq_lt(a, b),
        seq_lt(b, c),
    ensures
        seq_lt(a, c),
    decreases a.len(),
{
    if a.len() > 0 && b.len() > 0 && c.len() > 0 {
        if a[0] == b[0] && b[0] == c[0] {
            lemma_seq_lt_transitive(a.drop_first(), b.drop_first(), c.drop_first());
        }
    }
}

pub proof fn lemma_seq_lt_total(a: Seq<char>, b: Seq<char>)
    ensures
        seq_lt(a, b) || seq_lt(b, a) || a == b,
    decreases a.len(),
{
    if a.len() > 0 && b.len() > 0 {
        if a[0] == b[0] {
            lemma_seq_lt_total(a.drop_first(), b.drop_first());
            if a.drop_first() == b.drop_first() {
                assert(a =~= seq![a[0]] + a.drop_first());
                assert(b =~= seq![b[0]] + b.drop_first());
            }
        } else {
            assert((a[0] as int) != (b[0] as int));
        }
    } else if a.len() == 0 && b.len() == 0 {
        assert(a =~= b);
    }
}

pub proof fn lemma_seq_lt_asymmetric(a: Seq<char>, b: Seq<char>)
    requires
        seq_lt(a, b),
    ensures
        !seq_lt(b, a),
{
    if seq_lt(b, a) {
        lemma_seq_lt_transitive(a, b, a);
        lemma_seq_lt_irreflexive(a);
    }
}

pub proof fn lemma_key_lt_facts()
    ensures
        forall|x: KeyV| !#[trigger] key_lt(x, x),
        forall|x: KeyV, y: KeyV, z: KeyV| #[trigger] key_lt(x, y) && #[trigger] key_lt(y, z) ==> key_lt(x, z),
        forall|x: KeyV, y: KeyV| key_lt(x, y) || key_lt(y, x) || x == y,
{
    assert forall|x: KeyV| !#[trigger] key_lt(x, x) by {
        lemma_seq_lt_irreflexive(x.text);
    }
    assert forall|x: KeyV, y: KeyV, z: KeyV| #[trigger] key_lt(x, y) && #[trigger] key_lt(y, z) implies key_lt(x, z) by {
        if x.major == y.major && y.major == z.major && x.minor == y.minor && y.minor == z.minor {
            lemma_seq_lt_transitive(x.text, y.text, z.text);
        }
    }
    assert forall|x: KeyV, y: KeyV| key_lt(x, y) || key_lt(y, x) || x == y by {
        lemma_seq_lt_total(x.text, y.text);
    }
}

/// Whether `x` comes strictly before `y`, ascending.
pub fn key_less(x: &SortKey, y: &SortKey) -> (r: bool)
    ensures
        r == key_lt(x@, y@),
{
    if x.major != y.major {
        return x.major < y.major;
    }
    if x.minor != y.minor {
        return x.minor < y.minor;
    }
    text_less(&x.text, &y.text)
}

/// Strict lexicographic comparison of character slices.
pub fn text_less(x: &[char], y: &[char]) -> (r: bool)
    ensures
        r == seq_lt(x@, y@),
{
    let s = crate::text::string_of(x);
    let t = crate::text::string_of(y);
    crate::text::str_lt(s.as_str(), t.as_str())
}

/// The positions of `keys` in stable key order (`sort_by` on the keys).
pub fn sort_order(keys: &Vec<SortKey>, descending: bool) -> (order: Vec<usize>)
    ensures
        sorted_permutation(order@, keys@.map_values(|k: SortKey| k@), descending),
{
    let ghost kv = keys@.map_values(|k: SortKey| k@);
    proof {
        lemma_key_lt_facts();
    }
    let mut order: Vec<usize> = Vec::new();
    let mut i: usize = 0;
    while i < keys.len()
        invariant
            i <= keys.len(),
            kv == keys@.map_values(|k: SortKey| k@),
            order.len() == i,
            order@.no_duplicates(),
            forall|k: int| 0 <= k < order.len() ==> (#[trigger] order@[k]) < i,
            forall|a: int, b: int|
                0 <= a < b < order.len() ==> (before(kv[order@[a] as int], kv[order@[b] as int], descending)
                    || (kv[order@[a] as int] == kv[order@[b] as int] && order@[a] < order@[b])),
            forall|x: KeyV| !#[trigger] key_lt(x, x),
            forall|x: KeyV, y: KeyV, z: KeyV| #[trigger] key_lt(x, y) && #[trigger] key_lt(y, z) ==> key_lt(x, z),
            forall|x: KeyV, y: KeyV| key_lt(x, y) || key_lt(y, x) || x == y,
        decreases keys.len() - i,
    {
        let mut j = order.len();
        loop
            invariant
                j <= order.len(),
                i < keys.len(),
                kv == keys@.map_values(|k: SortKey| k@),
                forall|k: int| 0 <= k < order.len() ==> (#[trigger] order@[k]) < i,
                forall|k: int| j <= k < order.len() ==> before(kv[i as int], kv[order@[k] as int], descending),
            ensures
                j <= order.len(),
                forall|k: int| j <= k < order.len() ==> before(kv[i as int], kv[order@[k] as int], descending),
                j == 0 || !before(kv[i as int], kv[order@[j - 1] as int], descending),
            decreases j,
        {
            if j == 0 {
                break;
            }
            let later = if descending {
                key_less(&keys[order[j - 1]], &keys[i])
            } else {
                key_less(&keys[i], &keys[order[j - 1]])
            };
            if !later {
                break;
            }
            j = j - 1;
        }
        let ghost old_order = order@;
        proof {
            if j > 0 {
                assert(!before(kv[i as int], kv[old_order[j - 1] as int], descending));
            }
        }
        order.insert(j, i);
        proof {
            assert(order@ == old_order.insert(j as int, i));
            assert forall|k: int| 0 <= k < order.len() implies (#[trigger] order@[k]) < i + 1 by {
                if k < j {
                    assert(order@[k] == old_order[k]);
                } else if k > j {
                    assert(order@[k] == old_order[k - 1]);
                }
            }
            assert(order@.no_duplicates()) by {
                assert forall|a: int, b: int| 0 <= a < b < order.len() implies order@[a] != order@[b] by {
                    if a < j && b < j {
                    } else if a < j && b == j {
                        assert(old_order[a] < i);
                    } else if a < j && b > j {
                        assert(order@[b] == old_order[b - 1]);
                    } else if a == j {
                        assert(order@[b] == old_order[b - 1]);
                        assert(old_order[b - 1] < i);
                    } else {
                        assert(order@[a] == old_order[a - 1]);
                        assert(order@[b] == old_order[b - 1]);
                    }
                }
            }
            assert forall|a: int, b: int|
                0 <= a < b < order.len() implies (before(kv[order@[a] as int], kv[order@[b] as int], descending)
                    || (kv[order@[a] as int] == kv[order@[b] as int] && order@[a] < order@[b])) by {
                let ka = kv[order@[a] as int];
                let kb = kv[order@[b] as int];
                let ki = kv[i as int];
                if b == j {
                    // a < j: the element just before the insertion point is not after i.
                    assert(order@[a] == old_order[a]);
                    assert(old_order[a] < i);
                    let kl = kv[old_order[j - 1] as int];
                    if a < j - 1 {
                        assert(order@[j - 1] == old_order[j - 1]);
                        assert(before(ka, kl, descending) || ka == kl);
                    }
                    assert(before(ka, ki, descending) || ka == ki) by {
                        assert(!before(ki, kl, descending));
                        assert(before(kl, ki, descending) || kl == ki);
                    }
                } else if a == j {
                    assert(order@[b] == old_order[b - 1]);
                    assert(before(ki, kb, descending));
                } else if a < j && b > j {
                    assert(order@[a] == old_order[a]);
                    assert(order@[b] == old_order[b - 1]);
                } else if b < j {
                    assert(order@[a] == old_order[a]);
                    assert(order@[b] == old_order[b]);
                } else {
                    assert(order@[a] == old_order[a - 1]);
                    assert(order@[b] == old_order[b - 1]);
                }
            }
        }
        i = i + 1;
    }
    order
}

/// `n` distinct positions below `n` cover every position below `n`.
pub proof fn lemma_permutation_covers(order: Seq<usize>, n: int, k: int)
    requires
        order.len() == n,
        order.no_duplicates(),
        forall|j: int| 0 <= j < order.len() ==> (#[trigger] order[j]) < n,
        0 <= k < n,
    ensures
        exists|a: int| 0 <= a < order.len() && order[a] == k,
{
    let s = order.map_values(|x: usize| x as int);
    assert(s.no_duplicates()) by {
        assert forall|a: int, b: int| 0 <= a < s.len() && 0 <= b < s.len() && a != b implies s[a] != s[b] by {
            assert(order[a] != order[b]);
        }
    }
    s.unique_seq_to_set();
    vstd::set_lib::lemma_int_range(0, n);
    let range = vstd::set_lib::set_int_range(0, n);
    assert(s.to_set().subset_of(range)) by {
        assert forall|x: int| s.to_set().contains(x) implies range.contains(x) by {
            let a = choose|a: int| 0 <= a < s.len() && s[a] == x;
            assert(order[a] < n);
        }
    }
    vstd::set_lib::lemma_subset_equality(s.to_set(), range);
    assert(range.contains(k));
    assert(s.to_set().contains(k));
    let a = choose|a: int| 0 <= a < s.len() && s[a] == k;
    assert(order[a] == k);
}

/// Index `i` comes before index `j` in a stable sort of `keys`.
pub open spec fn goes_before(keys: Seq<KeyV>, i: int, j: int, descending: bool) -> bool {
    before(keys[i], keys[j], descending) || (keys[i] == keys[j] && i < j)
}

/// There is exactly one stable sorted order of a sequence of keys.
pub proof fn lemma_sorted_unique(o1: Seq<usize>, o2: Seq<usize>, keys: Seq<KeyV>, descending: bool)
    requires
        sorted_permutation(o1, keys, descending),
        sorted_permutation(o2, keys, descending),
    ensures
        o1 == o2,
{
    lemma_key_lt_facts();
    assert forall|a: int| 0 <= a < o1.len() implies o1[a] == o2[a] by {
        lemma_sorted_prefix(o1, o2, keys, descending, a);
    }
    assert(o1 =~= o2);
}

proof fn lemma_sorted_prefix(o1: Seq<usize>, o2: Seq<usize>, keys: Seq<KeyV>, descending: bool, a: int)
    requires
        sorted_permutation(o1, keys, descending),
        sorted_permutation(o2, keys, descending),
        0 <= a < o1.len(),
    ensures
        o1[a] == o2[a],
    decreases a,
{
    lemma_key_lt_facts();
    assert forall|b: int| 0 <= b < a implies o1[b] == o2[b] by {
        lemma_sorted_prefix(o1, o2, keys, descending, b);
    }
    let x = o1[a];
    let y = o2[a];
    if x != y {
        lemma_permutation_covers(o1, keys.len() as int, y as int);
        lemma_permutation_covers(o2, keys.len() as int, x as int);
        let p = choose|p: int| 0 <= p < o1.len() && o1[p] == y;
        let q = choose|q: int| 0 <= q < o2.len() && o2[q] == x;
        if p < a {
            assert(o2[p] == y);
        }
        if q < a {
            assert(o1[q] == x);
        }
        assert(p > a && q > a);
        assert(goes_before(keys, x as int, y as int, descending));
        assert(goes_before(keys, y as int, x as int, descending));
        if descending {
            assert(false);
        } else {
            assert(false);
        }
    }
}

/// The stable sorted order of `keys`.
pub open spec fn stable_order(keys: Seq<KeyV>, descending: bool) -> Seq<usize> {
    choose|o: Seq<usize>| sorted_permutation(o, keys, descending)
}

/// Any stable sorted order is `stable_order`.
pub proof fn lemma_stable_order(o: Seq<usize>, keys: Seq<KeyV>, descending: bool)
    requires
        sorted_permutation(o, keys, descending),
    ensures
        o == stable_order(keys, descending),
{
    lemma_sorted_unique(o, stable_order(keys, descending), keys, descending);
}

/// The key of a text alone.
pub open spec fn text_key(t: Seq<char>) -> KeyV {
    KeyV { major: 0, minor: 0, text: t }
}

/// Texts in ascending order (a stable `sort` of strings).
pub open spec fn sorted_texts(items: Seq<Seq<char>>) -> Seq<Seq<char>> {
    stable_order(items.map_values(|t: Seq<char>| text_key(t)), false).map_values(|k: usize| items[k as int])
}

/// Sorts texts ascending.
pub fn sort_texts(items: &Vec<String>) -> (r: Vec<String>)
    ensures
        r.deep_view() == sorted_texts(items.deep_view()),
{
    let ghost iv = items.deep_view();
    let mut keys: Vec<SortKey> = Vec::new();
    let mut i: usize = 0;
    while i < items.len()
        invariant
            i <= items.len(),
            iv == items.deep_view(),
            keys.len() == i,
            forall|k: int| 0 <= k < i ==> #[trigger] keys@[k]@ == text_key(iv[k]),
        decreases items.len() - i,
    {
        keys.push(SortKey { major: 0, minor: 0, text: crate::text::chars_of(items[i].as_str()) });
        i = i + 1;
    }
    let order = sort_order(&keys, false);
    let ghost kv = keys@.map_values(|k: SortKey| k@);
    assert(kv =~= iv.map_values(|t: Seq<char>| text_key(t)));
    proof {
        lemma_stable_order(order@, kv, false);
    }
    let mut r: Vec<String> = Vec::new();
    let mut j: usize = 0;
    while j < order.len()
        invariant
            j <= order.len(),
            order.len() == items.len(),
            iv == items.deep_view(),
            sorted_permutation(order@, kv, false),
            r.deep_view() == order@.take(j as int).map_values(|k: usize| iv[k as int]),
        decreases order.len() - j,
    {
        assert(order@[j as int] < items.len());
        let ghost before = r.deep_view();
        let c = crate::text::copy_string(&items[order[j]]);
        assert(c@ == iv[order@[j as int] as int]);
        r.push(c);
        assert(r.deep_view() =~= before.push(c@));
        assert(r.deep_view() =~= order@.take(j + 1).map_values(|k: usize| iv[k as int]));
        j = j + 1;
    }
    assert(order@.take(order.len() as int) =~= order@);
    r
}

} // verus!
