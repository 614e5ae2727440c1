//! Stable ordering: texts, numbers and ratios as keys, and the indices of items in the
//! order of their keys.

use crate::text::chars_of;
use vstd::prelude::*;

verus! {

/// Whether a text comes before another, character by character.
pub open spec fn text_less(a: Seq<char>, b: Seq<char>) -> bool
    decreases a.len(),
{
    if b.len() == 0 {
        false
    } else if a.len() == 0 {
        true
    } else if a[0] != b[0] {
        a[0] < b[0]
    } else {
        text_less(a.drop_first(), b.drop_first())
    }
}

/// What an item is ordered by.
#[derive(Clone, Debug)]
pub enum Key {
    Number(u64),
    /// A ratio; a denominator of nothing counts as one.
    Ratio(u128, u32),
    /// A text that may be missing; what is missing comes first.
    Text(Option<String>),
}

/// What a ratio is over.
pub open spec fn denominator(d: u32) -> int {
    if d == 0 {
        1
    } else {
        d as int
    }
}

/// Whether a ratio is less than another.
pub open spec fn ratio_less(m: u128, c: u32, n: u128, d: u32) -> bool {
    m * denominator(d) < n * denominator(c)
}

/// The place of a key's kind.
pub open spec fn kind_of(k: Key) -> int {
    match k {
        Key::Number(_) => 0,
        Key::Ratio(_, _) => 1,
        Key::Text(_) => 2,
    }
}

/// Whether a key comes before another; keys of one kind are compared, and the
/// kinds come in their order.
pub open spec fn key_less(a: Key, b: Key) -> bool {
    match (a, b) {
        (Key::Number(m), Key::Number(n)) => m < n,
        (Key::Ratio(m, c), Key::Ratio(n, d)) => ratio_less(m, c, n, d),
        (Key::Text(None), Key::Text(Some(_))) => true,
        (Key::Text(Some(s)), Key::Text(Some(t))) => text_less(s@, t@),
        _ => kind_of(a) < kind_of(b),
    }
}

proof fn lemma_ratio_order(m: u128, c: u32, n: u128, d: u32, o: u128, e: u32)
    ensures
        ratio_less(m, c, n, d) && ratio_less(n, d, o, e) ==> ratio_less(m, c, o, e),
        !ratio_less(m, c, n, d) && !ratio_less(n, d, o, e) ==> !ratio_less(m, c, o, e),
{
    let (x, y, z) = (denominator(c), denominator(d), denominator(e));
    let (a, b, w) = (m as int, n as int, o as int);
    if a * y < b * x && b * z < w * y {
        assert(a * z < w * x) by (nonlinear_arith)
            requires
                a * y < b * x,
                b * z < w * y,
                x > 0,
                y > 0,
                z > 0,
        {
            assert((a * y) * z < (b * x) * z);
            assert((b * z) * x < (w * y) * x);
            assert((a * z) * y < (w * x) * y);
        }
    }
    if a * y >= b * x && b * z >= w * y {
        assert(a * z >= w * x) by (nonlinear_arith)
            requires
                a * y >= b * x,
                b * z >= w * y,
                x > 0,
                y > 0,
                z > 0,
        {
            assert((a * y) * z >= (b * x) * z);
            assert((b * z) * x >= (w * y) * x);
            assert((a * z) * y >= (w * x) * y);
        }
    }
}

proof fn lemma_text_order(a: Seq<char>, b: Seq<char>, c: Seq<char>)
    ensures
        !text_less(a, a),
        text_less(a, b) && text_less(b, c) ==> text_less(a, c),
        !text_less(a, b) && !text_less(b, a) ==> a == b,
    decreases a.len(),
{
    if a.len() > 0 {
        let x = a.drop_first();
        let y = b.drop_first();
        let z = c.drop_first();
        lemma_text_order(x, y, z);
        if b.len() > 0 && a[0] == b[0] && !text_less(a, b) && !text_less(b, a) {
            assert(a =~= seq![a[0]] + x);
            assert(b =~= seq![b[0]] + y);
        }
    } else if b.len() == 0 {
        assert(a =~= b);
    }
}

/// Keys are in a strict weak order: nothing comes before itself, coming before
/// chains, and so does being on one level.
pub proof fn key_order(a: Key, b: Key, c: Key)
    ensures
        !key_less(a, a),
        key_less(a, b) && key_less(b, c) ==> key_less(a, c),
        key_less(a, b) ==> !key_less(b, a),
        !key_less(a, b) && !key_less(b, c) ==> !key_less(a, c),
{
    match (a, b, c) {
        (Key::Ratio(m, c), Key::Ratio(n, d), Key::Ratio(o, e)) => {
            lemma_ratio_order(m, c, n, d, o, e);
        },
        (Key::Text(Some(s)), Key::Text(Some(t)), Key::Text(Some(u))) => {
            lemma_text_order(s@, t@, u@);
            lemma_text_order(s@, u@, t@);
            lemma_text_order(t@, s@, u@);
            lemma_text_order(t@, u@, s@);
            lemma_text_order(u@, t@, s@);
            lemma_text_order(u@, s@, t@);
            lemma_text_order(s@, t@, s@);
        },
        (Key::Text(Some(s)), Key::Text(Some(t)), _) => {
            lemma_text_order(s@, t@, s@);
        },
        (Key::Text(Some(s)), _, _) => {
            lemma_text_order(s@, s@, s@);
        },
        _ => {},
    }
}

fn text_before(a: &str, b: &str) -> (r: bool)
    ensures
        r == text_less(a@, b@),
{
    let x = chars_of(a);
    let y = chars_of(b);
    let mut i: usize = 0;
    assert(x@.skip(0) =~= x@);
    assert(y@.skip(0) =~= y@);
    loop
        invariant
            i <= x.len(),
            i <= y.len(),
            text_less(x@.skip(i as int), y@.skip(i as int)) == text_less(a@, b@),
        decreases x.len() - i,
    {
        if i == y.len() {
            return false;
        }
        if i == x.len() {
            return true;
        }
        if x[i] != y[i] {
            return x[i] < y[i];
        }
        assert(x@.skip(i as int).drop_first() =~= x@.skip(i + 1));
        assert(y@.skip(i as int).drop_first() =~= y@.skip(i + 1));
        i += 1;
    }
}

fn ratio_before(m: u128, c: u32, n: u128, d: u32) -> (r: bool)
    ensures
        r == ratio_less(m, c, n, d),
{
    let x: u128 = if c == 0 {
        1
    } else {
        c as u128
    };
    let y: u128 = if d == 0 {
        1
    } else {
        d as u128
    };
    let (p, q): (u128, u128) = (m / x, n / y);
    let (a, b): (u128, u128) = (m % x, n % y);
    proof {
        lemma_parts(m as int, x as int, p as int, a as int);
        lemma_parts(n as int, y as int, q as int, b as int);
        lemma_ratio_parts(p as int, a as int, x as int, q as int, b as int, y as int);
        assert(a * y <= u32::MAX * u32::MAX) by (nonlinear_arith)
            requires
                a <= u32::MAX,
                y <= u32::MAX,
        ;
        assert(b * x <= u32::MAX * u32::MAX) by (nonlinear_arith)
            requires
                b <= u32::MAX,
                x <= u32::MAX,
        ;
    }
    p < q || (p == q && a * y < b * x)
}

proof fn lemma_parts(n: int, d: int, q: int, r: int)
    requires
        d > 0,
        n >= 0,
        q == n / d,
        r == n % d,
    ensures
        n == q * d + r,
        0 <= r < d,
{
    vstd::arithmetic::div_mod::lemma_fundamental_div_mod(n, d);
    assert(d * q == q * d) by (nonlinear_arith);
}

proof fn lemma_ratio_parts(p: int, a: int, x: int, q: int, b: int, y: int)
    requires
        0 <= a < x,
        0 <= b < y,
    ensures
        ((p * x + a) * y < (q * y + b) * x) == (p < q || (p == q && a * y < b * x)),
{
    assert((p * x + a) * y == p * (x * y) + a * y) by (nonlinear_arith);
    assert((q * y + b) * x == q * (x * y) + b * x) by (nonlinear_arith);
    assert(0 <= a * y < x * y) by (nonlinear_arith)
        requires
            0 <= a < x,
            y > 0,
    ;
    assert(0 <= b * x < x * y) by (nonlinear_arith)
        requires
            0 <= b < y,
            x > 0,
    ;
    if p < q {
        assert((p + 1) * (x * y) <= q * (x * y)) by (nonlinear_arith)
            requires
                p + 1 <= q,
                x * y > 0,
        ;
        assert((p + 1) * (x * y) == p * (x * y) + x * y) by (nonlinear_arith);
    } else if p > q {
        assert((q + 1) * (x * y) <= p * (x * y)) by (nonlinear_arith)
            requires
                q + 1 <= p,
                x * y > 0,
        ;
        assert((q + 1) * (x * y) == q * (x * y) + x * y) by (nonlinear_arith);
    }
}

impl Key {
    /// Whether the key comes before another of its kind.
    pub fn before(&self, other: &Key) -> (r: bool)
        ensures
            r == key_less(*self, *other),
    {
        match (self, other) {
            (Key::Number(m), Key::Number(n)) => *m < *n,
            (Key::Ratio(m, c), Key::Ratio(n, d)) => ratio_before(*m, *c, *n, *d),
            (Key::Number(_), _) => true,
            (Key::Ratio(_, _), Key::Text(_)) => true,
            (_, Key::Number(_)) => false,
            (Key::Text(_), Key::Ratio(_, _)) => false,
            (Key::Text(a), Key::Text(b)) => match (a, b) {
                (None, Some(_)) => true,
                (Some(s), Some(t)) => text_before(s.as_str(), t.as_str()),
                _ => false,
            },
        }
    }
}

/// Whether item `i` stands before item `j`: by the keys, upwards or downwards,
/// and among equal keys by the position.
pub open spec fn stands_before(keys: Seq<Key>, descending: bool, i: int, j: int) -> bool {
    let less = if descending {
        key_less(keys[j], keys[i])
    } else {
        key_less(keys[i], keys[j])
    };
    let greater = if descending {
        key_less(keys[i], keys[j])
    } else {
        key_less(keys[j], keys[i])
    };
    less || (!greater && i < j)
}

/// Whether positions are in the order of their keys, each before all that
/// follow.
pub open spec fn in_order(v: Seq<usize>, keys: Seq<Key>, descending: bool) -> bool {
    forall|a: int, b: int|
        0 <= a < b < v.len() ==> stands_before(
            keys,
            descending,
            (#[trigger] v[a]) as int,
            (#[trigger] v[b]) as int,
        )
}

proof fn lemma_stands_chain(keys: Seq<Key>, descending: bool, i: int, j: int, k: int)
    requires
        stands_before(keys, descending, i, j),
        stands_before(keys, descending, j, k),
    ensures
        stands_before(keys, descending, i, k),
{
    let a = keys[i];
    let b = keys[j];
    let c = keys[k];
    key_order(a, b, c);
    key_order(c, b, a);
    key_order(a, c, b);
    key_order(c, a, b);
    key_order(b, a, c);
    key_order(b, c, a);
}

proof fn lemma_stands_total(keys: Seq<Key>, descending: bool, i: int, j: int)
    requires
        i != j,
        !stands_before(keys, descending, i, j),
    ensures
        stands_before(keys, descending, j, i),
{
    key_order(keys[i], keys[j], keys[i]);
}

fn stands(keys: &Vec<Key>, descending: bool, i: usize, j: usize) -> (r: bool)
    requires
        i < keys@.len(),
        j < keys@.len(),
    ensures
        r == stands_before(keys@, descending, i as int, j as int),
{
    let less = if descending {
        keys[j].before(&keys[i])
    } else {
        keys[i].before(&keys[j])
    };
    if less {
        return true;
    }
    let greater = if descending {
        keys[i].before(&keys[j])
    } else {
        keys[j].before(&keys[i])
    };
    !greater && i < j
}

/// Whether positions are within so many items, none of them twice.
pub open spec fn distinct_below(v: Seq<usize>, n: int) -> bool {
    &&& forall|a: int| 0 <= a < v.len() ==> (#[trigger] v[a]) < n
    &&& v.no_duplicates()
}

/// Merges two lists of positions that are in order.
fn merge(keys: &Vec<Key>, descending: bool, a: &Vec<usize>, b: &Vec<usize>) -> (r: Vec<usize>)
    requires
        in_order(a@, keys@, descending),
        in_order(b@, keys@, descending),
        distinct_below(a@ + b@, keys@.len() as int),
    ensures
        in_order(r@, keys@, descending),
        r@.to_multiset() == (a@ + b@).to_multiset(),
{
    let mut r: Vec<usize> = Vec::new();
    let mut i: usize = 0;
    let mut j: usize = 0;
    let ghost all = a@ + b@;
    assert(a@.skip(0) + b@.skip(0) =~= all);
    assert(r@ + (a@.skip(0) + b@.skip(0)) =~= all);
    while i < a.len() || j < b.len()
        invariant
            i <= a.len(),
            j <= b.len(),
            all == a@ + b@,
            in_order(a@, keys@, descending),
            in_order(b@, keys@, descending),
            distinct_below(all, keys@.len() as int),
            in_order(r@, keys@, descending),
            (r@ + (a@.skip(i as int) + b@.skip(j as int))).to_multiset() == all.to_multiset(),
            forall|p: int, q: int|
                0 <= p < r@.len() && i <= q < a@.len() ==> stands_before(
                    keys@,
                    descending,
                    (#[trigger] r@[p]) as int,
                    (#[trigger] a@[q]) as int,
                ),
            forall|p: int, q: int|
                0 <= p < r@.len() && j <= q < b@.len() ==> stands_before(
                    keys@,
                    descending,
                    (#[trigger] r@[p]) as int,
                    (#[trigger] b@[q]) as int,
                ),
        decreases a.len() - i + b.len() - j,
    {
        proof {
            if i < a.len() {
                assert(all[i as int] == a@[i as int]);
            }
            if j < b.len() {
                assert(all[a@.len() + j] == b@[j as int]);
            }
        }
        let left = if i == a.len() {
            false
        } else if j == b.len() {
            true
        } else {
            stands(keys, descending, a[i], b[j])
        };
        let ghost old_r = r@;
        if left {
            let x: usize = a[i];
            proof {
                assert forall|q: int| j <= q < b@.len() implies stands_before(
                    keys@,
                    descending,
                    x as int,
                    (#[trigger] b@[q]) as int,
                ) by {
                    if q > j {
                        lemma_stands_chain(
                            keys@,
                            descending,
                            x as int,
                            b@[j as int] as int,
                            b@[q] as int,
                        );
                    }
                }
                lemma_move(old_r, a@.skip(i as int), b@.skip(j as int), true);
                assert(a@.skip(i as int).drop_first() =~= a@.skip(i + 1));
            }
            r.push(x);
            i += 1;
        } else {
            let x: usize = b[j];
            proof {
                if i < a.len() {
                    assert(a@[i as int] != x) by {
                        assert(all[i as int] == a@[i as int]);
                        assert(all[a@.len() + j] == x);
                    }
                    lemma_stands_total(keys@, descending, a@[i as int] as int, x as int);
                }
                assert forall|q: int| i <= q < a@.len() implies stands_before(
                    keys@,
                    descending,
                    x as int,
                    (#[trigger] a@[q]) as int,
                ) by {
                    if q > i {
                        lemma_stands_chain(
                            keys@,
                            descending,
                            x as int,
                            a@[i as int] as int,
                            a@[q] as int,
                        );
                    }
                }
                lemma_move(old_r, a@.skip(i as int), b@.skip(j as int), false);
                assert(b@.skip(j as int).drop_first() =~= b@.skip(j + 1));
            }
            r.push(x);
            j += 1;
        }
        proof {
            assert forall|p: int, q: int| 0 <= p < q < r@.len() implies stands_before(
                keys@,
                descending,
                (#[trigger] r@[p]) as int,
                (#[trigger] r@[q]) as int,
            ) by {
                if q < old_r.len() {
                    assert(r@[p] == old_r[p] && r@[q] == old_r[q]);
                } else {
                    assert(r@[p] == old_r[p]);
                }
            }
        }
    }
    proof {
        assert(r@ + (a@.skip(i as int) + b@.skip(j as int)) =~= r@);
    }
    r
}

/// Taking the first of one of two lists to the end of a third keeps all items.
proof fn lemma_move(r: Seq<usize>, a: Seq<usize>, b: Seq<usize>, left: bool)
    requires
        if left {
            a.len() > 0
        } else {
            b.len() > 0
        },
    ensures
        left ==> (r.push(a[0]) + (a.drop_first() + b)).to_multiset() == (r + (a + b)).to_multiset(),
        !left ==> (r.push(b[0]) + (a + b.drop_first())).to_multiset() == (r + (a
            + b)).to_multiset(),
{
    broadcast use vstd::seq_lib::group_to_multiset_ensures;

    if left {
        assert(r.push(a[0]) + (a.drop_first() + b) =~= r + (a + b));
    } else {
        let x = b[0];
        let rest = b.drop_first();
        assert(b =~= seq![x] + rest);
        vstd::seq_lib::lemma_multiset_commutative(r.push(x), a + rest);
        vstd::seq_lib::lemma_multiset_commutative(r, a + b);
        vstd::seq_lib::lemma_multiset_commutative(a, rest);
        vstd::seq_lib::lemma_multiset_commutative(a, b);
        vstd::seq_lib::lemma_multiset_commutative(seq![x], rest);
        assert(r.push(x) =~= r + seq![x]);
        vstd::seq_lib::lemma_multiset_commutative(r, seq![x]);
        assert((r.push(x) + (a + rest)).to_multiset() =~= (r + (a + b)).to_multiset());
    }
}

/// Puts positions in the order of their keys.
pub fn sort_positions(keys: &Vec<Key>, descending: bool, v: &Vec<usize>) -> (r: Vec<usize>)
    requires
        distinct_below(v@, keys@.len() as int),
    ensures
        in_order(r@, keys@, descending),
        r@.to_multiset() == v@.to_multiset(),
        r@.len() == v@.len(),
    decreases v@.len(),
{
    broadcast use vstd::seq_lib::group_to_multiset_ensures;

    let n: usize = v.len();
    if n < 2 {
        let mut r: Vec<usize> = Vec::new();
        if n == 1 {
            r.push(v[0]);
        }
        assert(r@ =~= v@);
        return r;
    }
    let mid: usize = n / 2;
    let mut left: Vec<usize> = Vec::new();
    let mut right: Vec<usize> = Vec::new();
    let mut i: usize = 0;
    while i < n
        invariant
            i <= n,
            n == v.len(),
            mid == n / 2,
            n >= 2,
            left@ == v@.take(if i < mid {
                i as int
            } else {
                mid as int
            }),
            right@ == v@.subrange(
                mid as int,
                if i < mid {
                    mid as int
                } else {
                    i as int
                },
            ),
        decreases n - i,
    {
        if i < mid {
            left.push(v[i]);
            assert(left@ =~= v@.take(i + 1));
        } else {
            right.push(v[i]);
            assert(right@ =~= v@.subrange(mid as int, i + 1));
        }
        i += 1;
    }
    assert(left@ + right@ =~= v@);
    assert(distinct_below(left@, keys@.len() as int)) by {
        assert forall|a: int| 0 <= a < left@.len() implies (#[trigger] left@[a]) < keys@.len() by {
            assert(left@[a] == v@[a]);
        }
    }
    assert(distinct_below(right@, keys@.len() as int)) by {
        assert forall|a: int| 0 <= a < right@.len() implies (#[trigger] right@[a])
            < keys@.len() by {
            assert(right@[a] == v@[mid + a]);
        }
    }
    let a = sort_positions(keys, descending, &left);
    let b = sort_positions(keys, descending, &right);
    proof {
        vstd::seq_lib::lemma_multiset_commutative(left@, right@);
        vstd::seq_lib::lemma_multiset_commutative(a@, b@);
        assert((a@ + b@).to_multiset() =~= v@.to_multiset());
        lemma_same_items(v@, a@ + b@, keys@.len() as int);
    }
    let r = merge(keys, descending, &a, &b);
    assert(r@.to_multiset().len() == r@.len());
    assert(v@.to_multiset().len() == v@.len());
    r
}

/// A list with the same items has none twice either.
pub proof fn lemma_same_items(v: Seq<usize>, w: Seq<usize>, n: int)
    requires
        distinct_below(v, n),
        v.to_multiset() == w.to_multiset(),
    ensures
        distinct_below(w, n),
{
    broadcast use vstd::seq_lib::group_to_multiset_ensures;

    v.lemma_multiset_has_no_duplicates();
    w.lemma_multiset_has_no_duplicates_conv();
    assert forall|a: int| 0 <= a < w.len() implies (#[trigger] w[a]) < n by {
        assert(w.to_multiset().contains(w[a]));
        assert(v.to_multiset().contains(w[a]));
        assert(v.contains(w[a]));
    }
}

/// A text comes before another where it has the lesser character at the first
/// difference, or ends there.
pub proof fn texts_differ_first_where_it_counts(a: Seq<char>, b: Seq<char>, k: int)
    requires
        0 <= k <= a.len(),
        k <= b.len(),
        forall|j: int| 0 <= j < k ==> a[j] == b[j],
    ensures
        k < a.len() && k < b.len() && a[k] < b[k] ==> text_less(a, b) && !text_less(b, a),
        k == a.len() && k < b.len() ==> text_less(a, b) && !text_less(b, a),
        k == a.len() && k == b.len() ==> !text_less(a, b) && !text_less(b, a),
    decreases k,
{
    if k > 0 {
        assert(a[0] == b[0]);
        let c = a.drop_first();
        let d = b.drop_first();
        assert forall|j: int| 0 <= j < k - 1 implies c[j] == d[j] by {
            assert(a[j + 1] == b[j + 1]);
        }
        texts_differ_first_where_it_counts(c, d, k - 1);
    }
}

/// Numbers are ordered by size, ratios by what they are worth, and a missing
/// text comes before any other.
pub proof fn keys_are_ordered_by_their_worth(m: u64, n: u64, a: u128, b: u32, c: u128, d: u32)
    requires
        b > 0,
        d > 0,
    ensures
        key_less(Key::Number(m), Key::Number(n)) <==> m < n,
        key_less(Key::Ratio(a, b), Key::Ratio(c, d)) <==> a * d < c * b,
        forall|t: String| #[trigger] key_less(Key::Text(None), Key::Text(Some(t))),
        forall|t: String| !#[trigger] key_less(Key::Text(Some(t)), Key::Text(None)),
        forall|t: String, u: String|
            #[trigger] key_less(Key::Text(Some(t)), Key::Text(Some(u))) <==> text_less(t@, u@),
{
}

/// Positions in order hold the lesser key first, or the greater where it goes
/// downwards, and equal keys in the order in which they came.
pub proof fn positions_follow_their_keys(
    v: Seq<usize>,
    keys: Seq<Key>,
    descending: bool,
    a: int,
    b: int,
)
    requires
        in_order(v, keys, descending),
        0 <= a < b < v.len(),
    ensures
        !descending ==> !key_less(keys[v[b] as int], keys[v[a] as int]),
        descending ==> !key_less(keys[v[a] as int], keys[v[b] as int]),
        !key_less(keys[v[a] as int], keys[v[b] as int]) && !key_less(
            keys[v[b] as int],
            keys[v[a] as int],
        ) && v[a] != v[b] ==> v[a] < v[b],
{
    assert(stands_before(keys, descending, v[a] as int, v[b] as int));
    key_order(keys[v[a] as int], keys[v[b] as int], keys[v[a] as int]);
}

/// Positions that are distinct and within a list never repeat an item of it nor
/// leave it.
pub proof fn positions_stay_within(v: Seq<usize>, n: int, a: int, b: int)
    requires
        distinct_below(v, n),
        0 <= a < b < v.len(),
    ensures
        v[a] < n,
        v[b] < n,
        v[a] != v[b],
        distinct_below(v.drop_last(), n),
        !distinct_below(v.push(v[a]), n),
{
    let w = v.push(v[a]);
    assert(w[a] == w[v.len() as int]);
}

} // verus!
