//! Lexicographic order on sequences of machine integers, and a stable sort over
//! keyed values.
//!
//! Every composite sort key of this crate is written as one sequence of `u64`
//! values: a text contributes its UTF-8 bytes, each raised by one, and a closing
//! zero; an integer contributes itself. Fields written this way delimit
//! themselves, so the lexicographic order on the sequences is the
//! field-by-field order of the tuples they stand for.

use vstd::prelude::*;

verus! {

/// `a` comes strictly before `b`.
pub open spec fn key_lt(a: Seq<u64>, b: Seq<u64>) -> bool
    decreases a.len(),
{
    if b.len() == 0 {
        false
    } else if a.len() == 0 {
        true
    } else if a[0] != b[0] {
        a[0] < b[0]
    } else {
        key_lt(a.drop_first(), b.drop_first())
    }
}

/// `a` does not come after `b`.
pub open spec fn key_le(a: Seq<u64>, b: Seq<u64>) -> bool {
    !key_lt(b, a)
}

/// Two keys compare as less, equal or greater: exactly one of the three.
pub proof fn key_order_is_total(a: Seq<u64>, b: Seq<u64>)
    ensures
        key_lt(a, b) || a == b || key_lt(b, a),
        !(key_lt(a, b) && key_lt(b, a)),
        a == b ==> !key_lt(a, b),
    decreases a.len(),
{
    if a.len() > 0 && b.len() > 0 {
        if a[0] == b[0] {
            key_order_is_total(a.drop_first(), b.drop_first());
            if a.drop_first() == b.drop_first() {
                assert(a =~= seq![a[0]] + a.drop_first());
                assert(b =~= seq![b[0]] + b.drop_first());
            }
        }
    } else if a.len() == 0 && b.len() == 0 {
        assert(a =~= b);
    }
}

/// The key order is transitive.
pub proof fn key_order_is_transitive(a: Seq<u64>, b: Seq<u64>, c: Seq<u64>)
    ensures
        key_lt(a, b) && key_lt(b, c) ==> key_lt(a, c),
        key_le(a, b) && key_le(b, c) ==> key_le(a, c),
        key_lt(a, b) && key_le(b, c) ==> key_lt(a, c),
        key_le(a, b) && key_lt(b, c) ==> key_lt(a, c),
    decreases a.len() + b.len() + c.len(),
{
    key_order_is_total(a, b);
    key_order_is_total(b, c);
    key_order_is_total(a, c);
    if a.len() > 0 && b.len() > 0 && c.len() > 0 {
        key_order_is_transitive(a.drop_first(), b.drop_first(), c.drop_first());
    }
}

proof fn lemma_key_lt_at(a: Seq<u64>, b: Seq<u64>, i: int)
    requires
        0 <= i <= a.len(),
        i <= b.len(),
        forall|j: int| 0 <= j < i ==> a[j] == b[j],
    ensures
        i == b.len() ==> !key_lt(a, b),
        i == a.len() && i < b.len() ==> key_lt(a, b),
        i < a.len() && i < b.len() && a[i] != b[i] ==> key_lt(a, b) == (a[i] < b[i]),
    decreases i,
{
    if i > 0 {
        lemma_key_lt_at(a.drop_first(), b.drop_first(), i - 1);
    }
}

/// Tells whether the key `a` comes strictly before the key `b`.
pub fn key_less(a: &Vec<u64>, b: &Vec<u64>) -> (r: bool)
    ensures
        r == key_lt(a@, b@),
{
    let mut i: usize = 0;
    while i < a.len() && i < b.len()
        invariant
            i <= a.len(),
            i <= b.len(),
            forall|j: int| 0 <= j < i ==> a@[j] == b@[j],
        decreases a.len() - i,
    {
        if a[i] != b[i] {
            proof {
                lemma_key_lt_at(a@, b@, i as int);
            }
            return a[i] < b[i];
        }
        i += 1;
    }
    proof {
        lemma_key_lt_at(a@, b@, i as int);
    }
    i < b.len()
}

/// A value with a sort key.
pub trait Keyed: Sized {
    /// The key.
    spec fn key(&self) -> Seq<u64>;

    /// Computes the key.
    fn sort_key(&self) -> (k: Vec<u64>)
        ensures
            k@ == self.key(),
    ;
}

/// The values stand in ascending key order; equal keys are allowed.
pub open spec fn sorted_by_key<T: Keyed>(s: Seq<T>) -> bool {
    forall|i: int, j: int|
        0 <= i < j < s.len() ==> key_le((#[trigger] s[i]).key(), (#[trigger] s[j]).key())
}

/// The values stand in strictly ascending key order.
pub open spec fn strictly_sorted_by_key<T: Keyed>(s: Seq<T>) -> bool {
    forall|i: int, j: int|
        0 <= i < j < s.len() ==> key_lt((#[trigger] s[i]).key(), (#[trigger] s[j]).key())
}

/// The values of `s` whose key is `k`, in their order in `s`.
pub open spec fn with_key<T: Keyed>(s: Seq<T>, k: Seq<u64>) -> Seq<T> {
    s.filter(|x: T| x.key() == k)
}

/// `output` is the stable sort of `input`: the same values in ascending key
/// order, and values of one key in the order they had.
pub open spec fn is_stable_sort<T: Keyed>(input: Seq<T>, output: Seq<T>) -> bool {
    &&& sorted_by_key(output)
    &&& output.to_multiset() == input.to_multiset()
    &&& forall|k: Seq<u64>| #[trigger] with_key(output, k) == with_key(input, k)
}

struct Decorated<T> {
    key: Vec<u64>,
    value: T,
}

spec fn decorated_ok<T: Keyed>(d: Seq<Decorated<T>>) -> bool {
    forall|i: int| 0 <= i < d.len() ==> (#[trigger] d[i]).key@ == d[i].value.key()
}

spec fn values<T>(d: Seq<Decorated<T>>) -> Seq<T> {
    d.map_values(|x: Decorated<T>| x.value)
}

proof fn lemma_with_key_push<T: Keyed>(s: Seq<T>, x: T, k: Seq<u64>)
    ensures
        with_key(s.push(x), k) == if x.key() == k {
            with_key(s, k).push(x)
        } else {
            with_key(s, k)
        },
{
    reveal(Seq::filter);
    assert(s.push(x).drop_last() =~= s);
}

proof fn lemma_with_key_add<T: Keyed>(a: Seq<T>, b: Seq<T>, k: Seq<u64>)
    ensures
        with_key(a + b, k) == with_key(a, k) + with_key(b, k),
{
    let p = |y: T| y.key() == k;
    Seq::filter_distributes_over_add(a, b, p);
}

/// A value none of whose fellows carries the key is not found by it.
proof fn lemma_with_key_absent<T: Keyed>(s: Seq<T>, k: Seq<u64>)
    requires
        forall|i: int| 0 <= i < s.len() ==> (#[trigger] s[i]).key() != k,
    ensures
        with_key(s, k) == Seq::<T>::empty(),
    decreases s.len(),
{
    let p = |y: T| y.key() == k;
    reveal(Seq::filter);
    if s.len() > 0 {
        lemma_with_key_absent(s.drop_last(), k);
    }
    assert(with_key(s, k) =~= Seq::<T>::empty());
}

/// Reverses a vector.
pub(crate) fn reversed<T>(v: Vec<T>) -> (r: Vec<T>)
    ensures
        r@ == v@.reverse(),
{
    let mut v = v;
    let ghost start = v@;
    let mut r: Vec<T> = Vec::new();
    while v.len() > 0
        invariant
            v@.len() + r@.len() == start.len(),
            v@ == start.take(v@.len() as int),
            forall|i: int| 0 <= i < r@.len() ==> r@[i] == start[start.len() - 1 - i],
        decreases v.len(),
    {
        let x = v.pop();
        match x {
            Some(y) => r.push(y),
            None => {},
        }
    }
    assert(r@ =~= start.reverse());
    r
}

/// Merges two sorted runs; on equal keys the values of the first run come first.
fn merge<T: Keyed>(a: Vec<Decorated<T>>, b: Vec<Decorated<T>>) -> (r: Vec<Decorated<T>>)
    requires
        decorated_ok(a@),
        decorated_ok(b@),
        sorted_by_key(values(a@)),
        sorted_by_key(values(b@)),
    ensures
        decorated_ok(r@),
        is_stable_sort(values(a@) + values(b@), values(r@)),
{
    let mut a = a;
    let mut b = b;
    let ghost a0 = a@;
    let ghost b0 = b@;
    // Filled from the greatest value down.
    let mut tail: Vec<Decorated<T>> = Vec::new();
    proof {
        assert(a0.take(a0.len() as int) =~= a0);
        assert(b0.take(b0.len() as int) =~= b0);
        let none = values(tail@.reverse());
        assert(none =~= Seq::<T>::empty());
        none.to_multiset_ensures();
        assert((values(a0) + values(b0)).to_multiset().add(none.to_multiset()) =~= (values(a0)
            + values(b0)).to_multiset());
        assert forall|k: Seq<u64>| #[trigger]
            with_key(values(a0) + values(b0), k) == with_key(values(a0), k) + (with_key(
                values(b0),
                k,
            ) + with_key(none, k)) by {
            lemma_with_key_add(values(a0), values(b0), k);
            lemma_with_key_absent(none, k);
            assert(with_key(values(b0), k) + with_key(none, k) =~= with_key(values(b0), k));
        }
    }
    while a.len() > 0 || b.len() > 0
        invariant
            decorated_ok(a0),
            decorated_ok(b0),
            sorted_by_key(values(a0)),
            sorted_by_key(values(b0)),
            a@.len() <= a0.len(),
            b@.len() <= b0.len(),
            a@ == a0.take(a@.len() as int),
            b@ == b0.take(b@.len() as int),
            decorated_ok(tail@),
            sorted_by_key(values(tail@.reverse())),
            forall|i: int, j: int|
                0 <= i < a@.len() && 0 <= j < tail@.len() ==> key_le(
                    (#[trigger] a@[i]).value.key(),
                    (#[trigger] tail@[j]).value.key(),
                ),
            forall|i: int, j: int|
                0 <= i < b@.len() && 0 <= j < tail@.len() ==> key_le(
                    (#[trigger] b@[i]).value.key(),
                    (#[trigger] tail@[j]).value.key(),
                ),
            (values(a@) + values(b@)).to_multiset().add(values(tail@.reverse()).to_multiset())
                == (values(a0) + values(b0)).to_multiset(),
            forall|k: Seq<u64>|
                #![trigger with_key(values(a0) + values(b0), k)]
                with_key(values(a@), k) + (with_key(values(b@), k) + with_key(
                    values(tail@.reverse()),
                    k,
                )) == with_key(values(a0) + values(b0), k),
        decreases a.len() + b.len(),
    {
        let take_b = if a.len() == 0 {
            true
        } else if b.len() == 0 {
            false
        } else {
            !key_less(&b[b.len() - 1].key, &a[a.len() - 1].key)
        };
        let ghost a1 = a@;
        let ghost b1 = b@;
        let ghost t1 = tail@;
        let x = if take_b {
            b.pop()
        } else {
            a.pop()
        };
        match x {
            Some(y) => {
                proof {
                    lemma_merge_step(a0, b0, a1, b1, t1, y, take_b, a@, b@);
                }
                tail.push(y);
            },
            None => {},
        }
    }
    proof {
        assert(values(a@) =~= Seq::<T>::empty());
        assert(values(b@) =~= Seq::<T>::empty());
        let out = values(tail@.reverse());
        assert(values(a@) + values(b@) =~= Seq::<T>::empty());
        assert((values(a@) + values(b@)).to_multiset() =~= vstd::multiset::Multiset::empty()) by {
            Seq::<T>::empty().to_multiset_ensures();
        }
        assert(out.to_multiset() =~= (values(a0) + values(b0)).to_multiset());
        assert forall|k: Seq<u64>| #[trigger]
            with_key(out, k) == with_key(values(a0) + values(b0), k) by {
            lemma_with_key_absent(values(a@), k);
            lemma_with_key_absent(values(b@), k);
            assert(with_key(values(a@), k) + (with_key(values(b@), k) + with_key(out, k))
                =~= with_key(out, k));
        }
    }
    let r = reversed(tail);
    proof {
        assert forall|i: int| 0 <= i < r@.len() implies (#[trigger] r@[i]).key@
            == r@[i].value.key() by {
            assert(r@[i] == tail@[tail@.len() - 1 - i]);
        }
    }
    r
}

#[verifier::rlimit(60)]
#[verifier::spinoff_prover]
proof fn lemma_merge_step<T: Keyed>(
    a0: Seq<Decorated<T>>,
    b0: Seq<Decorated<T>>,
    a1: Seq<Decorated<T>>,
    b1: Seq<Decorated<T>>,
    t1: Seq<Decorated<T>>,
    y: Decorated<T>,
    take_b: bool,
    a2: Seq<Decorated<T>>,
    b2: Seq<Decorated<T>>,
)
    requires
        decorated_ok(a0),
        decorated_ok(b0),
        sorted_by_key(values(a0)),
        sorted_by_key(values(b0)),
        a1.len() <= a0.len(),
        b1.len() <= b0.len(),
        a1 == a0.take(a1.len() as int),
        b1 == b0.take(b1.len() as int),
        decorated_ok(t1),
        sorted_by_key(values(t1.reverse())),
        forall|i: int, j: int|
            0 <= i < a1.len() && 0 <= j < t1.len() ==> key_le(
                (#[trigger] a1[i]).value.key(),
                (#[trigger] t1[j]).value.key(),
            ),
        forall|i: int, j: int|
            0 <= i < b1.len() && 0 <= j < t1.len() ==> key_le(
                (#[trigger] b1[i]).value.key(),
                (#[trigger] t1[j]).value.key(),
            ),
        (values(a1) + values(b1)).to_multiset().add(values(t1.reverse()).to_multiset()) == (values(
            a0,
        ) + values(b0)).to_multiset(),
        forall|k: Seq<u64>|
            #![trigger with_key(values(a0) + values(b0), k)]
            with_key(values(a1), k) + (with_key(values(b1), k) + with_key(
                values(t1.reverse()),
                k,
            )) == with_key(values(a0) + values(b0), k),
        take_b ==> b1.len() > 0 && y == b1.last() && a2 == a1 && b2 == b1.drop_last(),
        !take_b ==> a1.len() > 0 && y == a1.last() && a2 == a1.drop_last() && b2 == b1,
        take_b && a1.len() > 0 ==> key_le(a1.last().value.key(), y.value.key()),
        !take_b && b1.len() > 0 ==> key_lt(b1.last().value.key(), y.value.key()),
    ensures
        ({
            let t2 = t1.push(y);
            &&& decorated_ok(t2)
            &&& sorted_by_key(values(t2.reverse()))
            &&& forall|i: int, j: int|
                0 <= i < a2.len() && 0 <= j < t2.len() ==> key_le(
                    (#[trigger] a2[i]).value.key(),
                    (#[trigger] t2[j]).value.key(),
                )
            &&& forall|i: int, j: int|
                0 <= i < b2.len() && 0 <= j < t2.len() ==> key_le(
                    (#[trigger] b2[i]).value.key(),
                    (#[trigger] t2[j]).value.key(),
                )
            &&& (values(a2) + values(b2)).to_multiset().add(values(t2.reverse()).to_multiset())
                == (values(a0) + values(b0)).to_multiset()
            &&& forall|k: Seq<u64>|
                #![trigger with_key(values(a0) + values(b0), k)]
                with_key(values(a2), k) + (with_key(values(b2), k) + with_key(
                    values(t2.reverse()),
                    k,
                )) == with_key(values(a0) + values(b0), k)
        }),
{
    let t2 = t1.push(y);
    let yv = y.value;
    let va0 = values(a0);
    let vb0 = values(b0);
    assert(forall|i: int| 0 <= i < a1.len() ==> a1[i] == a0[i] && va0[i] == a0[i].value);
    assert(forall|i: int| 0 <= i < b1.len() ==> b1[i] == b0[i] && vb0[i] == b0[i].value);
    assert(decorated_ok(t2));
    assert(t2.reverse() =~= seq![y] + t1.reverse());
    assert(values(t2.reverse()) =~= seq![yv] + values(t1.reverse()));
    // Everything still waiting is at most `y`.
    assert forall|i: int| 0 <= i < a1.len() implies key_le(
        (#[trigger] a1[i]).value.key(),
        yv.key(),
    ) by {
        let last = a1.last().value;
        key_order_is_total(a1[i].value.key(), a1[i].value.key());
        if i < a1.len() - 1 {
            assert(key_le(va0[i].key(), va0[a1.len() - 1].key()));
        }
        key_order_is_transitive(a1[i].value.key(), last.key(), yv.key());
        key_order_is_total(last.key(), yv.key());
    }
    assert forall|i: int| 0 <= i < b1.len() implies key_le(
        (#[trigger] b1[i]).value.key(),
        yv.key(),
    ) by {
        let last = b1.last().value;
        key_order_is_total(b1[i].value.key(), b1[i].value.key());
        if i < b1.len() - 1 {
            assert(key_le(vb0[i].key(), vb0[b1.len() - 1].key()));
        }
        key_order_is_total(last.key(), yv.key());
        key_order_is_transitive(b1[i].value.key(), last.key(), yv.key());
    }
    let out1 = values(t1.reverse());
    let out2 = values(t2.reverse());
    assert forall|i: int, j: int| 0 <= i < j < out2.len() implies key_le(
        (#[trigger] out2[i]).key(),
        (#[trigger] out2[j]).key(),
    ) by {
        if i == 0 {
            let idx = t1.len() - j;
            assert(out2[j] == t1[idx].value);
            if take_b {
                assert(key_le(b1[b1.len() - 1].value.key(), t1[idx].value.key()));
            } else {
                assert(key_le(a1[a1.len() - 1].value.key(), t1[idx].value.key()));
            }
        } else {
            assert(out2[i] == out1[i - 1]);
            assert(out2[j] == out1[j - 1]);
        }
    }
    // The multisets.
    let whole1 = values(a1) + values(b1);
    let whole2 = values(a2) + values(b2);
    let pos: int = if take_b {
        whole1.len() - 1
    } else {
        a1.len() - 1
    };
    assert(whole1[pos] == yv);
    assert(whole1.remove(pos) =~= whole2);
    vstd::seq_lib::to_multiset_remove(whole1, pos);
    assert(whole2.to_multiset() =~= whole1.to_multiset().remove(yv));
    assert(whole1.to_multiset().contains(yv)) by {
        vstd::seq_lib::to_multiset_contains(whole1, yv);
        assert(whole1.contains(yv));
    }
    assert(out2.to_multiset() =~= out1.to_multiset().insert(yv)) by {
        assert(out2 =~= out1.insert(0, yv));
        vstd::seq_lib::to_multiset_insert(out1, 0, yv);
    }
    assert(whole2.to_multiset().add(out2.to_multiset()) =~= whole1.to_multiset().add(
        out1.to_multiset(),
    ));
    // The values of one key.
    assert forall|k: Seq<u64>| #[trigger] with_key(va0 + vb0, k) == with_key(values(a2), k) + (
    with_key(values(b2), k) + with_key(out2, k)) by {
        let head = with_key(seq![yv], k);
        lemma_with_key_add(seq![yv], out1, k);
        assert(Seq::<T>::empty().push(yv) =~= seq![yv]);
        lemma_with_key_push(Seq::<T>::empty(), yv, k);
        lemma_with_key_absent(Seq::<T>::empty(), k);
        if take_b {
            assert(values(b1) =~= values(b2).push(yv));
            lemma_with_key_push(values(b2), yv, k);
            assert(with_key(values(b1), k) =~= with_key(values(b2), k) + head);
            assert(with_key(values(a1), k) + (with_key(values(b1), k) + with_key(out1, k))
                =~= with_key(values(a2), k) + (with_key(values(b2), k) + with_key(out2, k)));
        } else {
            assert(values(a1) =~= values(a2).push(yv));
            lemma_with_key_push(values(a2), yv, k);
            assert(with_key(values(a1), k) =~= with_key(values(a2), k) + head);
            if yv.key() == k {
                // No waiting value of the second run has the key of `y`.
                assert forall|i: int| 0 <= i < values(b1).len() implies (#[trigger] values(
                    b1,
                )[i]).key() != k by {
                    let last = b1.last().value;
                    assert(values(b1)[i] == b1[i].value);
                    if i < b1.len() - 1 {
                        assert(key_le(vb0[i].key(), vb0[b1.len() - 1].key()));
                        key_order_is_transitive(b1[i].value.key(), last.key(), yv.key());
                    }
                    key_order_is_total(b1[i].value.key(), yv.key());
                }
                lemma_with_key_absent(values(b1), k);
            }
            assert(with_key(values(a1), k) + (with_key(values(b1), k) + with_key(out1, k))
                =~= with_key(values(a2), k) + (with_key(values(b2), k) + with_key(out2, k)));
        }
    }
}

/// Sorts the decorated values.
fn merge_sort<T: Keyed>(v: Vec<Decorated<T>>) -> (r: Vec<Decorated<T>>)
    requires
        decorated_ok(v@),
    ensures
        decorated_ok(r@),
        is_stable_sort(values(v@), values(r@)),
    decreases v@.len(),
{
    let n = v.len();
    if n <= 1 {
        return v;
    }
    let mut left = v;
    let ghost all = left@;
    let half: usize = n / 2;
    let right = left.split_off(half);
    proof {
        assert(values(all) =~= values(left@) + values(right@));
    }
    let ghost l = values(left@);
    let ghost r = values(right@);
    let a = merge_sort(left);
    let b = merge_sort(right);
    let out = merge(a, b);
    proof {
        assert forall|k: Seq<u64>| #[trigger]
            with_key(values(out@), k) == with_key(values(all), k) by {
            lemma_with_key_add(l, r, k);
            lemma_with_key_add(values(a@), values(b@), k);
        }
        vstd::seq_lib::lemma_multiset_commutative(l, r);
        vstd::seq_lib::lemma_multiset_commutative(values(a@), values(b@));
    }
    out
}

/// Sorts by key; values with equal keys keep their order.
pub fn stable_sort<T: Keyed>(items: Vec<T>) -> (r: Vec<T>)
    ensures
        is_stable_sort(items@, r@),
{
    let mut items = items;
    let ghost start = items@;
    let mut back: Vec<Decorated<T>> = Vec::new();
    while items.len() > 0
        invariant
            items@.len() + back@.len() == start.len(),
            items@ == start.take(items@.len() as int),
            decorated_ok(back@),
            forall|i: int|
                0 <= i < back@.len() ==> (#[trigger] back@[i]).value == start[start.len() - 1 - i],
        decreases items.len(),
    {
        let x = items.pop();
        match x {
            Some(value) => {
                let key = value.sort_key();
                back.push(Decorated { key, value });
            },
            None => {},
        }
    }
    let decorated = reversed(back);
    proof {
        assert forall|i: int| 0 <= i < decorated@.len() implies (#[trigger] decorated@[i]).key@
            == decorated@[i].value.key() by {
            assert(decorated@[i] == back@[back@.len() - 1 - i]);
        }
        assert(values(decorated@) =~= start);
    }
    let mut sorted = merge_sort(decorated);
    let ghost done = sorted@;
    let mut out: Vec<T> = Vec::new();
    while sorted.len() > 0
        invariant
            sorted@.len() + out@.len() == done.len(),
            sorted@ == done.take(sorted@.len() as int),
            forall|i: int|
                0 <= i < out@.len() ==> (#[trigger] out@[i]) == done[done.len() - 1 - i].value,
        decreases sorted.len(),
    {
        let x = sorted.pop();
        match x {
            Some(d) => out.push(d.value),
            None => {},
        }
    }
    let r = reversed(out);
    assert(r@ =~= values(done));
    r
}

/// Two strictly ascending lists of the same values are equal.
pub proof fn strict_orders_are_determined<T: Keyed>(a: Seq<T>, b: Seq<T>)
    requires
        strictly_sorted_by_key(a),
        strictly_sorted_by_key(b),
        forall|x: T| #[trigger] a.contains(x) == b.contains(x),
    ensures
        a == b,
    decreases a.len(),
{
    if a.len() == 0 {
        if b.len() > 0 {
            assert(b.contains(b[0]));
            assert(a.contains(b[0]));
        }
        assert(a =~= b);
    } else {
        let x = a.last();
        let y = b.last();
        assert(a[a.len() - 1] == x);
        assert(a.contains(x));
        assert(b.contains(x));
        let j = choose|j: int| 0 <= j < b.len() && b[j] == x;
        assert(b[b.len() - 1] == y);
        assert(b.contains(y));
        assert(a.contains(y));
        let i = choose|i: int| 0 <= i < a.len() && a[i] == y;
        key_order_is_total(x.key(), y.key());
        if j < b.len() - 1 {
            assert(key_lt(b[j].key(), b[b.len() - 1].key()));
            if i < a.len() - 1 {
                assert(key_lt(a[i].key(), a[a.len() - 1].key()));
            }
        }
        assert(x == y);
        let p = a.drop_last();
        let q = b.drop_last();
        assert forall|z: T| #[trigger] p.contains(z) == q.contains(z) by {
            key_order_is_total(x.key(), x.key());
            if p.contains(z) {
                let m = choose|m: int| 0 <= m < p.len() && p[m] == z;
                assert(a[m] == z);
                assert(a.contains(z));
                assert(key_lt(a[m].key(), a[a.len() - 1].key()));
                let n = choose|n: int| 0 <= n < b.len() && b[n] == z;
                assert(n < b.len() - 1);
                assert(q[n] == z);
            }
            if q.contains(z) {
                let m = choose|m: int| 0 <= m < q.len() && q[m] == z;
                assert(b[m] == z);
                assert(b.contains(z));
                assert(a.contains(z));
                assert(key_lt(b[m].key(), b[b.len() - 1].key()));
                let n = choose|n: int| 0 <= n < a.len() && a[n] == z;
                assert(n < a.len() - 1);
                assert(p[n] == z);
            }
        }
        assert forall|m: int, n: int| 0 <= m < n < p.len() implies key_lt(
            (#[trigger] p[m]).key(),
            (#[trigger] p[n]).key(),
        ) by {
            assert(key_lt(a[m].key(), a[n].key()));
        }
        assert forall|m: int, n: int| 0 <= m < n < q.len() implies key_lt(
            (#[trigger] q[m]).key(),
            (#[trigger] q[n]).key(),
        ) by {
            assert(key_lt(b[m].key(), b[n].key()));
        }
        strict_orders_are_determined(p, q);
        assert(a =~= p.push(x));
        assert(b =~= q.push(y));
    }
}

} // verus!
