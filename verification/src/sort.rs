use vstd::prelude::*;
use vstd::multiset::Multiset;

verus! {

/// Values ordered by a `u64` key (a tick, for the timeline types).
pub trait TickOrdered: Copy {
    spec fn sort_key(&self) -> u64;

    fn key(&self) -> (k: u64)
        ensures
            k == self.sort_key(),
    ;
}

/// Stable merge of two sequences: on equal keys the left element comes first.
pub open spec fn merge_by_key<T: TickOrdered>(l: Seq<T>, r: Seq<T>) -> Seq<T>
    decreases l.len(), r.len(),
{
    if l.len() == 0 {
        r
    } else if r.len() == 0 {
        l
    } else if l[0].sort_key() <= r[0].sort_key() {
        seq![l[0]] + merge_by_key(l.drop_first(), r)
    } else {
        seq![r[0]] + merge_by_key(l, r.drop_first())
    }
}

/// The stable sort of `s` by key: elements with equal keys keep their order.
pub open spec fn stable_sort<T: TickOrdered>(s: Seq<T>) -> Seq<T>
    decreases s.len(),
{
    if s.len() <= 1 {
        s
    } else {
        let m = s.len() / 2;
        merge_by_key(stable_sort(s.subrange(0, m as int)), stable_sort(s.subrange(m as int, s.len() as int)))
    }
}

pub open spec fn key_sorted<T: TickOrdered>(s: Seq<T>) -> bool {
    forall|i: int, j: int| 0 <= i <= j < s.len() ==> s[i].sort_key() <= s[j].sort_key()
}

proof fn lemma_merge_props<T: TickOrdered>(l: Seq<T>, r: Seq<T>)
    requires
        key_sorted(l),
        key_sorted(r),
    ensures
        key_sorted(merge_by_key(l, r)),
        merge_by_key(l, r).to_multiset() =~= l.to_multiset().add(r.to_multiset()),
        merge_by_key(l, r).len() == l.len() + r.len(),
        merge_by_key(l, r).len() > 0 ==> (merge_by_key(l, r)[0] == l[0] || merge_by_key(l, r)[0]
            == r[0]),
        merge_by_key(l, r).len() > 0 && l.len() > 0 && r.len() > 0 ==> merge_by_key(
            l,
            r,
        )[0].sort_key() == if l[0].sort_key() <= r[0].sort_key() {
            l[0].sort_key()
        } else {
            r[0].sort_key()
        },
    decreases l.len(), r.len(),
{
    broadcast use vstd::seq_lib::group_to_multiset_ensures;

    if l.len() == 0 {
        assert(l.to_multiset() =~= Multiset::empty());
    } else if r.len() == 0 {
        assert(r.to_multiset() =~= Multiset::empty());
    } else if l[0].sort_key() <= r[0].sort_key() {
        let rest = l.drop_first();
        lemma_merge_props(rest, r);
        let m = merge_by_key(rest, r);
        assert(l =~= seq![l[0]] + rest);
        vstd::seq_lib::lemma_multiset_commutative(seq![l[0]], rest);
        vstd::seq_lib::lemma_multiset_commutative(seq![l[0]], m);
        let res = seq![l[0]] + m;
        assert forall|i: int, j: int| 0 <= i <= j < res.len() implies res[i].sort_key()
            <= res[j].sort_key() by {
            if i == 0 && j > 0 {
                assert(res[j] == m[j - 1]);
                assert(m[0].sort_key() <= m[j - 1].sort_key());
                if rest.len() > 0 {
                    assert(l[0].sort_key() <= rest[0].sort_key());
                }
            }
        }
    } else {
        let rest = r.drop_first();
        lemma_merge_props(l, rest);
        let m = merge_by_key(l, rest);
        assert(r =~= seq![r[0]] + rest);
        vstd::seq_lib::lemma_multiset_commutative(seq![r[0]], rest);
        vstd::seq_lib::lemma_multiset_commutative(seq![r[0]], m);
        let res = seq![r[0]] + m;
        assert forall|i: int, j: int| 0 <= i <= j < res.len() implies res[i].sort_key()
            <= res[j].sort_key() by {
            if i == 0 && j > 0 {
                assert(res[j] == m[j - 1]);
                assert(m[0].sort_key() <= m[j - 1].sort_key());
                if rest.len() > 0 {
                    assert(r[0].sort_key() <= rest[0].sort_key());
                }
            }
        }
    }
}

/// The stable sort is in key order and holds exactly the elements it was given.
pub proof fn lemma_stable_sort_props<T: TickOrdered>(s: Seq<T>)
    ensures
        key_sorted(stable_sort(s)),
        stable_sort(s).to_multiset() =~= s.to_multiset(),
        stable_sort(s).len() == s.len(),
    decreases s.len(),
{
    if s.len() > 1 {
        let m = s.len() / 2;
        let a = s.subrange(0, m as int);
        let b = s.subrange(m as int, s.len() as int);
        lemma_stable_sort_props(a);
        lemma_stable_sort_props(b);
        lemma_merge_props(stable_sort(a), stable_sort(b));
        assert(s =~= a + b);
        vstd::seq_lib::lemma_multiset_commutative(a, b);
    }
}

/// Merges two key-sorted vectors, taking from the left one on equal keys.
fn merge_vecs<T: TickOrdered>(left: Vec<T>, right: Vec<T>) -> (res: Vec<T>)
    ensures
        res@ == merge_by_key(left@, right@),
{
    let mut res: Vec<T> = Vec::new();
    let mut i: usize = 0;
    let mut j: usize = 0;
    assert(left@.skip(0) =~= left@);
    assert(right@.skip(0) =~= right@);
    assert(res@ + merge_by_key(left@, right@) =~= merge_by_key(left@, right@));
    while i < left.len() || j < right.len()
        invariant
            0 <= i <= left.len(),
            0 <= j <= right.len(),
            res@ + merge_by_key(left@.skip(i as int), right@.skip(j as int)) == merge_by_key(
                left@,
                right@,
            ),
        decreases left.len() - i + right.len() - j,
    {
        let ghost l = left@.skip(i as int);
        let ghost r = right@.skip(j as int);
        if i == left.len() {
            assert(l.len() == 0);
            proof {
                assert(r =~= seq![r[0]] + r.drop_first());
                assert(right@.skip(j + 1) =~= r.drop_first());
                assert(l =~= Seq::<T>::empty());
                assert(merge_by_key(l, r.drop_first()) == r.drop_first());
                assert(merge_by_key(l, r) == r);
            }
            res.push(right[j]);
            j = j + 1;
            proof {
                assert(res@ + merge_by_key(left@.skip(i as int), right@.skip(j as int)) =~= res@.drop_last() + r);
            }
        } else if j == right.len() {
            assert(r.len() == 0);
            proof {
                assert(l =~= seq![l[0]] + l.drop_first());
                assert(left@.skip(i + 1) =~= l.drop_first());
                assert(r =~= Seq::<T>::empty());
                assert(merge_by_key(l, r) == l);
                assert(merge_by_key(l.drop_first(), r) == l.drop_first());
            }
            res.push(left[i]);
            i = i + 1;
            proof {
                assert(res@ + merge_by_key(left@.skip(i as int), right@.skip(j as int)) =~= res@.drop_last() + l);
            }
        } else if left[i].key() <= right[j].key() {
            proof {
                assert(left@.skip(i + 1) =~= l.drop_first());
                assert(l[0] == left@[i as int]);
                assert(r[0] == right@[j as int]);
            }
            res.push(left[i]);
            i = i + 1;
            proof {
                assert(res@ + merge_by_key(left@.skip(i as int), right@.skip(j as int)) =~= res@.drop_last() + merge_by_key(l, r));
            }
        } else {
            proof {
                assert(right@.skip(j + 1) =~= r.drop_first());
                assert(l[0] == left@[i as int]);
                assert(r[0] == right@[j as int]);
            }
            res.push(right[j]);
            j = j + 1;
            proof {
                assert(res@ + merge_by_key(left@.skip(i as int), right@.skip(j as int)) =~= res@.drop_last() + merge_by_key(l, r));
            }
        }
    }
    proof {
        assert(left@.skip(i as int) =~= Seq::<T>::empty());
        assert(right@.skip(j as int) =~= Seq::<T>::empty());
        assert(res@ + Seq::<T>::empty() =~= res@);
    }
    res
}

fn sort_range<T: TickOrdered>(s: &[T], lo: usize, hi: usize) -> (res: Vec<T>)
    requires
        lo <= hi <= s@.len(),
    ensures
        res@ == stable_sort(s@.subrange(lo as int, hi as int)),
    decreases hi - lo,
{
    if hi - lo <= 1 {
        let mut res: Vec<T> = Vec::new();
        if hi - lo == 1 {
            res.push(s[lo]);
        }
        assert(res@ =~= s@.subrange(lo as int, hi as int));
        res
    } else {
        let mid = lo + (hi - lo) / 2;
        let left = sort_range(s, lo, mid);
        let right = sort_range(s, mid, hi);
        let ghost sub = s@.subrange(lo as int, hi as int);
        assert(sub.subrange(0, (hi - lo) / 2) =~= s@.subrange(lo as int, mid as int));
        assert(sub.subrange((hi - lo) / 2, sub.len() as int) =~= s@.subrange(mid as int, hi as int));
        merge_vecs(left, right)
    }
}

/// The elements of `s` with key `k`, in order.
pub open spec fn with_key<T: TickOrdered>(s: Seq<T>, k: u64) -> Seq<T> {
    s.filter(key_is::<T>(k))
}

/// Has key `k`.
pub open spec fn key_is<T: TickOrdered>(k: u64) -> spec_fn(T) -> bool {
    |x: T| x.sort_key() == k
}

/// `r` is `s` sorted stably by key: in key order, and for every key the
/// elements with that key are those of `s`, in the order `s` has them.
pub open spec fn sorted_stably<T: TickOrdered>(r: Seq<T>, s: Seq<T>) -> bool {
    &&& key_sorted(r)
    &&& forall|k: u64| #[trigger] with_key(r, k) == with_key(s, k)
}

proof fn lemma_single_filter<T: TickOrdered>(x: T, k: u64)
    ensures
        with_key(seq![x], k) == if x.sort_key() == k { seq![x] } else { Seq::<T>::empty() },
{
    reveal(Seq::filter);
    let e = Seq::<T>::empty();
    assert(seq![x].drop_last() =~= e);
    assert(e.filter(key_is::<T>(k)) =~= e);
    if x.sort_key() == k {
        assert(with_key(seq![x], k) =~= seq![x]);
    } else {
        assert(with_key(seq![x], k) =~= Seq::<T>::empty());
    }
}

proof fn lemma_no_key_below<T: TickOrdered>(l: Seq<T>, k: u64)
    requires
        key_sorted(l),
        l.len() > 0,
        l[0].sort_key() > k,
    ensures
        with_key(l, k) == Seq::<T>::empty(),
{
    let f = with_key(l, k);
    l.filter_lemma(key_is::<T>(k));
    if f.len() > 0 {
        assert(f.contains(f[0]));
        l.lemma_filter_contains_rev(key_is::<T>(k), f[0]);
        let j = choose|j: int| 0 <= j < l.len() && l[j] == f[0];
        assert(l[0].sort_key() <= l[j].sort_key());
    }
    assert(f =~= Seq::<T>::empty());
}

proof fn lemma_merge_keeps_key_order<T: TickOrdered>(l: Seq<T>, r: Seq<T>, k: u64)
    requires
        key_sorted(l),
        key_sorted(r),
    ensures
        with_key(merge_by_key(l, r), k) == with_key(l, k) + with_key(r, k),
    decreases l.len(), r.len(),
{
    broadcast use Seq::filter_distributes_over_add;

    if l.len() == 0 {
        assert(with_key(l, k) =~= Seq::<T>::empty()) by {
            reveal(Seq::filter);
        }
        assert(with_key(r, k) =~= Seq::<T>::empty() + with_key(r, k));
    } else if r.len() == 0 {
        assert(with_key(r, k) =~= Seq::<T>::empty()) by {
            reveal(Seq::filter);
        }
        assert(with_key(l, k) =~= with_key(l, k) + Seq::<T>::empty());
    } else if l[0].sort_key() <= r[0].sort_key() {
        let rest = l.drop_first();
        assert forall|i: int, j: int| 0 <= i <= j < rest.len() implies rest[i].sort_key() <= rest[j].sort_key() by {
            assert(rest[i] == l[i + 1] && rest[j] == l[j + 1]);
        }
        lemma_merge_keeps_key_order(rest, r, k);
        assert(l =~= seq![l[0]] + rest);
        lemma_single_filter(l[0], k);
        assert(with_key(l, k) == with_key(seq![l[0]], k) + with_key(rest, k));
        assert(with_key(seq![l[0]] + merge_by_key(rest, r), k) == with_key(seq![l[0]], k) + with_key(merge_by_key(rest, r), k));
        assert(with_key(merge_by_key(l, r), k) =~= with_key(l, k) + with_key(r, k));
    } else {
        let rest = r.drop_first();
        assert forall|i: int, j: int| 0 <= i <= j < rest.len() implies rest[i].sort_key() <= rest[j].sort_key() by {
            assert(rest[i] == r[i + 1] && rest[j] == r[j + 1]);
        }
        lemma_merge_keeps_key_order(l, rest, k);
        assert(r =~= seq![r[0]] + rest);
        lemma_single_filter(r[0], k);
        assert(with_key(r, k) == with_key(seq![r[0]], k) + with_key(rest, k));
        assert(with_key(seq![r[0]] + merge_by_key(l, rest), k) == with_key(seq![r[0]], k) + with_key(merge_by_key(l, rest), k));
        if r[0].sort_key() == k {
            lemma_no_key_below(l, k);
        }
        assert(with_key(merge_by_key(l, r), k) =~= with_key(l, k) + with_key(r, k));
    }
}

/// The merge sort is the stable sort: in key order, and every key's
/// elements in their given order.
pub proof fn lemma_stable_sort_is_stable<T: TickOrdered>(s: Seq<T>)
    ensures
        sorted_stably(stable_sort(s), s),
    decreases s.len(),
{
    broadcast use Seq::filter_distributes_over_add;

    lemma_stable_sort_props(s);
    if s.len() > 1 {
        let m = s.len() / 2;
        let a = s.subrange(0, m as int);
        let b = s.subrange(m as int, s.len() as int);
        lemma_stable_sort_is_stable(a);
        lemma_stable_sort_is_stable(b);
        assert(s =~= a + b);
        assert forall|k: u64| #[trigger] with_key(stable_sort(s), k) == with_key(s, k) by {
            lemma_merge_keeps_key_order(stable_sort(a), stable_sort(b), k);
            assert(with_key(a + b, k) == with_key(a, k) + with_key(b, k));
        }
    }
}

/// Sorts by key, keeping the original order of elements with equal keys.
pub fn sort_by_tick<T: TickOrdered>(s: &[T]) -> (res: Vec<T>)
    ensures
        res@ == stable_sort(s@),
        sorted_stably(res@, s@),
        key_sorted(res@),
        res@.to_multiset() == s@.to_multiset(),
        res@.len() == s@.len(),
{
    let res = sort_range(s, 0, s.len());
    assert(s@.subrange(0, s@.len() as int) =~= s@);
    proof {
        lemma_stable_sort_props(s@);
        lemma_stable_sort_is_stable(s@);
    }
    res
}

impl TickOrdered for u64 {
    open spec fn sort_key(&self) -> u64 {
        *self
    }

    fn key(&self) -> (k: u64) {
        *self
    }
}

} // verus!
