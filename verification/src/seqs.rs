//! Sequences: distinct items in order of first appearance, and sorted insertion.
use vstd::prelude::*;

verus! {

/// The distinct items of `s`, in order of first appearance.
pub open spec fn distinct<A>(s: Seq<A>) -> Seq<A>
    decreases s.len(),
{
    if s.len() == 0 {
        Seq::empty()
    } else {
        add_distinct(distinct(s.drop_last()), s.last())
    }
}

/// `s` with `x` behind it, unless `s` holds `x` already.
pub open spec fn add_distinct<A>(s: Seq<A>, x: A) -> Seq<A> {
    if s.contains(x) {
        s
    } else {
        s.push(x)
    }
}

/// The position of `x` in `s`; meant for sequences that hold `x` once.
pub open spec fn position<A>(s: Seq<A>, x: A) -> int {
    choose|i: int| 0 <= i < s.len() && s[i] == x
}

/// `s` holds strictly increasing numbers.
pub open spec fn increasing(s: Seq<int>) -> bool {
    forall|i: int, j: int| 0 <= i < j < s.len() ==> s[i] < s[j]
}

/// Of an increasing `s`: `s` with `x` at its place, unless `s` holds `x` already.
pub open spec fn insert_sorted(s: Seq<int>, x: int) -> Seq<int>
    decreases s.len(),
{
    if s.len() == 0 {
        seq![x]
    } else if s.last() == x {
        s
    } else if s.last() < x {
        s.push(x)
    } else {
        insert_sorted(s.drop_last(), x).push(s.last())
    }
}

/// `distinct` holds nothing twice, and holds exactly what its argument holds.
pub proof fn distinct_holds_each_once<A>(s: Seq<A>)
    ensures
        distinct(s).no_duplicates(),
        forall|x: A|
            #![trigger distinct(s).contains(x)]
            #![trigger s.contains(x)]
            distinct(s).contains(x) <==> s.contains(x),
        distinct(s).len() <= s.len(),
    decreases s.len(),
{
    if s.len() > 0 {
        let d = distinct(s.drop_last());
        distinct_holds_each_once(s.drop_last());
        let r = distinct(s);
        assert forall|x: A| r.contains(x) <==> s.contains(x) by {
            if s.contains(x) {
                let i = choose|i: int| 0 <= i < s.len() && s[i] == x;
                if i < s.len() - 1 {
                    assert(s.drop_last()[i] == x);
                    assert(s.drop_last().contains(x));
                    assert(d.contains(x));
                    let j = choose|j: int| 0 <= j < d.len() && d[j] == x;
                    assert(r[j] == x);
                } else if !d.contains(x) {
                    assert(r[d.len() as int] == x);
                }
            }
            if r.contains(x) {
                let j = choose|j: int| 0 <= j < r.len() && r[j] == x;
                if j < d.len() {
                    assert(d[j] == x);
                    assert(d.contains(x));
                    assert(s.drop_last().contains(x));
                    let i = choose|i: int| 0 <= i < s.drop_last().len() && s.drop_last()[i] == x;
                    assert(s[i] == x);
                } else {
                    assert(s[s.len() - 1] == x);
                }
            }
        }
    }
}

/// What is distinct in a prefix stays in place when more follows.
pub proof fn distinct_keeps_prefix<A>(s: Seq<A>, t: Seq<A>)
    ensures
        distinct(s).is_prefix_of(distinct(s + t)),
    decreases t.len(),
{
    if t.len() == 0 {
        assert(s + t =~= s);
    } else {
        distinct_keeps_prefix(s, t.drop_last());
        assert((s + t).drop_last() =~= s + t.drop_last());
    }
}

/// In a sequence without repeats, the position of an item is the one place that holds it.
pub proof fn position_is_unique<A>(s: Seq<A>, i: int)
    requires
        s.no_duplicates(),
        0 <= i < s.len(),
    ensures
        position(s, s[i]) == i,
{
    let j = position(s, s[i]);
    assert(0 <= i < s.len() && s[i] == s[i]);
    assert(0 <= j < s.len() && s[j] == s[i]);
}

/// Sorted insertion keeps the order and adds exactly the one number.
pub proof fn insert_sorted_keeps_order(s: Seq<int>, x: int)
    requires
        increasing(s),
    ensures
        increasing(insert_sorted(s, x)),
        forall|y: int| #[trigger]
            insert_sorted(s, x).contains(y) <==> s.contains(y) || y == x,
        insert_sorted(s, x).len() <= s.len() + 1,
        insert_sorted(s, x).len() > 0,
    decreases s.len(),
{
    let r = insert_sorted(s, x);
    if s.len() == 0 {
        assert(r[0] == x);
    } else if s.last() == x {
        assert(s[s.len() - 1] == x);
    } else if s.last() < x {
        assert(r[s.len() as int] == x);
        assert forall|y: int| r.contains(y) <==> s.contains(y) || y == x by {
            if s.contains(y) {
                let i = choose|i: int| 0 <= i < s.len() && s[i] == y;
                assert(r[i] == y);
            }
        }
    } else {
        let d = s.drop_last();
        let q = insert_sorted(d, x);
        insert_sorted_keeps_order(d, x);
        assert forall|y: int| q.contains(y) implies y < s.last() by {
            if d.contains(y) {
                let i = choose|i: int| 0 <= i < d.len() && d[i] == y;
                assert(s[i] == y);
            }
        }
        assert forall|i: int, j: int| 0 <= i < j < r.len() implies r[i] < r[j] by {
            if j == q.len() {
                assert(q.contains(q[i]));
            }
        }
        assert forall|y: int| r.contains(y) <==> s.contains(y) || y == x by {
            if s.contains(y) {
                let i = choose|i: int| 0 <= i < s.len() && s[i] == y;
                if i < d.len() {
                    assert(d[i] == y);
                    assert(q.contains(y));
                    let k = choose|k: int| 0 <= k < q.len() && q[k] == y;
                    assert(r[k] == y);
                } else {
                    assert(r[q.len() as int] == y);
                }
            }
            if y == x {
                assert(q.contains(x));
                let k = choose|k: int| 0 <= k < q.len() && q[k] == x;
                assert(r[k] == x);
            }
            if r.contains(y) {
                let k = choose|k: int| 0 <= k < r.len() && r[k] == y;
                if k < q.len() {
                    assert(q.contains(y));
                    if d.contains(y) {
                        let i = choose|i: int| 0 <= i < d.len() && d[i] == y;
                        assert(s[i] == y);
                    }
                } else {
                    assert(s[s.len() - 1] == y);
                }
            }
        }
    }
}

/// Items as mathematical values.
pub open spec fn viewed<T: View>(s: Seq<T>) -> Seq<T::V> {
    Seq::new(s.len(), |i: int| s[i]@)
}

/// An item as a mathematical value, if there is one.
pub open spec fn viewed_if<T: View>(o: Option<T>) -> Option<T::V> {
    match o {
        Some(x) => Some(x@),
        None => None,
    }
}

/// The values of items with one more behind them.
pub broadcast proof fn viewed_push<T: View>(s: Seq<T>, x: T)
    ensures
        #[trigger] viewed(s.push(x)) == viewed(s).push(x@),
{
    assert(viewed(s.push(x)) =~= viewed(s).push(x@));
}

/// The values of no items.
pub broadcast proof fn viewed_empty<T: View>(s: Seq<T>)
    requires
        s.len() == 0,
    ensures
        #[trigger] viewed(s) == Seq::<T::V>::empty(),
{
    assert(viewed(s) =~= Seq::<T::V>::empty());
}

/// What is known of values of items.
pub broadcast group viewing {
    viewed_push,
    viewed_empty,
}

} // verus!
