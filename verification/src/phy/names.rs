//! Lists of names, in order.
use vstd::prelude::*;

use crate::seqs::{viewed, viewing};
use crate::text::{chars_of, same};

verus! {

broadcast use viewing;

/// Whether `a` stands before `b` in the order of characters, from place `i` on.
pub open spec fn precedes_from(a: Seq<char>, b: Seq<char>, i: int) -> bool
    decreases b.len() - i,
{
    if i < 0 || i >= b.len() {
        false
    } else if i >= a.len() {
        true
    } else if a[i] != b[i] {
        a[i] < b[i]
    } else {
        precedes_from(a, b, i + 1)
    }
}

/// Whether `a` stands before `b`.
pub open spec fn precedes(a: Seq<char>, b: Seq<char>) -> bool {
    precedes_from(a, b, 0)
}

/// Tells whether `a` stands before `b`.
fn is_before(a: &str, b: &str) -> (r: bool)
    ensures
        r == precedes(a@, b@),
{
    let x: Vec<char> = chars_of(a);
    let y: Vec<char> = chars_of(b);
    let mut i: usize = 0;
    while i < y.len()
        invariant
            i <= y@.len(),
            x@ == a@,
            y@ == b@,
            precedes_from(a@, b@, i as int) == precedes(a@, b@),
        decreases y@.len() - i,
    {
        if i >= x.len() {
            return true;
        }
        if x[i] != y[i] {
            return x[i] < y[i];
        }
        i = i + 1;
    }
    false
}

/// Of names in order: the names with `x` in its place, unless it is there.
pub open spec fn with_name(s: Seq<Seq<char>>, x: Seq<char>) -> Seq<Seq<char>>
    decreases s.len(),
{
    if s.len() == 0 {
        seq![x]
    } else if s.last() == x {
        s
    } else if precedes(s.last(), x) {
        s.push(x)
    } else {
        with_name(s.drop_last(), x).push(s.last())
    }
}

/// The first `n` names, each once, in order.
pub open spec fn in_order(s: Seq<Seq<char>>, n: int) -> Seq<Seq<char>>
    decreases n,
{
    if n <= 0 {
        Seq::empty()
    } else {
        with_name(in_order(s, n - 1), s[n - 1])
    }
}

/// The first `n` names on one line.
pub open spec fn on_one_line(s: Seq<Seq<char>>, n: int) -> Seq<char>
    decreases n,
{
    if n <= 0 {
        Seq::empty()
    } else if n == 1 {
        s[0]
    } else {
        on_one_line(s, n - 1) + ", "@ + s[n - 1]
    }
}

/// Names on one line, each once, in order.
pub open spec fn name_list(s: Seq<Seq<char>>) -> Seq<char> {
    let list = in_order(s, s.len() as int);
    on_one_line(list, list.len() as int)
}

/// Where a name goes.
proof fn goes_at(s: Seq<Seq<char>>, x: Seq<char>, k: int)
    requires
        0 <= k <= s.len(),
        k > 0 ==> s[k - 1] != x && precedes(s[k - 1], x),
        forall|i: int| k <= i < s.len() ==> #[trigger] s[i] != x && !precedes(s[i], x),
    ensures
        with_name(s, x) == s.insert(k, x),
    decreases s.len(),
{
    if s.len() == 0 {
        assert(s.insert(k, x) =~= seq![x]);
    } else if k == s.len() {
        assert(s.insert(k, x) =~= s.push(x));
    } else {
        assert(s.last() == s[s.len() - 1]);
        goes_at(s.drop_last(), x, k);
        assert(s.insert(k, x) =~= s.drop_last().insert(k, x).push(s.last()));
    }
}

/// A name that is there is not added.
proof fn is_there(s: Seq<Seq<char>>, k: int)
    requires
        0 <= k < s.len(),
        forall|i: int| k < i < s.len() ==> #[trigger] s[i] != s[k] && !precedes(s[i], s[k]),
    ensures
        with_name(s, s[k]) == s,
    decreases s.len(),
{
    if k < s.len() - 1 {
        assert(s.last() == s[s.len() - 1]);
        assert(s.drop_last()[k] == s[k]);
        is_there(s.drop_last(), k);
        assert(s.drop_last().push(s.last()) =~= s);
    }
}

/// Adds a name in its place.
pub fn add_name(list: &mut Vec<String>, x: &str)
    ensures
        viewed(final(list)@) == with_name(viewed(old(list)@), x@),
{
    let ghost s = viewed(list@);
    let mut k: usize = list.len();
    while k > 0
        invariant
            k <= list@.len(),
            s == viewed(list@),
            *list == *old(list),
            forall|i: int| k <= i < s.len() ==> #[trigger] s[i] != x@ && !precedes(s[i], x@),
        ensures
            k <= list@.len(),
            s == viewed(list@),
            k > 0 ==> s[k - 1] != x@ && precedes(s[k - 1], x@),
            forall|i: int| k <= i < s.len() ==> #[trigger] s[i] != x@ && !precedes(s[i], x@),
        decreases k,
    {
        assert(s[k - 1] == list@[k - 1]@);
        if same(list[k - 1].as_str(), x) {
            proof {
                is_there(s, k - 1);
            }
            return;
        }
        if is_before(list[k - 1].as_str(), x) {
            break;
        }
        k = k - 1;
    }
    list.insert(k, x.to_owned());
    proof {
        goes_at(s, x@, k as int);
        assert(viewed(list@) =~= s.insert(k as int, x@));
    }
}

/// Names on one line, each once, in order.
pub fn list_names(names: &Vec<String>) -> (r: String)
    ensures
        r@ == name_list(viewed(names@)),
{
    let ghost v = viewed(names@);
    let mut list: Vec<String> = Vec::new();
    let mut k: usize = 0;
    while k < names.len()
        invariant
            k <= names@.len(),
            v == viewed(names@),
            viewed(list@) == in_order(v, k as int),
        decreases names@.len() - k,
    {
        assert(v[k as int] == names@[k as int]@);
        add_name(&mut list, names[k].as_str());
        k = k + 1;
    }
    let ghost w = viewed(list@);
    let mut out: String = String::new();
    let mut k: usize = 0;
    assert(out@ =~= Seq::empty());
    while k < list.len()
        invariant
            k <= list@.len(),
            w == viewed(list@),
            out@ == on_one_line(w, k as int),
        decreases list@.len() - k,
    {
        assert(w[k as int] == list@[k as int]@);
        if k > 0 {
            out.push_str(", ");
        }
        let ghost before = out@;
        out.push_str(list[k].as_str());
        proof {
            if k == 0 {
                assert(out@ =~= w[0]);
            }
        }
        k = k + 1;
    }
    out
}

} // verus!
