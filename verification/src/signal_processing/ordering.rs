//! Sorting by the total order on bit patterns.
use crate::double::Double;
use crate::single::Single;
use vstd::prelude::*;

verus! {

/// Values with a total order.
pub trait Ranked: Copy {
    /// The position of a value in the order.
    spec fn order(self) -> int;

    /// Whether a value comes ahead of another one.
    fn precedes(self, other: Self) -> (b: bool)
        ensures
            b == (self.order() < other.order()),
    ;
}

impl Ranked for Single {
    open spec fn order(self) -> int {
        self.total_rank()
    }

    fn precedes(self, other: Single) -> (b: bool) {
        self.total_less_than(other)
    }
}

impl Ranked for Double {
    open spec fn order(self) -> int {
        self.total_rank()
    }

    fn precedes(self, other: Double) -> (b: bool) {
        self.total_less_than(other)
    }
}

/// How many leading values of a sorted sequence do not come behind `v`.
pub open spec fn place<T: Ranked>(s: Seq<T>, v: T) -> nat
    decreases s.len(),
{
    if s.len() > 0 && v.order() < s.last().order() {
        place(s.drop_last(), v)
    } else {
        s.len()
    }
}

/// The sequence in ascending order, equal values in the order in which they
/// came.
pub open spec fn sorted<T: Ranked>(s: Seq<T>) -> Seq<T>
    decreases s.len(),
{
    if s.len() == 0 {
        s
    } else {
        let front = sorted(s.drop_last());
        front.insert(place(front, s.last()) as int, s.last())
    }
}

pub open spec fn ascending<T: Ranked>(s: Seq<T>) -> bool {
    forall|i: int, j: int|
        0 <= i < j < s.len() ==> (#[trigger] s[i]).order() <= (#[trigger] s[j]).order()
}

proof fn place_splits<T: Ranked>(s: Seq<T>, v: T)
    requires
        ascending(s),
    ensures
        place(s, v) <= s.len(),
        forall|i: int|
            0 <= i < place(s, v) ==> (#[trigger] s[i]).order() <= v.order(),
        forall|i: int|
            place(s, v) <= i < s.len() ==> v.order() < (#[trigger] s[i]).order(),
    decreases s.len(),
{
    if s.len() > 0 {
        if v.order() < s.last().order() {
            place_splits(s.drop_last(), v);
            assert forall|i: int| place(s, v) <= i < s.len() implies v.order()
                < (#[trigger] s[i]).order() by {
                if i < s.len() - 1 {
                    assert(s.drop_last()[i] == s[i]);
                }
            }
            assert forall|i: int| 0 <= i < place(s, v) implies (#[trigger] s[i]).order()
                <= v.order() by {
                assert(s.drop_last()[i] == s[i]);
            }
        }
    }
}

/// Sorting puts the values in ascending order and keeps every one of them.
pub proof fn sorted_is_ascending<T: Ranked>(s: Seq<T>)
    ensures
        ascending(sorted(s)),
        sorted(s).len() == s.len(),
        sorted(s).to_multiset() == s.to_multiset(),
    decreases s.len(),
{
    broadcast use vstd::seq_lib::group_to_multiset_ensures;

    if s.len() > 0 {
        let front = sorted(s.drop_last());
        sorted_is_ascending(s.drop_last());
        place_splits(front, s.last());
        let k = place(front, s.last()) as int;
        let r = front.insert(k, s.last());
        assert forall|i: int, j: int| 0 <= i < j < r.len() implies (#[trigger] r[i]).order()
            <= (#[trigger] r[j]).order() by {
            let a = if i < k {
                i
            } else {
                i - 1
            };
            let b = if j < k {
                j
            } else {
                j - 1
            };
            if i != k {
                assert(r[i] == front[a]);
            }
            if j != k {
                assert(r[j] == front[b]);
            }
        }
        assert(s =~= s.drop_last().push(s.last()));
        assert(r.to_multiset() =~= front.to_multiset().insert(s.last()));
    } else {
        assert(s.to_multiset() =~= sorted(s).to_multiset());
    }
}

/// The values in ascending order.
pub fn sort<T: Ranked>(values: &[T]) -> (r: Vec<T>)
    ensures
        r@ == sorted(values@),
        r.len() == values.len(),
{
    let mut r: Vec<T> = Vec::new();
    let mut i: usize = 0;
    while i < values.len()
        invariant
            i <= values.len(),
            r@ == sorted(values@.take(i as int)),
            r.len() == i,
        decreases values.len() - i,
    {
        let v: T = values[i];
        let mut k: usize = r.len();
        proof {
            assert(r@.take(k as int) =~= r@);
        }
        while k > 0 && v.precedes(r[k - 1])
            invariant
                k <= r.len(),
                place(r@.take(k as int), v) == place(r@, v),
            decreases k,
        {
            assert(r@.take(k as int).drop_last() =~= r@.take(k - 1));
            k = k - 1;
        }
        assert(place(r@, v) == k);
        r.insert(k, v);
        assert(values@.take(i + 1).drop_last() =~= values@.take(i as int));
        i = i + 1;
    }
    assert(values@.take(i as int) =~= values@);
    r
}

} // verus!
