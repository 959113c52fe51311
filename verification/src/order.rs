//! Orders: of numbers, of characters, and of sequences by the first element
//! in which they differ.

use vstd::prelude::*;
use std::cmp::Ordering;

verus! {

/// The order seen from the other side.
pub open spec fn opposite(o: Ordering) -> Ordering {
    match o {
        Ordering::Less => Ordering::Greater,
        Ordering::Equal => Ordering::Equal,
        Ordering::Greater => Ordering::Less,
    }
}

/// `first`, or `second` where `first` does not decide.
pub open spec fn refined(first: Ordering, second: Ordering) -> Ordering {
    if first == Ordering::Equal {
        second
    } else {
        first
    }
}

/// The order of two numbers.
pub open spec fn number_order(a: nat, b: nat) -> Ordering {
    if a < b {
        Ordering::Less
    } else if a > b {
        Ordering::Greater
    } else {
        Ordering::Equal
    }
}

/// The order of two characters, by their code points.
pub open spec fn char_order(x: char, y: char) -> Ordering {
    if x < y {
        Ordering::Less
    } else if x > y {
        Ordering::Greater
    } else {
        Ordering::Equal
    }
}

/// Whether `m` is the length of the longest prefix that `a` and `b` share.
pub open spec fn is_mismatch<T>(a: Seq<T>, b: Seq<T>, m: int) -> bool {
    &&& 0 <= m <= a.len()
    &&& m <= b.len()
    &&& forall|j: int|
        #![trigger a[j]]
        #![trigger b[j]]
        0 <= j < m ==> a[j] == b[j]
    &&& m < a.len() && m < b.len() ==> a[m] != b[m]
}

/// The length of the longest prefix that `a` and `b` share: the first
/// position at which they differ, or at which one of them ends.
pub open spec fn mismatch<T>(a: Seq<T>, b: Seq<T>) -> int
    decreases a.len(),
{
    if a.len() == 0 || b.len() == 0 || a[0] != b[0] {
        0
    } else {
        1 + mismatch(a.drop_first(), b.drop_first())
    }
}

/// `mismatch` is the length of the longest shared prefix.
pub proof fn lemma_mismatch<T>(a: Seq<T>, b: Seq<T>)
    ensures
        is_mismatch(a, b, mismatch(a, b)),
    decreases a.len(),
{
    if !(a.len() == 0 || b.len() == 0 || a[0] != b[0]) {
        let ta = a.drop_first();
        let tb = b.drop_first();
        lemma_mismatch(ta, tb);
        let m = mismatch(a, b);
        assert forall|j: int| 0 <= j < m implies a[j] == b[j] by {
            if j > 0 {
                assert(a[j] == ta[j - 1]);
                assert(b[j] == tb[j - 1]);
            }
        }
        if m < a.len() && m < b.len() {
            assert(a[m] == ta[m - 1]);
            assert(b[m] == tb[m - 1]);
        }
    }
}

/// There is only one such length.
pub proof fn lemma_mismatch_unique<T>(a: Seq<T>, b: Seq<T>, m: int)
    requires
        is_mismatch(a, b, m),
    ensures
        mismatch(a, b) == m,
{
    lemma_mismatch(a, b);
    let k = mismatch(a, b);
    if k < m {
        assert(a[k] == b[k]);
    } else if m < k {
        assert(a[m] == b[m]);
    }
}

/// The order of two sequences as a dictionary has them: that of the first
/// elements in which they differ, a sequence coming before each of its
/// extensions.
pub open spec fn lexicographic<T>(a: Seq<T>, b: Seq<T>, ord: spec_fn(T, T) -> Ordering) -> Ordering {
    let m = mismatch(a, b);
    if m == a.len() && m == b.len() {
        Ordering::Equal
    } else if m == a.len() {
        Ordering::Less
    } else if m == b.len() {
        Ordering::Greater
    } else {
        ord(a[m], b[m])
    }
}

/// Whether `ord` finds every element equal to itself.
pub open spec fn is_reflexive<T>(ord: spec_fn(T, T) -> Ordering) -> bool {
    forall|x: T| #[trigger] ord(x, x) == Ordering::Equal
}

/// Whether `ord` finds only identical elements equal.
pub open spec fn is_exact<T>(ord: spec_fn(T, T) -> Ordering) -> bool {
    forall|x: T, y: T| #[trigger] ord(x, y) == Ordering::Equal ==> x == y
}

/// Whether `ord`, asked the other way round, answers the opposite.
pub open spec fn is_dual<T>(ord: spec_fn(T, T) -> Ordering) -> bool {
    forall|x: T, y: T| #[trigger] ord(y, x) == opposite(ord(x, y))
}

/// Whether what comes before something that comes before a third comes
/// before the third.
pub open spec fn is_transitive<T>(ord: spec_fn(T, T) -> Ordering) -> bool {
    forall|x: T, y: T, z: T|
        #[trigger] ord(x, y) == Ordering::Less && #[trigger] ord(y, z) == Ordering::Less ==> ord(
            x,
            z,
        ) == Ordering::Less
}

/// Two sequences differ first at the same place, whichever is named first.
pub proof fn lemma_mismatch_symmetric<T>(a: Seq<T>, b: Seq<T>)
    ensures
        mismatch(b, a) == mismatch(a, b),
{
    lemma_mismatch(a, b);
    lemma_mismatch_unique(b, a, mismatch(a, b));
}

/// A sequence is equal to itself.
pub proof fn lemma_lexicographic_reflexive<T>(a: Seq<T>, ord: spec_fn(T, T) -> Ordering)
    ensures
        lexicographic(a, a, ord) == Ordering::Equal,
{
    lemma_mismatch(a, a);
}

/// Where only identical elements are equal, only identical sequences are.
pub proof fn lemma_lexicographic_exact<T>(a: Seq<T>, b: Seq<T>, ord: spec_fn(T, T) -> Ordering)
    requires
        is_exact(ord),
        lexicographic(a, b, ord) == Ordering::Equal,
    ensures
        a == b,
{
    lemma_mismatch(a, b);
    let m = mismatch(a, b);
    if m == a.len() && m == b.len() {
        assert(a =~= b);
    } else {
        assert(ord(a[m], b[m]) == Ordering::Equal);
    }
}

/// Where the order of the elements is dual, that of the sequences is.
pub proof fn lemma_lexicographic_dual<T>(a: Seq<T>, b: Seq<T>, ord: spec_fn(T, T) -> Ordering)
    requires
        is_dual(ord),
    ensures
        lexicographic(b, a, ord) == opposite(lexicographic(a, b, ord)),
{
    lemma_mismatch_symmetric(a, b);
    let m = mismatch(a, b);
    if m < a.len() && m < b.len() {
        assert(ord(b[m], a[m]) == opposite(ord(a[m], b[m])));
    }
}

/// Where the order of the elements is reflexive and transitive, that of the
/// sequences is transitive.
pub proof fn lemma_lexicographic_transitive<T>(
    a: Seq<T>,
    b: Seq<T>,
    c: Seq<T>,
    ord: spec_fn(T, T) -> Ordering,
)
    requires
        is_reflexive(ord),
        is_transitive(ord),
        lexicographic(a, b, ord) == Ordering::Less,
        lexicographic(b, c, ord) == Ordering::Less,
    ensures
        lexicographic(a, c, ord) == Ordering::Less,
{
    lemma_mismatch(a, b);
    lemma_mismatch(b, c);
    let m1 = mismatch(a, b);
    let m2 = mismatch(b, c);
    if m1 < m2 {
        assert forall|j: int| 0 <= j < m1 implies a[j] == c[j] by {
            assert(a[j] == b[j]);
            assert(b[j] == c[j]);
        }
        if m1 < a.len() {
            assert(b[m1] == c[m1]);
        }
        lemma_mismatch_unique(a, c, m1);
    } else if m2 < m1 {
        assert forall|j: int| 0 <= j < m2 implies a[j] == c[j] by {
            assert(a[j] == b[j]);
            assert(b[j] == c[j]);
        }
        assert(a[m2] == b[m2]);
        lemma_mismatch_unique(a, c, m2);
    } else {
        assert forall|j: int| 0 <= j < m1 implies a[j] == c[j] by {
            assert(a[j] == b[j]);
            assert(b[j] == c[j]);
        }
        if m1 < a.len() {
            assert(ord(a[m1], b[m1]) == Ordering::Less);
            assert(ord(b[m1], c[m1]) == Ordering::Less);
            assert(ord(a[m1], c[m1]) == Ordering::Less);
            assert(ord(a[m1], a[m1]) == Ordering::Equal);
        }
        lemma_mismatch_unique(a, c, m1);
    }
}

/// Orders two numbers.
pub(crate) fn order_numbers(a: u64, b: u64) -> (r: Ordering)
    ensures
        a < b ==> r == Ordering::Less,
        a > b ==> r == Ordering::Greater,
        a == b ==> r == Ordering::Equal,
{
    if a < b {
        Ordering::Less
    } else if a > b {
        Ordering::Greater
    } else {
        Ordering::Equal
    }
}

} // verus!
