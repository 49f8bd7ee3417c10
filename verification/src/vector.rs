//! Integer vectors and their dot product, the kernel of the matrix product.
use vstd::prelude::*;

verus! {

/// A vector of machine integers.
#[derive(PartialEq, Eq, Debug)]
pub struct Vector {
    data: Vec<i32>,
}

impl View for Vector {
    type V = Seq<i32>;

    closed spec fn view(&self) -> Seq<i32> {
        self.data@
    }
}

impl Vector {
    /// Wraps the given elements.
    pub fn new(data: Vec<i32>) -> (v: Vector)
        ensures
            v@ == data@,
    {
        Vector { data }
    }

    /// The number of elements.
    pub fn len(&self) -> (n: usize)
        ensures
            n == self@.len(),
    {
        self.data.len()
    }

    /// The element at position `i`.
    pub fn get(&self, i: usize) -> (x: i32)
        requires
            i < self@.len(),
        ensures
            x == self@[i as int],
    {
        self.data[i]
    }
}

/// The number of pairs the dot product runs over: the shorter length.
pub open spec fn min_len(a: Seq<i32>, b: Seq<i32>) -> int {
    if a.len() <= b.len() {
        a.len() as int
    } else {
        b.len() as int
    }
}

/// The sum of the first `n` pairwise products.
pub open spec fn dot_prefix(a: Seq<i32>, b: Seq<i32>, n: int) -> int
    decreases n,
{
    if n <= 0 {
        0
    } else {
        dot_prefix(a, b, n - 1) + a[n - 1] * b[n - 1]
    }
}

/// The dot product of two vectors, over the pairs both have.
pub open spec fn dot(a: Seq<i32>, b: Seq<i32>) -> int {
    dot_prefix(a, b, min_len(a, b))
}

/// Every pairwise product and every partial sum of the dot product stays
/// within `i32`, so the machine computation neither overflows nor wraps.
pub open spec fn dot_fits(a: Seq<i32>, b: Seq<i32>) -> bool {
    &&& forall|k: int| 0 <= k < min_len(a, b) ==> i32::MIN <= #[trigger] (a[k] * b[k]) <= i32::MAX
    &&& forall|n: int|
        0 <= n <= min_len(a, b) ==> i32::MIN <= #[trigger] dot_prefix(a, b, n) <= i32::MAX
}

/// The dot product of two integer vectors. Pairs are taken from the front;
/// if one vector is longer, its tail is ignored.
pub fn dot_vector(v1: &Vector, v2: &Vector) -> (r: i32)
    requires
        dot_fits(v1@, v2@),
    ensures
        r == dot(v1@, v2@),
{
    let n = if v1.len() <= v2.len() {
        v1.len()
    } else {
        v2.len()
    };
    let mut acc: i32 = 0;
    let mut i: usize = 0;
    while i < n
        invariant
            dot_fits(v1@, v2@),
            n == min_len(v1@, v2@),
            0 <= i <= n,
            acc == dot_prefix(v1@, v2@, i as int),
        decreases n - i,
    {
        proof {
            assert(i32::MIN <= v1@[i as int] * v2@[i as int] <= i32::MAX);
            assert(i32::MIN <= dot_prefix(v1@, v2@, i + 1) <= i32::MAX);
        }
        let p = v1.get(i) * v2.get(i);
        acc = acc + p;
        i += 1;
    }
    acc
}

} // verus!
