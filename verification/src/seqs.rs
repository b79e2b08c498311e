//! Small facts and helpers about sequences and vectors that the rest of the
//! library leans on.

use vstd::prelude::*;

verus! {

/// An index that holds `x` with no earlier one that does is the first index of `x`.
pub proof fn lemma_first_is<T>(s: Seq<T>, x: T, i: int)
    requires
        0 <= i < s.len(),
        s[i] == x,
        forall|j: int| 0 <= j < i ==> s[j] != x,
    ensures
        s.index_of_first(x) == Some(i),
{
    s.index_of_first_ensures(x);
    assert(s.contains(x));
}

/// A sequence that holds `x` nowhere has no first index of `x`.
pub proof fn lemma_first_none<T>(s: Seq<T>, x: T)
    requires
        forall|j: int| 0 <= j < s.len() ==> s[j] != x,
    ensures
        s.index_of_first(x).is_none(),
        !s.contains(x),
{
    s.index_of_first_ensures(x);
}

/// The elements of `v` in opposite order.
pub fn reversed<T: Copy>(v: &Vec<T>) -> (r: Vec<T>)
    ensures
        r@ == v@.reverse(),
{
    let n = v.len();
    let mut r: Vec<T> = Vec::new();
    let mut i: usize = 0;
    while i < n
        invariant
            n == v.len(),
            i <= n,
            r@.len() == i,
            forall|j: int| 0 <= j < i ==> r@[j] == v@[n - 1 - j],
        decreases n - i,
    {
        r.push(v[n - 1 - i]);
        i += 1;
    }
    assert(r@ =~= v@.reverse());
    r
}

/// The elements of `v` from index `from` on.
pub fn suffix<T: Copy>(v: &Vec<T>, from: usize) -> (r: Vec<T>)
    requires
        from <= v.len(),
    ensures
        r@ == v@.subrange(from as int, v.len() as int),
{
    let n = v.len();
    let mut r: Vec<T> = Vec::new();
    let mut i: usize = from;
    while i < n
        invariant
            n == v.len(),
            from <= i <= n,
            r@ == v@.subrange(from as int, i as int),
        decreases n - i,
    {
        r.push(v[i]);
        assert(r@ =~= v@.subrange(from as int, i + 1));
        i += 1;
    }
    assert(r@ =~= v@.subrange(from as int, n as int));
    r
}

/// The elements of `v` from index `at` on, followed by those before it.
pub fn rotated<T: Copy>(v: &Vec<T>, at: usize) -> (r: Vec<T>)
    requires
        at <= v.len(),
    ensures
        r@ == v@.subrange(at as int, v.len() as int) + v@.subrange(0, at as int),
{
    let n = v.len();
    let mut r: Vec<T> = suffix(v, at);
    let ghost head = r@;
    let mut i: usize = 0;
    while i < at
        invariant
            n == v.len(),
            i <= at <= n,
            r@ == head + v@.subrange(0, i as int),
        decreases at - i,
    {
        r.push(v[i]);
        assert(r@ =~= head + v@.subrange(0, i + 1));
        i += 1;
    }
    r
}

} // verus!
