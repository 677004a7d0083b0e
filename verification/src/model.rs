//! The mathematical model of a strided view: which elements of a backing
//! buffer are visible at a given stride, in which order, and what is left of
//! the buffer when a visible element is taken away from either end.

use vstd::prelude::*;

verus! {

/// Number of elements visible in a buffer of `n` elements at `stride`: one for
/// every offset below `n` that is a multiple of `stride`, which is the quotient
/// `n / stride` rounded up. A stride of zero shows nothing.
pub open spec fn strided_len(n: nat, stride: nat) -> nat {
    if stride == 0 {
        0
    } else {
        ((n + stride - 1) / (stride as int)) as nat
    }
}

/// The sequence seen through a view of `buffer` at `stride`: element `i` of the
/// view is element `i * stride` of the buffer.
pub open spec fn strided<T>(buffer: Seq<T>, stride: nat) -> Seq<T> {
    Seq::new(strided_len(buffer.len(), stride), |i: int| buffer[i * stride])
}

/// Number of buffer elements that belong to the first visible element: the
/// element itself and the gap behind it, as far as the buffer reaches.
pub open spec fn first_group_len(n: nat, stride: nat) -> nat {
    if stride < n {
        stride
    } else {
        n
    }
}

/// The first visible element of `buffer` and the gap behind it.
pub open spec fn first_group<T>(buffer: Seq<T>, stride: nat) -> Seq<T> {
    buffer.subrange(0, first_group_len(buffer.len(), stride) as int)
}

/// What is left of `buffer` once its first visible element has been taken from
/// the front: everything behind that element's group.
pub open spec fn after_first<T>(buffer: Seq<T>, stride: nat) -> Seq<T> {
    buffer.subrange(first_group_len(buffer.len(), stride) as int, buffer.len() as int)
}

/// Offset of the last visible element in a buffer of `n` elements.
pub open spec fn last_offset(n: nat, stride: nat) -> int {
    (strided_len(n, stride) - 1) * stride
}

/// What is left of `buffer` once its last visible element has been taken from
/// the back: everything before that element.
pub open spec fn before_last<T>(buffer: Seq<T>, stride: nat) -> Seq<T> {
    buffer.subrange(0, last_offset(buffer.len(), stride))
}

/// The last visible element of `buffer` and what lies behind it.
pub open spec fn last_group<T>(buffer: Seq<T>, stride: nat) -> Seq<T> {
    buffer.subrange(last_offset(buffer.len(), stride), buffer.len() as int)
}

/// Computes `strided_len` without leaving `usize`.
pub(crate) fn visible_len(n: usize, stride: usize) -> (k: usize)
    ensures
        k == strided_len(n as nat, stride as nat),
        k <= n,
{
    if n == 0 || stride == 0 {
        proof {
            if stride > 0 {
                lemma_strided_len_bounds(0, stride as nat);
            }
        }
        0
    } else {
        let q = (n - 1) / stride;
        proof {
            let s = stride as int;
            vstd::arithmetic::div_mod::lemma_fundamental_div_mod(n - 1, s);
            vstd::arithmetic::div_mod::lemma_mod_bound(n - 1, s);
            assert(s * q == q * s) by (nonlinear_arith);
            assert((q + 1) * s == q * s + s) by (nonlinear_arith);
            assert(q * s >= q) by (nonlinear_arith)
                requires
                    q >= 0,
                    s >= 1,
            ;
            lemma_strided_len_unique(n as nat, stride as nat, q + 1);
        }
        q + 1
    }
}

/// The visible length brackets the buffer's length between two consecutive
/// multiples of the stride, and is zero exactly for the empty buffer.
pub proof fn lemma_strided_len_bounds(n: nat, stride: nat)
    requires
        stride > 0,
    ensures
        n == 0 <==> strided_len(n, stride) == 0,
        (strided_len(n, stride) - 1) * stride < n,
        n <= strided_len(n, stride) * stride,
{
    let s = stride as int;
    let x = n + s - 1;
    let k = x / s;
    vstd::arithmetic::div_mod::lemma_fundamental_div_mod(x, s);
    vstd::arithmetic::div_mod::lemma_mod_bound(x, s);
    assert(s * k - s == (k - 1) * s) by (nonlinear_arith);
    assert(s * k == k * s) by (nonlinear_arith);
    if k < 0 {
        assert(k * s <= -s) by (nonlinear_arith)
            requires
                k <= -1,
                s > 0,
        ;
    }
    if n == 0 && k != 0 {
        assert(k * s >= s) by (nonlinear_arith)
            requires
                k >= 1,
                s > 0,
        ;
    }
}

/// Any `k` that brackets `n` between consecutive multiples of `stride` is the
/// visible length.
pub proof fn lemma_strided_len_unique(n: nat, stride: nat, k: int)
    requires
        stride > 0,
        (k - 1) * stride < n <= k * stride,
    ensures
        k == strided_len(n, stride),
{
    lemma_strided_len_bounds(n, stride);
    let s = stride as int;
    let l = strided_len(n, stride) as int;
    if k < l {
        assert(k * s <= (l - 1) * s) by (nonlinear_arith)
            requires
                k <= l - 1,
                s > 0,
        ;
    } else if k > l {
        assert(l * s <= (k - 1) * s) by (nonlinear_arith)
            requires
                l <= k - 1,
                s > 0,
        ;
    }
}

/// Where the buffer's length is a whole multiple of the stride, the visible
/// length is the exact quotient.
pub proof fn lemma_strided_len_exact(n: nat, stride: nat)
    requires
        stride > 0,
        n % stride == 0,
    ensures
        strided_len(n, stride) == n / stride,
{
    let s = stride as int;
    let q = (n as int) / s;
    vstd::arithmetic::div_mod::lemma_fundamental_div_mod(n as int, s);
    assert(s * q == q * s) by (nonlinear_arith);
    assert((q - 1) * s == q * s - s) by (nonlinear_arith);
    if n == 0 {
        lemma_strided_len_bounds(n, stride);
    } else {
        lemma_strided_len_unique(n, stride, q);
    }
}

/// Every visible element lies inside the buffer: for `i` below the visible
/// length, offset `i * stride` is below `n`. This holds also where the last
/// group is cut short by the end of the buffer.
pub proof fn lemma_offset_in_bounds(n: nat, stride: nat, i: int)
    requires
        0 <= i < strided_len(n, stride),
    ensures
        0 <= i * stride < n,
{
    lemma_strided_len_bounds(n, stride);
    let s = stride as int;
    let k = strided_len(n, stride) as int;
    assert(i * s <= (k - 1) * s) by (nonlinear_arith)
        requires
            i <= k - 1,
            s > 0,
    ;
    assert(0 <= i * s) by (nonlinear_arith)
        requires
            0 <= i,
            s > 0,
    ;
}

/// The empty buffer shows nothing, at any stride.
pub proof fn lemma_strided_empty<T>(buffer: Seq<T>, stride: nat)
    requires
        buffer.len() == 0,
    ensures
        strided(buffer, stride) == Seq::<T>::empty(),
{
    if stride > 0 {
        lemma_strided_len_bounds(0, stride);
    }
    assert(strided(buffer, stride) =~= Seq::<T>::empty());
}

/// At stride one the view is the buffer itself.
pub proof fn lemma_strided_unit<T>(buffer: Seq<T>)
    ensures
        strided(buffer, 1) == buffer,
{
    assert(strided(buffer, 1) =~= buffer);
}

/// Writing to the buffer at the offset of visible element `i` changes that
/// element of the view and no other.
pub proof fn lemma_strided_update<T>(buffer: Seq<T>, stride: nat, i: int, value: T)
    requires
        0 <= i < strided_len(buffer.len(), stride),
    ensures
        strided(buffer.update(i * stride, value), stride) == strided(buffer, stride).update(
            i,
            value,
        ),
{
    let s = stride as int;
    let written = buffer.update(i * s, value);
    lemma_offset_in_bounds(buffer.len(), stride, i);
    assert forall|j: int| 0 <= j < strided_len(buffer.len(), stride) implies #[trigger] strided(
        written,
        stride,
    )[j] == strided(buffer, stride).update(i, value)[j] by {
        lemma_offset_in_bounds(buffer.len(), stride, j);
        if j != i {
            assert(j * s != i * s) by (nonlinear_arith)
                requires
                    j != i,
                    s > 0,
            ;
        }
    }
    assert(strided(written, stride) =~= strided(buffer, stride).update(i, value));
}

/// Taking from the front removes exactly the first visible element, which is
/// the buffer's first element. Its group and what lies behind the group make
/// up the buffer.
pub proof fn lemma_strided_after_first<T>(buffer: Seq<T>, stride: nat)
    requires
        stride > 0,
        buffer.len() > 0,
    ensures
        strided(buffer, stride).len() > 0,
        strided(buffer, stride).first() == buffer[0],
        strided(after_first(buffer, stride), stride) == strided(buffer, stride).drop_first(),
        first_group(buffer, stride) + after_first(buffer, stride) == buffer,
{
    assert(first_group(buffer, stride) + after_first(buffer, stride) =~= buffer);
    let n = buffer.len();
    let s = stride as int;
    let k = strided_len(n, stride) as int;
    let rest = after_first(buffer, stride);
    lemma_strided_len_bounds(n, stride);
    if stride < n {
        assert((k - 2) * s == (k - 1) * s - s) by (nonlinear_arith);
        assert((k - 1) * s == k * s - s) by (nonlinear_arith);
        lemma_strided_len_unique((n - stride) as nat, stride, k - 1);
        assert forall|i: int| 0 <= i < k - 1 implies #[trigger] strided(rest, stride)[i] == strided(
            buffer,
            stride,
        ).drop_first()[i] by {
            lemma_offset_in_bounds(rest.len(), stride, i);
            assert((i + 1) * s == i * s + s) by (nonlinear_arith);
        }
    } else {
        assert(0 * s == 0);
        assert(1 * s == s);
        lemma_strided_len_unique(n, stride, 1);
        lemma_strided_len_bounds(0, stride);
    }
    assert(strided(rest, stride) =~= strided(buffer, stride).drop_first());
}

/// Taking from the back removes exactly the last visible element, which lies
/// at `last_offset`. What lies before it and its group make up the buffer.
pub proof fn lemma_strided_before_last<T>(buffer: Seq<T>, stride: nat)
    requires
        stride > 0,
        buffer.len() > 0,
    ensures
        strided(buffer, stride).len() > 0,
        0 <= last_offset(buffer.len(), stride) < buffer.len(),
        strided(buffer, stride).last() == buffer[last_offset(buffer.len(), stride)],
        strided(before_last(buffer, stride), stride) == strided(buffer, stride).drop_last(),
        before_last(buffer, stride) + last_group(buffer, stride) == buffer,
{
    let n = buffer.len();
    let s = stride as int;
    let k = strided_len(n, stride) as int;
    let cut = last_offset(n, stride);
    let rest = before_last(buffer, stride);
    lemma_strided_len_bounds(n, stride);
    lemma_offset_in_bounds(n, stride, k - 1);
    if k == 1 {
        assert(0 * s == 0);
        lemma_strided_len_bounds(0, stride);
    } else {
        assert((k - 2) * s == (k - 1) * s - s) by (nonlinear_arith);
        lemma_strided_len_unique(cut as nat, stride, k - 1);
    }
    assert forall|i: int| 0 <= i < k - 1 implies #[trigger] strided(rest, stride)[i] == strided(
        buffer,
        stride,
    ).drop_last()[i] by {
        lemma_offset_in_bounds(rest.len(), stride, i);
    }
    assert(strided(rest, stride) =~= strided(buffer, stride).drop_last());
    assert(before_last(buffer, stride) + last_group(buffer, stride) =~= buffer);
}

} // verus!
