//! How many bytes a tensor of a given kind and shape occupies.

use vstd::prelude::*;
use crate::dtype::Dtype;

verus! {

/// Number of elements of a tensor: the product of its dimensions, 1 for a
/// scalar.
pub open spec fn element_count(shape: Seq<usize>) -> nat
    decreases shape.len(),
{
    if shape.len() == 0 {
        1
    } else {
        element_count(shape.drop_last()) * (shape.last() as nat)
    }
}

/// Number of bytes of a tensor's payload, where its bits fill whole bytes.
pub open spec fn byte_len(dtype: Dtype, shape: Seq<usize>) -> Option<nat> {
    let bits = element_count(shape) * dtype.spec_bit_width();
    if bits % 8 == 0 {
        Some(bits / 8)
    } else {
        None
    }
}

/// A shape with a zero dimension has no elements.
pub proof fn lemma_zero_dimension(shape: Seq<usize>, i: int)
    requires
        0 <= i < shape.len(),
        shape[i] == 0,
    ensures
        element_count(shape) == 0,
    decreases shape.len(),
{
    if i == shape.len() - 1 {
        assert(element_count(shape) == element_count(shape.drop_last()) * 0);
    } else {
        lemma_zero_dimension(shape.drop_last(), i);
        assert(element_count(shape) == 0 * (shape.last() as nat));
    }
}

/// Without a zero dimension, the element count never shrinks as dimensions
/// are added.
pub proof fn lemma_count_grows(shape: Seq<usize>, k: int)
    requires
        0 <= k <= shape.len(),
        forall|i: int| 0 <= i < shape.len() ==> shape[i] >= 1,
    ensures
        element_count(shape.take(k)) <= element_count(shape),
        element_count(shape) >= 1,
    decreases shape.len() - k,
{
    if k == shape.len() {
        assert(shape.take(k) =~= shape);
        lemma_count_positive(shape);
    } else {
        lemma_count_grows(shape, k + 1);
        let next = shape.take(k + 1);
        assert(next.drop_last() =~= shape.take(k));
        assert(next.last() == shape[k]);
        let a = element_count(shape.take(k));
        let d = shape[k] as nat;
        assert(a <= a * d) by (nonlinear_arith)
            requires
                d >= 1,
        ;
    }
}

/// Without a zero dimension there is at least one element.
pub proof fn lemma_count_positive(shape: Seq<usize>)
    requires
        forall|i: int| 0 <= i < shape.len() ==> shape[i] >= 1,
    ensures
        element_count(shape) >= 1,
    decreases shape.len(),
{
    if shape.len() > 0 {
        lemma_count_positive(shape.drop_last());
        let a = element_count(shape.drop_last());
        let d = shape.last() as nat;
        assert(a * d >= 1) by (nonlinear_arith)
            requires
                a >= 1,
                d >= 1,
        ;
    }
}

/// Whether a shape has a zero dimension.
fn has_zero_dimension(shape: &Vec<usize>) -> (r: bool)
    ensures
        r == exists|i: int| 0 <= i < shape@.len() && shape@[i] == 0,
{
    let mut i: usize = 0;
    while i < shape.len()
        invariant
            i <= shape@.len(),
            forall|j: int| 0 <= j < i ==> shape@[j] != 0,
        decreases shape@.len() - i,
    {
        if shape[i] == 0 {
            return true;
        }
        i += 1;
    }
    false
}

/// Whether a payload of `len` bytes is what a tensor of this kind and shape
/// occupies. Exact for every shape, also where the element count exceeds
/// the machine's integers.
pub fn span_fits(dtype: Dtype, shape: &Vec<usize>, len: usize) -> (r: bool)
    ensures
        r == (byte_len(dtype, shape@) == Some(len as nat)),
{
    let width: u128 = dtype.bit_width() as u128;
    if has_zero_dimension(shape) {
        proof {
            let i = choose|i: int| 0 <= i < shape@.len() && shape@[i] == 0;
            lemma_zero_dimension(shape@, i);
            assert(0 * dtype.spec_bit_width() == 0);
        }
        return len == 0;
    }
    let mut count: u128 = 1;
    let mut i: usize = 0;
    while i < shape.len()
        invariant
            i <= shape@.len(),
            forall|j: int| 0 <= j < shape@.len() ==> shape@[j] >= 1,
            count == element_count(shape@.take(i as int)),
        decreases shape@.len() - i,
    {
        proof {
            let next = shape@.take(i + 1);
            assert(next.drop_last() =~= shape@.take(i as int));
            assert(next.last() == shape@[i as int]);
        }
        match count.checked_mul(shape[i] as u128) {
            Some(c) => {
                count = c;
            },
            None => {
                proof {
                    lemma_count_grows(shape@, i + 1);
                    lemma_too_many(element_count(shape@), dtype, len);
                }
                return false;
            },
        }
        i += 1;
    }
    proof {
        assert(shape@.take(i as int) =~= shape@);
    }
    match count.checked_mul(width) {
        Some(bits) => bits % 8 == 0 && bits / 8 == len as u128,
        None => {
            proof {
                lemma_too_many_bits(element_count(shape@), dtype, len);
            }
            false
        },
    }
}

/// An element count beyond 128 bits fits no payload length.
proof fn lemma_too_many(count: nat, dtype: Dtype, len: usize)
    requires
        count > u128::MAX,
    ensures
        count * dtype.spec_bit_width() % 8 != 0 || count * dtype.spec_bit_width() / 8 != len,
{
    let w = dtype.spec_bit_width();
    assert(count * w >= count * 4) by (nonlinear_arith)
        requires
            w >= 4,
    ;
}

/// A bit count beyond 128 bits fits no payload length.
proof fn lemma_too_many_bits(count: nat, dtype: Dtype, len: usize)
    requires
        count * dtype.spec_bit_width() > u128::MAX,
    ensures
        count * dtype.spec_bit_width() % 8 != 0 || count * dtype.spec_bit_width() / 8 != len,
{
}

} // verus!
