use vstd::prelude::*;
use crate::voxel::CHUNK_SIZE_I32;

verus! {

/// The chunk that holds world coordinate `x` along one axis: the floor of
/// `x / size`.
pub open spec fn chunk_of(x: int, size: int) -> int {
    x / size
}

/// The place of world coordinate `x` inside its chunk along one axis.
pub open spec fn local_of(x: int, size: int) -> int {
    x % size
}

/// `i32::div_euclid`: the quotient of Euclidean division, which for a positive
/// divisor is the floor of the quotient. It is not called with a zero
/// divisor, nor where the quotient does not fit.
pub assume_specification[ i32::div_euclid ](lhs: i32, rhs: i32) -> (q: i32)
    requires
        rhs != 0,
        !(lhs == i32::MIN && rhs == -1),
    ensures
        q == lhs as int / rhs as int,
;

/// `i32::rem_euclid`: the remainder of Euclidean division, which is never
/// negative. It is not called with a zero divisor, nor where the quotient
/// does not fit.
pub assume_specification[ i32::rem_euclid ](lhs: i32, rhs: i32) -> (r: i32)
    requires
        rhs != 0,
        !(lhs == i32::MIN && rhs == -1),
    ensures
        r == lhs as int % rhs as int,
;

/// Chunk coordinate of a world block coordinate.
pub fn chunk_coord(x: i32) -> (c: i32)
    ensures
        c == chunk_of(x as int, 32),
        -67108864 <= c <= 67108863,
{
    x.div_euclid(CHUNK_SIZE_I32)
}

/// Local coordinate of a world block coordinate inside its chunk.
pub fn local_coord(x: i32) -> (l: i32)
    ensures
        l == local_of(x as int, 32),
        0 <= l < 32,
{
    x.rem_euclid(CHUNK_SIZE_I32)
}

/// Chunk and local coordinate rebuild the world coordinate, and the local
/// coordinate lies in `[0, size)`, for every world coordinate, negative ones
/// too, and every positive chunk size.
pub proof fn lemma_split_rebuilds(x: int, size: int)
    requires
        size > 0,
    ensures
        chunk_of(x, size) * size + local_of(x, size) == x,
        0 <= local_of(x, size) < size,
{
    vstd::arithmetic::div_mod::lemma_fundamental_div_mod(x, size);
    vstd::arithmetic::div_mod::lemma_mod_bound(x, size);
    vstd::arithmetic::mul::lemma_mul_is_commutative(size, x / size);
}

/// A coordinate built from a chunk and a place inside it splits back into
/// the two: the split is the only one.
pub proof fn lemma_split_is_unique(c: int, l: int, size: int)
    requires
        size > 0,
        0 <= l < size,
    ensures
        chunk_of(c * size + l, size) == c,
        local_of(c * size + l, size) == l,
{
    vstd::arithmetic::div_mod::lemma_fundamental_div_mod_converse(c * size + l, size, c, l);
}

} // verus!
