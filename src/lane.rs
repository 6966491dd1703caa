//! The lane algebra: the playfield has a fixed width in pixels and is split
//! into `column_count` lanes of equal width.
use vstd::prelude::*;

verus! {

/// Width of the playfield, in pixels.
pub const PLAYFIELD_WIDTH: u64 = 512;

/// The lane that holds the pixel column `x`.
pub open spec fn column_of_x(x: int, column_count: int) -> int {
    x * column_count / 512
}

/// The pixel column at the centre of lane `column`.
pub open spec fn x_of_column(column: int, column_count: int) -> int {
    ((2 * column + 1) * 512) / (2 * column_count)
}

/// The lane that holds the pixel column `x`: `floor(x * column_count / 512)`.
pub fn column_from_x(x: u32, column_count: u32) -> (r: u64)
    ensures
        r == column_of_x(x as int, column_count as int),
{
    proof {
        assert(x as int * column_count as int <= 0xffff_ffff * 0xffff_ffff) by (nonlinear_arith)
            requires
                x <= 0xffff_ffff,
                column_count <= 0xffff_ffff,
        ;
        assert(0 <= x as int * column_count as int) by (nonlinear_arith);
    }
    (x as u64) * (column_count as u64) / PLAYFIELD_WIDTH
}

/// The pixel column at the centre of lane `column`:
/// `floor((2 * column + 1) * 512 / (2 * column_count))`.
pub fn x_from_column(column: u32, column_count: u32) -> (r: u64)
    requires
        column_count > 0,
    ensures
        r == x_of_column(column as int, column_count as int),
        column < column_count ==> r < 512,
{
    let num: u64 = (2 * (column as u64) + 1) * PLAYFIELD_WIDTH;
    let den: u64 = 2 * (column_count as u64);
    proof {
        let n = num as int;
        let d = den as int;
        if column < column_count {
            assert(n < 512 * d) by (nonlinear_arith)
                requires
                    n == (2 * column + 1) * 512,
                    d == 2 * column_count,
                    column < column_count,
            ;
            assert(n / d < 512) by (nonlinear_arith)
                requires
                    0 <= n < 512 * d,
                    d > 0,
            ;
        }
    }
    num / den
}

/// Placing an object at the centre of its lane and reading the lane back
/// from that pixel column gives the lane again, for every lane count from 1
/// to 18.
pub proof fn lemma_lane_round_trip(column: u32, column_count: u32)
    requires
        1 <= column_count <= 18,
        column < column_count,
    ensures
        column_of_x(x_of_column(column as int, column_count as int), column_count as int)
            == column,
{
    lemma_lane_centre(column, column_count);
}

/// The centre of a lane lies inside the lane, and inside the playfield,
/// for every lane count up to 256.
pub proof fn lemma_lane_centre(column: u32, column_count: u32)
    requires
        1 <= column_count <= 256,
        column < column_count,
    ensures
        0 <= x_of_column(column as int, column_count as int) < 512,
        column_of_x(x_of_column(column as int, column_count as int), column_count as int)
            == column,
{
    let c = column as int;
    let k = column_count as int;
    let a = (2 * c + 1) * 256;
    let x = x_of_column(c, k);
    vstd::arithmetic::div_mod::lemma_div_denominator((2 * c + 1) * 512, 2, k);
    assert((2 * c + 1) * 512 / 2 == a);
    assert(x == a / k);
    assert(x * k <= a && a < x * k + k) by (nonlinear_arith)
        requires
            x == a / k,
            k >= 1,
            a >= 0,
    ;
    assert(512 * c <= x * k < 512 * (c + 1)) by (nonlinear_arith)
        requires
            x * k <= a,
            a < x * k + k,
            a == (2 * c + 1) * 256,
            k <= 256,
    ;
    assert((x * k) / 512 == c) by (nonlinear_arith)
        requires
            512 * c <= x * k < 512 * (c + 1),
    ;
    assert(0 <= x < 512) by (nonlinear_arith)
        requires
            x == a / k,
            a == (2 * c + 1) * 256,
            0 <= c < k,
            k >= 1,
            x * k <= a,
            x * k < 512 * (c + 1),
    ;
}

} // verus!
