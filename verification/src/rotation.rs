//! The two shifts: what they do to a raster, and why each can be undone.

use vstd::prelude::*;
use vstd::arithmetic::div_mod::{
    lemma_add_mod_noop,
    lemma_fundamental_div_mod,
    lemma_fundamental_div_mod_converse,
    lemma_mod_add_multiples_vanish,
    lemma_mod_bound,
    lemma_mul_mod_noop_right,
    lemma_small_mod,
};
use vstd::seq_lib::lemma_multiset_commutative;
use crate::grid::{Grid, Rgb};

verus! {

/// By how many places the line at `index` is rotated under increment `k`, on an axis
/// of `len` cells: the product of the two, brought into `0 .. len`.
pub open spec fn shift_amount(index: int, k: int, len: int) -> int {
    (index * k) % len
}

/// `line` rotated left by `d`: what stood at place `d` now stands first.
pub open spec fn rotated(line: Seq<Rgb>, d: int) -> Seq<Rgb> {
    Seq::new(line.len(), |i: int| line[(i + d) % (line.len() as int)])
}

impl Grid {
    /// Every row rotated left by its shift amount.
    pub open spec fn rows_shifted(self, k: int) -> Grid {
        Grid {
            width: self.width,
            rows: Seq::new(
                self.rows.len(),
                |y: int|
                    Seq::new(
                        self.width,
                        |x: int|
                            self.rows[y][(x + shift_amount(y, k, self.width as int)) % (
                            self.width as int)],
                    ),
            ),
        }
    }

    /// Every column rotated upwards by its shift amount.
    pub open spec fn columns_shifted(self, k: int) -> Grid {
        Grid {
            width: self.width,
            rows: Seq::new(
                self.rows.len(),
                |y: int|
                    Seq::new(
                        self.width,
                        |x: int|
                            self.rows[(y + shift_amount(x, k, self.rows.len() as int)) % (
                            self.rows.len() as int)][x],
                    ),
            ),
        }
    }
}

/// The remainder of a negative number, from the remainder of its magnitude.
proof fn lemma_mod_of_negative(a: int, m: int)
    requires
        0 <= a,
        0 < m,
    ensures
        (-a) % m == (if a % m == 0 {
            0
        } else {
            m - a % m
        }),
{
    let q = a / m;
    let r = a % m;
    lemma_fundamental_div_mod(a, m);
    lemma_mod_bound(a, m);
    if r == 0 {
        assert(-a == (-q) * m + 0) by (nonlinear_arith)
            requires
                a == m * q + 0,
        ;
        lemma_fundamental_div_mod_converse(-a, m, -q, 0);
    } else {
        assert(-a == (-q - 1) * m + (m - r)) by (nonlinear_arith)
            requires
                a == m * q + r,
        ;
        lemma_fundamental_div_mod_converse(-a, m, -q - 1, m - r);
    }
}

/// Computes the shift amount of one line.
///
/// The increment is first brought onto the axis, so that the product with the index
/// needs no more than 64 bits whatever the increment is.
pub fn line_shift(index: u32, increment: i64, len: u32) -> (d: u32)
    requires
        len > 0,
    ensures
        d == shift_amount(index as int, increment as int, len as int),
        d < len,
{
    let m: u64 = len as u64;
    let step: u64 = if increment >= 0 {
        (increment as u64) % m
    } else {
        let magnitude: u64 = ((-(increment + 1)) as u64) + 1;
        proof {
            lemma_mod_of_negative(magnitude as int, m as int);
        }
        let r: u64 = magnitude % m;
        if r == 0 {
            0
        } else {
            m - r
        }
    };
    proof {
        assert(step == (increment as int) % (m as int));
        lemma_mod_bound(increment as int, m as int);
        lemma_mul_mod_noop_right(index as int, increment as int, m as int);
        lemma_mod_bound(index * step, m as int);
        assert(index * step <= 0xffff_ffff * 0xffff_ffff) by (nonlinear_arith)
            requires
                0 <= index <= 0xffff_ffff,
                0 <= step <= 0xffff_ffff,
        ;
    }
    let d: u64 = ((index as u64) * step) % m;
    d as u32
}

/// The sum of a place and a step of at most the length, brought back onto the axis.
proof fn lemma_wrapped_sum(i: int, d: int, len: int)
    requires
        0 <= i < len,
        0 <= d <= len,
    ensures
        (i + d) % len == (if i + d < len {
            i + d
        } else {
            i + d - len
        }),
{
    if i + d < len {
        lemma_small_mod((i + d) as nat, len as nat);
    } else {
        lemma_fundamental_div_mod_converse(i + d, len, 1, i + d - len);
    }
}

/// The place `d` steps after `place` on an axis of `len` cells that closes on itself.
pub fn step_around(place: u32, d: u32, len: u32) -> (at: u32)
    requires
        place < len,
        d < len,
    ensures
        at == (place + d) % (len as int),
        at < len,
{
    proof {
        lemma_wrapped_sum(place as int, d as int, len as int);
    }
    if place >= len - d {
        place - (len - d)
    } else {
        place + d
    }
}

/// The shift amount lies on the axis.
pub proof fn lemma_shift_amount_bound(index: int, k: int, len: int)
    requires
        0 < len,
    ensures
        0 <= shift_amount(index, k, len) < len,
{
    lemma_mod_bound(index * k, len);
}

/// Where a rotation by the shift amount reads from, the rotation under the opposite
/// increment reads back: following the one and then the other ends where it began.
pub proof fn lemma_shift_cancels(i: int, index: int, k: int, len: int)
    requires
        0 <= i < len,
    ensures
        ((i + shift_amount(index, -k, len)) % len + shift_amount(index, k, len)) % len == i,
{
    let s = shift_amount(index, k, len);
    let t = shift_amount(index, -k, len);
    lemma_shift_amount_bound(index, k, len);
    lemma_shift_amount_bound(index, -k, len);
    assert(index * (-k) == -(index * k)) by (nonlinear_arith);
    lemma_add_mod_noop(index * k, -(index * k), len);
    lemma_small_mod(0, len as nat);
    assert((s + t) % len == 0);
    lemma_fundamental_div_mod(s + t, len);
    let q = (s + t) / len;
    assert(q == 0 || q == 1) by (nonlinear_arith)
        requires
            s + t == len * q,
            0 <= s + t < 2 * len,
            0 < len,
    ;
    assert(s + t == 0 || s + t == len) by (nonlinear_arith)
        requires
            s + t == len * q,
            q == 0 || q == 1,
    ;
    lemma_add_mod_noop(i + t, s, len);
    lemma_small_mod(s as nat, len as nat);
    lemma_small_mod(i as nat, len as nat);
    assert(((i + t) % len + s) % len == (i + t + s) % len);
    if s + t == len {
        lemma_mod_add_multiples_vanish(i, len);
        assert(i + t + s == len + i);
    }
}

/// A rotation moves places one to one: every place reads from a place of the line,
/// no two places read from the same one, and every place is read from.
pub proof fn lemma_rotation_is_bijection(len: int, d: int)
    requires
        0 <= d < len,
    ensures
        forall|i: int| 0 <= i < len ==> 0 <= #[trigger] ((i + d) % len) < len,
        forall|i: int, j: int|
            0 <= i < len && 0 <= j < len && #[trigger] ((i + d) % len) == #[trigger] ((j + d)
                % len) ==> i == j,
        forall|t: int|
            0 <= t < len ==> 0 <= #[trigger] ((t + (len - d)) % len) < len && (((t + (len - d))
                % len) + d) % len == t,
{
    assert forall|i: int| 0 <= i < len implies 0 <= #[trigger] ((i + d) % len) < len by {
        lemma_mod_bound(i + d, len);
    }
    assert forall|i: int, j: int|
        0 <= i < len && 0 <= j < len && #[trigger] ((i + d) % len) == #[trigger] ((j + d)
            % len) implies i == j by {
        lemma_wrapped_sum(i, d, len);
        lemma_wrapped_sum(j, d, len);
    }
    assert forall|t: int| 0 <= t < len implies 0 <= #[trigger] ((t + (len - d)) % len) < len && (((t
        + (len - d)) % len) + d) % len == t by {
        lemma_wrapped_sum(t, len - d, len);
        let back = (t + (len - d)) % len;
        lemma_mod_bound(t + (len - d), len);
        lemma_wrapped_sum(back, d, len);
    }
}

/// A rotation by less than the length is the tail followed by the head.
pub proof fn lemma_rotated_is_tail_then_head(line: Seq<Rgb>, d: int)
    requires
        0 <= d < line.len(),
    ensures
        rotated(line, d) == line.subrange(d, line.len() as int) + line.subrange(0, d),
{
    let n = line.len() as int;
    let joined = line.subrange(d, n) + line.subrange(0, d);
    assert forall|i: int| 0 <= i < n implies rotated(line, d)[i] == joined[i] by {
        lemma_wrapped_sum(i, d, n);
    }
    assert(rotated(line, d) =~= joined);
}

/// A rotation keeps every pixel, as often as it occurred.
pub proof fn lemma_rotated_keeps_pixels(line: Seq<Rgb>, d: int)
    requires
        0 <= d < line.len(),
    ensures
        rotated(line, d).to_multiset() == line.to_multiset(),
{
    let n = line.len() as int;
    let head = line.subrange(0, d);
    let tail = line.subrange(d, n);
    lemma_rotated_is_tail_then_head(line, d);
    lemma_multiset_commutative(tail, head);
    lemma_multiset_commutative(head, tail);
    assert(head + tail =~= line);
    assert(tail.to_multiset().add(head.to_multiset()) =~= head.to_multiset().add(
        tail.to_multiset(),
    ));
}

/// Shifting the rows leaves the shape alone, and rotates each row by its amount.
pub proof fn lemma_rows_shifted_shape(g: Grid, k: int)
    requires
        g.wf(),
    ensures
        g.rows_shifted(k).wf(),
        g.rows_shifted(k).width == g.width,
        g.rows_shifted(k).height() == g.height(),
        forall|y: int|
            0 <= y < g.height() ==> #[trigger] g.rows_shifted(k).rows[y] == rotated(
                g.rows[y],
                shift_amount(y, k, g.width as int),
            ),
{
    assert forall|y: int| 0 <= y < g.height() implies #[trigger] g.rows_shifted(k).rows[y]
        == rotated(g.rows[y], shift_amount(y, k, g.width as int)) by {
        assert(g.rows[y].len() == g.width);
        assert(g.rows_shifted(k).rows[y] =~= rotated(
            g.rows[y],
            shift_amount(y, k, g.width as int),
        ));
    }
}

/// Shifting the columns leaves the shape alone, and rotates each column by its amount.
pub proof fn lemma_columns_shifted_shape(g: Grid, k: int)
    requires
        g.wf(),
    ensures
        g.columns_shifted(k).wf(),
        g.columns_shifted(k).width == g.width,
        g.columns_shifted(k).height() == g.height(),
        forall|x: int|
            0 <= x < g.width ==> #[trigger] g.columns_shifted(k).column(x) == rotated(
                g.column(x),
                shift_amount(x, k, g.height() as int),
            ),
{
    let h = g.height() as int;
    assert forall|x: int| 0 <= x < g.width implies #[trigger] g.columns_shifted(k).column(x)
        == rotated(g.column(x), shift_amount(x, k, h)) by {
        let d = shift_amount(x, k, h);
        assert forall|y: int| 0 <= y < h implies g.columns_shifted(k).column(x)[y] == rotated(
            g.column(x),
            d,
        )[y] by {
            lemma_mod_bound(y + d, h);
        }
        assert(g.columns_shifted(k).column(x) =~= rotated(g.column(x), d));
    }
}

/// The row shift permutes each row: the pixels of a row, counted with repetition,
/// are the same before and after.
pub proof fn lemma_rows_shifted_permutes(g: Grid, k: int, y: int)
    requires
        g.wf(),
        0 <= y < g.height(),
    ensures
        g.rows_shifted(k).rows[y].to_multiset() == g.rows[y].to_multiset(),
{
    lemma_rows_shifted_shape(g, k);
    if g.width > 0 {
        lemma_shift_amount_bound(y, k, g.width as int);
        lemma_rotated_keeps_pixels(g.rows[y], shift_amount(y, k, g.width as int));
    } else {
        assert(g.rows_shifted(k).rows[y] =~= g.rows[y]);
    }
}

/// The column shift permutes each column: the pixels of a column, counted with
/// repetition, are the same before and after.
pub proof fn lemma_columns_shifted_permutes(g: Grid, k: int, x: int)
    requires
        g.wf(),
        0 <= x < g.width,
    ensures
        g.columns_shifted(k).column(x).to_multiset() == g.column(x).to_multiset(),
{
    lemma_columns_shifted_shape(g, k);
    if g.height() > 0 {
        lemma_shift_amount_bound(x, k, g.height() as int);
        lemma_rotated_keeps_pixels(g.column(x), shift_amount(x, k, g.height() as int));
    } else {
        assert(g.columns_shifted(k).column(x) =~= g.column(x));
    }
}

/// Shifting the rows under `k` and then under `-k` gives the raster back.
pub proof fn lemma_rows_shift_undone(g: Grid, k: int)
    requires
        g.wf(),
    ensures
        g.rows_shifted(k).rows_shifted(-k) == g,
{
    let w = g.width as int;
    let there = g.rows_shifted(k);
    let back = there.rows_shifted(-k);
    assert forall|y: int| 0 <= y < g.height() implies #[trigger] back.rows[y] == g.rows[y] by {
        assert(g.rows[y].len() == w);
        assert forall|x: int| 0 <= x < w implies back.rows[y][x] == g.rows[y][x] by {
            lemma_shift_cancels(x, y, k, w);
            lemma_mod_bound(x + shift_amount(y, -k, w), w);
        }
        assert(back.rows[y] =~= g.rows[y]);
    }
    assert(back.rows =~= g.rows);
}

/// Shifting the columns under `k` and then under `-k` gives the raster back.
pub proof fn lemma_columns_shift_undone(g: Grid, k: int)
    requires
        g.wf(),
    ensures
        g.columns_shifted(k).columns_shifted(-k) == g,
{
    let w = g.width as int;
    let h = g.height() as int;
    let there = g.columns_shifted(k);
    let back = there.columns_shifted(-k);
    assert forall|y: int| 0 <= y < h implies #[trigger] back.rows[y] == g.rows[y] by {
        assert(g.rows[y].len() == w);
        assert forall|x: int| 0 <= x < w implies back.rows[y][x] == g.rows[y][x] by {
            lemma_shift_cancels(y, x, k, h);
            lemma_mod_bound(y + shift_amount(x, -k, h), h);
        }
        assert(back.rows[y] =~= g.rows[y]);
    }
    assert(back.rows =~= g.rows);
}

/// Where the increment is a multiple of the width, the row shift changes nothing.
pub proof fn lemma_rows_shift_by_multiple(g: Grid, k: int)
    requires
        g.wf(),
        g.width > 0,
        k % (g.width as int) == 0,
    ensures
        g.rows_shifted(k) == g,
{
    let w = g.width as int;
    assert forall|y: int| 0 <= y < g.height() implies #[trigger] g.rows_shifted(k).rows[y]
        == g.rows[y] by {
        lemma_mul_mod_noop_right(y, k, w);
        assert(y * 0 == 0);
        lemma_small_mod(0, w as nat);
        assert(shift_amount(y, k, w) == 0);
        assert forall|x: int| 0 <= x < w implies g.rows_shifted(k).rows[y][x] == g.rows[y][x] by {
            lemma_small_mod(x as nat, w as nat);
        }
        assert(g.rows[y].len() == w);
        assert(g.rows_shifted(k).rows[y] =~= g.rows[y]);
    }
    assert(g.rows_shifted(k).rows =~= g.rows);
}

/// Where the increment is a multiple of the height, the column shift changes nothing.
pub proof fn lemma_columns_shift_by_multiple(g: Grid, k: int)
    requires
        g.wf(),
        g.height() > 0,
        k % (g.height() as int) == 0,
    ensures
        g.columns_shifted(k) == g,
{
    let h = g.height() as int;
    assert forall|y: int| 0 <= y < h implies #[trigger] g.columns_shifted(k).rows[y]
        == g.rows[y] by {
        assert forall|x: int| 0 <= x < g.width implies g.columns_shifted(k).rows[y][x]
            == g.rows[y][x] by {
            lemma_mul_mod_noop_right(x, k, h);
            assert(x * 0 == 0);
            lemma_small_mod(0, h as nat);
            lemma_small_mod(y as nat, h as nat);
        }
        assert(g.rows[y].len() == g.width);
        assert(g.columns_shifted(k).rows[y] =~= g.rows[y]);
    }
    assert(g.columns_shifted(k).rows =~= g.rows);
}

} // verus!
