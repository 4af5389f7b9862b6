//! Key-matrix scanning.
//!
//! A scan drives each row low in turn, lets the lines settle, samples every
//! column and restores the row. The pin work and the settle delay belong to
//! the caller; the keypad turns the sampled column levels of one complete
//! scan into a snapshot of pressed keys, one bit per key in row-major order,
//! and keeps the last complete snapshot.
use vstd::prelude::*;
use vstd::arithmetic::div_mod::{
    lemma_multiply_divide_lt,
    lemma_fundamental_div_mod,
    lemma_fundamental_div_mod_converse,
};

verus! {

/// Number of keys a snapshot can hold.
pub const MAX_KEYS: usize = 16;

/// Whether bit `k` of `s` is set.
pub open spec fn bit_of(s: u16, k: int) -> bool {
    (s >> (k as u16)) & 1u16 == 1u16
}

/// Whether the key with row-major index `k` read low in a scan whose column
/// levels per row are `levels` (`true` where the column read low).
pub open spec fn key_pressed(levels: Seq<Seq<bool>>, cols: int, k: int) -> bool {
    levels[k / cols][k % cols]
}

/// `states` holds exactly the keys that read low: bit `k` for key `k` of a
/// `rows` by `cols` matrix, and no bit beyond the matrix.
pub open spec fn snapshot_of(states: u16, levels: Seq<Seq<bool>>, cols: int, rows: int) -> bool {
    forall|k: int|
        0 <= k < 16 ==> (#[trigger] bit_of(states, k) <==> (k < rows * cols && key_pressed(
            levels,
            cols,
            k,
        )))
}

/// The column levels of a scan as sequences.
pub open spec fn levels_view(levels: Seq<Vec<bool>>) -> Seq<Seq<bool>> {
    levels.map_values(|v: Vec<bool>| v@)
}

/// Column levels for every row of a `rows` by `cols` matrix.
pub open spec fn levels_shaped(levels: Seq<Vec<bool>>, cols: int, rows: int) -> bool {
    &&& levels.len() == rows
    &&& forall|r: int| 0 <= r < rows ==> (#[trigger] levels[r]).len() == cols
}

proof fn lemma_set_bit(s: u16, k: u16, j: u16)
    requires
        k < 16,
        j < 16,
    ensures
        ((s | (1u16 << k)) >> j) & 1u16 == if j == k {
            1u16
        } else {
            (s >> j) & 1u16
        },
{
    assert(((s | (1u16 << k)) >> j) & 1u16 == if j == k {
        1u16
    } else {
        (s >> j) & 1u16
    }) by (bit_vector)
        requires
            k < 16,
            j < 16,
    ;
}

proof fn lemma_zero_has_no_bits(j: u16)
    requires
        j < 16,
    ensures
        (0u16 >> j) & 1u16 == 0u16,
{
    assert((0u16 >> j) & 1u16 == 0u16) by (bit_vector);
}

/// The scanning state of a key matrix of `rows` by `cols` keys.
pub struct Keypad {
    cols: usize,
    rows: usize,
    states: u16,
}

impl Keypad {
    pub closed spec fn spec_cols(&self) -> int {
        self.cols as int
    }

    pub closed spec fn spec_rows(&self) -> int {
        self.rows as int
    }

    pub closed spec fn spec_states(&self) -> u16 {
        self.states
    }

    pub closed spec fn wf(&self) -> bool {
        self.cols * self.rows <= MAX_KEYS
    }

    /// A keypad of `rows` by `cols` keys whose snapshot has no key pressed.
    pub fn new(cols: usize, rows: usize) -> (r: Keypad)
        requires
            cols * rows <= MAX_KEYS,
        ensures
            r.wf(),
            r.spec_cols() == cols,
            r.spec_rows() == rows,
            r.spec_states() == 0,
    {
        Keypad { cols, rows, states: 0 }
    }

    pub fn cols(&self) -> (r: usize)
        ensures
            r == self.spec_cols(),
    {
        self.cols
    }

    pub fn rows(&self) -> (r: usize)
        ensures
            r == self.spec_rows(),
    {
        self.rows
    }

    /// The last complete snapshot: bit `r * cols + c` is set when the key in
    /// row `r`, column `c` was pressed.
    pub fn states(&self) -> (r: u16)
        ensures
            r == self.spec_states(),
    {
        self.states
    }

    /// Takes the column levels of one complete scan (`levels[r][c]` is
    /// `true` when column `c` read low while row `r` was driven low) and
    /// makes their snapshot the current one.
    pub fn record_scan(&mut self, levels: &Vec<Vec<bool>>)
        requires
            old(self).wf(),
            levels_shaped(levels@, old(self).spec_cols(), old(self).spec_rows()),
        ensures
            final(self).wf(),
            final(self).spec_cols() == old(self).spec_cols(),
            final(self).spec_rows() == old(self).spec_rows(),
            snapshot_of(
                final(self).spec_states(),
                levels_view(levels@),
                old(self).spec_cols(),
                old(self).spec_rows(),
            ),
    {
        let cols = self.cols;
        let n: usize = self.cols * self.rows;
        let ghost lv = levels_view(levels@);
        let mut acc: u16 = 0;
        let mut k: usize = 0;
        proof {
            assert forall|j: int| 0 <= j < 16 implies !#[trigger] bit_of(acc, j) by {
                lemma_zero_has_no_bits(j as u16);
            }
        }
        while k < n
            invariant
                n == cols * self.rows <= MAX_KEYS,
                cols == self.cols,
                levels_shaped(levels@, cols as int, self.rows as int),
                lv == levels_view(levels@),
                0 <= k <= n,
                forall|j: int|
                    0 <= j < 16 ==> (#[trigger] bit_of(acc, j) <==> (j < k && key_pressed(
                        lv,
                        cols as int,
                        j,
                    ))),
            decreases n - k,
        {
            assert(cols > 0) by (nonlinear_arith)
                requires
                    k < n,
                    n == cols * self.rows,
            ;
            let r: usize = k / cols;
            let c: usize = k % cols;
            proof {
                lemma_multiply_divide_lt(k as int, cols as int, self.rows as int);
                assert(self.rows * cols == cols * self.rows) by (nonlinear_arith);
            }
            let down: bool = levels[r][c];
            let old_acc: u16 = acc;
            if down {
                acc = acc | (1u16 << (k as u16));
            }
            proof {
                assert forall|j: int| 0 <= j < 16 implies (#[trigger] bit_of(acc, j) <==> (j < k
                    + 1 && key_pressed(lv, cols as int, j))) by {
                    lemma_set_bit(old_acc, k as u16, j as u16);
                    assert(bit_of(old_acc, j) <==> (j < k && key_pressed(lv, cols as int, j)));
                }
            }
            k = k + 1;
        }
        self.states = acc;
    }
}

/// A snapshot of an all-open matrix is zero, and the key in row `r`,
/// column `c` of a `rows` by `cols` matrix is bit `r * cols + c` of the
/// snapshot, set exactly when that key read low.
pub proof fn lemma_scan_layout(states: u16, levels: Seq<Seq<bool>>, cols: int, rows: int)
    requires
        0 <= cols,
        0 <= rows,
        cols * rows <= 16,
        levels.len() == rows,
        forall|r: int| 0 <= r < rows ==> (#[trigger] levels[r]).len() == cols,
        snapshot_of(states, levels, cols, rows),
    ensures
        (forall|r: int, c: int| 0 <= r < rows && 0 <= c < cols ==> !#[trigger] levels[r][c])
            ==> states == 0,
        forall|r: int, c: int|
            0 <= r < rows && 0 <= c < cols ==> (bit_of(states, r * cols + c) <==> #[trigger] levels[r][c]),
{
    assert forall|r: int, c: int| 0 <= r < rows && 0 <= c < cols implies (bit_of(
        states,
        r * cols + c,
    ) <==> #[trigger] levels[r][c]) by {
        lemma_fundamental_div_mod_converse(r * cols + c, cols, r, c);
        assert(0 <= r * cols + c < rows * cols) by (nonlinear_arith)
            requires
                0 <= r < rows,
                0 <= c < cols,
        ;
        assert(r * cols == rows * cols - (rows - r) * cols) by (nonlinear_arith);
        assert(rows * cols == cols * rows) by (nonlinear_arith);
    }
    if forall|r: int, c: int| 0 <= r < rows && 0 <= c < cols ==> !#[trigger] levels[r][c] {
        assert forall|k: int| 0 <= k < 16 implies !#[trigger] bit_of(states, k) by {
            if k < rows * cols {
                assert(cols > 0) by (nonlinear_arith)
                    requires
                        0 <= k < rows * cols,
                        rows >= 0,
                ;
                lemma_fundamental_div_mod(k, cols);
                assert(rows * cols == cols * rows) by (nonlinear_arith);
                lemma_multiply_divide_lt(k, cols, rows);
                assert(0 <= k / cols) by (nonlinear_arith)
                    requires
                        k >= 0,
                        cols > 0,
                ;
                assert(!levels[k / cols][k % cols]);
            }
        }
        lemma_no_bits_is_zero(states);
    }
}

proof fn lemma_no_bits_is_zero(s: u16)
    requires
        forall|k: int| 0 <= k < 16 ==> !#[trigger] bit_of(s, k),
    ensures
        s == 0,
{
    assert(!bit_of(s, 0) && !bit_of(s, 1) && !bit_of(s, 2) && !bit_of(s, 3));
    assert(!bit_of(s, 4) && !bit_of(s, 5) && !bit_of(s, 6) && !bit_of(s, 7));
    assert(!bit_of(s, 8) && !bit_of(s, 9) && !bit_of(s, 10) && !bit_of(s, 11));
    assert(!bit_of(s, 12) && !bit_of(s, 13) && !bit_of(s, 14) && !bit_of(s, 15));
    assert(s == 0) by (bit_vector)
        requires
            (s >> 0u16) & 1u16 != 1u16,
            (s >> 1u16) & 1u16 != 1u16,
            (s >> 2u16) & 1u16 != 1u16,
            (s >> 3u16) & 1u16 != 1u16,
            (s >> 4u16) & 1u16 != 1u16,
            (s >> 5u16) & 1u16 != 1u16,
            (s >> 6u16) & 1u16 != 1u16,
            (s >> 7u16) & 1u16 != 1u16,
            (s >> 8u16) & 1u16 != 1u16,
            (s >> 9u16) & 1u16 != 1u16,
            (s >> 10u16) & 1u16 != 1u16,
            (s >> 11u16) & 1u16 != 1u16,
            (s >> 12u16) & 1u16 != 1u16,
            (s >> 13u16) & 1u16 != 1u16,
            (s >> 14u16) & 1u16 != 1u16,
            (s >> 15u16) & 1u16 != 1u16,
    ;
}

} // verus!
