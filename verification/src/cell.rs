//! Wrapping arithmetic on tape cells.
//!
//! A cell is an unsigned 8-bit value; `+` and `-` wrap modulo 256.

use vstd::prelude::*;

verus! {

/// The value of a cell after one `+` instruction: increment, wrapping 255 to 0.
pub open spec fn spec_inc_cell(v: u8) -> u8 {
    if v == 255 {
        0
    } else {
        (v + 1) as u8
    }
}

/// The value of a cell after one `-` instruction: decrement, wrapping 0 to 255.
pub open spec fn spec_dec_cell(v: u8) -> u8 {
    if v == 0 {
        255
    } else {
        (v - 1) as u8
    }
}

/// Increment a cell, wrapping modulo 256.
pub fn inc_cell(v: u8) -> (r: u8)
    ensures
        r == spec_inc_cell(v),
{
    if v == 255 {
        0
    } else {
        v + 1
    }
}

/// Decrement a cell, wrapping modulo 256.
pub fn dec_cell(v: u8) -> (r: u8)
    ensures
        r == spec_dec_cell(v),
{
    if v == 0 {
        255
    } else {
        v - 1
    }
}

/// The cell value after `n` consecutive `+` instructions.
pub open spec fn iter_inc(v: u8, n: nat) -> u8
    decreases n,
{
    if n == 0 {
        v
    } else {
        spec_inc_cell(iter_inc(v, (n - 1) as nat))
    }
}

/// The cell value after `n` consecutive `-` instructions.
pub open spec fn iter_dec(v: u8, n: nat) -> u8
    decreases n,
{
    if n == 0 {
        v
    } else {
        spec_dec_cell(iter_dec(v, (n - 1) as nat))
    }
}

proof fn lemma_iter_inc_value(v: u8, n: nat)
    requires
        n <= 256,
    ensures
        iter_inc(v, n) == if v + n < 256 {
            (v + n) as u8
        } else {
            (v + n - 256) as u8
        },
    decreases n,
{
    if n > 0 {
        lemma_iter_inc_value(v, (n - 1) as nat);
    }
}

proof fn lemma_iter_dec_value(v: u8, n: nat)
    requires
        n <= 256,
    ensures
        iter_dec(v, n) == if v >= n {
            (v - n) as u8
        } else {
            (v + 256 - n) as u8
        },
    decreases n,
{
    if n > 0 {
        lemma_iter_dec_value(v, (n - 1) as nat);
    }
}

/// Wrap-around law for `+`: applying the increment 256 times returns any
/// cell to its starting value.
pub proof fn lemma_inc_wraps_around(v: u8)
    ensures
        iter_inc(v, 256) == v,
{
    lemma_iter_inc_value(v, 256);
}

/// Wrap-around law for `-`: applying the decrement 256 times returns any
/// cell to its starting value.
pub proof fn lemma_dec_wraps_around(v: u8)
    ensures
        iter_dec(v, 256) == v,
{
    lemma_iter_dec_value(v, 256);
}

} // verus!
