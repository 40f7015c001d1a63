//! Cyclic movement through a list: the cursor arithmetic that every list on
//! the dashboard shares.

use vstd::prelude::*;

verus! {

/// Where a cursor at `index` lands after `step` moves through a list of `len`
/// entries, wrapping at both ends.
pub open spec fn wrapped(index: int, len: int, step: int) -> int {
    (index + step) % len
}

/// Moves `index` by `step` places through a list of `len` entries, wrapping
/// around at either end; reports whether the list had entries to move through.
pub fn advance_wrapped_index(index: &mut usize, len: usize, step: isize) -> (moved: bool)
    ensures
        moved == (len > 0),
        len == 0 ==> *final(index) == *old(index),
        len > 0 ==> *final(index) == wrapped(*old(index) as int, len as int, step as int),
        len > 0 ==> *final(index) < len,
{
    if len == 0 {
        return false;
    }
    let x: i128 = *index as i128 + step as i128;
    let l: u128 = len as u128;
    let r: u128 = if x >= 0 {
        (x as u128) % l
    } else {
        let y: u128 = (-x) as u128;
        let m = y % l;
        proof {
            let q = (y as int) / (l as int);
            vstd::arithmetic::div_mod::lemma_fundamental_div_mod(y as int, l as int);
            assert((y as int) == q * (l as int) + (m as int));
        }
        if m == 0 {
            proof {
                let q = (y as int) / (l as int);
                assert((x as int) == (-q) * (l as int)) by (nonlinear_arith)
                    requires
                        (y as int) == q * (l as int) + (m as int),
                        m == 0,
                        (x as int) == -(y as int),
                ;
                vstd::arithmetic::div_mod::lemma_mod_multiples_basic(-q, l as int);
            }
            0
        } else {
            proof {
                let q = (y as int) / (l as int);
                assert((x as int) == (-q - 1) * (l as int) + (l - m) as int) by (nonlinear_arith)
                    requires
                        (y as int) == q * (l as int) + (m as int),
                        (x as int) == -(y as int),
                ;
                vstd::arithmetic::div_mod::lemma_mod_multiples_vanish(-q - 1, (l - m) as int, l as int);
                vstd::arithmetic::div_mod::lemma_small_mod((l - m) as nat, l as nat);
            }
            l - m
        }
    };
    *index = r as usize;
    true
}

} // verus!

verus! {

/// Moving back by the steps just taken returns a cursor to where it was.
pub proof fn lemma_wrap_round_trip(index: int, len: int, step: int)
    requires
        0 <= index < len,
    ensures
        wrapped(wrapped(index, len, step), len, -step) == index,
{
    let a = wrapped(index, len, step);
    vstd::arithmetic::div_mod::lemma_fundamental_div_mod(index + step, len);
    let q = (index + step) / len;
    assert(a + (-step) == index + (-q) * len) by (nonlinear_arith)
        requires
            index + step == len * q + a,
    ;
    vstd::arithmetic::div_mod::lemma_mod_multiples_vanish(-q, index, len);
    vstd::arithmetic::div_mod::lemma_small_mod(index as nat, len as nat);
}

} // verus!
