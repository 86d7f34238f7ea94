//! Common things used by both modulator and demodulator.

use vstd::arithmetic::div_mod::*;
use vstd::arithmetic::mul::*;
use vstd::prelude::*;

use crate::tdma_time::TIME_INT_WRAP;

verus! {

/// A number of samples.
pub type SampleCount = i64;

/// The samples of one full cycle of the TDMA time.
pub open spec fn cycle(samples_slot: int) -> int {
    TIME_INT_WRAP * samples_slot
}

/// Of the sample counts a whole number of cycles away from `slot_begin`, the one that is at most
/// half a cycle from `near`.
pub open spec fn nearest(slot_begin: int, near: int, wrap: int) -> int {
    slot_begin + (near - slot_begin + wrap / 2) / wrap * wrap
}

/// Of the sample counts `slot_begin + k * wrap` (`wrap` = one full cycle of the TDMA time), return
/// the one nearest `near` (the current sample count).
///
/// Slot times come from `TdmaTime::to_int`, which wraps to 0 together with the hyperframe number
/// every 65536 hyperframes (~46.4 days), while the sample counter keeps counting. Without this the
/// first slot after the wrap would lie ~46 days in the past, and the modulator would stop
/// transmitting and the demodulator stop demodulating for good (TS 100 392-2 7.3.2: the counters
/// run continuously). Until the first wrap `k` is 0, so nothing changes before it.
pub fn unwrap_slot_begin(
    slot_begin: SampleCount,
    near: SampleCount,
    samples_slot: SampleCount,
) -> (unwrapped: SampleCount)
    requires
        samples_slot > 0,
        cycle(samples_slot as int) <= i64::MAX,
        i64::MIN <= near - slot_begin,
        near - slot_begin + cycle(samples_slot as int) / 2 <= i64::MAX,
        i64::MIN <= nearest(slot_begin as int, near as int, cycle(samples_slot as int))
            - slot_begin <= i64::MAX,
        i64::MIN <= nearest(slot_begin as int, near as int, cycle(samples_slot as int)) <= i64::MAX,
    ensures
        unwrapped == nearest(slot_begin as int, near as int, cycle(samples_slot as int)),
{
    let wrap: i64 = TIME_INT_WRAP as i64 * samples_slot;
    let x: i64 = near - slot_begin + wrap / 2;
    proof {
        assert(i64::MIN <= x as int / wrap as int <= i64::MAX) by (nonlinear_arith)
            requires
                wrap > 0,
                i64::MIN <= x <= i64::MAX,
        ;
    }
    let turns: i64 = match x.checked_div_euclid(wrap) {
        Some(q) => q,
        None => 0,
    };
    slot_begin + turns * wrap
}

/// The slot begin that comes out is a whole number of cycles from the one that went in, and no
/// other such count is nearer; where the one that went in is within half a cycle, it comes out
/// unchanged.
pub proof fn law_unwrapped_is_nearest(slot_begin: int, near: int, samples_slot: int, k: int)
    requires
        samples_slot > 0,
    ensures
        ({
            let wrap = cycle(samples_slot);
            let found = nearest(slot_begin, near, wrap);
            let distance = if found >= near {
                found - near
            } else {
                near - found
            };
            let other = slot_begin + k * wrap;
            &&& (found - slot_begin) % wrap == 0
            &&& 2 * distance <= wrap
            &&& distance <= (if other >= near {
                other - near
            } else {
                near - other
            })
            &&& -wrap < 2 * (slot_begin - near) <= wrap ==> found == slot_begin
        }),
{
    let wrap = cycle(samples_slot);
    assert(wrap / 2 == 141_557_760 * samples_slot);
    let x = near - slot_begin + wrap / 2;
    let q = x / wrap;
    lemma_fundamental_div_mod(x, wrap);
    lemma_mul_is_commutative(q, wrap);
    lemma_mod_multiples_basic(q, wrap);
    let found = slot_begin + q * wrap;
    assert(found - near == wrap / 2 - x % wrap);
    assert(found - slot_begin == q * wrap);
    // Any other count is at least a whole cycle away from the one found.
    if k != q {
        assert((k - q) * wrap >= wrap || (k - q) * wrap <= -wrap) by (nonlinear_arith)
            requires
                k != q,
                wrap > 0,
        ;
        lemma_mul_is_distributive_sub_other_way(wrap, k, q);
    }
    if -wrap < 2 * (slot_begin - near) <= wrap {
        lemma_basic_div(x, wrap);
        assert(0 * wrap == 0);
    }
}

/// Slots that follow each other in time begin one slot of samples after each other, over the wrap
/// of the TDMA time too.
pub proof fn law_slots_stay_continuous(last: crate::tdma_time::TdmaTime, samples_slot: int, turns: int)
    requires
        last.valid(),
        samples_slot > 0,
    ensures
        ({
            let wrap = cycle(samples_slot);
            let next = crate::tdma_time::TdmaTime::at(last.slots() + 1);
            let now = last.slots() * samples_slot + turns * wrap;
            &&& nearest(last.slots() * samples_slot, now, wrap) == now
            &&& nearest(next.slots() * samples_slot, now, wrap) == now + samples_slot
        }),
{
    let wrap = cycle(samples_slot);
    let next = crate::tdma_time::TdmaTime::at(last.slots() + 1);
    crate::tdma_time::law_time_and_number_agree(last, last.slots() + 1);
    let now = last.slots() * samples_slot + turns * wrap;
    assert(wrap / 2 == 141_557_760 * samples_slot);
    // From the count of the same slot, `turns` cycles lead here.
    lemma_div_multiples_and_rest(turns, wrap / 2, wrap);
    // From the count of the next slot, one more cycle does where the time has wrapped.
    let begin = next.slots() * samples_slot;
    let crossed: int = if last.slots() + 1 == TIME_INT_WRAP {
        1
    } else {
        0
    };
    assert(next.slots() == last.slots() + 1 - TIME_INT_WRAP * crossed);
    assert(begin == last.slots() * samples_slot + samples_slot - crossed * wrap)
        by (nonlinear_arith)
        requires
            begin == next.slots() * samples_slot,
            next.slots() == last.slots() + 1 - TIME_INT_WRAP * crossed,
            wrap == TIME_INT_WRAP * samples_slot,
    ;
    lemma_mul_is_distributive_add_other_way(wrap, turns, crossed);
    assert(now - begin == (turns + crossed) * wrap - samples_slot);
    lemma_div_multiples_and_rest(turns + crossed, wrap / 2 - samples_slot, wrap);
}

/// Dividing a multiple and a rest that is less than the divisor gives the multiple.
proof fn lemma_div_multiples_and_rest(n: int, rest: int, d: int)
    requires
        0 <= rest < d,
    ensures
        (n * d + rest) / d == n,
{
    lemma_mul_is_commutative(n, d);
    lemma_div_multiples_vanish_fancy(n, rest, d);
}

/// The slot begin that comes out differs from the one that went in by whole turns of the TDMA time,
/// and lies no more than half a turn from where the samples stand.
pub proof fn law_a_slot_begins_near_the_present(
    slot_begin: SampleCount,
    near: SampleCount,
    samples_slot: SampleCount,
    unwrapped: SampleCount,
)
    requires
        samples_slot > 0,
        call_ensures(unwrap_slot_begin, (slot_begin, near, samples_slot), unwrapped),
    ensures
        (unwrapped - slot_begin) % (283_115_520 * samples_slot) == 0,
        -(283_115_520 * samples_slot) < 2 * (unwrapped - near) <= 283_115_520 * samples_slot,
{
    let wrap = cycle(samples_slot as int);
    assert(wrap == 283_115_520 * samples_slot);
    law_unwrapped_is_nearest(slot_begin as int, near as int, samples_slot as int, 0);
    assert(wrap / 2 == 141_557_760 * samples_slot);
    let x = near - slot_begin + wrap / 2;
    lemma_fundamental_div_mod(x, wrap);
    lemma_mul_is_commutative(x / wrap, wrap);
    assert(unwrapped - near == wrap / 2 - x % wrap);
}

} // verus!
