//! Bit strings and the numbers they stand for.
//!
//! Every field on the air interface is an unsigned number sent most significant bit first. This
//! module relates a sequence of bits to its number, in both directions.

use vstd::arithmetic::div_mod::*;
use vstd::arithmetic::power2::*;
use vstd::prelude::*;

verus! {

/// The number whose binary notation, most significant bit first, is `bits`.
pub open spec fn bits_value(bits: Seq<bool>) -> nat
    decreases bits.len(),
{
    if bits.len() == 0 {
        0
    } else {
        2 * bits_value(bits.drop_last()) + if bits.last() { 1nat } else { 0nat }
    }
}

/// The `n` least significant bits of `value`, most significant bit first.
pub open spec fn value_bits(value: nat, n: nat) -> Seq<bool>
    decreases n,
{
    if n == 0 {
        Seq::empty()
    } else {
        value_bits(value / 2, (n - 1) as nat).push(value % 2 == 1)
    }
}

pub proof fn lemma_value_bits_len(value: nat, n: nat)
    ensures
        value_bits(value, n).len() == n,
    decreases n,
{
    if n > 0 {
        lemma_value_bits_len(value / 2, (n - 1) as nat);
    }
}

/// The number held by one bit.
pub proof fn lemma_one_bit(bits: Seq<bool>, i: int)
    requires
        0 <= i < bits.len(),
    ensures
        bits_value(bits.subrange(i, i + 1)) == if bits[i] { 1nat } else { 0nat },
{
    reveal_with_fuel(bits_value, 2);
}

/// Each bit of a number, by its place.
pub proof fn lemma_value_bits_index(value: nat, n: nat, i: int)
    requires
        0 <= i < n,
    ensures
        value_bits(value, n)[i] == ((value / pow2((n - 1 - i) as nat)) % 2 == 1),
    decreases n,
{
    lemma_value_bits_len(value / 2, (n - 1) as nat);
    if i == n - 1 {
        lemma2_to64();
        assert(value / 1 == value);
    } else {
        let k = (n - 2 - i) as nat;
        assert((n - 1 - i) as nat == k + 1);
        assert(((n - 1) as nat - 1 - i) as nat == k);
        lemma_value_bits_index(value / 2, (n - 1) as nat, i);
        lemma_pow2_unfold(k + 1);
        lemma_pow2_pos(k);
        lemma_div_denominator(value as int, 2, pow2(k) as int);
    }
}

pub proof fn lemma_bits_value_bound(bits: Seq<bool>)
    ensures
        bits_value(bits) < pow2(bits.len()),
    decreases bits.len(),
{
    lemma2_to64();
    if bits.len() > 0 {
        lemma_bits_value_bound(bits.drop_last());
        lemma_pow2_unfold(bits.len());
    }
}

/// Taking a number's bits and reading them back gives the number, if it fits.
pub proof fn lemma_value_of_bits(value: nat, n: nat)
    requires
        value < pow2(n),
    ensures
        bits_value(value_bits(value, n)) == value,
        value_bits(value, n).len() == n,
    decreases n,
{
    lemma2_to64();
    if n > 0 {
        lemma_pow2_unfold(n);
        lemma_value_of_bits(value / 2, (n - 1) as nat);
        let bits = value_bits(value, n);
        assert(bits.drop_last() =~= value_bits(value / 2, (n - 1) as nat));
    }
}

/// Reading a bit string as a number and taking that number's bits gives the bit string.
pub proof fn lemma_bits_of_value(bits: Seq<bool>)
    ensures
        value_bits(bits_value(bits), bits.len()) == bits,
    decreases bits.len(),
{
    if bits.len() > 0 {
        let head = bits.drop_last();
        lemma_bits_of_value(head);
        let value = bits_value(bits);
        assert(value / 2 == bits_value(head));
        assert(bits =~= head.push(bits.last()));
    } else {
        assert(value_bits(0, 0) =~= bits);
    }
}

/// The number of two bit strings in a row.
pub proof fn lemma_bits_value_concat(high: Seq<bool>, low: Seq<bool>)
    ensures
        bits_value(high + low) == bits_value(high) * pow2(low.len()) + bits_value(low),
    decreases low.len(),
{
    lemma2_to64();
    if low.len() == 0 {
        assert(high + low =~= high);
        assert(bits_value(high) * 1 == bits_value(high));
    } else {
        let all = high + low;
        assert(all.drop_last() =~= high + low.drop_last());
        lemma_bits_value_concat(high, low.drop_last());
        lemma_pow2_unfold(low.len());
        let h = bits_value(high);
        let p = pow2((low.len() - 1) as nat);
        assert(2 * (h * p) == h * (2 * p)) by (nonlinear_arith);
    }
}

/// The bits of a number split at any place are the bits of its two parts.
pub proof fn lemma_value_bits_concat(high: nat, n: nat, low: nat, m: nat)
    requires
        low < pow2(m),
    ensures
        value_bits(high * pow2(m) + low, n + m) == value_bits(high, n) + value_bits(low, m),
    decreases m,
{
    lemma2_to64();
    if m == 0 {
        assert(high * 1 == high);
        assert(value_bits(high, n) + value_bits(low, m) =~= value_bits(high, n));
    } else {
        let k = (m - 1) as nat;
        lemma_pow2_unfold(m);
        lemma_value_bits_concat(high, n, low / 2, k);
        let p = pow2(k);
        let value = high * pow2(m) + low;
        assert(high * (2 * p) == 2 * (high * p)) by (nonlinear_arith);
        assert(value / 2 == high * p + low / 2);
        assert(value % 2 == low % 2);
        assert((n + m - 1) as nat == n + k);
        assert(value_bits(value, n + m) =~= value_bits(high, n) + value_bits(low, m));
    }
}

/// The low bits of a number do not depend on what stands above them.
pub proof fn lemma_value_bits_low(value: nat, n: nat, m: nat)
    requires
        n <= m,
    ensures
        value_bits(value, n) == value_bits(value % pow2(m), n),
    decreases n,
{
    lemma_pow2_pos(m);
    if n > 0 {
        let k = (m - 1) as nat;
        lemma_pow2_pos(k);
        lemma_pow2_unfold(m);
        lemma_value_bits_low(value / 2, (n - 1) as nat, k);
        let low = value % pow2(m);
        lemma_mod_breakdown(value as int, 2, pow2(k) as int);
        let above = (value / 2) % pow2(k);
        assert(low == 2 * above + value % 2);
        assert(low / 2 == above && low % 2 == value % 2);
    }
}

/// The `n` bits from the place `from` on are the low `n` binary digits of `value`, the most
/// significant one first.
pub open spec fn holds(bits: Seq<bool>, from: int, n: int, value: nat) -> bool {
    &&& 0 <= from
    &&& from + n <= bits.len()
    &&& forall|j: int|
        from <= j < from + n ==> #[trigger] bits[j] == ((value / pow2((from + n - 1 - j) as nat))
            % 2 == 1)
}

/// Where the bits of a number stand, they hold it, and only its bits do.
pub proof fn lemma_holds(bits: Seq<bool>, from: int, n: int, value: nat)
    requires
        0 <= from,
        0 <= n,
        from + n <= bits.len(),
    ensures
        holds(bits, from, n, value) <==> bits.subrange(from, from + n) == value_bits(
            value,
            n as nat,
        ),
{
    let field = bits.subrange(from, from + n);
    let digits = value_bits(value, n as nat);
    lemma_value_bits_len(value, n as nat);
    assert forall|j: int| from <= j < from + n implies #[trigger] bits[j] == field[j - from]
        && digits[j - from] == ((value / pow2((from + n - 1 - j) as nat)) % 2 == 1) by {
        lemma_value_bits_index(value, n as nat, j - from);
        assert((n as nat - 1 - (j - from)) as nat == (from + n - 1 - j) as nat);
    }
    if field == digits {
        assert forall|j: int| from <= j < from + n implies #[trigger] bits[j] == ((value / pow2(
            (from + n - 1 - j) as nat,
        )) % 2 == 1) by {
            assert(bits[j] == field[j - from]);
        }
    }
    if holds(bits, from, n, value) {
        assert forall|i: int| 0 <= i < n implies field[i] == digits[i] by {
            assert(bits[from + i] == field[i]);
        }
        assert(field =~= digits);
    }
}

/// The bits of a number are its binary digits, of which there are as many as asked for.
pub proof fn law_bits_are_binary_digits(value: nat, n: nat)
    ensures
        value_bits(value, n).len() == n,
        forall|j: int|
            0 <= j < n ==> #[trigger] value_bits(value, n)[j] == ((value / pow2((n - 1 - j) as nat))
                % 2 == 1),
{
    lemma_value_bits_len(value, n);
    assert forall|j: int| 0 <= j < n implies #[trigger] value_bits(value, n)[j] == ((value / pow2(
        (n - 1 - j) as nat,
    )) % 2 == 1) by {
        lemma_value_bits_index(value, n, j);
    }
}

/// The number that bits stand for is the one number below the power of two that they can reach
/// whose binary digits they are.
pub proof fn law_bits_stand_for_one_number(bits: Seq<bool>, other: nat)
    ensures
        bits_value(bits) < pow2(bits.len()),
        forall|j: int|
            0 <= j < bits.len() ==> #[trigger] bits[j] == ((bits_value(bits) / pow2(
                (bits.len() - 1 - j) as nat,
            )) % 2 == 1),
        other < pow2(bits.len()) && holds(bits, 0, bits.len() as int, other) ==> other
            == bits_value(bits),
{
    let n = bits.len();
    lemma_bits_value_bound(bits);
    lemma_bits_of_value(bits);
    assert(bits.subrange(0, n as int) =~= bits);
    law_bits_are_binary_digits(bits_value(bits), n);
    lemma_holds(bits, 0, n as int, other);
    if other < pow2(n) && holds(bits, 0, n as int, other) {
        lemma_value_of_bits(other, n);
    }
}

/// A field that holds a number holds no other one that fits it.
pub proof fn law_a_field_holds_one_number(
    bits: Seq<bool>,
    from: int,
    n: int,
    value: nat,
    other: nat,
)
    requires
        0 <= n,
        holds(bits, from, n, value),
        holds(bits, from, n, other),
        value < pow2(n as nat),
        other < pow2(n as nat),
    ensures
        value == other,
        value == bits_value(bits.subrange(from, from + n)),
{
    lemma_holds(bits, from, n, value);
    lemma_holds(bits, from, n, other);
    lemma_value_of_bits(value, n as nat);
    lemma_value_of_bits(other, n as nat);
}

/// The number of a field's bits is held by the field.
pub proof fn lemma_field_holds_its_number(bits: Seq<bool>, from: int, n: int)
    requires
        0 <= from,
        0 <= n,
        from + n <= bits.len(),
    ensures
        holds(bits, from, n, bits_value(bits.subrange(from, from + n))),
        bits_value(bits.subrange(from, from + n)) < pow2(n as nat),
{
    lemma_bits_value_bound(bits.subrange(from, from + n));
    lemma_bits_of_value(bits.subrange(from, from + n));
    lemma_holds(bits, from, n, bits_value(bits.subrange(from, from + n)));
}

/// A field of a part is a field of the whole, as much further on as the part is.
pub proof fn lemma_holds_within(
    before: Seq<bool>,
    part: Seq<bool>,
    after: Seq<bool>,
    from: int,
    n: int,
    value: nat,
)
    requires
        0 <= n,
        holds(part, from, n, value),
    ensures
        holds(before + part + after, before.len() + from, n, value),
{
    let all = before + part + after;
    let at = before.len() + from;
    assert forall|j: int| at <= j < at + n implies #[trigger] all[j] == ((value / pow2(
        (at + n - 1 - j) as nat,
    )) % 2 == 1) by {
        let i = j - before.len();
        assert(all[j] == part[i]);
        assert((from + n - 1 - i) as nat == (at + n - 1 - j) as nat);
    }
}

/// The bits of a number hold it wherever they stand.
pub proof fn lemma_value_bits_within(before: Seq<bool>, value: nat, n: nat, after: Seq<bool>)
    ensures
        holds(before + value_bits(value, n) + after, before.len() as int, n as int, value),
        value_bits(value, n).len() == n,
{
    let part = value_bits(value, n);
    lemma_value_bits_len(value, n);
    assert(part.subrange(0, 0 + n as int) =~= part);
    lemma_holds(part, 0, n as int, value);
    lemma_holds_within(before, part, after, 0, n as int, value);
}

} // verus!
