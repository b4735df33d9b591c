//! The layout of a packed value, as plain arithmetic.
//!
//! A packed value is the concatenation of its components, each in a slot of
//! `width` bits, the component at index 0 in the most significant slot. This
//! file says what that means over `int` and `nat`, and proves what the codec
//! and its callers rely on.

use vstd::arithmetic::div_mod::{
    lemma_basic_div,
    lemma_fundamental_div_mod,
    lemma_fundamental_div_mod_converse,
    lemma_mod_bound,
    lemma_small_mod,
};
use vstd::arithmetic::power2::{
    lemma2_to64,
    lemma_pow2_adds,
    lemma_pow2_pos,
    lemma_pow2_strictly_increases,
    pow2,
};
use vstd::prelude::*;

verus! {

/// The number that `values` make when laid side by side in slots of `width`
/// bits, first value in the most significant slot: the sum of
/// `values[i] * 2^(width * (len - 1 - i))`.
///
/// A value that does not fit its slot is added all the same, and runs over
/// into the slots above it.
pub open spec fn packed_value(values: Seq<nat>, width: nat) -> nat
    decreases values.len(),
{
    if values.len() == 0 {
        0
    } else {
        values.first() * pow2(width * (values.len() - 1) as nat) + packed_value(
            values.drop_first(),
            width,
        )
    }
}

/// What stands in slot `index` of `packed`, slots counted from the least
/// significant one. For a negative `packed` these are the bits of its two's
/// complement.
pub open spec fn slot(packed: int, width: nat, index: nat) -> nat {
    ((packed / (pow2(width * index) as int)) % (pow2(width) as int)) as nat
}

/// The `count` lowest slots of `packed`, most significant of them first.
pub open spec fn unpacked(packed: int, width: nat, count: nat) -> Seq<nat> {
    Seq::new(count, |i: int| slot(packed, width, (count - 1 - i) as nat))
}

/// Each of `values` cut down to its `bits` low bits.
pub open spec fn truncated(values: Seq<nat>, bits: nat) -> Seq<nat> {
    Seq::new(values.len(), |i: int| values[i] % pow2(bits))
}

/// Every one of `values` fits a slot of `width` bits.
pub open spec fn all_fit(values: Seq<nat>, width: nat) -> bool {
    forall|i: int| 0 <= i < values.len() ==> #[trigger] values[i] < pow2(width)
}

/// `2^(width * (k + 1))` is `2^(width * k)` times `2^width`.
pub proof fn lemma_pow2_next_slot(width: nat, k: nat)
    ensures
        pow2(width * (k + 1)) == pow2(width * k) * pow2(width),
        pow2(width * k) > 0,
        pow2(width) > 0,
{
    assert(width * (k + 1) == width * k + width) by (nonlinear_arith);
    lemma_pow2_adds(width * k, width);
    lemma_pow2_pos(width * k);
    lemma_pow2_pos(width);
}

/// Dividing by `c` and then by `d` is dividing by `c * d`, for a dividend of
/// either sign.
pub proof fn lemma_div_twice(x: int, c: int, d: int)
    requires
        0 < c,
        0 < d,
    ensures
        0 < c * d,
        (x / c) / d == x / (c * d),
{
    let q1 = x / c;
    let r1 = x % c;
    let q2 = q1 / d;
    let r2 = q1 % d;
    lemma_fundamental_div_mod(x, c);
    lemma_fundamental_div_mod(q1, d);
    lemma_mod_bound(x, c);
    lemma_mod_bound(q1, d);
    assert(0 < c * d) by (nonlinear_arith)
        requires
            0 < c,
            0 < d,
    ;
    assert(x == q2 * (c * d) + (c * r2 + r1)) by (nonlinear_arith)
        requires
            x == c * q1 + r1,
            q1 == d * q2 + r2,
    ;
    assert(0 <= c * r2 + r1 < c * d) by (nonlinear_arith)
        requires
            0 < c,
            0 <= r1 < c,
            0 <= r2 < d,
    ;
    lemma_fundamental_div_mod_converse(x, c * d, q2, c * r2 + r1);
}

/// Shifting `k` slots out and then one more is shifting `k + 1` slots out.
pub proof fn lemma_shift_one_more(packed: int, width: nat, k: nat)
    ensures
        (packed / (pow2(width * k) as int)) / (pow2(width) as int) == packed / (pow2(
            width * (k + 1),
        ) as int),
{
    lemma_pow2_next_slot(width, k);
    lemma_div_twice(packed, pow2(width * k) as int, pow2(width) as int);
}

/// Slot `index + 1` of a number is slot `index` of that number shifted right
/// by one slot.
pub proof fn lemma_slot_after_shift(packed: int, width: nat, index: nat)
    ensures
        slot(packed, width, index + 1) == slot(packed / (pow2(width) as int), width, index),
{
    let one = pow2(width) as int;
    let many = pow2(width * index) as int;
    lemma_pow2_next_slot(width, index);
    lemma_div_twice(packed, one, many);
    assert(one * many == many * one) by (nonlinear_arith);
}

/// A slot holds less than `2^width`.
pub proof fn lemma_slot_bound(packed: int, width: nat, index: nat)
    ensures
        slot(packed, width, index) < pow2(width),
{
    lemma_pow2_pos(width);
    lemma_mod_bound(packed / (pow2(width * index) as int), pow2(width) as int);
}

/// Above the bits of a number that is not negative every slot is zero.
pub proof fn lemma_slot_above_is_zero(packed: int, width: nat, count: nat, index: nat)
    requires
        0 <= packed < pow2(width * count),
        count <= index,
    ensures
        slot(packed, width, index) == 0,
{
    assert(width * count <= width * index) by (nonlinear_arith)
        requires
            count <= index,
    ;
    if width * count < width * index {
        lemma_pow2_strictly_increases(width * count, width * index);
    }
    lemma_basic_div(packed, pow2(width * index) as int);
    lemma_pow2_pos(width);
    assert(0int % (pow2(width) as int) == 0) by {
        lemma_fundamental_div_mod_converse(0, pow2(width) as int, 0, 0);
    }
}

/// Appending one value shifts what was packed so far up by one slot and adds
/// the new value: the step that packing takes for each component.
pub proof fn lemma_packed_value_push(values: Seq<nat>, last: nat, width: nat)
    ensures
        packed_value(values.push(last), width) == packed_value(values, width) * pow2(width)
            + last,
    decreases values.len(),
{
    let longer = values.push(last);
    if values.len() == 0 {
        lemma2_to64();
        assert(packed_value(longer.drop_first(), width) == 0);
        assert(packed_value(values, width) * pow2(width) == 0) by (nonlinear_arith)
            requires
                packed_value(values, width) == 0,
        ;
    } else {
        let tail = values.drop_first();
        assert(longer.drop_first() =~= tail.push(last));
        lemma_packed_value_push(tail, last, width);
        let k = (values.len() - 1) as nat;
        lemma_pow2_next_slot(width, k);
        let head = values.first();
        let rest = packed_value(tail, width);
        assert(packed_value(longer, width) == head * pow2(width * (k + 1)) + (rest * pow2(width)
            + last));
        assert((head * pow2(width * k) + rest) * pow2(width) == head * (pow2(width * k) * pow2(
            width,
        )) + rest * pow2(width)) by (nonlinear_arith);
    }
}

/// Values that fit their slots pack into a number of at most
/// `width * len` bits.
pub proof fn lemma_packed_value_bound(values: Seq<nat>, width: nat)
    requires
        all_fit(values, width),
    ensures
        packed_value(values, width) < pow2(width * values.len()),
    decreases values.len(),
{
    if values.len() == 0 {
        lemma2_to64();
    } else {
        let tail = values.drop_first();
        assert(all_fit(tail, width));
        lemma_packed_value_bound(tail, width);
        let k = (values.len() - 1) as nat;
        lemma_pow2_next_slot(width, k);
        let head = values.first();
        let rest = packed_value(tail, width);
        let below = pow2(width * k);
        let one = pow2(width);
        assert(head * below + rest < below * one) by (nonlinear_arith)
            requires
                head < one,
                rest < below,
        ;
    }
}

/// In the packing of values that fit their slots, each value stands in its
/// own slot, unchanged: the last value in slot 0, the first in the highest.
pub proof fn lemma_slot_of_packed_value(values: Seq<nat>, width: nat, index: nat)
    requires
        all_fit(values, width),
        index < values.len(),
    ensures
        slot(packed_value(values, width) as int, width, index) == values[values.len() - 1
            - index],
    decreases values.len(),
{
    let front = values.drop_last();
    let last = values.last();
    assert(values =~= front.push(last));
    lemma_packed_value_push(front, last, width);
    let below = packed_value(front, width) as int;
    let whole = packed_value(values, width) as int;
    let one = pow2(width) as int;
    lemma_pow2_pos(width);
    lemma_fundamental_div_mod_converse(whole, one, below, last as int);
    if index == 0 {
        lemma2_to64();
        assert(whole / 1 == whole);
    } else {
        let lower = (index - 1) as nat;
        assert(all_fit(front, width));
        lemma_slot_after_shift(whole, width, lower);
        lemma_slot_of_packed_value(front, width, lower);
        assert(front[front.len() - 1 - lower] == values[values.len() - 1 - index]);
    }
}

/// Unpacking what was packed gives the same values back, as long as every
/// value fits its slot.
pub proof fn lemma_unpacked_packed_value(values: Seq<nat>, width: nat)
    requires
        all_fit(values, width),
    ensures
        unpacked(packed_value(values, width) as int, width, values.len()) =~= values,
{
    let back = unpacked(packed_value(values, width) as int, width, values.len());
    assert forall|i: int| 0 <= i < values.len() implies back[i] == values[i] by {
        lemma_slot_of_packed_value(values, width, (values.len() - 1 - i) as nat);
    }
}

/// A value too large for its slot does not come back: unpacking what was
/// packed then gives other values than went in.
pub proof fn lemma_overflow_is_not_restored(values: Seq<nat>, width: nat)
    requires
        !all_fit(values, width),
    ensures
        unpacked(packed_value(values, width) as int, width, values.len()) != values,
{
    let back = unpacked(packed_value(values, width) as int, width, values.len());
    let i = choose|i: int| 0 <= i < values.len() && !(#[trigger] values[i] < pow2(width));
    lemma_slot_bound(packed_value(values, width) as int, width, (values.len() - 1 - i) as nat);
}

/// Three values pack into `a * 2^(2 * width) + b * 2^width + c`.
pub proof fn lemma_packed_value_of_three(a: nat, b: nat, c: nat, width: nat)
    ensures
        packed_value(seq![a, b, c], width) == a * pow2(2 * width) + b * pow2(width) + c,
{
    let none = Seq::<nat>::empty();
    assert(seq![a, b, c] =~= none.push(a).push(b).push(c));
    assert(packed_value(none, width) == 0);
    lemma_packed_value_push(none, a, width);
    lemma_packed_value_push(none.push(a), b, width);
    lemma_packed_value_push(none.push(a).push(b), c, width);
    lemma_pow2_adds(width, width);
    let one = pow2(width);
    assert((a * one + b) * one + c == a * (one * one) + b * one + c) by (nonlinear_arith);
}

/// One value packs into itself, and comes back out of its own packing as
/// long as it fits the slot.
pub proof fn lemma_packed_value_of_one(a: nat, width: nat)
    ensures
        packed_value(seq![a], width) == a,
        a < pow2(width) ==> unpacked(a as int, width, 1) =~= seq![a],
{
    let none = Seq::<nat>::empty();
    assert(packed_value(none, width) == 0);
    lemma_packed_value_push(none, a, width);
    if a < pow2(width) {
        lemma_unpacked_packed_value(seq![a], width);
    }
}

/// Asking for more components than a packed value holds is no error: the
/// slots above its bits read as zero. They are the most significant ones, so
/// the zeros come first and the components that are there follow unchanged.
pub proof fn lemma_unpacked_over_count(packed: int, width: nat, count: nat, extra: nat)
    requires
        0 <= packed < pow2(width * count),
    ensures
        unpacked(packed, width, count + extra) =~= Seq::new(extra, |i: int| 0nat) + unpacked(
            packed,
            width,
            count,
        ),
{
    let longer = unpacked(packed, width, count + extra);
    let padded = Seq::new(extra, |i: int| 0nat) + unpacked(packed, width, count);
    assert forall|i: int| 0 <= i < count + extra implies longer[i] == padded[i] by {
        if i < extra {
            lemma_slot_above_is_zero(packed, width, count, (count + extra - 1 - i) as nat);
        }
    }
}

/// Values that the narrower type can hold pass through truncation unchanged.
pub proof fn lemma_truncated_keeps(values: Seq<nat>, bits: nat)
    requires
        all_fit(values, bits),
    ensures
        truncated(values, bits) =~= values,
{
    let cut = truncated(values, bits);
    lemma_pow2_pos(bits);
    assert forall|i: int| 0 <= i < values.len() implies #[trigger] cut[i] == values[i] by {
        lemma_small_mod(values[i], pow2(bits));
    }
}

} // verus!
