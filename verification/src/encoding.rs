//! The codec: `pack` lays components side by side in one big integer,
//! `unpack` reads them back, and `EncodedCiphertext` keeps such an integer
//! together with the number of components in it.

use crate::bigint::{duplicate, int_value, mod_floor, same_value, shift_left, shift_right, sum};
use crate::convert::{power_of_two, Component};
use crate::layout::{
    all_fit,
    lemma_packed_value_of_one,
    lemma_packed_value_of_three,
    lemma_packed_value_push,
    lemma_shift_one_more,
    lemma_slot_bound,
    lemma_truncated_keeps,
    lemma_unpacked_over_count,
    lemma_unpacked_packed_value,
    packed_value,
    slot,
    truncated,
    unpacked,
};
use num_bigint::BigInt;
use std::marker::PhantomData;
use vstd::arithmetic::div_mod::{lemma_mod_decreases, lemma_small_mod};
use vstd::arithmetic::power2::{lemma2_to64, lemma_pow2_pos, pow2};
use vstd::prelude::*;

verus! {

/// What an `EncodedCiphertext` holds, as plain numbers.
pub struct EncodedCiphertextView {
    pub raw: int,
    pub components: nat,
}

/// A packed, possibly encrypted, integer with the number of components in
/// it. `T` names the scheme that made it and is nowhere stored, so that
/// values of different schemes are of different types.
#[derive(Debug)]
pub struct EncodedCiphertext<T> {
    pub raw: BigInt,
    pub components: usize,
    _phantom: PhantomData<T>,
}

impl<T> View for EncodedCiphertext<T> {
    type V = EncodedCiphertextView;

    closed spec fn view(&self) -> EncodedCiphertextView {
        EncodedCiphertextView { raw: int_value(self.raw), components: self.components as nat }
    }
}

impl<T> EncodedCiphertext<T> {
    pub fn new(raw: BigInt, components: usize) -> (r: Self)
        ensures
            r@.raw == int_value(raw),
            r@.components == components,
    {
        Self { raw, components, _phantom: PhantomData }
    }

    /// The packed integer.
    pub fn raw(&self) -> (r: &BigInt)
        ensures
            int_value(*r) == self@.raw,
    {
        &self.raw
    }

    /// The number of components packed in it.
    pub fn components(&self) -> (r: usize)
        ensures
            r == self@.components,
    {
        self.components
    }
}

impl<T> Clone for EncodedCiphertext<T> {
    fn clone(&self) -> (r: Self)
        ensures
            r@ == self@,
    {
        Self { raw: duplicate(&self.raw), components: self.components, _phantom: PhantomData }
    }
}

impl<T> PartialEq for EncodedCiphertext<T> {
    fn eq(&self, other: &Self) -> (r: bool) {
        same_value(&self.raw, &other.raw) && self.components == other.components
    }
}

impl<T> vstd::std_specs::cmp::PartialEqSpecImpl for EncodedCiphertext<T> {
    open spec fn obeys_eq_spec() -> bool {
        true
    }

    open spec fn eq_spec(&self, other: &Self) -> bool {
        self@ == other@
    }
}

/// Why `pack` gave no packed value.
#[derive(Clone, Copy, Debug, PartialEq, Eq, Structural)]
pub enum PackError {
    /// The sequence holds no component: there is no index 0 to start from.
    OutOfBounds,
}

/// The numbers that a sequence of components stands for.
pub open spec fn values_of<T: Component>(components: Seq<T>) -> Seq<nat> {
    Seq::new(components.len(), |i: int| components[i].value())
}

/// What `unpack` returns for a packed value, a slot size and a count, said
/// of the returned components: they stand for the slots of the packed
/// value, most significant first, each cut down to the width of `T`.
pub open spec fn is_unpacking<T: Component>(
    components: Seq<T>,
    packed: int,
    component_bitsize: nat,
    component_count: nat,
) -> bool {
    values_of(components) =~= truncated(
        unpacked(packed, component_bitsize, component_count),
        T::width(),
    )
}

/// Packs `components` into one integer, each in a slot of
/// `component_bitsize` bits, the first in the most significant slot.
///
/// No component is checked against the size of its slot: one that is
/// `2^component_bitsize` or more runs over into the slots above it, and
/// `unpack` then gives back other components than went in.
pub fn pack<T: Component>(components: &[T], component_bitsize: usize) -> (r: Result<
    BigInt,
    PackError,
>)
    ensures
        match r {
            Ok(packed) => components@.len() > 0 && int_value(packed) == packed_value(
                values_of(components@),
                component_bitsize as nat,
            ),
            Err(e) => components@.len() == 0 && e == PackError::OutOfBounds,
        },
{
    if components.len() == 0 {
        return Err(PackError::OutOfBounds);
    }
    let ghost width = component_bitsize as nat;
    let mut packed = components[0].to_bigint();
    proof {
        let first = components@[0].value();
        assert(values_of(components@.take(1)) =~= Seq::<nat>::empty().push(first));
        lemma_packed_value_push(Seq::<nat>::empty(), first, width);
        assert(packed_value(Seq::<nat>::empty(), width) == 0);
    }
    let mut i: usize = 1;
    while i < components.len()
        invariant
            1 <= i <= components@.len(),
            width == component_bitsize as nat,
            int_value(packed) == packed_value(values_of(components@.take(i as int)), width),
        decreases components@.len() - i,
    {
        proof {
            assert(values_of(components@.take(i + 1)) =~= values_of(
                components@.take(i as int),
            ).push(components@[i as int].value()));
            lemma_packed_value_push(
                values_of(components@.take(i as int)),
                components@[i as int].value(),
                width,
            );
        }
        packed = shift_left(packed, component_bitsize);
        packed = sum(packed, components[i].to_bigint());
        i += 1;
    }
    proof {
        assert(components@.take(i as int) =~= components@);
    }
    Ok(packed)
}

/// The same items, last first.
fn reversed<T: Copy>(items: &Vec<T>) -> (r: Vec<T>)
    ensures
        r@ =~= items@.reverse(),
{
    let mut r: Vec<T> = Vec::new();
    let mut left: usize = items.len();
    while left > 0
        invariant
            left <= items@.len(),
            r@.len() == items@.len() - left,
            forall|j: int| 0 <= j < r@.len() ==> r@[j] == items@[items@.len() - 1 - j],
        decreases left,
    {
        left -= 1;
        r.push(items[left]);
    }
    r
}

/// Reads `component_count` components back out of `packed_components`, each
/// from a slot of `component_bitsize` bits, the most significant of these
/// slots first.
///
/// A slot wider than `T` is cut down to the low bits that `T` can hold. A
/// `component_count` beyond what the integer holds is no error: the slots
/// above its bits read as zero.
pub fn unpack<T: Component>(
    packed_components: BigInt,
    component_bitsize: usize,
    component_count: usize,
) -> (r: Vec<T>)
    ensures
        r@.len() == component_count,
        is_unpacking(
            r@,
            int_value(packed_components),
            component_bitsize as nat,
            component_count as nat,
        ),
{
    let ghost whole = int_value(packed_components);
    let ghost width = component_bitsize as nat;
    let mask = power_of_two(component_bitsize);
    let mut rest = packed_components;
    let mut low_first: Vec<T> = Vec::new();
    proof {
        lemma2_to64();
        assert(whole / 1 == whole);
    }
    let mut done: usize = 0;
    while done < component_count
        invariant
            done <= component_count,
            width == component_bitsize as nat,
            int_value(mask) == pow2(width),
            int_value(rest) == whole / (pow2(width * (done as nat)) as int),
            low_first@.len() == done,
            forall|j: int|
                0 <= j < done ==> (#[trigger] low_first@[j]).value() == slot(
                    whole,
                    width,
                    j as nat,
                ) % pow2(T::width()),
        decreases component_count - done,
    {
        proof {
            lemma_pow2_pos(width);
            lemma_shift_one_more(whole, width, done as nat);
        }
        let raw_component = mod_floor(&rest, &mask);
        let component = T::truncate_from(&raw_component);
        low_first.push(component);
        rest = shift_right(rest, component_bitsize);
        done += 1;
    }
    let r = reversed(&low_first);
    proof {
        let count = component_count as nat;
        let slots = unpacked(whole, width, count);
        lemma_pow2_pos(T::width());
        assert forall|i: int| 0 <= i < count implies values_of(r@)[i] == truncated(
            slots,
            T::width(),
        )[i] by {
            assert(r@[i] == low_first@[count - 1 - i]);
            assert(slots[i] == slot(whole, width, (count - 1 - i) as nat));
        }
    }
    r
}

/// Round trip: where every component is less than `2^component_bitsize`,
/// unpacking what `pack` made of them, with the same slot size and their
/// count, gives the same components back.
pub proof fn lemma_unpack_pack<T: Component>(
    components: Seq<T>,
    component_bitsize: nat,
    back: Seq<T>,
)
    requires
        all_fit(values_of(components), component_bitsize),
        is_unpacking(
            back,
            packed_value(values_of(components), component_bitsize) as int,
            component_bitsize,
            components.len(),
        ),
    ensures
        back == components,
{
    let values = values_of(components);
    lemma_unpacked_packed_value(values, component_bitsize);
    assert(all_fit(values, T::width())) by {
        assert forall|i: int| 0 <= i < values.len() implies #[trigger] values[i] < pow2(
            T::width(),
        ) by {
            components[i].lemma_value_bound();
        }
    }
    lemma_truncated_keeps(values, T::width());
    assert forall|i: int| 0 <= i < components.len() implies back[i] == components[i] by {
        assert(values_of(back)[i] == values[i]);
        back[i].lemma_value_injective(components[i]);
    }
}

/// A component of `2^component_bitsize` or more is lost: unpacking what
/// `pack` made of such a sequence never gives the sequence back.
pub proof fn lemma_unpack_pack_overflow<T: Component>(
    components: Seq<T>,
    component_bitsize: nat,
    back: Seq<T>,
)
    requires
        !all_fit(values_of(components), component_bitsize),
        is_unpacking(
            back,
            packed_value(values_of(components), component_bitsize) as int,
            component_bitsize,
            components.len(),
        ),
    ensures
        back != components,
{
    let values = values_of(components);
    let packed = packed_value(values, component_bitsize) as int;
    let slots = unpacked(packed, component_bitsize, components.len());
    let i = choose|i: int|
        0 <= i < values.len() && !(#[trigger] values[i] < pow2(component_bitsize));
    lemma_slot_bound(packed, component_bitsize, (components.len() - 1 - i) as nat);
    lemma_pow2_pos(T::width());
    lemma_mod_decreases(slots[i], pow2(T::width()));
    assert(values_of(back)[i] == slots[i] % pow2(T::width()));
}

/// Asking `unpack` for more components than a packed value holds is no
/// error. The slots above the bits of the value read as zero; they are the
/// most significant ones, so the zero components come first, and after them
/// the components that unpacking with the true count gives.
pub proof fn lemma_unpack_over_count<T: Component>(
    packed: int,
    component_bitsize: nat,
    component_count: nat,
    extra: nat,
    exact: Seq<T>,
    longer: Seq<T>,
)
    requires
        0 <= packed < pow2(component_bitsize * component_count),
        is_unpacking(exact, packed, component_bitsize, component_count),
        is_unpacking(longer, packed, component_bitsize, component_count + extra),
    ensures
        longer.len() == component_count + extra,
        forall|i: int| 0 <= i < extra ==> (#[trigger] longer[i]).value() == 0,
        longer.skip(extra as int) == exact,
{
    lemma_unpacked_over_count(packed, component_bitsize, component_count, extra);
    let short_slots = unpacked(packed, component_bitsize, component_count);
    let long_slots = unpacked(packed, component_bitsize, component_count + extra);
    lemma_pow2_pos(T::width());
    assert forall|i: int| 0 <= i < extra implies (#[trigger] longer[i]).value() == 0 by {
        assert(values_of(longer)[i] == long_slots[i] % pow2(T::width()));
        lemma_small_mod(0, pow2(T::width()));
    }
    let tail = longer.skip(extra as int);
    assert forall|i: int| 0 <= i < component_count implies tail[i] == exact[i] by {
        assert(values_of(longer)[i + extra] == long_slots[i + extra] % pow2(T::width()));
        assert(values_of(exact)[i] == short_slots[i] % pow2(T::width()));
        tail[i].lemma_value_injective(exact[i]);
    }
}

/// Three components `a`, `b`, `c` pack into
/// `a * 2^(2 * component_bitsize) + b * 2^component_bitsize + c`.
pub proof fn lemma_pack_three<T: Component>(a: T, b: T, c: T, component_bitsize: nat)
    ensures
        packed_value(values_of(seq![a, b, c]), component_bitsize) == a.value() * pow2(
            2 * component_bitsize,
        ) + b.value() * pow2(component_bitsize) + c.value(),
{
    assert(values_of(seq![a, b, c]) =~= seq![a.value(), b.value(), c.value()]);
    lemma_packed_value_of_three(a.value(), b.value(), c.value(), component_bitsize);
}

/// One component packs into the number it stands for, whatever the slot
/// size; and unpacking one component from that number gives it back, as long
/// as it is less than `2^component_bitsize`.
pub proof fn lemma_pack_one<T: Component>(a: T, component_bitsize: nat, back: Seq<T>)
    ensures
        packed_value(values_of(seq![a]), component_bitsize) == a.value(),
        a.value() < pow2(component_bitsize) && is_unpacking(
            back,
            a.value() as int,
            component_bitsize,
            1,
        ) ==> back == seq![a],
{
    assert(values_of(seq![a]) =~= seq![a.value()]);
    lemma_packed_value_of_one(a.value(), component_bitsize);
    if a.value() < pow2(component_bitsize) && is_unpacking(
        back,
        a.value() as int,
        component_bitsize,
        1,
    ) {
        lemma_unpack_pack(seq![a], component_bitsize, back);
    }
}

} // verus!
