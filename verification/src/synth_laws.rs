//! What vetting an input guarantees.
use crate::binary32;
use crate::bytes;
use crate::fixture;
use crate::fixture::FixtureView;
use crate::fixture_laws;
use crate::prng;
use crate::prng_laws;
use crate::rope;
use crate::shims;
use crate::synth;
use crate::synth::RefusalView;
use crate::text;
use vstd::arithmetic::power2::*;
use vstd::prelude::*;

verus! {

/// An input is handed on unchanged if and only if the fixture records its checksum.
pub proof fn law_vetting_is_by_checksum(
    f: FixtureView,
    test: Seq<char>,
    name: Seq<char>,
    storage: Seq<u8>,
)
    ensures
        synth::vetted(f, test, name, storage) == Ok::<Seq<u8>, RefusalView>(storage)
            <==> f.checksums.contains_key(fixture::check_key(test, name))
            && f.checksums[fixture::check_key(test, name)] == prng::checksum_of(storage, 0),
{
}

/// Where an input is handed on, one that differs from it in a single word is refused.
pub proof fn law_a_changed_word_is_refused(
    f: FixtureView,
    test: Seq<char>,
    name: Seq<char>,
    storage: Seq<u8>,
    changed: Seq<u8>,
    k: nat,
)
    requires
        synth::vetted(f, test, name, storage) is Ok,
        storage.len() == changed.len(),
        k < prng::words_in(storage.len()),
        bytes::word_at(storage, k as int) != bytes::word_at(changed, k as int),
        forall|i: int|
            i != k ==> bytes::word_at(storage, i) == #[trigger] bytes::word_at(changed, i),
    ensures
        synth::vetted(f, test, name, changed) == Err::<Seq<u8>, RefusalView>(
            RefusalView::Diverged {
                input: text::joined(test, name),
                actual: prng::checksum_of(changed, 0),
                expected: prng::checksum_of(storage, 0),
            },
        ),
{
    prng_laws::law_checksum_detects_a_changed_word(storage, changed, 0, k);
}

/// Recording a checksum of one test changes nothing for any other test.
pub proof fn law_adding_a_test_changes_no_other(
    f: FixtureView,
    test: Seq<char>,
    name: Seq<char>,
    storage: Seq<u8>,
    added_test: Seq<char>,
    added_input: Seq<char>,
    sum: u32,
)
    requires
        text::dotless(test),
        text::dotless(added_test),
        test != added_test,
    ensures
        synth::vetted(
            FixtureView {
                expected: f.expected,
                checksums: f.checksums.insert(
                    fixture::check_key(added_test, added_input),
                    sum,
                ),
            },
            test,
            name,
            storage,
        ) == synth::vetted(f, test, name, storage),
{
    if fixture::check_key(test, name) == fixture::check_key(added_test, added_input) {
        fixture_laws::law_check_keys_are_injective(test, name, added_test, added_input);
    }
}

/// No two inputs share a seeding name.
pub proof fn law_inputs_are_seeded_apart(
    test: Seq<char>,
    name: Seq<char>,
    other_test: Seq<char>,
    other_name: Seq<char>,
)
    requires
        text::dotless(test),
        text::dotless(other_test),
        test != other_test || name != other_name,
    ensures
        text::joined(test, name) != text::joined(other_test, other_name),
{
    if text::joined(test, name) == text::joined(other_test, other_name) {
        text::law_joined_is_injective(test, name, other_test, other_name);
    }
}

/// Each input has as many bytes as its elements take.
pub proof fn law_inputs_fill_their_tensors(
    name: Seq<char>,
    count: nat,
    lo: u32,
    hi: u32,
    exp_min: u8,
    exp_max: u8,
    signed: bool,
    values: Seq<u32>,
)
    ensures
        prng::bf16_uniform_bytes(name, 0, count, lo, hi).len() == count * 16 / 8,
        prng::bf16_signs_bytes(name, count, hi).len() == count * 16 / 8,
        prng::f32_uniform_bytes(name, count, lo, hi).len() == count * 32 / 8,
        prng::f8_banded_bytes(name, count, exp_min, exp_max, signed).len() == count * 8 / 8,
        prng::f4_nibbles_bytes(name, count).len() == count * 4 / 8,
        synth::exact_bytes(name, count).len() == count * 16 / 8,
        bytes::all_le32(values).len() == values.len() * 32 / 8,
        synth::bf16_bytes(values).len() == values.len() * 16 / 8,
{
}

/// The distance between the bounds of each uniform input is a number, so that its elements lie
/// between them.
pub proof fn law_spans_of_inputs_are_exact()
    ensures
        prng_laws::exact_span(0, synth::ONE),
        prng_laws::exact_span(0, shims::ROW_SCALE_MAX),
        prng_laws::exact_span(synth::CENTRED_MIN, synth::CENTRED_MAX),
        prng_laws::exact_span(synth::RMS_WEIGHT_MIN, synth::RMS_WEIGHT_MAX),
        prng_laws::exact_span(shims::TWO, shims::FOUR),
{
    assert(binary32::scaled(0) == 0) by {
        assert(0 * pow2(0) == 0) by (nonlinear_arith);
    }
    prng_laws::lemma_exact_span(0, synth::ONE, 0x3F80_0000);
    prng_laws::lemma_exact_span(0, shims::ROW_SCALE_MAX, 0x3A83_126F);
    lemma_pow2_unfold(126);
    lemma_pow2_unfold(128);
    assert(binary32::magnitude_of(0x3F00_0000) == 0x80_0000 * pow2(125));
    assert(binary32::magnitude_of(0x3F80_0000) == 0x80_0000 * pow2(126));
    assert(binary32::payload(synth::CENTRED_MIN) == 0x3F00_0000);
    assert(binary32::magnitude_of(0x3F40_0000) == 0xC0_0000 * pow2(125));
    assert(binary32::magnitude_of(0x3FA0_0000) == 0xA0_0000 * pow2(126));
    prng_laws::lemma_exact_span(synth::CENTRED_MIN, synth::CENTRED_MAX, 0x3F80_0000);
    prng_laws::lemma_exact_span(synth::RMS_WEIGHT_MIN, synth::RMS_WEIGHT_MAX, 0x3F00_0000);
    assert(binary32::magnitude_of(0x4000_0000) == 0x80_0000 * pow2(127));
    assert(binary32::magnitude_of(0x4080_0000) == 0x80_0000 * pow2(128));
    prng_laws::lemma_exact_span(shims::TWO, shims::FOUR, 0x4000_0000);
}

/// A row is read back from where it was placed, and nothing else is touched.
pub proof fn law_placed_rows_are_read_back(total: nat, offset: nat, row: Seq<u8>)
    requires
        offset + row.len() <= total,
    ensures
        rope::placed(total, offset, row).len() == total,
        rope::placed(total, offset, row).subrange(offset as int, (offset + row.len()) as int)
            == row,
        forall|i: int|
            0 <= i < total && !(offset <= i < offset + row.len()) ==> #[trigger] rope::placed(
                total,
                offset,
                row,
            )[i] == 0,
{
    assert(rope::placed(total, offset, row).subrange(
        offset as int,
        (offset + row.len()) as int,
    ) =~= row);
}

/// The two halves of a rotation table agree.
pub proof fn law_halves_of_a_rotation_table_agree(
    head_dim: nat,
    turning: Seq<u32>,
    still: u32,
    i: int,
)
    requires
        head_dim % 2 == 0,
        0 <= i < head_dim / 2,
    ensures
        rope::tiled(head_dim, turning, still)[i + head_dim / 2] == rope::tiled(
            head_dim,
            turning,
            still,
        )[i],
{
    let half = (head_dim / 2) as int;
    vstd::arithmetic::div_mod::lemma_mod_add_multiples_vanish(i, half);
}

/// Negating the lower half twice gives the values back.
pub proof fn law_negating_twice_gives_back(values: Seq<u32>)
    ensures
        rope::low_half_negated(rope::low_half_negated(values)) == values,
{
    assert(rope::low_half_negated(rope::low_half_negated(values)) =~= values);
}

/// Entry `i` of a rotation table is that of the frequency `i`, counted anew in the upper half: the
/// given one if the frequency turns, otherwise the one of those that do not.
pub proof fn law_rotation_tables_entry_by_entry(
    head_dim: nat,
    turning: Seq<u32>,
    still: u32,
    k: int,
)
    requires
        0 <= k < head_dim / 2,
    ensures
        ({
            let half = (head_dim / 2) as int;
            let table = rope::tiled(head_dim, turning, still);
            let value = if k < turning.len() {
                turning[k]
            } else {
                still
            };
            &&& table.len() == head_dim
            &&& table[k] == value
            &&& table[half + k] == value
        }),
{
    let half = (head_dim / 2) as int;
    vstd::arithmetic::div_mod::lemma_small_mod(k as nat, half as nat);
    vstd::arithmetic::div_mod::lemma_mod_add_multiples_vanish(k, half);
}

/// In the lower half the sign of each value is changed, in the upper half nothing is.
pub proof fn law_only_the_lower_half_changes_sign(values: Seq<u32>, i: int)
    requires
        0 <= i < values.len(),
    ensures
        rope::low_half_negated(values).len() == values.len(),
        i < values.len() / 2 ==> rope::low_half_negated(values)[i] == (values[i] + 0x8000_0000)
            % 0x1_0000_0000,
        i >= values.len() / 2 ==> rope::low_half_negated(values)[i] == values[i],
{
}

/// A mask is one up to `valid` and zero from there on.
pub proof fn law_masks_are_one_and_then_zero(len: nat, valid: nat, i: int)
    requires
        0 <= i < len,
    ensures
        rope::prefix_ones(len, valid).len() == len,
        i < valid ==> rope::prefix_ones(len, valid)[i] == 0x3F80_0000,
        i >= valid ==> rope::prefix_ones(len, valid)[i] == 0,
{
}

} // verus!
