//! Rotation tables, masks and rows of zeroed tables.
use crate::binary32;
use crate::prng;
use crate::synth;
use crate::synth::{Refusal, Synth, Verdict};
use crate::fixture::FixtureView;
use vstd::prelude::*;

verus! {

/// A table over a head of `head_dim` entries: both halves hold the values of the turning
/// frequencies in front, and the value `still` of the frequencies that do not turn.
pub open spec fn tiled(head_dim: nat, turning: Seq<u32>, still: u32) -> Seq<u32> {
    Seq::new(
        head_dim,
        |i: int|
            {
                let k = i % (head_dim / 2) as int;
                if k < turning.len() {
                    turning[k]
                } else {
                    still
                }
            },
    )
}

/// `values` with the lower half negated.
pub open spec fn low_half_negated(values: Seq<u32>) -> Seq<u32> {
    Seq::new(
        values.len(),
        |i: int|
            if i < values.len() / 2 {
                binary32::negation_of(values[i])
            } else {
                values[i]
            },
    )
}

/// Ones in the first `valid` places and zeros after.
pub open spec fn prefix_ones(len: nat, valid: nat) -> Seq<u32> {
    Seq::new(
        len,
        |i: int|
            if i < valid {
                synth::ONE
            } else {
                0u32
            },
    )
}

/// `row` at `offset` among `total` bytes that are otherwise zero.
pub open spec fn placed(total: nat, offset: nat, row: Seq<u8>) -> Seq<u8> {
    Seq::new(
        total,
        |i: int|
            if offset <= i < offset + row.len() {
                row[i - offset]
            } else {
                0u8
            },
    )
}

/// The table of `rows` rows of `width` bfloat16 elements with `values` in row `pos` and zeros
/// elsewhere, once `values` are vetted.
#[verifier::opaque]
pub open spec fn row_table(
    f: FixtureView,
    test: Seq<char>,
    name: Seq<char>,
    values: Seq<u32>,
    rows: nat,
    width: nat,
    pos: nat,
) -> Verdict {
    let row = synth::bf16_bytes(values);
    synth::unless_objected(
        f,
        test,
        name,
        prng::checksum_of(row, 0),
        placed(2 * (rows * width), 2 * (pos * width), row),
    )
}

/// One table over a head.
fn tile(head_dim: usize, turning: &[u32], still: u32) -> (r: Vec<u32>)
    requires
        head_dim != 1,
    ensures
        r@ == tiled(head_dim as nat, turning@, still),
{
    let half: usize = head_dim / 2;
    let mut r: Vec<u32> = Vec::new();
    let mut i: usize = 0;
    while i < head_dim
        invariant
            i <= head_dim,
            half == head_dim / 2,
            head_dim != 1,
            r@ == tiled(head_dim as nat, turning@, still).take(i as int),
        decreases head_dim - i,
    {
        let k: usize = i % half;
        r.push(
            if k < turning.len() {
                turning[k]
            } else {
                still
            },
        );
        i += 1;
        assert(r@ =~= tiled(head_dim as nat, turning@, still).take(i as int));
    }
    assert(r@ =~= tiled(head_dim as nat, turning@, still));
    r
}

/// Number of frequencies of a head that turn where `numerator / denominator` of them do.
pub fn turning_count(head_dim: usize, numerator: usize, denominator: usize) -> (r: usize)
    requires
        0 < denominator,
        2 * denominator <= usize::MAX,
        head_dim * numerator <= usize::MAX,
    ensures
        r == (head_dim * numerator) / (2 * denominator),
        (2 * denominator) * r <= head_dim * numerator < (2 * denominator) * (r + 1),
{
    proof {
        let n = head_dim * numerator;
        let d = 2 * denominator;
        vstd::arithmetic::div_mod::lemma_fundamental_div_mod(n, d);
        vstd::arithmetic::div_mod::lemma_mod_bound(n, d);
        vstd::arithmetic::mul::lemma_mul_is_distributive_add(d, n / d, 1);
    }
    head_dim * numerator / (2 * denominator)
}

/// The cosine and sine tables over a head, from the cosines and sines of the turning
/// frequencies: a frequency that does not turn has the angle zero.
pub fn rope_tables(head_dim: usize, cosines: &[u32], sines: &[u32]) -> (r: (Vec<u32>, Vec<u32>))
    requires
        head_dim != 1,
    ensures
        r.0@ == tiled(head_dim as nat, cosines@, synth::ONE),
        r.1@ == tiled(head_dim as nat, sines@, 0),
        forall|k: int|
            0 <= k < head_dim / 2 ==> #[trigger] r.0@[k] == if k < cosines.len() {
                cosines@[k]
            } else {
                0x3F80_0000
            },
        forall|k: int|
            0 <= k < head_dim / 2 ==> #[trigger] r.1@[k] == if k < sines.len() {
                sines@[k]
            } else {
                0
            },
{
    proof {
        assert forall|k: int| 0 <= k < head_dim / 2 implies #[trigger] (k % (head_dim / 2) as int)
            == k by {
            vstd::arithmetic::div_mod::lemma_small_mod(k as nat, (head_dim / 2) as nat);
        }
    }
    (tile(head_dim, cosines, synth::ONE), tile(head_dim, sines, 0))
}

/// `sin` with the lower half negated.
pub fn negate_low_half(sin: &[u32]) -> (r: Vec<u32>)
    ensures
        r@ == low_half_negated(sin@),
{
    let half: usize = sin.len() / 2;
    let mut r: Vec<u32> = Vec::new();
    let mut i: usize = 0;
    while i < sin.len()
        invariant
            i <= sin.len(),
            half == sin.len() / 2,
            r@ == low_half_negated(sin@).take(i as int),
        decreases sin.len() - i,
    {
        r.push(
            if i < half {
                binary32::neg(sin[i])
            } else {
                sin[i]
            },
        );
        i += 1;
        assert(r@ =~= low_half_negated(sin@).take(i as int));
    }
    assert(r@ =~= low_half_negated(sin@));
    r
}

/// Ones in the first `valid` places and zeros after.
pub fn prefix_mask(len: usize, valid: usize) -> (r: Vec<u32>)
    ensures
        r@ == prefix_ones(len as nat, valid as nat),
{
    let mut r: Vec<u32> = Vec::new();
    let mut i: usize = 0;
    while i < len
        invariant
            i <= len,
            r@ == prefix_ones(i as nat, valid as nat),
        decreases len - i,
    {
        r.push(
            if i < valid {
                synth::ONE
            } else {
                0u32
            },
        );
        i += 1;
        assert(r@ =~= prefix_ones(i as nat, valid as nat));
    }
    r
}

/// `row` at `offset` among `total` bytes that are otherwise zero.
pub fn place(total: usize, offset: usize, row: &[u8]) -> (r: Vec<u8>)
    requires
        offset + row.len() <= total <= isize::MAX,
    ensures
        r@ == placed(total as nat, offset as nat, row@),
{
    let mut r: Vec<u8> = vec![0u8; total];
    let mut i: usize = 0;
    assert(r@ =~= placed(total as nat, offset as nat, row@.take(0)));
    while i < row.len()
        invariant
            i <= row.len(),
            offset + row.len() <= total,
            r@ == placed(total as nat, offset as nat, row@.take(i as int)),
        decreases row.len() - i,
    {
        r.set(offset + i, row[i]);
        i += 1;
        assert(r@ =~= placed(total as nat, offset as nat, row@.take(i as int)));
    }
    assert(row@.take(row.len() as int) =~= row@);
    r
}

/// A table with vetted values in row `pos` and zeros elsewhere.
pub fn rope_table(
    s: &Synth<'_>,
    name: &str,
    values: &[u32],
    rows: usize,
    width: usize,
    pos: usize,
) -> (r: Result<Vec<u8>, Refusal>)
    requires
        s.fixture.wf(),
        pos * width + values.len() <= rows * width,
        2 * (rows * width) <= isize::MAX,
    ensures
        synth::outcome(r) == row_table(
            s.fixture@,
            s.test@,
            name@,
            values@,
            rows as nat,
            width as nat,
            pos as nat,
        ),
{
    proof {
        reveal(row_table);
    }
    let row = synth::concat_bf16(values);
    match s.verify(name, row.as_slice()) {
        Ok(_) => {},
        Err(refusal) => {
            return Err(refusal);
        },
    }
    assert(0 <= pos * width) by (nonlinear_arith);
    Ok(place(2 * (rows * width), 2 * (pos * width), row.as_slice()))
}

/// A row of a table ends inside the table.
pub proof fn lemma_row_fits(rows: int, width: int, pos: int)
    requires
        0 <= pos,
        0 < width ==> pos < rows,
        0 <= width,
    ensures
        0 <= pos * width,
        pos * width + width <= rows * width,
{
    if width > 0 {
        assert(0 <= pos * width && pos * width + width <= rows * width) by (nonlinear_arith)
            requires
                0 <= pos < rows,
                0 <= width,
        ;
    } else {
        assert(pos * width == 0 && rows * width == 0) by (nonlinear_arith)
            requires
                width == 0,
        ;
    }
}

} // verus!
