//! The weights of the output projection, too large to be made in one piece.
use crate::fixture::FixtureView;
use crate::prng;
use crate::prng_laws;
use crate::synth;
use crate::synth::{Refusal, Synth, Verdict};
use crate::text;
use vstd::prelude::*;

verus! {

/// Number of elements that a block holds at most.
pub const BLOCK: usize = 0x80_0000;

/// Number of rows of the block that starts at row `start` of `rows`.
pub open spec fn block_rows(rows: nat, per_block: nat, start: nat) -> nat {
    if rows - start < per_block {
        (rows - start) as nat
    } else {
        per_block
    }
}

/// Bytes of `count` rows of `width` elements from row `start` on.
pub open spec fn row_bytes(name: Seq<char>, width: nat, start: nat, count: nat) -> Seq<u8> {
    prng::bf16_uniform_bytes(
        name,
        start * width,
        count * width,
        synth::CENTRED_MIN,
        synth::CENTRED_MAX,
    )
}

/// Sum of the checksums of the blocks from row `start` on, each taken at its own place.
pub open spec fn block_sum(
    name: Seq<char>,
    rows: nat,
    width: nat,
    per_block: nat,
    start: nat,
) -> u32
    decreases rows - start,
{
    if start >= rows || per_block == 0 {
        0
    } else {
        let count = block_rows(rows, per_block, start);
        prng::checksum_of(
            row_bytes(name, width, start, count),
            start * width / 2,
        ).wrapping_add(block_sum(name, rows, width, per_block, start + count))
    }
}

/// All rows, if the sum of their blocks is the recorded checksum.
#[verifier::opaque]
pub open spec fn rows_input(
    f: FixtureView,
    test: Seq<char>,
    name: Seq<char>,
    rows: nat,
    width: nat,
) -> Verdict {
    let seed = text::joined(test, name);
    synth::unless_objected(
        f,
        test,
        name,
        block_sum(seed, rows, width, BLOCK as nat / width, 0),
        row_bytes(seed, width, 0, rows),
    )
}

/// Makes the rows block by block and vets the sum of the blocks.
pub fn rows_in_blocks(s: &Synth<'_>, name: &str, rows: usize, width: usize) -> (r: Result<
    Vec<u8>,
    Refusal,
>)
    requires
        s.fixture.wf(),
        0 < width,
        0 < rows ==> width <= BLOCK,
        2 * (rows * width) <= isize::MAX,
    ensures
        synth::outcome(r) == rows_input(s.fixture@, s.test@, name@, rows as nat, width as nat),
{
    proof {
        reveal(rows_input);
    }
    let seed = s.seed(name);
    let per_block: usize = BLOCK / width;
    let ghost total = block_sum(seed@, rows as nat, width as nat, per_block as nat, 0);
    let mut storage: Vec<u8> = Vec::with_capacity(2 * (rows * width));
    let mut running: u32 = 0;
    let mut start: usize = 0;
    proof {
        assert(0 < rows ==> 0 < per_block) by {
            if 0 < rows {
                vstd::arithmetic::div_mod::lemma_div_non_zero(BLOCK as int, width as int);
            }
        }
        assert(storage@ =~= row_bytes(seed@, width as nat, 0, 0));
    }
    while start < rows
        invariant
            start <= rows,
            0 < width,
            0 < rows ==> 0 < per_block,
            2 * (rows * width) <= isize::MAX,
            storage@ == row_bytes(seed@, width as nat, 0, start as nat),
            running.wrapping_add(
                block_sum(seed@, rows as nat, width as nat, per_block as nat, start as nat),
            ) == total,
        decreases rows - start,
    {
        let count: usize = if rows - start < per_block {
            rows - start
        } else {
            per_block
        };
        proof {
            lemma_rows(rows as int, width as int, start as int, count as int);
            prng_laws::law_uniform_ranges_join(
                seed@,
                0,
                (start * width) as nat,
                (count * width) as nat,
                synth::CENTRED_MIN,
                synth::CENTRED_MAX,
            );
        }
        let mut block = prng::bf16_uniform_range(
            seed.as_str(),
            start * width,
            count * width,
            synth::CENTRED_MIN,
            synth::CENTRED_MAX,
        );
        running = running.wrapping_add(prng::checksum(block.as_slice(), start * width / 2));
        storage.append(&mut block);
        start += count;
    }
    match s.verify_sum(name, running) {
        Ok(_) => Ok(storage),
        Err(refusal) => Err(refusal),
    }
}

/// Where some of the rows lie among all.
proof fn lemma_rows(rows: int, width: int, start: int, count: int)
    requires
        0 <= start,
        0 <= count,
        start + count <= rows,
        0 < width,
    ensures
        0 <= start * width,
        0 <= count * width,
        start * width + count * width == (start + count) * width,
        (start + count) * width <= rows * width,
{
    assert(0 <= start * width && 0 <= count * width) by (nonlinear_arith)
        requires
            0 <= start,
            0 <= count,
            0 < width,
    ;
    assert(start * width + count * width == (start + count) * width) by (nonlinear_arith);
    assert((start + count) * width <= rows * width) by (nonlinear_arith)
        requires
            start + count <= rows,
            0 < width,
    ;
}

/// Nothing has the checksum zero.
proof fn lemma_checksum_of_nothing(s: Seq<u8>, offset: nat)
    requires
        s.len() == 0,
    ensures
        prng::checksum_of(s, offset) == 0,
{
    reveal(prng::checksum_of);
    assert(prng::words_in(s.len()) == 0);
    assert(prng::weighted_sum(s, offset, 0) == 0);
}

/// Rows that follow one another.
proof fn lemma_rows_join(name: Seq<char>, width: nat, start: nat, first: nat, second: nat)
    requires
        0 < width,
    ensures
        row_bytes(name, width, start, first) + row_bytes(name, width, start + first, second)
            == row_bytes(name, width, start, first + second),
        row_bytes(name, width, start, first).len() == 2 * (first * width),
{
    lemma_rows((start + first) as int, width as int, start as int, first as int);
    lemma_rows((first + second) as int, width as int, first as int, second as int);
    prng_laws::law_uniform_ranges_join(
        name,
        start * width,
        first * width,
        second * width,
        synth::CENTRED_MIN,
        synth::CENTRED_MAX,
    );
}

/// The checksum of `count` rows from row `start` on, taken at their place.
#[verifier::opaque]
spec fn rows_checksum(name: Seq<char>, width: nat, start: nat, count: nat) -> u32 {
    prng::checksum_of(row_bytes(name, width, start, count), start * width / 2)
}

/// No rows have the checksum zero.
proof fn lemma_no_rows(name: Seq<char>, width: nat, start: nat)
    ensures
        rows_checksum(name, width, start, 0) == 0,
{
    reveal(rows_checksum);
    assert(0 * width == 0) by (nonlinear_arith);
    lemma_checksum_of_nothing(row_bytes(name, width, start, 0), start * width / 2);
}

/// A block of whole words in front of other rows adds its checksum to theirs.
proof fn lemma_one_more_block(name: Seq<char>, width: nat, start: nat, first: nat, second: nat)
    requires
        0 < width,
        (first * width) % 2 == 0,
        (start * width) % 2 == 0,
    ensures
        rows_checksum(name, width, start, first + second) == rows_checksum(
            name,
            width,
            start,
            first,
        ).wrapping_add(rows_checksum(name, width, start + first, second)),
{
    reveal(rows_checksum);
    let block = row_bytes(name, width, start, first);
    lemma_rows((start + first) as int, width as int, start as int, first as int);
    lemma_rows_join(name, width, start, first, second);
    prng_laws::law_checksum_of_blocks(
        block,
        row_bytes(name, width, start + first, second),
        start * width / 2,
    );
    let a = start * width;
    let c = first * width;
    assert(a / 2 + (2 * c) / 4 == (a + c) / 2);
}

/// The first block and the rest.
proof fn lemma_first_block(name: Seq<char>, rows: nat, width: nat, per_block: nat, start: nat)
    requires
        0 < per_block,
        start < rows,
    ensures
        block_sum(name, rows, width, per_block, start) == rows_checksum(
            name,
            width,
            start,
            block_rows(rows, per_block, start),
        ).wrapping_add(
            block_sum(
                name,
                rows,
                width,
                per_block,
                start + block_rows(rows, per_block, start),
            ),
        ),
{
    reveal(rows_checksum);
}

/// From a row that starts a word on, the blocks sum to the checksum of the rest.
proof fn lemma_rest(name: Seq<char>, rows: nat, width: nat, per_block: nat, start: nat)
    requires
        0 < width,
        0 < per_block,
        start <= rows,
        (per_block * width) % 2 == 0,
        (start * width) % 2 == 0,
    ensures
        block_sum(name, rows, width, per_block, start) == rows_checksum(
            name,
            width,
            start,
            (rows - start) as nat,
        ),
    decreases rows - start,
{
    if start == rows {
        lemma_no_rows(name, width, start);
    } else {
        let count = block_rows(rows, per_block, start);
        let next = start + count;
        lemma_first_block(name, rows, width, per_block, start);
        if next == rows {
            assert(block_sum(name, rows, width, per_block, next) == 0);
        } else {
            assert(count == per_block);
            lemma_rows(next as int, width as int, start as int, count as int);
            lemma_one_more_block(name, width, start, count, (rows - next) as nat);
            lemma_rest(name, rows, width, per_block, next);
        }
    }
}

/// Where a full block is a whole number of words, or there is but one block, the sum of the
/// blocks is the checksum of all rows in one piece.
pub proof fn law_blocks_sum_to_the_whole(name: Seq<char>, rows: nat, width: nat, per_block: nat)
    requires
        0 < width,
        0 < per_block,
        rows <= per_block || (per_block * width) % 2 == 0,
    ensures
        block_sum(name, rows, width, per_block, 0) == prng::checksum_of(
            row_bytes(name, width, 0, rows),
            0,
        ),
{
    assert(0 * width == 0) by (nonlinear_arith);
    reveal(rows_checksum);
    if 0 < rows <= per_block {
        lemma_first_block(name, rows, width, per_block, 0);
        assert(block_sum(name, rows, width, per_block, rows) == 0);
    } else if rows == 0 {
        lemma_no_rows(name, width, 0);
    } else {
        lemma_rest(name, rows, width, per_block, 0);
    }
}

} // verus!
