//! What is read back from a device, value by value.
use crate::binary32;
use crate::outputs;
use crate::outputs::Output;
use vstd::arithmetic::div_mod::*;
use vstd::prelude::*;

verus! {

/// Full attention has one output, called `expected`, with as many values as were read. Value `j`
/// of head `head` is the value that was read there over the running sum of that head, and of no
/// other.
pub proof fn law_each_head_is_divided_by_its_own_sum(
    r: Seq<Output>,
    values: Seq<u32>,
    sums: Seq<u32>,
    width: nat,
    head: nat,
    j: nat,
)
    requires
        outputs::views(r) == seq![("expected"@, outputs::normalized(values, sums, width))],
        head < sums.len(),
        j < width,
        head * width + j < values.len(),
    ensures
        r.len() == 1,
        r[0].label@ == "expected"@,
        r[0].values@.len() == values.len(),
        r[0].values@[(head * width + j) as int] == binary32::quotient_of(
            values[(head * width + j) as int],
            sums[head as int],
        ),
{
    lemma_only_output(r, outputs::normalized(values, sums, width));
    let i = (head * width + j) as int;
    assert(i == width * head + j) by (nonlinear_arith)
        requires
            i == head * width + j,
    ;
    lemma_fundamental_div_mod_converse(i, width as int, head as int, j as int);
}

/// The only output.
proof fn lemma_only_output(r: Seq<Output>, values: Seq<u32>)
    requires
        outputs::views(r) == seq![("expected"@, values)],
    ensures
        r.len() == 1,
        r[0].label@ == "expected"@,
        r[0].values@ == values,
{
    assert(outputs::views(r).len() == r.len());
    assert(outputs::views(r)[0] == r[0]@);
}

/// A kernel with one output gives back all of the values that were read, in their order, under
/// the label `expected`.
pub proof fn law_a_single_output_is_all_that_was_read(r: Seq<Output>, values: Seq<u32>)
    requires
        outputs::views(r) == seq![("expected"@, values)],
    ensures
        r.len() == 1,
        r[0].label@ == "expected"@,
        r[0].values@.len() == values.len(),
        forall|i: int| 0 <= i < values.len() ==> #[trigger] r[0].values@[i] == values[i],
{
    lemma_only_output(r, values);
}

/// A projection has three outputs: the whole query, and of each cache the values of one row, in
/// their order. Value `j` of the row `slot` stands `slot` rows and `j` values into the cache.
pub proof fn law_projections_give_the_query_and_one_row_of_each_cache(
    r: Seq<Output>,
    q: Seq<u32>,
    k_cache: Seq<u32>,
    v_cache: Seq<u32>,
    slot: nat,
    width: nat,
    j: nat,
)
    requires
        outputs::views(r) == outputs::qkv_of(q, k_cache, v_cache, slot, width),
        j < width,
    ensures
        r.len() == 3,
        r[0].label@ == "expected.q"@,
        r[0].values@ == q,
        r[1].label@ == "expected.k"@,
        r[1].values@.len() == width,
        r[1].values@[j as int] == k_cache[(slot * width + j) as int],
        r[2].label@ == "expected.v"@,
        r[2].values@.len() == width,
        r[2].values@[j as int] == v_cache[(slot * width + j) as int],
{
    assert(outputs::views(r).len() == r.len());
    assert(outputs::views(r)[0] == r[0]@);
    assert(outputs::views(r)[1] == r[1]@);
    assert(outputs::views(r)[2] == r[2]@);
}

} // verus!
