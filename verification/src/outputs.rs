//! What is read back from a device.
use crate::binary32;
use crate::rope;
use crate::shims::{Axes, POS};
use vstd::prelude::*;

verus! {

/// A device output and the label of its expectation.
#[derive(Debug)]
pub struct Output {
    pub label: String,
    /// Binary32 encodings.
    pub values: Vec<u32>,
}

impl View for Output {
    type V = (Seq<char>, Seq<u32>);

    open spec fn view(&self) -> (Seq<char>, Seq<u32>) {
        (self.label@, self.values@)
    }
}

/// What each output holds.
pub open spec fn views(outputs: Seq<Output>) -> Seq<(Seq<char>, Seq<u32>)> {
    outputs.map_values(|output: Output| output@)
}

/// Row `slot` of a cache with rows of `width` values.
pub open spec fn row_of(cache: Seq<u32>, slot: nat, width: nat) -> Seq<u32> {
    Seq::new(width, |i: int| cache[slot * width + i])
}

/// Each value over the sum of its row of `width` values.
pub open spec fn normalized(values: Seq<u32>, sums: Seq<u32>, width: nat) -> Seq<u32> {
    Seq::new(
        values.len(),
        |i: int| binary32::quotient_of(values[i], sums[i / width as int]),
    )
}

/// The outputs of a projection: the query, and the rows written into the two caches.
pub open spec fn qkv_of(
    q: Seq<u32>,
    k_cache: Seq<u32>,
    v_cache: Seq<u32>,
    slot: nat,
    width: nat,
) -> Seq<(Seq<char>, Seq<u32>)> {
    seq![
        ("expected.q"@, q),
        ("expected.k"@, row_of(k_cache, slot, width)),
        ("expected.v"@, row_of(v_cache, slot, width)),
    ]
}

/// The only output of a kernel.
pub fn single_output(values: Vec<u32>) -> (r: Vec<Output>)
    ensures
        views(r@) == seq![("expected"@, values@)],
{
    let ghost held = values@;
    let mut r: Vec<Output> = Vec::with_capacity(1);
    r.push(Output { label: "expected".to_owned(), values });
    assert(views(r@) =~= seq![("expected"@, held)]);
    r
}

/// Row `slot` of a cache with rows of `width` values.
fn cache_row(cache: &[u32], slot: usize, width: usize) -> (r: Vec<u32>)
    requires
        slot * width + width <= cache.len(),
    ensures
        r@ == row_of(cache@, slot as nat, width as nat),
{
    assert(0 <= slot * width) by (nonlinear_arith);
    let start: usize = slot * width;
    let mut r: Vec<u32> = Vec::with_capacity(width);
    let mut i: usize = 0;
    while i < width
        invariant
            i <= width,
            start == slot * width,
            start + width <= cache.len(),
            r@ == row_of(cache@, slot as nat, width as nat).take(i as int),
        decreases width - i,
    {
        r.push(cache[start + i]);
        i += 1;
        assert(r@ =~= row_of(cache@, slot as nat, width as nat).take(i as int));
    }
    assert(r@ =~= row_of(cache@, slot as nat, width as nat));
    r
}

/// The outputs of a projection: the query, and the rows written into the two caches.
fn qkv_outputs(
    q: Vec<u32>,
    k_cache: &[u32],
    v_cache: &[u32],
    slot: usize,
    width: usize,
) -> (r: Vec<Output>)
    requires
        slot * width + width <= k_cache.len(),
        slot * width + width <= v_cache.len(),
    ensures
        views(r@) == qkv_of(q@, k_cache@, v_cache@, slot as nat, width as nat),
{
    let ghost held = q@;
    let mut r: Vec<Output> = Vec::with_capacity(3);
    r.push(Output { label: "expected.q".to_owned(), values: q });
    r.push(Output { label: "expected.k".to_owned(), values: cache_row(k_cache, slot, width) });
    r.push(Output { label: "expected.v".to_owned(), values: cache_row(v_cache, slot, width) });
    assert(views(r@) =~= qkv_of(held, k_cache@, v_cache@, slot as nat, width as nat));
    r
}

/// The three outputs of a projection.
proof fn lemma_three(
    r: Seq<Output>,
    q: Seq<u32>,
    k_cache: Seq<u32>,
    v_cache: Seq<u32>,
    slot: nat,
    width: nat,
)
    requires
        views(r) == qkv_of(q, k_cache, v_cache, slot, width),
    ensures
        r.len() == 3,
        r[0].values@ == q,
        r[1].values@ == row_of(k_cache, slot, width),
        r[2].values@ == row_of(v_cache, slot, width),
{
    assert(views(r).len() == r.len());
    assert(views(r)[0] == r[0]@);
    assert(views(r)[1] == r[1]@);
    assert(views(r)[2] == r[2]@);
}

/// The outputs of the projections of a sliding-window layer: the caches are rings, and the
/// token under test has the row of its position in the ring.
pub fn sliding_project_qkv_outputs(
    axes: &Axes,
    q: Vec<u32>,
    k_cache: &[u32],
    v_cache: &[u32],
) -> (r: Vec<Output>)
    requires
        0 < axes.ts,
        axes.ns * axes.ds <= usize::MAX,
        k_cache.len() == axes.ts * (axes.ns * axes.ds),
        v_cache.len() == axes.ts * (axes.ns * axes.ds),
    ensures
        views(r@) == qkv_of(
            q@,
            k_cache@,
            v_cache@,
            POS as nat % axes.ts as nat,
            (axes.ns * axes.ds) as nat,
        ),
        r@.len() == 3,
        r@[0].values@ == q@,
        forall|i: int|
            0 <= i < axes.ns * axes.ds ==> #[trigger] r@[1].values@[i] == k_cache@[137int % axes.ts
                as int * (axes.ns * axes.ds) + i],
        forall|i: int|
            0 <= i < axes.ns * axes.ds ==> #[trigger] r@[2].values@[i] == v_cache@[137int % axes.ts
                as int * (axes.ns * axes.ds) + i],
{
    let slot: usize = POS % axes.ts;
    proof {
        rope::lemma_row_fits(axes.ts as int, axes.ns * axes.ds, slot as int);
    }
    let ghost held = q@;
    let r = qkv_outputs(q, k_cache, v_cache, slot, axes.ns * axes.ds);
    proof {
        lemma_three(r@, held, k_cache@, v_cache@, slot as nat, (axes.ns * axes.ds) as nat);
    }
    r
}

/// The outputs of the projections of a full-attention layer.
pub fn full_project_qkv_outputs(
    axes: &Axes,
    q: Vec<u32>,
    k_cache: &[u32],
    v_cache: &[u32],
) -> (r: Vec<Output>)
    requires
        0 < axes.df ==> POS < axes.tf,
        k_cache.len() == axes.tf * axes.df,
        v_cache.len() == axes.tf * axes.df,
    ensures
        views(r@) == qkv_of(q@, k_cache@, v_cache@, POS as nat, axes.df as nat),
        r@.len() == 3,
        r@[0].values@ == q@,
        forall|i: int|
            0 <= i < axes.df ==> #[trigger] r@[1].values@[i] == k_cache@[137 * axes.df + i],
        forall|i: int|
            0 <= i < axes.df ==> #[trigger] r@[2].values@[i] == v_cache@[137 * axes.df + i],
{
    proof {
        rope::lemma_row_fits(axes.tf as int, axes.df as int, POS as int);
    }
    let ghost held = q@;
    let r = qkv_outputs(q, k_cache, v_cache, POS, axes.df);
    proof {
        lemma_three(r@, held, k_cache@, v_cache@, POS as nat, axes.df as nat);
    }
    r
}

/// The output of full attention: each value over the running sum of its head of `width` values.
pub fn full_attention_outputs(values: &[u32], sums: &[u32], width: usize) -> (r: Vec<Output>)
    requires
        values.len() <= sums.len() * width,
    ensures
        views(r@) == seq![("expected"@, normalized(values@, sums@, width as nat))],
{
    let mut quotients: Vec<u32> = Vec::new();
    let mut i: usize = 0;
    while i < values.len()
        invariant
            i <= values.len(),
            values.len() <= sums.len() * width,
            quotients@ == normalized(values@, sums@, width as nat).take(i as int),
        decreases values.len() - i,
    {
        proof {
            lemma_row_index(i as int, sums.len() as int, width as int);
        }
        quotients.push(binary32::divide(values[i], sums[i / width]));
        i += 1;
        assert(quotients@ =~= normalized(values@, sums@, width as nat).take(i as int));
    }
    assert(quotients@ =~= normalized(values@, sums@, width as nat));
    single_output(quotients)
}

/// A place inside `rows` rows lies in one of them.
proof fn lemma_row_index(i: int, rows: int, width: int)
    requires
        0 <= i < rows * width,
        0 <= width,
    ensures
        0 < width,
        0 <= i / width < rows,
{
    assert(0 < width) by (nonlinear_arith)
        requires
            0 <= i < rows * width,
            0 <= width,
    ;
    vstd::arithmetic::div_mod::lemma_fundamental_div_mod(i, width);
    vstd::arithmetic::div_mod::lemma_mod_bound(i, width);
    assert(0 <= i / width < rows) by (nonlinear_arith)
        requires
            0 <= i < rows * width,
            0 < width,
            i == width * (i / width) + i % width,
            0 <= i % width < width,
    ;
}

} // verus!
