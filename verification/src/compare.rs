//! Device outputs held against their expectations.
use crate::binary32;
use vstd::prelude::*;

verus! {

/// Below this an expectation has no relative difference: 1e-12.
pub const NEGLIGIBLE: u32 = 0x2B8C_BCCC;

/// One hundred.
pub const HUNDRED: u32 = 0x42C8_0000;

/// What a comparison of finite outputs found.
#[derive(Debug)]
pub struct Measure {
    /// Whether every output is within tolerance.
    pub ok: bool,
    /// Number of outputs within tolerance.
    pub within: usize,
    /// The largest difference.
    pub max_diff: u32,
    /// Where the largest difference is first.
    pub max_index: usize,
    /// The largest difference in percent of the expectation there.
    pub relative: u32,
    /// All differences.
    pub diffs: Vec<u32>,
}

/// What a comparison found.
#[derive(Debug)]
pub enum Comparison {
    /// The first output that is an infinity or a NaN.
    NonFinite { index: usize },
    /// All outputs are finite.
    Measured(Measure),
}

/// How far `got` is from `want`.
pub open spec fn diff_of(want: u32, got: u32) -> u32 {
    binary32::absolute_of(binary32::difference_of(want, got))
}

/// How far an output may be from `want`.
pub open spec fn allowance_of(want: u32, atol: u32, rtol: u32) -> u32 {
    binary32::sum_of(atol, binary32::product_of(rtol, binary32::absolute_of(want)))
}

/// Whether `got` is as near to `want` as the tolerances ask.
pub open spec fn tolerated(want: u32, got: u32, atol: u32, rtol: u32) -> bool {
    binary32::at_most(diff_of(want, got), allowance_of(want, atol, rtol))
}

/// The difference at each place.
pub open spec fn diffs_of(expected: Seq<u32>, actual: Seq<u32>) -> Seq<u32> {
    Seq::new(expected.len(), |i: int| diff_of(expected[i], actual[i]))
}

/// Number of the first `n` outputs that are within tolerance.
pub open spec fn count_within(
    expected: Seq<u32>,
    actual: Seq<u32>,
    atol: u32,
    rtol: u32,
    n: nat,
) -> nat
    decreases n,
{
    if n == 0 {
        0
    } else {
        count_within(expected, actual, atol, rtol, (n - 1) as nat) + if tolerated(
            expected[n - 1],
            actual[n - 1],
            atol,
            rtol,
        ) {
            1nat
        } else {
            0
        }
    }
}

/// The largest of the first `n` differences and where it is first; zero at the start if none
/// is larger than zero.
pub open spec fn worst(diffs: Seq<u32>, n: nat) -> (u32, nat)
    decreases n,
{
    if n == 0 {
        (0, 0)
    } else {
        let before = worst(diffs, (n - 1) as nat);
        if binary32::less(before.0, diffs[n - 1]) {
            (diffs[n - 1], (n - 1) as nat)
        } else {
            before
        }
    }
}

/// A difference in percent of the expectation, zero where that is negligible.
pub open spec fn percent_of(diff: u32, want: u32) -> u32 {
    let size = binary32::absolute_of(want);
    if binary32::less(NEGLIGIBLE, size) {
        binary32::product_of(binary32::quotient_of(diff, size), HUNDRED)
    } else {
        0
    }
}

/// Whether `c` says what a comparison finds: the first output that is not finite, or else how
/// all of them differ from their expectations.
pub open spec fn found(
    c: Comparison,
    expected: Seq<u32>,
    actual: Seq<u32>,
    atol: u32,
    rtol: u32,
) -> bool {
    match c {
        Comparison::NonFinite { index } => {
            &&& index < actual.len()
            &&& !binary32::finite(actual[index as int])
            &&& forall|i: int| 0 <= i < index ==> binary32::finite(#[trigger] actual[i])
        },
        Comparison::Measured(m) => {
            &&& forall|i: int| 0 <= i < actual.len() ==> binary32::finite(#[trigger] actual[i])
            &&& m.diffs@ == diffs_of(expected, actual)
            &&& m.within == count_within(expected, actual, atol, rtol, expected.len())
            &&& m.ok <==> forall|i: int|
                0 <= i < expected.len() ==> #[trigger] tolerated(
                    expected[i],
                    actual[i],
                    atol,
                    rtol,
                )
            &&& (m.max_diff, m.max_index as nat) == worst(m.diffs@, expected.len())
            &&& m.max_index < expected.len()
            &&& m.relative == percent_of(m.max_diff, expected[m.max_index as int])
        },
    }
}

/// All of the first `n` outputs are within tolerance only if each is.
proof fn lemma_all_within(expected: Seq<u32>, actual: Seq<u32>, atol: u32, rtol: u32, n: nat)
    ensures
        count_within(expected, actual, atol, rtol, n) <= n,
        count_within(expected, actual, atol, rtol, n) == n <==> forall|i: int|
            0 <= i < n ==> #[trigger] tolerated(expected[i], actual[i], atol, rtol),
    decreases n,
{
    if n > 0 {
        let m = (n - 1) as nat;
        lemma_all_within(expected, actual, atol, rtol, m);
        if count_within(expected, actual, atol, rtol, n) == n {
            assert(tolerated(expected[m as int], actual[m as int], atol, rtol));
        }
        if forall|i: int|
            0 <= i < n ==> #[trigger] tolerated(expected[i], actual[i], atol, rtol) {
            assert(tolerated(expected[m as int], actual[m as int], atol, rtol));
        }
    }
}

proof fn lemma_worst_index(diffs: Seq<u32>, n: nat)
    requires
        0 < n,
    ensures
        worst(diffs, n).1 < n,
    decreases n,
{
    if n > 1 {
        lemma_worst_index(diffs, (n - 1) as nat);
    } else {
        assert(worst(diffs, 0) == (0u32, 0nat));
    }
}

/// How far an output may be from `want`.
fn allowance(want: u32, atol: u32, rtol: u32) -> (r: u32)
    ensures
        r == allowance_of(want, atol, rtol),
{
    binary32::sum(atol, binary32::multiply(rtol, binary32::abs(want)))
}

/// A difference in percent of the expectation, zero where that is negligible.
fn percent(diff: u32, want: u32) -> (r: u32)
    ensures
        r == percent_of(diff, want),
{
    let size = binary32::abs(want);
    if binary32::lt(NEGLIGIBLE, size) {
        binary32::multiply(binary32::divide(diff, size), HUNDRED)
    } else {
        0
    }
}

/// Holds device outputs against their expectations, up to the first that is not finite.
pub fn compare(expected: &[u32], actual: &[u32], atol: u32, rtol: u32) -> (r: Comparison)
    requires
        expected.len() == actual.len(),
        0 < expected.len(),
    ensures
        found(r, expected@, actual@, atol, rtol),
{
    let ghost all = diffs_of(expected@, actual@);
    let mut diffs: Vec<u32> = Vec::new();
    let mut max_diff: u32 = 0;
    let mut max_index: usize = 0;
    let mut within: usize = 0;
    let mut i: usize = 0;
    while i < expected.len()
        invariant
            i <= expected.len(),
            expected.len() == actual.len(),
            all == diffs_of(expected@, actual@),
            forall|j: int| 0 <= j < i ==> binary32::finite(#[trigger] actual@[j]),
            diffs@ == all.take(i as int),
            within == count_within(expected@, actual@, atol, rtol, i as nat),
            within <= i,
            (max_diff, max_index as nat) == worst(all, i as nat),
        decreases expected.len() - i,
    {
        let want = expected[i];
        let got = actual[i];
        if !binary32::is_finite(got) {
            return Comparison::NonFinite { index: i };
        }
        let diff = binary32::abs(binary32::difference(want, got));
        if binary32::le(diff, allowance(want, atol, rtol)) {
            within += 1;
        }
        if binary32::lt(max_diff, diff) {
            max_diff = diff;
            max_index = i;
        }
        diffs.push(diff);
        i += 1;
        assert(diffs@ =~= all.take(i as int));
    }
    proof {
        assert(all.take(all.len() as int) =~= all);
        lemma_worst_index(all, all.len());
        lemma_all_within(expected@, actual@, atol, rtol, expected@.len());
    }
    Comparison::Measured(
        Measure {
            ok: within == expected.len(),
            within,
            max_diff,
            max_index,
            relative: percent(max_diff, expected[max_index]),
            diffs,
        },
    )
}

impl Comparison {
    /// Whether all outputs are finite and within tolerance.
    pub open spec fn passes(&self) -> bool {
        match self {
            Comparison::NonFinite { .. } => false,
            Comparison::Measured(m) => m.ok,
        }
    }

    /// Whether all outputs are finite and within tolerance.
    pub fn passed(&self) -> (r: bool)
        ensures
            r == self.passes(),
    {
        match self {
            Comparison::NonFinite { .. } => false,
            Comparison::Measured(m) => m.ok,
        }
    }
}

} // verus!
