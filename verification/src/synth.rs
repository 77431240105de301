//! Synthesized inputs, held against their recorded checksums.
use crate::binary32;
use crate::bytes;
use crate::fixture;
use crate::fixture::{Fixture, FixtureView};
use crate::prng;
use crate::text;
use vstd::prelude::*;

verus! {

/// One.
pub const ONE: u32 = 0x3F80_0000;

/// Least element of a tensor centred on zero: -0.5.
pub const CENTRED_MIN: u32 = 0xBF00_0000;

/// Bound of the elements of a tensor centred on zero: 0.5.
pub const CENTRED_MAX: u32 = 0x3F00_0000;

/// Least weight of the normalization in front of a projection: 0.75.
pub const RMS_WEIGHT_MIN: u32 = 0x3F40_0000;

/// Greatest weight of the normalization in front of a projection: 1.25.
pub const RMS_WEIGHT_MAX: u32 = 0x3FA0_0000;

/// Why an input is not used.
#[derive(Debug)]
pub enum Refusal {
    /// The fixture has no checksum of this name.
    NoChecksum { key: String },
    /// The checksum of the synthesized bytes is not the recorded one.
    Diverged { input: String, actual: u32, expected: u32 },
}

/// What a [`Refusal`] says.
pub enum RefusalView {
    NoChecksum { key: Seq<char> },
    Diverged { input: Seq<char>, actual: u32, expected: u32 },
}

impl View for Refusal {
    type V = RefusalView;

    open spec fn view(&self) -> RefusalView {
        match self {
            Refusal::NoChecksum { key } => RefusalView::NoChecksum { key: key@ },
            Refusal::Diverged { input, actual, expected } => RefusalView::Diverged {
                input: input@,
                actual: *actual,
                expected: *expected,
            },
        }
    }
}

/// Bytes, or why they are not used.
pub type Verdict = Result<Seq<u8>, RefusalView>;

/// What came out of making an input.
pub open spec fn outcome(r: Result<Vec<u8>, Refusal>) -> Verdict {
    match r {
        Ok(storage) => Ok(storage@),
        Err(refusal) => Err(refusal@),
    }
}

/// What speaks against an input with the checksum `sum`, if anything does.
pub open spec fn objection(
    f: FixtureView,
    test: Seq<char>,
    name: Seq<char>,
    sum: u32,
) -> Option<RefusalView> {
    let key = fixture::check_key(test, name);
    if !f.checksums.contains_key(key) {
        Some(RefusalView::NoChecksum { key })
    } else if f.checksums[key] != sum {
        Some(
            RefusalView::Diverged {
                input: text::joined(test, name),
                actual: sum,
                expected: f.checksums[key],
            },
        )
    } else {
        None
    }
}

/// `storage`, unless something speaks against an input with the checksum `sum`.
pub open spec fn unless_objected(
    f: FixtureView,
    test: Seq<char>,
    name: Seq<char>,
    sum: u32,
    storage: Seq<u8>,
) -> Verdict {
    match objection(f, test, name, sum) {
        None => Ok(storage),
        Some(refusal) => Err(refusal),
    }
}

/// `storage`, if its checksum is the one recorded for the input `name`.
pub open spec fn vetted(
    f: FixtureView,
    test: Seq<char>,
    name: Seq<char>,
    storage: Seq<u8>,
) -> Verdict {
    unless_objected(f, test, name, prng::checksum_of(storage, 0), storage)
}

/// A vetted input of `count` uniform bfloat16 elements between `lo` and `hi`.
#[verifier::opaque]
pub open spec fn bf16_input(
    f: FixtureView,
    test: Seq<char>,
    name: Seq<char>,
    count: nat,
    lo: u32,
    hi: u32,
) -> Verdict {
    vetted(f, test, name, prng::bf16_uniform_bytes(text::joined(test, name), 0, count, lo, hi))
}

/// A vetted input of `count` bfloat16 elements of magnitude `scale` and random signs.
#[verifier::opaque]
pub open spec fn signs_input(
    f: FixtureView,
    test: Seq<char>,
    name: Seq<char>,
    count: nat,
    scale: u32,
) -> Verdict {
    vetted(f, test, name, prng::bf16_signs_bytes(text::joined(test, name), count, scale))
}

/// A vetted input of `count` 8-bit floats with exponents from `exp_min` to `exp_max`.
#[verifier::opaque]
pub open spec fn f8_input(
    f: FixtureView,
    test: Seq<char>,
    name: Seq<char>,
    count: nat,
    exp_min: u8,
    exp_max: u8,
    signed: bool,
) -> Verdict {
    vetted(
        f,
        test,
        name,
        prng::f8_banded_bytes(text::joined(test, name), count, exp_min, exp_max, signed),
    )
}

/// A vetted input of `count` 4-bit floats.
#[verifier::opaque]
pub open spec fn f4_input(
    f: FixtureView,
    test: Seq<char>,
    name: Seq<char>,
    count: nat,
) -> Verdict {
    vetted(f, test, name, prng::f4_nibbles_bytes(text::joined(test, name), count))
}

/// A vetted input of `count` uniform binary32 elements between `lo` and `hi`.
#[verifier::opaque]
pub open spec fn float32_input(
    f: FixtureView,
    test: Seq<char>,
    name: Seq<char>,
    count: nat,
    lo: u32,
    hi: u32,
) -> Verdict {
    vetted(f, test, name, prng::f32_uniform_bytes(text::joined(test, name), count, lo, hi))
}

/// Bytes of the bfloat16 nearest to each value.
pub open spec fn bf16_bytes(values: Seq<u32>) -> Seq<u8> {
    bytes::all_le16(Seq::new(values.len(), |i: int| prng::bf16_of(values[i])))
}

/// A vetted input of the given binary32 elements.
#[verifier::opaque]
pub open spec fn f32_constant(
    f: FixtureView,
    test: Seq<char>,
    name: Seq<char>,
    values: Seq<u32>,
) -> Verdict {
    vetted(f, test, name, bytes::all_le32(values))
}

/// A vetted input of the bfloat16 nearest to each value.
#[verifier::opaque]
pub open spec fn bf16_constant(
    f: FixtureView,
    test: Seq<char>,
    name: Seq<char>,
    values: Seq<u32>,
) -> Verdict {
    vetted(f, test, name, bf16_bytes(values))
}

/// A vetted input of one 32-bit integer.
#[verifier::opaque]
pub open spec fn i32_constant(
    f: FixtureView,
    test: Seq<char>,
    name: Seq<char>,
    value: u32,
) -> Verdict {
    vetted(f, test, name, bytes::le32(value))
}

/// Element `i` of the input that the normalization turns into signs: a sign over a weight.
pub open spec fn exact_element(test: Seq<char>, i: nat) -> u16 {
    let sign = prng::sign_of(prng::seed_of(text::joined(test, "x_signs"@)), i, ONE);
    let weight = prng::bf16_of(
        prng::uniform_of(
            prng::seed_of(text::joined(test, "input_rms_weight"@)),
            i,
            RMS_WEIGHT_MIN,
            RMS_WEIGHT_MAX,
        ),
    );
    prng::bf16_of(binary32::quotient_of(prng::widened(sign), prng::widened(weight)))
}

/// Bytes of the input that the normalization turns into signs.
pub open spec fn exact_bytes(test: Seq<char>, count: nat) -> Seq<u8> {
    bytes::all_le16(Seq::new(count, |i: int| exact_element(test, i as nat)))
}

/// The input that the normalization turns into signs, once its signs and it are vetted.
#[verifier::opaque]
pub open spec fn exact_input(f: FixtureView, test: Seq<char>, count: nat) -> Verdict {
    match vetted(
        f,
        test,
        "x_signs"@,
        prng::bf16_signs_bytes(text::joined(test, "x_signs"@), count, ONE),
    ) {
        Ok(_) => vetted(f, test, "x_exact"@, exact_bytes(test, count)),
        Err(refusal) => Err(refusal),
    }
}

/// `count` elements of `bits` bits each, all zero.
#[verifier::opaque]
pub open spec fn zero_bytes(count: nat, bits: nat) -> Seq<u8> {
    Seq::new(count * bits / 8, |i: int| 0u8)
}

/// The inputs of one test.
pub struct Synth<'a> {
    pub test: &'a str,
    pub fixture: &'a Fixture,
}

impl<'a> Synth<'a> {
    /// The inputs of `test`, vetted by `fixture`.
    pub fn new(test: &'a str, fixture: &'a Fixture) -> (r: Self)
        ensures
            r.test@ == test@,
            r.fixture == fixture,
    {
        Synth { test, fixture }
    }

    /// The name that seeds an input.
    pub fn seed(&self, name: &str) -> (r: String)
        ensures
            r@ == text::joined(self.test@, name@),
    {
        text::join(self.test, name)
    }

    /// Holds the checksum `actual` of an input against the recorded one.
    pub fn verify_sum(&self, name: &str, actual: u32) -> (r: Result<(), Refusal>)
        requires
            self.fixture.wf(),
        ensures
            match r {
                Ok(_) => objection(self.fixture@, self.test@, name@, actual) is None,
                Err(refusal) => objection(self.fixture@, self.test@, name@, actual) == Some(
                    refusal@,
                ),
            },
    {
        match self.fixture.checksum(self.test, name) {
            None => {
                let key = text::join(self.test, text::join("check", name).as_str());
                Err(Refusal::NoChecksum { key })
            },
            Some(expected) => if actual == expected {
                Ok(())
            } else {
                Err(Refusal::Diverged { input: self.seed(name), actual, expected })
            },
        }
    }

    /// Holds the bytes of an input against their recorded checksum.
    pub fn verify(&self, name: &str, storage: &[u8]) -> (r: Result<(), Refusal>)
        requires
            self.fixture.wf(),
        ensures
            match r {
                Ok(_) => objection(
                    self.fixture@,
                    self.test@,
                    name@,
                    prng::checksum_of(storage@, 0),
                ) is None,
                Err(refusal) => objection(
                    self.fixture@,
                    self.test@,
                    name@,
                    prng::checksum_of(storage@, 0),
                ) == Some(refusal@),
            },
    {
        self.verify_sum(name, prng::checksum(storage, 0))
    }

    /// Hands the bytes of an input on if they have their recorded checksum.
    pub fn upload(&self, name: &str, storage: Vec<u8>) -> (r: Result<Vec<u8>, Refusal>)
        requires
            self.fixture.wf(),
        ensures
            outcome(r) == vetted(self.fixture@, self.test@, name@, storage@),
    {
        match self.verify(name, storage.as_slice()) {
            Ok(_) => Ok(storage),
            Err(refusal) => Err(refusal),
        }
    }

    /// `count` uniform bfloat16 elements between `lo` and `hi`.
    pub fn bf16(&self, name: &str, count: usize, lo: u32, hi: u32) -> (r: Result<Vec<u8>, Refusal>)
        requires
            self.fixture.wf(),
            2 * count <= isize::MAX,
        ensures
            outcome(r) == bf16_input(self.fixture@, self.test@, name@, count as nat, lo, hi),
    {
        proof {
            reveal(bf16_input);
        }
        self.upload(name, prng::bf16_uniform(self.seed(name).as_str(), count, lo, hi))
    }

    /// `count` bfloat16 elements of magnitude `scale` and random signs.
    pub fn signs(&self, name: &str, count: usize, scale: u32) -> (r: Result<Vec<u8>, Refusal>)
        requires
            self.fixture.wf(),
            2 * count <= isize::MAX,
        ensures
            outcome(r) == signs_input(self.fixture@, self.test@, name@, count as nat, scale),
    {
        proof {
            reveal(signs_input);
        }
        self.upload(name, prng::bf16_signs(self.seed(name).as_str(), count, scale))
    }

    /// `count` 8-bit floats with exponents from `exp_min` to `exp_max`.
    pub fn f8(
        &self,
        name: &str,
        count: usize,
        exp_min: u8,
        exp_max: u8,
        signed: bool,
    ) -> (r: Result<Vec<u8>, Refusal>)
        requires
            self.fixture.wf(),
            exp_min <= exp_max <= 14,
            count <= isize::MAX,
        ensures
            outcome(r) == f8_input(
                self.fixture@,
                self.test@,
                name@,
                count as nat,
                exp_min,
                exp_max,
                signed,
            ),
    {
        proof {
            reveal(f8_input);
        }
        self.upload(
            name,
            prng::f8_banded(self.seed(name).as_str(), count, exp_min, exp_max, signed),
        )
    }

    /// `count` 4-bit floats.
    pub fn f4(&self, name: &str, count: usize) -> (r: Result<Vec<u8>, Refusal>)
        requires
            self.fixture.wf(),
            count % 2 == 0,
        ensures
            outcome(r) == f4_input(self.fixture@, self.test@, name@, count as nat),
    {
        proof {
            reveal(f4_input);
        }
        self.upload(name, prng::f4_nibbles(self.seed(name).as_str(), count))
    }

    /// `count` uniform binary32 elements between `lo` and `hi`.
    pub fn float32(&self, name: &str, count: usize, lo: u32, hi: u32) -> (r: Result<
        Vec<u8>,
        Refusal,
    >)
        requires
            self.fixture.wf(),
            4 * count <= isize::MAX,
        ensures
            outcome(r) == float32_input(self.fixture@, self.test@, name@, count as nat, lo, hi),
    {
        proof {
            reveal(float32_input);
        }
        self.upload(name, prng::f32_uniform(self.seed(name).as_str(), count, lo, hi))
    }

    /// The given binary32 elements.
    pub fn constant_f32(&self, name: &str, values: &[u32]) -> (r: Result<Vec<u8>, Refusal>)
        requires
            self.fixture.wf(),
        ensures
            outcome(r) == f32_constant(self.fixture@, self.test@, name@, values@),
    {
        proof {
            reveal(f32_constant);
        }
        self.upload(name, bytes::concat_u32(values))
    }

    /// The given elements, as bfloat16.
    pub fn constant_bf16(&self, name: &str, values: &[u32]) -> (r: Result<Vec<u8>, Refusal>)
        requires
            self.fixture.wf(),
        ensures
            outcome(r) == bf16_constant(self.fixture@, self.test@, name@, values@),
    {
        proof {
            reveal(bf16_constant);
        }
        self.upload(name, concat_bf16(values))
    }

    /// A single 32-bit integer.
    pub fn constant_i32(&self, name: &str, value: i32) -> (r: Result<Vec<u8>, Refusal>)
        requires
            self.fixture.wf(),
        ensures
            outcome(r) == i32_constant(self.fixture@, self.test@, name@, value as u32),
    {
        proof {
            reveal(i32_constant);
        }
        let mut storage: Vec<u8> = Vec::with_capacity(4);
        bytes::push_u32(&mut storage, value as u32);
        assert(storage@ =~= bytes::le32(value as u32));
        self.upload(name, storage)
    }
}

/// Bytes of the bfloat16 nearest to each value.
pub fn concat_bf16(values: &[u32]) -> (out: Vec<u8>)
    ensures
        out@ == bf16_bytes(values@),
{
    let ghost rounded = |i: int| prng::bf16_of(values@[i]);
    let mut out: Vec<u8> = Vec::new();
    let mut i: usize = 0;
    assert(out@ =~= bytes::all_le16(Seq::new(0, rounded)));
    while i < values.len()
        invariant
            i <= values.len(),
            rounded == (|i: int| prng::bf16_of(values@[i])),
            out@ == bytes::all_le16(Seq::new(i as nat, rounded)),
        decreases values.len() - i,
    {
        let element = prng::f32_to_bf16_bits(values[i]);
        proof {
            bytes::lemma_all_le16_push(Seq::new(i as nat, rounded), element);
            assert(Seq::new(i as nat, rounded).push(element) =~= Seq::new(
                (i + 1) as nat,
                rounded,
            ));
        }
        bytes::push_u16(&mut out, element);
        i += 1;
    }
    out
}

/// The input that the normalization turns into signs: each sign over its weight.
pub fn exact_rmsnorm_input(s: &Synth<'_>, count: usize) -> (r: Result<Vec<u8>, Refusal>)
    requires
        s.fixture.wf(),
        2 * count <= isize::MAX,
    ensures
        outcome(r) == exact_input(s.fixture@, s.test@, count as nat),
{
    proof {
        reveal(exact_input);
    }
    let signs = prng::bf16_signs(s.seed("x_signs").as_str(), count, ONE);
    match s.verify("x_signs", signs.as_slice()) {
        Ok(_) => {},
        Err(refusal) => {
            return Err(refusal);
        },
    }
    let weights = prng::bf16_uniform(
        s.seed("input_rms_weight").as_str(),
        count,
        RMS_WEIGHT_MIN,
        RMS_WEIGHT_MAX,
    );
    let ghost sign = Seq::new(
        count as nat,
        |i: int|
            prng::sign_of(prng::seed_of(text::joined(s.test@, "x_signs"@)), i as nat, ONE),
    );
    let ghost weight = Seq::new(
        count as nat,
        |i: int|
            prng::bf16_of(
                prng::uniform_of(
                    prng::seed_of(text::joined(s.test@, "input_rms_weight"@)),
                    (0 + i) as nat,
                    RMS_WEIGHT_MIN,
                    RMS_WEIGHT_MAX,
                ),
            ),
    );
    assert(signs@ == bytes::all_le16(sign));
    assert(weights@ == bytes::all_le16(weight));
    let ghost element = |i: int| exact_element(s.test@, i as nat);
    let mut storage: Vec<u8> = Vec::with_capacity(2 * count);
    let mut i: usize = 0;
    assert(storage@ =~= bytes::all_le16(Seq::new(0, element)));
    while i < count
        invariant
            i <= count,
            2 * count <= isize::MAX,
            signs@ == bytes::all_le16(sign),
            weights@ == bytes::all_le16(weight),
            sign.len() == count,
            weight.len() == count,
            forall|j: int|
                0 <= j < count ==> #[trigger] element(j) == prng::bf16_of(
                    binary32::quotient_of(prng::widened(sign[j]), prng::widened(weight[j])),
                ),
            storage@ == bytes::all_le16(Seq::new(i as nat, element)),
        decreases count - i,
    {
        proof {
            bytes::law_u16_read_back(sign, i as int);
            bytes::law_u16_read_back(weight, i as int);
        }
        let above = prng::bf16_bits_to_f32(bytes::get_u16(signs.as_slice(), 2 * i));
        let below = prng::bf16_bits_to_f32(bytes::get_u16(weights.as_slice(), 2 * i));
        let quotient = prng::f32_to_bf16_bits(binary32::divide(above, below));
        proof {
            assert(element(i as int) == quotient);
            bytes::lemma_all_le16_push(Seq::new(i as nat, element), quotient);
            assert(Seq::new(i as nat, element).push(quotient) =~= Seq::new(
                (i + 1) as nat,
                element,
            ));
        }
        bytes::push_u16(&mut storage, quotient);
        i += 1;
    }
    assert(storage@ == exact_bytes(s.test@, count as nat));
    s.upload("x_exact", storage)
}

/// `count` elements of `bits` bits each, all zero.
pub fn zeros(count: usize, bits: usize) -> (r: Vec<u8>)
    requires
        count * bits <= usize::MAX,
        count * bits / 8 <= isize::MAX,
    ensures
        r@ == zero_bytes(count as nat, bits as nat),
{
    proof {
        reveal(zero_bytes);
    }
    let r: Vec<u8> = vec![0u8; count * bits / 8];
    assert(r@ =~= zero_bytes(count as nat, bits as nat));
    r
}

} // verus!
