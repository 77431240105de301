//! The verdict on each test and on the run.
use crate::catalogue::Test;
use crate::compare;
use crate::compare::Comparison;
use crate::fixture::Fixture;
use crate::text;
use vstd::prelude::*;
use vstd::string::*;

verus! {

/// Why an output cannot be compared.
#[derive(Debug)]
pub enum Fault {
    /// The fixture has no expectation of this name.
    NoExpectation { key: String },
    /// The output and its expectation differ in length.
    ShapeMismatch { expected: usize, actual: usize },
    /// There is nothing to compare.
    Empty,
}

/// How an output of a test is called: by the test alone if it has but one output.
pub open spec fn display_of(test: Seq<char>, label: Seq<char>, outputs: nat) -> Seq<char> {
    if outputs == 1 {
        test
    } else {
        test.push(' ') + text::trimmed(label, "expected."@)
    }
}

/// The only output of a test is called as the test is. One of several is called as the test, a
/// space, and its label, in front of which `expected.` makes no difference.
pub proof fn law_outputs_are_called_after_test_and_label(
    test: Seq<char>,
    label: Seq<char>,
    outputs: nat,
)
    ensures
        display_of(test, label, 1) == test,
        display_of(test, "expected."@ + label, outputs) == display_of(test, label, outputs),
        outputs != 1 && !"expected."@.is_prefix_of(label) ==> display_of(test, label, outputs)
            == test + " "@ + label,
{
    reveal_strlit(" ");
    reveal_strlit("expected.");
    assert("expected."@.len() == 9);
    text::law_every_prefix_is_trimmed(label, "expected."@);
    assert(test.push(' ') + label =~= test + " "@ + label);
}

/// How an output of a test is called.
pub fn display_label(test: &str, label: &str, outputs: usize) -> (r: String)
    ensures
        r@ == display_of(test@, label@, outputs as nat),
{
    let mut name = test.to_owned();
    if outputs != 1 {
        name.append(" ");
        name.append(text::trim_prefix(label, "expected."));
        proof {
            reveal_strlit(" ");
            assert(name@ =~= display_of(test@, label@, outputs as nat));
        }
    }
    name
}

/// Holds an output of a test against its expectation.
pub fn examine(fixture: &Fixture, test: &Test, label: &str, actual: &[u32]) -> (r: Result<
    Comparison,
    Fault,
>)
    requires
        fixture.wf(),
    ensures
        ({
            let key = text::joined(test.name@, label@);
            let expected = fixture@.expected[key];
            match r {
                Ok(comparison) => {
                    &&& fixture@.expected.contains_key(key)
                    &&& expected.len() == actual.len()
                    &&& 0 < expected.len()
                    &&& compare::found(comparison, expected, actual@, test.atol, test.rtol)
                },
                Err(Fault::NoExpectation { key: missing }) => {
                    &&& missing@ == key
                    &&& !fixture@.expected.contains_key(key)
                },
                Err(Fault::ShapeMismatch { expected: wanted, actual: given }) => {
                    &&& fixture@.expected.contains_key(key)
                    &&& wanted == expected.len()
                    &&& given == actual.len()
                    &&& wanted != given
                },
                Err(Fault::Empty) => {
                    &&& fixture@.expected.contains_key(key)
                    &&& expected.len() == 0
                    &&& actual.len() == 0
                },
            }
        }),
{
    match fixture.expect(test.name, label) {
        None => Err(Fault::NoExpectation { key: text::join(test.name, label) }),
        Some(expected) => if expected.len() != actual.len() {
            Err(Fault::ShapeMismatch { expected: expected.len(), actual: actual.len() })
        } else if expected.len() == 0 {
            Err(Fault::Empty)
        } else {
            Ok(compare::compare(expected, actual, test.atol, test.rtol))
        },
    }
}

/// Whether a test passes: each of its outputs does.
pub fn verdict(found: &Vec<Comparison>) -> (r: bool)
    ensures
        r == forall|i: int| 0 <= i < found@.len() ==> (#[trigger] found@[i]).passes(),
{
    let mut i: usize = 0;
    while i < found.len()
        invariant
            i <= found.len(),
            forall|j: int| 0 <= j < i ==> (#[trigger] found@[j]).passes(),
        decreases found.len() - i,
    {
        if !found[i].passed() {
            return false;
        }
        i += 1;
    }
    true
}

/// The tests of a run that failed, in the order of their verdicts.
pub struct Tally {
    failures: Vec<String>,
}

impl View for Tally {
    type V = Seq<Seq<char>>;

    closed spec fn view(&self) -> Seq<Seq<char>> {
        text::views(self.failures@)
    }
}

impl Tally {
    /// No verdicts yet.
    pub fn new() -> (r: Self)
        ensures
            r@ == Seq::<Seq<char>>::empty(),
    {
        let r = Tally { failures: Vec::new() };
        assert(r@ =~= Seq::<Seq<char>>::empty());
        r
    }

    /// Records the verdict on a test.
    pub fn record(&mut self, test: &str, ok: bool)
        ensures
            final(self)@ == if ok {
                old(self)@
            } else {
                old(self)@.push(test@)
            },
    {
        if !ok {
            self.failures.push(test.to_owned());
            assert(self@ =~= old(self)@.push(test@));
        }
    }

    /// The tests that failed.
    pub fn failures(&self) -> (r: &Vec<String>)
        ensures
            text::views(r@) == self@,
    {
        &self.failures
    }

    /// The exit code of the run: zero if no test failed, otherwise one.
    pub fn exit_code(&self) -> (r: i32)
        ensures
            r == if self@.len() == 0 {
                0int
            } else {
                1
            },
    {
        if self.failures.len() == 0 {
            0
        } else {
            1
        }
    }
}

} // verus!
