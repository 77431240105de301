//! Buffers that are made ready for a device, one after the other.
use crate::synth;
use crate::synth::{Refusal, RefusalView, Verdict};
use vstd::prelude::*;

verus! {

/// The bytes of a tensor on the device.
#[derive(Debug)]
pub struct Buffer {
    pub name: String,
    pub bytes: Vec<u8>,
}

impl View for Buffer {
    type V = (Seq<char>, Seq<u8>);

    open spec fn view(&self) -> (Seq<char>, Seq<u8>) {
        (self.name@, self.bytes@)
    }
}

/// What is made ready, step by step: a name and its bytes, or why there are none.
pub type Steps = Seq<(Seq<char>, Verdict)>;

/// The buffers, if each step gave one; otherwise the refusal of the first that did not.
pub open spec fn settled(steps: Steps) -> Result<
    Seq<(Seq<char>, Seq<u8>)>,
    RefusalView,
>
    decreases steps.len(),
{
    if steps.len() == 0 {
        Ok(Seq::empty())
    } else {
        match settled(steps.drop_last()) {
            Err(refusal) => Err(refusal),
            Ok(done) => match steps.last().1 {
                Err(refusal) => Err(refusal),
                Ok(storage) => Ok(done.push((steps.last().0, storage))),
            },
        }
    }
}

/// Buffers, or why there are none.
pub open spec fn staged(r: Result<Vec<Buffer>, Refusal>) -> Result<
    Seq<(Seq<char>, Seq<u8>)>,
    RefusalView,
> {
    match r {
        Ok(buffers) => Ok(buffers@.map_values(|buffer: Buffer| buffer@)),
        Err(refusal) => Err(refusal@),
    }
}

/// Buffers are made ready only if every step gives one.
pub proof fn law_all_steps_count(steps: Steps)
    ensures
        settled(steps) is Ok <==> forall|i: int|
            0 <= i < steps.len() ==> (#[trigger] steps[i]).1 is Ok,
        settled(steps) matches Ok(done) ==> done.len() == steps.len() && forall|i: int|
            0 <= i < steps.len() ==> #[trigger] done[i] == (steps[i].0, steps[i].1->Ok_0),
    decreases steps.len(),
{
    if steps.len() > 0 {
        let front = steps.drop_last();
        law_all_steps_count(front);
        if settled(steps) is Ok {
            assert forall|i: int| 0 <= i < steps.len() implies (#[trigger] steps[i]).1 is Ok by {
                if i < front.len() {
                    assert(front[i].1 is Ok);
                }
            }
        }
        if forall|i: int| 0 <= i < steps.len() ==> (#[trigger] steps[i]).1 is Ok {
            assert forall|i: int| 0 <= i < front.len() implies (#[trigger] front[i]).1 is Ok by {
                assert(steps[i].1 is Ok);
            }
            assert(steps[steps.len() - 1].1 is Ok);
        }
    }
}

/// The refusal of the first step that gives no buffer is the outcome.
pub proof fn law_first_refusal_counts(
    steps: Steps,
    at: int,
)
    requires
        0 <= at < steps.len(),
        steps[at].1 is Err,
        forall|i: int| 0 <= i < at ==> (#[trigger] steps[i]).1 is Ok,
    ensures
        settled(steps) == Err::<Seq<(Seq<char>, Seq<u8>)>, RefusalView>(steps[at].1->Err_0),
    decreases steps.len(),
{
    let front = steps.drop_last();
    if at < front.len() {
        assert forall|i: int| 0 <= i < at implies (#[trigger] front[i]).1 is Ok by {
            assert(steps[i].1 is Ok);
        }
        law_first_refusal_counts(front, at);
    } else {
        law_all_steps_count(front);
        assert forall|i: int| 0 <= i < front.len() implies (#[trigger] front[i]).1 is Ok by {
            assert(steps[i].1 is Ok);
        }
    }
}

/// The buffers of the steps so far, or the first refusal among them.
pub struct Stage {
    buffers: Vec<Buffer>,
    refusal: Option<Refusal>,
    steps: Ghost<Steps>,
}

impl Stage {
    /// The steps so far.
    pub closed spec fn steps(&self) -> Steps {
        self.steps@
    }

    /// What is held is what the steps give.
    pub closed spec fn wf(&self) -> bool {
        match self.refusal {
            Some(refusal) => settled(self.steps@) == Err::<
                Seq<(Seq<char>, Seq<u8>)>,
                RefusalView,
            >(refusal@),
            None => settled(self.steps@) == Ok::<Seq<(Seq<char>, Seq<u8>)>, RefusalView>(
                self.buffers@.map_values(|buffer: Buffer| buffer@),
            ),
        }
    }

    /// No steps yet.
    pub fn new() -> (r: Self)
        ensures
            r.wf(),
            r.steps() == Steps::empty(),
    {
        let r = Stage { buffers: Vec::new(), refusal: None, steps: Ghost(Seq::empty()) };
        assert(r.buffers@.map_values(|buffer: Buffer| buffer@) =~= Seq::empty());
        r
    }

    /// One more step.
    pub fn put(&mut self, name: &str, result: Result<Vec<u8>, Refusal>)
        requires
            old(self).wf(),
        ensures
            final(self).wf(),
            final(self).steps() == old(self).steps().push((name@, synth::outcome(result))),
    {
        let ghost before = self.buffers@.map_values(|buffer: Buffer| buffer@);
        let ghost step = (name@, synth::outcome(result));
        proof {
            let steps = self.steps@.push(step);
            assert(steps.drop_last() =~= self.steps@);
            self.steps@ = steps;
        }
        if self.refusal.is_none() {
            match result {
                Ok(bytes) => {
                    self.buffers.push(Buffer { name: name.to_owned(), bytes });
                    assert(self.buffers@.map_values(|buffer: Buffer| buffer@) =~= before.push(
                        (step.0, step.1->Ok_0),
                    ));
                },
                Err(refusal) => {
                    self.refusal = Some(refusal);
                },
            }
        }
    }

    /// The buffers of all steps, or the first refusal among them.
    pub fn finish(self) -> (r: Result<Vec<Buffer>, Refusal>)
        requires
            self.wf(),
        ensures
            staged(r) == settled(self.steps()),
    {
        match self.refusal {
            Some(refusal) => Err(refusal),
            None => Ok(self.buffers),
        }
    }
}

} // verus!
