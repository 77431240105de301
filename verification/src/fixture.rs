//! Recorded expectations and input checksums.
use crate::archive;
use crate::archive::Tensor;
use crate::bytes;
use crate::catalogue;
use crate::fixture_laws;
use crate::table::Table;
use crate::text;
use vstd::prelude::*;

verus! {

/// What a fixture records.
pub struct FixtureView {
    /// Expected values as binary32 encodings, by test and label.
    pub expected: Map<Seq<char>, Seq<u32>>,
    /// Checksums of the inputs, by test and input.
    pub checksums: Map<Seq<char>, u32>,
}

/// Recorded expectations and input checksums.
pub struct Fixture {
    expected: Table<Vec<u32>>,
    checksums: Table<u32>,
}

impl View for Fixture {
    type V = FixtureView;

    closed spec fn view(&self) -> FixtureView {
        FixtureView {
            expected: self.expected@.map_values(|values: Vec<u32>| values@),
            checksums: self.checksums@,
        }
    }
}

/// What keeps a tensor out of a fixture.
#[derive(Debug)]
pub enum TensorFault {
    /// The element type is neither `F32` nor `I64`.
    UnexpectedDtype { name: String, dtype: String },
    /// A checksum of fewer than eight bytes.
    ShortChecksum { name: String },
}

/// What a [`TensorFault`] says.
pub enum TensorFaultView {
    UnexpectedDtype { name: Seq<char>, dtype: Seq<char> },
    ShortChecksum { name: Seq<char> },
}

impl View for TensorFault {
    type V = TensorFaultView;

    open spec fn view(&self) -> TensorFaultView {
        match self {
            TensorFault::UnexpectedDtype { name, dtype } => TensorFaultView::UnexpectedDtype {
                name: name@,
                dtype: dtype@,
            },
            TensorFault::ShortChecksum { name } => TensorFaultView::ShortChecksum { name: name@ },
        }
    }
}

/// Why a file is no fixture.
#[derive(Debug)]
pub enum LoadError {
    /// The data of a tensor are declared to end near the end of the address space.
    Oversized,
    /// The file is not in the safetensors format.
    NotSafetensors(safetensors::SafeTensorError),
    /// A tensor is neither an expectation nor a checksum.
    Tensor(TensorFault),
}

/// The words of an expectation.
pub open spec fn words(data: Seq<u8>) -> Seq<u32> {
    Seq::new(data.len() / 4, |k: int| bytes::word_at(data, k))
}

/// The fixture `f` with one more tensor.
pub open spec fn with_tensor(f: FixtureView, tensor: Tensor) -> Result<
    FixtureView,
    TensorFaultView,
> {
    if tensor.dtype@ == "F32"@ {
        Ok(
            FixtureView {
                expected: f.expected.insert(tensor.name@, words(tensor.data@)),
                checksums: f.checksums,
            },
        )
    } else if tensor.dtype@ == "I64"@ {
        if tensor.data@.len() < 8 {
            Err(TensorFaultView::ShortChecksum { name: tensor.name@ })
        } else {
            Ok(
                FixtureView {
                    expected: f.expected,
                    checksums: f.checksums.insert(tensor.name@, bytes::u32_at(tensor.data@, 0)),
                },
            )
        }
    } else {
        Err(TensorFaultView::UnexpectedDtype { name: tensor.name@, dtype: tensor.dtype@ })
    }
}

/// The fixture that a list of tensors makes, or the fault of the first that has one.
pub open spec fn collected(list: Seq<Tensor>) -> Result<FixtureView, TensorFaultView>
    decreases list.len(),
{
    if list.len() == 0 {
        Ok(FixtureView { expected: Map::empty(), checksums: Map::empty() })
    } else {
        match collected(list.drop_last()) {
            Ok(f) => with_tensor(f, list.last()),
            Err(fault) => Err(fault),
        }
    }
}

/// Whether an element type and bytes make an expectation or a checksum.
pub open spec fn readable(tensor: (Seq<char>, Seq<u8>)) -> bool {
    tensor.0 == "F32"@ || tensor.0 == "I64"@ && tensor.1.len() >= 8
}

/// Whether each tensor makes an expectation or a checksum.
pub open spec fn all_readable(tensors: Map<Seq<char>, (Seq<char>, Seq<u8>)>) -> bool {
    forall|name: Seq<char>| tensors.contains_key(name) ==> readable(#[trigger] tensors[name])
}

/// Whether a file with these tensors has this fault.
pub open spec fn faulty(
    tensors: Map<Seq<char>, (Seq<char>, Seq<u8>)>,
    fault: TensorFaultView,
) -> bool {
    match fault {
        TensorFaultView::UnexpectedDtype { name, dtype } => tensors.contains_key(name)
            && tensors[name].0 == dtype && dtype != "F32"@ && dtype != "I64"@,
        TensorFaultView::ShortChecksum { name } => tensors.contains_key(name) && tensors[name].0
            == "I64"@ && tensors[name].1.len() < 8,
    }
}

/// The fixture in a file with these tensors.
pub open spec fn fixture_of(tensors: Map<Seq<char>, (Seq<char>, Seq<u8>)>) -> FixtureView {
    FixtureView {
        expected: Map::new(
            |name: Seq<char>| tensors.contains_key(name) && tensors[name].0 == "F32"@,
            |name: Seq<char>| words(tensors[name].1),
        ),
        checksums: Map::new(
            |name: Seq<char>| tensors.contains_key(name) && tensors[name].0 == "I64"@,
            |name: Seq<char>| bytes::u32_at(tensors[name].1, 0),
        ),
    }
}

/// Name of the checksum of an input.
pub open spec fn check_key(test: Seq<char>, input: Seq<char>) -> Seq<char> {
    text::joined(test, text::joined("check"@, input))
}

/// Whether an expectation belongs to no test.
pub open spec fn orphan(key: Seq<char>) -> bool {
    !catalogue::is_test(text::first_part(key))
}

/// A fault is the fault of a tensor that cannot be read.
proof fn lemma_faulty(tensors: Map<Seq<char>, (Seq<char>, Seq<u8>)>, fault: TensorFaultView)
    requires
        faulty(tensors, fault),
    ensures
        !all_readable(tensors),
{
    reveal_strlit("F32");
    reveal_strlit("I64");
    assert("F32"@[0] != "I64"@[0]);
    let name = match fault {
        TensorFaultView::UnexpectedDtype { name, .. } => name,
        TensorFaultView::ShortChecksum { name } => name,
    };
    assert(!readable(tensors[name]));
}

proof fn lemma_contents(list: Seq<Tensor>, name: Seq<char>)
    ensures
        archive::contents(list).contains_key(name) ==> exists|i: int|
            0 <= i < list.len() && (#[trigger] list[i]).name@ == name,
    decreases list.len(),
{
    if list.len() > 0 && list.last().name@ != name {
        let front = list.drop_last();
        lemma_contents(front, name);
        if archive::contents(front).contains_key(name) {
            let i = choose|i: int| 0 <= i < front.len() && (#[trigger] front[i]).name@ == name;
            assert(list[i].name@ == name);
        }
    } else if list.len() > 0 {
        assert(list[list.len() - 1].name@ == name);
    }
}

/// A list of tensors without a repeated name makes the fixture of the file that holds them,
/// whatever their order.
pub proof fn law_order_of_tensors_does_not_matter(list: Seq<Tensor>)
    requires
        archive::distinct(list),
    ensures
        match collected(list) {
            Ok(f) => f == fixture_of(archive::contents(list)) && all_readable(
                archive::contents(list),
            ),
            Err(fault) => faulty(archive::contents(list), fault),
        },
    decreases list.len(),
{
    reveal_strlit("F32");
    reveal_strlit("I64");
    assert("F32"@[0] != "I64"@[0]);
    let whole = archive::contents(list);
    if list.len() > 0 {
        let front = list.drop_last();
        let last = list.last();
        assert(archive::distinct(front));
        law_order_of_tensors_does_not_matter(front);
        lemma_contents(front, last.name@);
        assert(!archive::contents(front).contains_key(last.name@)) by {
            if archive::contents(front).contains_key(last.name@) {
                let i = choose|i: int|
                    0 <= i < front.len() && (#[trigger] front[i]).name@ == last.name@;
                assert(list[i].name@ == list[list.len() - 1].name@);
            }
        }
        if let Ok(f) = collected(list) {
            assert(f.expected =~= fixture_of(whole).expected);
            assert(f.checksums =~= fixture_of(whole).checksums);
            assert forall|name: Seq<char>| whole.contains_key(name) implies readable(
                #[trigger] whole[name],
            ) by {
                if name != last.name@ {
                    assert(archive::contents(front).contains_key(name));
                    assert(readable(archive::contents(front)[name]));
                }
            }
        }
    } else {
        assert(fixture_of(whole).expected =~= Map::<Seq<char>, Seq<u32>>::empty());
        assert(fixture_of(whole).checksums =~= Map::<Seq<char>, u32>::empty());
    }
}

/// Reads the whole words of `data`.
fn read_words(data: &[u8]) -> (r: Vec<u32>)
    ensures
        r@ == words(data@),
{
    let count: usize = data.len() / 4;
    let mut r: Vec<u32> = Vec::with_capacity(count);
    let mut k: usize = 0;
    while k < count
        invariant
            k <= count,
            count == data.len() / 4,
            r@ == words(data@).take(k as int),
        decreases count - k,
    {
        r.push(bytes::get_u32(data, 4 * k));
        k += 1;
        assert(r@ =~= words(data@).take(k as int));
    }
    assert(r@ =~= words(data@));
    r
}

impl Fixture {
    /// Each name stands once.
    pub closed spec fn wf(&self) -> bool {
        self.expected.wf() && self.checksums.wf()
    }

    /// The fixture in the bytes of a file.
    pub fn load(file: &[u8]) -> (r: Result<Fixture, LoadError>)
        ensures
            r is Ok <==> archive::tensors_in(file@) is Some && all_readable(
                archive::tensors_in(file@)->0,
            ),
            match r {
                Ok(fixture) => {
                    &&& fixture.wf()
                    &&& !archive::oversized(file@)
                    &&& archive::tensors_in(file@) matches Some(tensors)
                    &&& fixture@ == fixture_of(tensors)
                    &&& all_readable(tensors)
                    &&& forall|name: Seq<char>|
                        tensors.contains_key(name) && tensors[name].0 == "F32"@
                            ==> #[trigger] fixture@.expected.contains_key(name)
                            && fixture_laws::spelled(tensors[name].1, fixture@.expected[name])
                },
                Err(LoadError::Oversized) => archive::oversized(file@),
                Err(LoadError::NotSafetensors(_)) => {
                    &&& !archive::oversized(file@)
                    &&& archive::tensors_in(file@) is None
                },
                Err(LoadError::Tensor(fault)) => {
                    &&& !archive::oversized(file@)
                    &&& archive::tensors_in(file@) matches Some(tensors)
                    &&& faulty(tensors, fault@)
                },
            },
    {
        if archive::is_oversized(file) {
            return Err(LoadError::Oversized);
        }
        match archive::deserialize(file) {
            Ok(list) => {
                proof {
                    law_order_of_tensors_does_not_matter(list@);
                }
                match Fixture::from_tensors(&list) {
                    Ok(fixture) => {
                        proof {
                            let tensors = archive::contents(list@);
                            assert forall|name: Seq<char>|
                                tensors.contains_key(name) && tensors[name].0
                                    == "F32"@ implies #[trigger] fixture@.expected.contains_key(
                                name,
                            ) && fixture_laws::spelled(
                                tensors[name].1,
                                fixture@.expected[name],
                            ) by {
                                fixture_laws::law_a_file_is_recorded_tensor_by_tensor(
                                    tensors,
                                    name,
                                );
                            }
                        }
                        Ok(fixture)
                    },
                    Err(fault) => {
                        proof {
                            lemma_faulty(archive::contents(list@), fault@);
                        }
                        Err(LoadError::Tensor(fault))
                    },
                }
            },
            Err(error) => Err(LoadError::NotSafetensors(error)),
        }
    }

    /// The fixture that a list of tensors makes; of two with the same name the later counts.
    pub fn from_tensors(list: &Vec<Tensor>) -> (r: Result<Fixture, TensorFault>)
        ensures
            match r {
                Ok(fixture) => fixture.wf() && collected(list@) == Ok::<
                    FixtureView,
                    TensorFaultView,
                >(fixture@),
                Err(fault) => collected(list@) == Err::<FixtureView, TensorFaultView>(fault@),
            },
    {
        let mut fixture = Fixture { expected: Table::new(), checksums: Table::new() };
        assert(fixture@.expected =~= Map::<Seq<char>, Seq<u32>>::empty());
        let mut i: usize = 0;
        while i < list.len()
            invariant
                i <= list.len(),
                fixture.wf(),
                collected(list@.take(i as int)) == Ok::<FixtureView, TensorFaultView>(fixture@),
            decreases list.len() - i,
        {
            let tensor = &list[i];
            let ghost before = fixture@;
            proof {
                assert(list@.take(i + 1).drop_last() =~= list@.take(i as int));
                assert(list@.take(i + 1).last() == *tensor);
                lemma_fault_stays(list@, (i + 1) as nat);
            }
            if text::same(tensor.dtype.as_str(), "F32") {
                fixture.expected.insert(
                    tensor.name.clone(),
                    read_words(tensor.data.as_slice()),
                );
                assert(fixture@.expected =~= before.expected.insert(
                    tensor.name@,
                    words(tensor.data@),
                ));
            } else if text::same(tensor.dtype.as_str(), "I64") {
                if tensor.data.len() < 8 {
                    return Err(TensorFault::ShortChecksum { name: tensor.name.clone() });
                }
                fixture.checksums.insert(
                    tensor.name.clone(),
                    bytes::get_u32(tensor.data.as_slice(), 0),
                );
            } else {
                return Err(
                    TensorFault::UnexpectedDtype {
                        name: tensor.name.clone(),
                        dtype: tensor.dtype.clone(),
                    },
                );
            }
            i += 1;
        }
        assert(list@.take(list.len() as int) =~= list@);
        Ok(fixture)
    }

    /// The expected values of an output of a test, if they are recorded.
    pub fn expect(&self, test: &str, label: &str) -> (r: Option<&[u32]>)
        requires
            self.wf(),
        ensures
            match r {
                Some(values) => self@.expected.contains_key(text::joined(test@, label@))
                    && values@ == self@.expected[text::joined(test@, label@)],
                None => !self@.expected.contains_key(text::joined(test@, label@)),
            },
    {
        let key = text::join(test, label);
        match self.expected.get(key.as_str()) {
            Some(values) => Some(values.as_slice()),
            None => None,
        }
    }

    /// The checksum of an input of a test, if it is recorded.
    pub fn checksum(&self, test: &str, input: &str) -> (r: Option<u32>)
        requires
            self.wf(),
        ensures
            match r {
                Some(sum) => self@.checksums.contains_key(check_key(test@, input@)) && sum
                    == self@.checksums[check_key(test@, input@)],
                None => !self@.checksums.contains_key(check_key(test@, input@)),
            },
    {
        let key = text::join(test, text::join("check", input).as_str());
        match self.checksums.get(key.as_str()) {
            Some(sum) => Some(*sum),
            None => None,
        }
    }

    /// The expectations that belong to no test, each once.
    pub fn orphans(&self) -> (r: Vec<String>)
        requires
            self.wf(),
        ensures
            text::views(r@).no_duplicates(),
            forall|key: Seq<char>| #[trigger]
                text::views(r@).contains(key) <==> self@.expected.contains_key(
                    key,
                ) && orphan(key),
    {
        let ghost keys = self.expected.names();
        let ghost alone = |key: Seq<char>| orphan(key);
        let mut r: Vec<String> = Vec::new();
        let mut i: usize = 0;
        assert(text::views(r@) =~= keys.take(0).filter(alone)) by {
            reveal(Seq::filter);
        }
        while i < self.expected.len()
            invariant
                i <= keys.len(),
                keys == self.expected.names(),
                alone == (|key: Seq<char>| orphan(key)),
                text::views(r@) == keys.take(i as int).filter(alone),
            decreases keys.len() - i,
        {
            let key = self.expected.name(i);
            let ghost before = text::views(r@);
            proof {
                assert(keys.take(i + 1).drop_last() =~= keys.take(i as int));
                reveal(Seq::filter);
            }
            if !catalogue::has_test(text::take_first_part(key.as_str())) {
                r.push(key.clone());
                assert(text::views(r@) =~= before.push(key@));
            }
            i += 1;
        }
        proof {
            self.expected.lemma_names();
            assert(keys.take(keys.len() as int) =~= keys);
            lemma_filtered(keys, alone);
        }
        r
    }
}

/// A fault in a list is a fault of any list that begins with it.
proof fn lemma_fault_stays(list: Seq<Tensor>, n: nat)
    requires
        n <= list.len(),
    ensures
        collected(list.take(n as int)) matches Err(fault) ==> collected(list) == Err::<
            FixtureView,
            TensorFaultView,
        >(fault),
    decreases list.len() - n,
{
    if n < list.len() {
        assert(list.take((n + 1) as int).drop_last() =~= list.take(n as int));
        lemma_fault_stays(list, n + 1);
    } else {
        assert(list.take(n as int) =~= list);
    }
}

/// Filtering keeps just the items that pass, and repeats none.
proof fn lemma_filtered<A>(s: Seq<A>, keep: spec_fn(A) -> bool)
    requires
        s.no_duplicates(),
    ensures
        s.filter(keep).no_duplicates(),
        forall|x: A| #[trigger] s.filter(keep).contains(x) <==> s.contains(x) && keep(x),
    decreases s.len(),
{
    reveal(Seq::filter);
    if s.len() > 0 {
        let front = s.drop_last();
        let last = s.last();
        lemma_filtered(front, keep);
        let kept = front.filter(keep);
        assert forall|x: A| #[trigger] s.contains(x) <==> front.contains(x) || x == last by {
            if s.contains(x) {
                let i = choose|i: int| 0 <= i < s.len() && s[i] == x;
                if i < front.len() {
                    assert(front[i] == x);
                }
            }
            if front.contains(x) {
                let i = choose|i: int| 0 <= i < front.len() && front[i] == x;
                assert(s[i] == x);
            }
            assert(s[s.len() - 1] == last);
        }
        assert(!front.contains(last)) by {
            if front.contains(last) {
                let i = choose|i: int| 0 <= i < front.len() && front[i] == last;
                assert(s[i] == s[s.len() - 1]);
            }
        }
        if keep(last) {
            assert(s.filter(keep) =~= kept.push(last));
            assert(!kept.contains(last));
            assert forall|x: A| #[trigger] s.filter(keep).contains(x) <==> kept.contains(x) || x
                == last by {
                if kept.contains(x) {
                    let i = choose|i: int| 0 <= i < kept.len() && kept[i] == x;
                    assert(kept.push(last)[i] == x);
                }
                assert(kept.push(last)[kept.len() as int] == last);
            }
        } else {
            assert(s.filter(keep) =~= kept);
        }
    }
}

} // verus!
