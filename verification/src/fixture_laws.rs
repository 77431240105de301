//! What a fixture gives back.
use crate::archive;
use crate::archive::Tensor;
use crate::bytes;
use crate::catalogue;
use crate::catalogue_laws;
use crate::fixture;
use crate::fixture::{FixtureView, TensorFaultView};
use crate::text;
use vstd::prelude::*;

verus! {

/// Expected values are read back as they were written.
pub proof fn law_expectations_are_read_back(values: Seq<u32>)
    ensures
        fixture::words(bytes::all_le32(values)) == values,
{
    let data = bytes::all_le32(values);
    assert forall|k: int| 0 <= k < values.len() implies fixture::words(data)[k] == values[k] by {
        bytes::law_u32_read_back(values, k);
    }
    assert(fixture::words(data) =~= values);
}

/// A checksum is read back from the low half of the 64-bit integer that holds it, whatever the
/// high half is.
pub proof fn law_checksums_are_read_back(sum: u32, high: Seq<u8>)
    ensures
        bytes::u32_at(bytes::le32(sum) + high, 0) == sum,
{
    let data = bytes::le32(sum) + high;
    assert(data[0] == bytes::le32(sum)[0]);
    assert(data[1] == bytes::le32(sum)[1]);
    assert(data[2] == bytes::le32(sum)[2]);
    assert(data[3] == bytes::le32(sum)[3]);
}

/// An expectation that is named after a test is no orphan, whatever its label.
pub proof fn law_expectations_of_tests_are_no_orphans(i: int, label: Seq<char>)
    requires
        0 <= i < catalogue::rows().len(),
    ensures
        !fixture::orphan(text::joined(catalogue::rows()[i].0, label)),
{
    catalogue_laws::law_test_names_are_single_parts(i);
    text::law_first_part_of_joined(catalogue::rows()[i].0, label);
}

/// An expectation that is named after no test is an orphan.
pub proof fn law_other_expectations_are_orphans(test: Seq<char>, label: Seq<char>)
    requires
        text::dotless(test),
        !catalogue::is_test(test),
    ensures
        fixture::orphan(text::joined(test, label)),
{
    text::law_first_part_of_joined(test, label);
}

/// No two inputs share a checksum.
pub proof fn law_check_keys_are_injective(
    test: Seq<char>,
    input: Seq<char>,
    other_test: Seq<char>,
    other_input: Seq<char>,
)
    requires
        text::dotless(test),
        text::dotless(other_test),
        fixture::check_key(test, input) == fixture::check_key(other_test, other_input),
    ensures
        test == other_test,
        input == other_input,
{
    let check = "check"@;
    text::law_joined_is_injective(
        test,
        text::joined(check, input),
        other_test,
        text::joined(check, other_input),
    );
    let n = check.len() as int + 1;
    assert(text::joined(check, input).skip(n) =~= input);
    assert(text::joined(check, other_input).skip(n) =~= other_input);
}

/// Whether `values` are the whole words of `data`, each spelled lowest byte first.
pub open spec fn spelled(data: Seq<u8>, values: Seq<u32>) -> bool {
    &&& values.len() == data.len() / 4
    &&& forall|k: int|
        0 <= k < values.len() ==> #[trigger] values[k] == data[4 * k] + 256 * data[4 * k + 1]
            + 65536 * data[4 * k + 2] + 16777216 * data[4 * k + 3]
}

proof fn lemma_words_are_spelled(data: Seq<u8>)
    ensures
        spelled(data, fixture::words(data)),
{
    assert forall|k: int| 0 <= k < data.len() / 4 implies #[trigger] fixture::words(data)[k]
        == data[4 * k] + 256 * data[4 * k + 1] + 65536 * data[4 * k + 2] + 16777216 * data[4 * k
        + 3] by {
        bytes::law_numbers_are_read_lowest_byte_first(data, 4 * k);
    }
}

/// The fixture of a file records under the name of each `F32` tensor all of its whole words, in
/// their order and however many, under the name of each `I64` tensor the low half of its first
/// item, and nothing under any other name.
pub proof fn law_a_file_is_recorded_tensor_by_tensor(
    tensors: Map<Seq<char>, (Seq<char>, Seq<u8>)>,
    name: Seq<char>,
)
    ensures
        ({
            let f = fixture::fixture_of(tensors);
            let data = tensors[name].1;
            &&& f.expected.contains_key(name) <==> tensors.contains_key(name) && tensors[name].0
                == "F32"@
            &&& f.expected.contains_key(name) ==> spelled(data, f.expected[name])
            &&& f.checksums.contains_key(name) <==> tensors.contains_key(name) && tensors[name].0
                == "I64"@
            &&& f.checksums.contains_key(name) && data.len() >= 4 ==> f.checksums[name] == data[0]
                + 256 * data[1] + 65536 * data[2] + 16777216 * data[3]
        }),
{
    lemma_words_are_spelled(tensors[name].1);
    bytes::law_numbers_are_read_lowest_byte_first(tensors[name].1, 0);
}

/// Bytes that values were written to spell these values.
proof fn lemma_written_values_are_spelled(values: Seq<u32>, found: Seq<u32>)
    requires
        spelled(bytes::all_le32(values), found),
    ensures
        found == values,
{
    assert forall|k: int| 0 <= k < values.len() implies found[k] == values[k] by {
        bytes::law_bytes_of_u32_items(values, k);
        bytes::lemma_digits(values[k]);
    }
    assert(found =~= values);
}

/// Values that a file holds word by word under the name of a test, a dot and a label are the
/// values that its fixture expects of that label of that test, whatever their number.
pub proof fn law_recorded_expectations_are_given_back(
    tensors: Map<Seq<char>, (Seq<char>, Seq<u8>)>,
    test: Seq<char>,
    label: Seq<char>,
    values: Seq<u32>,
)
    requires
        tensors.contains_key(test + "."@ + label),
        tensors[test + "."@ + label] == ("F32"@, bytes::all_le32(values)),
    ensures
        fixture::fixture_of(tensors).expected.contains_key(text::joined(test, label)),
        fixture::fixture_of(tensors).expected[text::joined(test, label)] == values,
{
    let name = test + "."@ + label;
    reveal_strlit(".");
    assert(text::joined(test, label) =~= name);
    law_a_file_is_recorded_tensor_by_tensor(tensors, name);
    lemma_written_values_are_spelled(values, fixture::fixture_of(tensors).expected[name]);
}

/// Values that a tensor of a list holds word by word are the values that the fixture of the list
/// expects, whatever their number, unless a later tensor replaces them.
pub proof fn law_listed_expectations_are_given_back(
    list: Seq<Tensor>,
    at: int,
    test: Seq<char>,
    label: Seq<char>,
    values: Seq<u32>,
)
    requires
        fixture::collected(list) is Ok,
        0 <= at < list.len(),
        list[at].name@ == test + "."@ + label,
        list[at].dtype@ == "F32"@,
        list[at].data@ == bytes::all_le32(values),
        forall|i: int| at < i < list.len() ==> (#[trigger] list[i]).name@ != list[at].name@,
    ensures
        fixture::collected(list)->Ok_0.expected.contains_key(text::joined(test, label)),
        fixture::collected(list)->Ok_0.expected[text::joined(test, label)] == values,
{
    let name = test + "."@ + label;
    reveal_strlit(".");
    assert(text::joined(test, label) =~= name);
    law_a_list_is_recorded_tensor_by_tensor(list, at);
    lemma_written_values_are_spelled(values, fixture::collected(list)->Ok_0.expected[name]);
}

/// Whether a tensor is an expectation or a checksum.
pub open spec fn usable(tensor: Tensor) -> bool {
    tensor.dtype@ == "F32"@ || tensor.dtype@ == "I64"@ && tensor.data@.len() >= 8
}

/// A list of tensors makes a fixture if and only if each is an expectation or a checksum of eight
/// bytes or more; otherwise the first that is neither is named, with what is wrong with it.
pub proof fn law_the_first_unusable_tensor_is_named(list: Seq<Tensor>, at: int)
    requires
        0 <= at <= list.len(),
        forall|i: int| 0 <= i < at ==> usable(#[trigger] list[i]),
        at < list.len() ==> !usable(list[at]),
    ensures
        (fixture::collected(list) is Ok) <==> at == list.len(),
        at < list.len() && list[at].dtype@ == "I64"@ ==> fixture::collected(list) == Err::<
            FixtureView,
            TensorFaultView,
        >(TensorFaultView::ShortChecksum { name: list[at].name@ }),
        at < list.len() && list[at].dtype@ != "I64"@ ==> fixture::collected(list) == Err::<
            FixtureView,
            TensorFaultView,
        >(TensorFaultView::UnexpectedDtype { name: list[at].name@, dtype: list[at].dtype@ }),
    decreases list.len(),
{
    reveal_strlit("F32");
    reveal_strlit("I64");
    assert("F32"@[0] != "I64"@[0]);
    if list.len() > 0 {
        let front = list.drop_last();
        if at < list.len() {
            assert forall|i: int| 0 <= i < at implies usable(#[trigger] front[i]) by {
                assert(usable(list[i]));
            }
            law_the_first_unusable_tensor_is_named(front, at);
        } else {
            assert forall|i: int| 0 <= i < front.len() implies usable(#[trigger] front[i]) by {
                assert(usable(list[i]));
            }
            law_the_first_unusable_tensor_is_named(front, front.len() as int);
            assert(usable(list[list.len() - 1]));
        }
    }
}

/// A list of tensors makes a fixture that expects, under the name of each `F32` tensor that no
/// later one replaces, all of its whole words, and records, under the name of each `I64` tensor
/// that no later one replaces, the low half of its first item.
pub proof fn law_a_list_is_recorded_tensor_by_tensor(list: Seq<Tensor>, at: int)
    requires
        fixture::collected(list) is Ok,
        0 <= at < list.len(),
        forall|i: int|
            at < i < list.len() ==> (#[trigger] list[i]).name@ != list[at].name@ || list[i].dtype@
                != list[at].dtype@,
    ensures
        ({
            let f = fixture::collected(list)->Ok_0;
            let data = list[at].data@;
            let name = list[at].name@;
            &&& list[at].dtype@ == "F32"@ ==> f.expected.contains_key(name) && spelled(
                data,
                f.expected[name],
            )
            &&& list[at].dtype@ != "F32"@ ==> f.checksums.contains_key(name) && f.checksums[name]
                == data[0] + 256 * data[1] + 65536 * data[2] + 16777216 * data[3]
        }),
    decreases list.len(),
{
    reveal_strlit("F32");
    reveal_strlit("I64");
    assert("F32"@[0] != "I64"@[0]);
    let front = list.drop_last();
    lemma_words_are_spelled(list[at].data@);
    bytes::law_numbers_are_read_lowest_byte_first(list[at].data@, 0);
    if at < front.len() {
        assert forall|i: int| at < i < front.len() implies (#[trigger] front[i]).name@
            != front[at].name@ || front[i].dtype@ != front[at].dtype@ by {
            assert(list[i].name@ != list[at].name@ || list[i].dtype@ != list[at].dtype@);
        }
        law_a_list_is_recorded_tensor_by_tensor(front, at);
        lemma_kept_dtype(front, at);
        assert(list[list.len() - 1].name@ != list[at].name@ || list[list.len() - 1].dtype@
            != list[at].dtype@);
    }
}

/// The tensors of a list that makes a fixture are expectations and checksums.
proof fn lemma_kept_dtype(list: Seq<Tensor>, at: int)
    requires
        fixture::collected(list) is Ok,
        0 <= at < list.len(),
    ensures
        list[at].dtype@ == "F32"@ || list[at].dtype@ == "I64"@,
    decreases list.len(),
{
    if at < list.len() - 1 {
        lemma_kept_dtype(list.drop_last(), at);
    }
}

/// A list of tensors makes a fixture that records nothing under a name that no tensor has.
pub proof fn law_nothing_else_is_recorded(list: Seq<Tensor>, name: Seq<char>)
    requires
        fixture::collected(list) is Ok,
    ensures
        fixture::collected(list)->Ok_0.expected.contains_key(name) <==> exists|i: int|
            0 <= i < list.len() && (#[trigger] list[i]).name@ == name && list[i].dtype@ == "F32"@,
        fixture::collected(list)->Ok_0.checksums.contains_key(name) <==> exists|i: int|
            0 <= i < list.len() && (#[trigger] list[i]).name@ == name && list[i].dtype@ == "I64"@,
    decreases list.len(),
{
    reveal_strlit("F32");
    reveal_strlit("I64");
    assert("F32"@[0] != "I64"@[0]);
    if list.len() > 0 {
        let front = list.drop_last();
        let last = list[list.len() - 1];
        law_nothing_else_is_recorded(front, name);
        assert forall|i: int| 0 <= i < front.len() implies front[i] == #[trigger] list[i] by {
        }
        if exists|i: int|
            0 <= i < front.len() && (#[trigger] front[i]).name@ == name && front[i].dtype@
                == "F32"@ {
            let i = choose|i: int|
                0 <= i < front.len() && (#[trigger] front[i]).name@ == name && front[i].dtype@
                    == "F32"@;
            assert(list[i].name@ == name);
        }
        if exists|i: int|
            0 <= i < front.len() && (#[trigger] front[i]).name@ == name && front[i].dtype@
                == "I64"@ {
            let i = choose|i: int|
                0 <= i < front.len() && (#[trigger] front[i]).name@ == name && front[i].dtype@
                    == "I64"@;
            assert(list[i].name@ == name);
        }
    }
}

/// What the tensors of a file are is what its list of tensors says, name by name, where no name
/// occurs twice.
pub proof fn law_contents_are_by_name(list: Seq<Tensor>, at: int)
    requires
        forall|i: int, j: int|
            0 <= i < j < list.len() ==> (#[trigger] list[i]).name@ != (#[trigger] list[j]).name@,
        0 <= at < list.len(),
    ensures
        archive::contents(list).contains_key(list[at].name@),
        archive::contents(list)[list[at].name@] == (list[at].dtype@, list[at].data@),
    decreases list.len(),
{
    if at < list.len() - 1 {
        let front = list.drop_last();
        assert(list[at].name@ != list[list.len() - 1].name@);
        law_contents_are_by_name(front, at);
    }
}

/// The checksum of an input is recorded under the name of the test, the word `check` and the name
/// of the input, with dots between them.
pub proof fn law_checksums_are_named_after_test_and_input(test: Seq<char>, input: Seq<char>)
    ensures
        fixture::check_key(test, input) == test + ".check."@ + input,
{
    reveal_strlit("check");
    reveal_strlit(".check.");
    assert(fixture::check_key(test, input) =~= test + ".check."@ + input);
}

/// An expectation is an orphan if and only if what stands before its first dot, or all of its
/// name if it has none, is the name of no test.
pub proof fn law_orphans_are_named_after_no_test(key: Seq<char>, n: int)
    requires
        0 <= n <= key.len(),
        n < key.len() ==> key[n] == '.',
        forall|i: int| 0 <= i < n ==> key[i] != '.',
    ensures
        fixture::orphan(key) <==> forall|i: int|
            0 <= i < catalogue::rows().len() ==> (#[trigger] catalogue::rows()[i]).0 != key.take(
                n,
            ),
{
    text::law_the_first_part_ends_at_the_first_dot(key);
    let part = text::first_part(key);
    if part.len() < n {
        assert(key[part.len() as int] != '.');
    }
    if n < part.len() {
        assert(part[n] == key[n]);
        assert(part[n] != '.');
    }
    assert(part =~= key.take(n));
}

} // verus!
