//! What is read from the header of a tensor file.
use crate::header;
use crate::header::{Place, ScanView};
use vstd::prelude::*;

verus! {

/// The record of a tensor, as it is spelled in a header.
pub struct Record {
    pub name: Seq<u8>,
    /// Whether the record is an array rather than an object.
    pub array: bool,
    /// Name of the element type.
    pub dtype: Seq<u8>,
    /// Numbers with commas between them.
    pub shape: Seq<u8>,
    /// Where the data start, in decimal digits.
    pub first: Seq<u8>,
    /// Where the data end, in decimal digits.
    pub second: Seq<u8>,
}

/// Whether a string stands for itself between quotes.
pub open spec fn plain(s: Seq<u8>) -> bool {
    forall|i: int| 0 <= i < s.len() ==> #[trigger] s[i] != 0x22 && s[i] != 0x5C
}

/// Whether `s` is made of decimal digits.
pub open spec fn decimal(s: Seq<u8>) -> bool {
    forall|i: int| 0 <= i < s.len() ==> 0x30 <= #[trigger] s[i] <= 0x39
}

/// Whether `s` is made of decimal digits and commas.
pub open spec fn decimals(s: Seq<u8>) -> bool {
    forall|i: int| 0 <= i < s.len() ==> 0x30 <= #[trigger] s[i] <= 0x39 || s[i] == 0x2C
}

/// Whether a record is spelled as it should be.
pub open spec fn well_spelled(r: Record) -> bool {
    &&& plain(r.name)
    &&& plain(r.dtype)
    &&& decimals(r.shape)
    &&& decimal(r.first)
    &&& decimal(r.second)
}

/// The number that decimal digits spell.
pub open spec fn value(s: Seq<u8>) -> nat
    decreases s.len(),
{
    if s.len() == 0 {
        0
    } else {
        (10 * value(s.drop_last()) + (s.last() - 0x30)) as nat
    }
}

/// Whether the record of a tensor declares that its data start in the upper half of the address
/// space and end inside of it, beyond `limit`.
pub open spec fn far(r: Record, limit: usize) -> bool {
    value(r.first) > usize::MAX / 2 && limit < value(r.second) <= usize::MAX
}

/// What a record is in a header: its name, a colon, and an object with the members `dtype`,
/// `shape` and `data_offsets`, or an array with their values.
pub open spec fn spelled(r: Record) -> Seq<u8> {
    if r.array {
        seq![0x22u8] + r.name + seq![0x22u8, 0x3A, 0x5B, 0x22] + r.dtype + seq![0x22u8, 0x2C, 0x5B]
            + r.shape + seq![0x5Du8, 0x2C, 0x5B] + r.first + seq![0x2Cu8] + r.second + seq![
            0x5Du8,
            0x5D,
        ]
    } else {
        seq![0x22u8] + r.name + seq![0x22u8, 0x3A, 0x7B, 0x22] + dtype_name() + seq![
            0x22u8,
            0x3A,
            0x22,
        ] + r.dtype + seq![0x22u8, 0x2C, 0x22] + shape_name() + seq![0x22u8, 0x3A, 0x5B] + r.shape
            + seq![0x5Du8, 0x2C, 0x22] + offsets_name() + seq![0x22u8, 0x3A, 0x5B] + r.first
            + seq![0x2Cu8] + r.second + seq![0x5Du8, 0x7D]
    }
}

/// The word `dtype`.
pub open spec fn dtype_name() -> Seq<u8> {
    seq![0x64u8, 0x74, 0x79, 0x70, 0x65]
}

/// The word `shape`.
pub open spec fn shape_name() -> Seq<u8> {
    seq![0x73u8, 0x68, 0x61, 0x70, 0x65]
}

/// The word `data_offsets`.
pub open spec fn offsets_name() -> Seq<u8> {
    seq![0x64u8, 0x61, 0x74, 0x61, 0x5F, 0x6F, 0x66, 0x66, 0x73, 0x65, 0x74, 0x73]
}

/// Records with commas between them.
pub open spec fn listed(records: Seq<Record>) -> Seq<u8>
    decreases records.len(),
{
    if records.len() == 0 {
        Seq::empty()
    } else if records.len() == 1 {
        spelled(records[0])
    } else {
        listed(records.drop_last()) + seq![0x2Cu8] + spelled(records.last())
    }
}

/// The header of a file with these records, behind which spaces may follow.
pub open spec fn header_of(records: Seq<Record>, spaces: nat) -> Seq<u8> {
    seq![0x7Bu8] + listed(records) + seq![0x7Du8] + Seq::new(spaces, |i: int| 0x20u8)
}

/// What is known after `text` if `s` was known before.
#[verifier::opaque]
spec fn fed(s: ScanView, text: Seq<u8>, limit: usize) -> ScanView
    decreases text.len(),
{
    if text.len() == 0 {
        s
    } else {
        header::stepped(fed(s, text.drop_last(), limit), text.last(), limit)
    }
}

proof fn lemma_fed(text: Seq<u8>, limit: usize, n: nat)
    requires
        n <= text.len(),
    ensures
        header::after(text, limit, n) == fed(header::start(), text.take(n as int), limit),
    decreases n,
{
    reveal(fed);
    if n > 0 {
        lemma_fed(text, limit, (n - 1) as nat);
        assert(text.take(n as int).drop_last() =~= text.take(n - 1));
    }
}

proof fn lemma_fed_in_turn(s: ScanView, a: Seq<u8>, b: Seq<u8>, limit: usize)
    ensures
        fed(s, a + b, limit) == fed(fed(s, a, limit), b, limit),
    decreases b.len(),
{
    reveal(fed);
    if b.len() > 0 {
        lemma_fed_in_turn(s, a, b.drop_last(), limit);
        assert((a + b).drop_last() =~= a + b.drop_last());
    } else {
        assert(a + b =~= a);
    }
}

proof fn lemma_one(s: ScanView, c: u8, limit: usize)
    ensures
        fed(s, seq![c], limit) == header::stepped(s, c, limit),
{
    assert(seq![c].drop_last() =~= Seq::<u8>::empty());
    reveal_with_fuel(fed, 2);
}

proof fn lemma_two(s: ScanView, c: u8, d: u8, limit: usize)
    ensures
        fed(s, seq![c, d], limit) == header::stepped(header::stepped(s, c, limit), d, limit),
{
    assert(seq![c, d] =~= seq![c] + seq![d]);
    lemma_fed_in_turn(s, seq![c], seq![d], limit);
    lemma_one(s, c, limit);
    lemma_one(header::stepped(s, c, limit), d, limit);
}

proof fn lemma_three(s: ScanView, c: u8, d: u8, e: u8, limit: usize)
    ensures
        fed(s, seq![c, d, e], limit) == header::stepped(
            header::stepped(header::stepped(s, c, limit), d, limit),
            e,
            limit,
        ),
{
    assert(seq![c, d, e] =~= seq![c, d] + seq![e]);
    lemma_fed_in_turn(s, seq![c, d], seq![e], limit);
    lemma_two(s, c, d, limit);
    lemma_one(fed(s, seq![c, d], limit), e, limit);
}

proof fn lemma_four(s: ScanView, c: u8, d: u8, e: u8, g: u8, limit: usize)
    ensures
        fed(s, seq![c, d, e, g], limit) == header::stepped(
            header::stepped(header::stepped(header::stepped(s, c, limit), d, limit), e, limit),
            g,
            limit,
        ),
{
    assert(seq![c, d, e, g] =~= seq![c, d, e] + seq![g]);
    lemma_fed_in_turn(s, seq![c, d, e], seq![g], limit);
    lemma_three(s, c, d, e, limit);
    lemma_one(fed(s, seq![c, d, e], limit), g, limit);
}

/// A plain string is read as it stands.
proof fn lemma_string(s: ScanView, word: Seq<u8>, limit: usize)
    requires
        s.place == Place::Quoted,
        plain(word),
    ensures
        fed(s, word, limit) == (ScanView { word: s.word + word, ..s }),
    decreases word.len(),
{
    reveal(fed);
    if word.len() > 0 {
        let front = word.drop_last();
        assert(plain(front)) by {
            assert forall|i: int| 0 <= i < front.len() implies #[trigger] front[i] != 0x22
                && front[i] != 0x5C by {
                assert(word[i] == front[i]);
            }
        }
        lemma_string(s, front, limit);
        assert(word[word.len() - 1] != 0x22);
        assert((s.word + front).push(word.last()) =~= s.word + word);
    } else {
        assert(s.word + word =~= s.word);
    }
    assert(fed(s, word, limit) =~= (ScanView { word: s.word + word, ..s }));
}

/// A number as far as numbers are told apart.
spec fn capped(n: nat) -> u128 {
    if n < 0x1_0000_0000_0000_0000 {
        n as u128
    } else {
        0x1_0000_0000_0000_0000
    }
}

/// Digits in the array of offsets are read as a number.
proof fn lemma_number(s: ScanView, digits: Seq<u8>, limit: usize)
    requires
        s.place == Place::Bare,
        s.depth == 3,
        s.pair,
        s.number == 0,
        decimal(digits),
    ensures
        fed(s, digits, limit) == (ScanView { number: capped(value(digits)), ..s }),
    decreases digits.len(),
{
    reveal(fed);
    if digits.len() > 0 {
        let front = digits.drop_last();
        assert(decimal(front)) by {
            assert forall|i: int| 0 <= i < front.len() implies 0x30 <= #[trigger] front[i]
                <= 0x39 by {
                assert(digits[i] == front[i]);
            }
        }
        lemma_number(s, front, limit);
        assert(0x30 <= digits[digits.len() - 1] <= 0x39);
    }
    assert(fed(s, digits, limit) =~= (ScanView { number: capped(value(digits)), ..s }));
}

/// Numbers and commas in any other array change nothing.
proof fn lemma_other_numbers(s: ScanView, text: Seq<u8>, limit: usize)
    requires
        s.place == Place::Bare,
        s.depth == 3,
        !s.pair,
        decimals(text),
    ensures
        fed(s, text, limit) == s,
    decreases text.len(),
{
    reveal(fed);
    if text.len() > 0 {
        let front = text.drop_last();
        assert(decimals(front)) by {
            assert forall|i: int| 0 <= i < front.len() implies 0x30 <= #[trigger] front[i] <= 0x39
                || front[i] == 0x2C by {
                assert(text[i] == front[i]);
            }
        }
        lemma_other_numbers(s, front, limit);
        assert(0x30 <= text[text.len() - 1] <= 0x39 || text[text.len() - 1] == 0x2C);
    }
}

/// A string begins.
proof fn lemma_quote(s: ScanView, limit: usize)
    requires
        s.place == Place::Bare,
    ensures
        fed(s, seq![0x22u8], limit) == (ScanView {
            place: Place::Quoted,
            word: Seq::empty(),
            high: 0,
            ..s
        }),
{
    lemma_one(s, 0x22, limit);
}

/// The name of a tensor ends, its record opens, and the name of a member begins.
proof fn lemma_record_opens(s: ScanView, limit: usize)
    requires
        s.place == Place::Quoted,
        s.depth == 1,
    ensures
        fed(s, seq![0x22u8, 0x3A, 0x7B, 0x22], limit) == (ScanView {
            place: Place::Quoted,
            word: Seq::empty(),
            high: 0,
            name: s.word,
            depth: 2,
            listed: false,
            index: 0,
            marked: false,
            pair: false,
            far: false,
            ..s
        }),
{
    lemma_four(s, 0x22, 0x3A, 0x7B, 0x22, limit);
}

/// The name of a member ends, and its value begins, which is a string.
proof fn lemma_string_member(s: ScanView, limit: usize)
    requires
        s.place == Place::Quoted,
        s.depth == 2,
    ensures
        fed(s, seq![0x22u8, 0x3A, 0x22], limit) == (ScanView {
            place: Place::Quoted,
            word: Seq::empty(),
            high: 0,
            marked: !s.listed && s.word == header::offsets_name(),
            ..s
        }),
{
    lemma_three(s, 0x22, 0x3A, 0x22, limit);
}

/// A value that is a string ends, and the name of another member begins.
proof fn lemma_next_member(s: ScanView, limit: usize)
    requires
        s.place == Place::Quoted,
        s.depth == 2,
        !s.listed,
    ensures
        fed(s, seq![0x22u8, 0x2C, 0x22], limit) == (ScanView {
            place: Place::Quoted,
            word: Seq::empty(),
            high: 0,
            index: header::counted(s.index),
            marked: false,
            ..s
        }),
{
    lemma_three(s, 0x22, 0x2C, 0x22, limit);
}

/// The name of a member ends, and its value begins, which is an array.
proof fn lemma_array_member(s: ScanView, limit: usize)
    requires
        s.place == Place::Quoted,
        s.depth == 2,
        !s.listed,
    ensures
        fed(s, seq![0x22u8, 0x3A, 0x5B], limit) == (ScanView {
            place: Place::Bare,
            depth: 3,
            marked: s.word == header::offsets_name(),
            pair: s.word == header::offsets_name(),
            commas: 0,
            first: 0,
            number: 0,
            ..s
        }),
{
    lemma_three(s, 0x22, 0x3A, 0x5B, limit);
}

/// An array that is not the offsets ends, and the name of another member begins.
proof fn lemma_array_ends(s: ScanView, limit: usize)
    requires
        s.place == Place::Bare,
        s.depth == 3,
        !s.pair,
        !s.listed,
    ensures
        fed(s, seq![0x5Du8, 0x2C, 0x22], limit) == (ScanView {
            place: Place::Quoted,
            word: Seq::empty(),
            high: 0,
            depth: 2,
            index: header::counted(s.index),
            marked: false,
            ..s
        }),
{
    lemma_three(s, 0x5D, 0x2C, 0x22, limit);
}

/// The second of the offsets begins.
proof fn lemma_second_begins(s: ScanView, limit: usize)
    requires
        s.place == Place::Bare,
        s.depth == 3,
        s.pair,
        s.commas == 0,
    ensures
        fed(s, seq![0x2Cu8], limit) == (ScanView { commas: 1, first: s.number, number: 0, ..s }),
{
    lemma_one(s, 0x2C, limit);
}

/// The offsets and with them the record end.
proof fn lemma_record_closes(s: ScanView, last: u8, limit: usize)
    requires
        last == 0x7D || last == 0x5D,
        s.place == Place::Bare,
        s.depth == 3,
        s.pair,
        s.commas == 1,
        !s.far,
    ensures
        ({
            let t = fed(s, seq![0x5Du8, last], limit);
            &&& t.place == Place::Bare
            &&& t.depth == 1
            &&& t.names == if header::is_far(s.first, s.number, limit) {
                s.names.insert(s.name)
            } else {
                s.names.remove(s.name)
            }
        }),
{
    lemma_two(s, 0x5D, last, limit);
}

/// The front of a record: its name and its element type.
spec fn record_front(r: Record) -> Seq<u8> {
    seq![0x22u8] + r.name + seq![0x22u8, 0x3A, 0x7B, 0x22] + dtype_name() + seq![
        0x22u8,
        0x3A,
        0x22,
    ] + r.dtype
}

/// The middle of a record: its shape.
spec fn record_middle(r: Record) -> Seq<u8> {
    seq![0x22u8, 0x2C, 0x22] + shape_name() + seq![0x22u8, 0x3A, 0x5B] + r.shape
}

/// The back of a record: its offsets.
spec fn record_back(r: Record) -> Seq<u8> {
    seq![0x5Du8, 0x2C, 0x22] + offsets_name() + seq![0x22u8, 0x3A, 0x5B] + r.first + seq![0x2Cu8]
        + r.second + seq![0x5Du8, 0x7D]
}

/// Whether `t` is in the record `r`, no part of which has been found far, with the tensors of `s`.
spec fn in_record(t: ScanView, s: ScanView, r: Record) -> bool {
    &&& t.name == r.name
    &&& !t.listed
    &&& !t.pair
    &&& !t.far
    &&& t.names == s.names
}

proof fn lemma_record_front(s: ScanView, r: Record, limit: usize)
    requires
        s.place == Place::Bare,
        s.depth == 1,
        well_spelled(r),
    ensures
        ({
            let t = fed(s, record_front(r), limit);
            t.place == Place::Quoted && t.depth == 2 && in_record(t, s, r)
        }),
{
    let empty = Seq::<u8>::empty();
    let a = seq![0x22u8];
    let b = a + r.name;
    let c = b + seq![0x22u8, 0x3A, 0x7B, 0x22];
    let d = c + dtype_name();
    let e = d + seq![0x22u8, 0x3A, 0x22];
    assert(empty + r.name =~= r.name);
    lemma_quote(s, limit);
    lemma_fed_in_turn(s, a, r.name, limit);
    lemma_string(fed(s, a, limit), r.name, limit);
    lemma_fed_in_turn(s, b, seq![0x22u8, 0x3A, 0x7B, 0x22], limit);
    lemma_record_opens(fed(s, b, limit), limit);
    lemma_fed_in_turn(s, c, dtype_name(), limit);
    lemma_string(fed(s, c, limit), dtype_name(), limit);
    lemma_fed_in_turn(s, d, seq![0x22u8, 0x3A, 0x22], limit);
    lemma_string_member(fed(s, d, limit), limit);
    lemma_fed_in_turn(s, e, r.dtype, limit);
    lemma_string(fed(s, e, limit), r.dtype, limit);
}

proof fn lemma_record_middle(t: ScanView, s: ScanView, r: Record, limit: usize)
    requires
        t.place == Place::Quoted,
        t.depth == 2,
        in_record(t, s, r),
        well_spelled(r),
    ensures
        ({
            let u = fed(t, record_middle(r), limit);
            u.place == Place::Bare && u.depth == 3 && in_record(u, s, r)
        }),
{
    let empty = Seq::<u8>::empty();
    let a = seq![0x22u8, 0x2C, 0x22];
    let b = a + shape_name();
    let c = b + seq![0x22u8, 0x3A, 0x5B];
    assert(empty + shape_name() =~= shape_name());
    assert(shape_name().len() != header::offsets_name().len());
    lemma_next_member(t, limit);
    lemma_fed_in_turn(t, a, shape_name(), limit);
    lemma_string(fed(t, a, limit), shape_name(), limit);
    lemma_fed_in_turn(t, b, seq![0x22u8, 0x3A, 0x5B], limit);
    lemma_array_member(fed(t, b, limit), limit);
    lemma_fed_in_turn(t, c, r.shape, limit);
    lemma_other_numbers(fed(t, c, limit), r.shape, limit);
}

proof fn lemma_record_back(t: ScanView, s: ScanView, r: Record, limit: usize)
    requires
        t.place == Place::Bare,
        t.depth == 3,
        in_record(t, s, r),
        well_spelled(r),
    ensures
        ({
            let u = fed(t, record_back(r), limit);
            &&& u.place == Place::Bare
            &&& u.depth == 1
            &&& u.names == if far(r, limit) {
                s.names.insert(r.name)
            } else {
                s.names.remove(r.name)
            }
        }),
{
    let empty = Seq::<u8>::empty();
    let a = seq![0x5Du8, 0x2C, 0x22];
    let b = a + offsets_name();
    let c = b + seq![0x22u8, 0x3A, 0x5B];
    let d = c + r.first;
    let e = d + seq![0x2Cu8];
    let g = e + r.second;
    assert(empty + offsets_name() =~= header::offsets_name());
    lemma_array_ends(t, limit);
    lemma_fed_in_turn(t, a, offsets_name(), limit);
    lemma_string(fed(t, a, limit), offsets_name(), limit);
    lemma_fed_in_turn(t, b, seq![0x22u8, 0x3A, 0x5B], limit);
    lemma_array_member(fed(t, b, limit), limit);
    lemma_fed_in_turn(t, c, r.first, limit);
    lemma_number(fed(t, c, limit), r.first, limit);
    lemma_fed_in_turn(t, d, seq![0x2Cu8], limit);
    lemma_second_begins(fed(t, d, limit), limit);
    lemma_fed_in_turn(t, e, r.second, limit);
    lemma_number(fed(t, e, limit), r.second, limit);
    lemma_fed_in_turn(t, g, seq![0x5Du8, 0x7D], limit);
    lemma_record_closes(fed(t, g, limit), 0x7D, limit);
    assert(header::is_far(capped(value(r.first)), capped(value(r.second)), limit) == far(r, limit));
}

/// The name of a tensor ends, its record opens as an array, and a string begins.
proof fn lemma_listing_opens(s: ScanView, limit: usize)
    requires
        s.place == Place::Quoted,
        s.depth == 1,
    ensures
        fed(s, seq![0x22u8, 0x3A, 0x5B, 0x22], limit) == (ScanView {
            place: Place::Quoted,
            word: Seq::empty(),
            high: 0,
            name: s.word,
            depth: 2,
            listed: true,
            index: 0,
            marked: false,
            pair: false,
            far: false,
            ..s
        }),
{
    lemma_four(s, 0x22, 0x3A, 0x5B, 0x22, limit);
}

/// The first element of a record ends, and the second begins, which is an array.
proof fn lemma_second_element(s: ScanView, limit: usize)
    requires
        s.place == Place::Quoted,
        s.depth == 2,
        s.listed,
        s.index == 0,
    ensures
        fed(s, seq![0x22u8, 0x2C, 0x5B], limit) == (ScanView {
            place: Place::Bare,
            depth: 3,
            index: 1,
            marked: false,
            pair: false,
            commas: 0,
            first: 0,
            number: 0,
            ..s
        }),
{
    lemma_three(s, 0x22, 0x2C, 0x5B, limit);
}

/// The second element of a record ends, and the third begins, which is the offsets.
proof fn lemma_third_element(s: ScanView, limit: usize)
    requires
        s.place == Place::Bare,
        s.depth == 3,
        s.listed,
        s.index == 1,
        !s.pair,
    ensures
        fed(s, seq![0x5Du8, 0x2C, 0x5B], limit) == (ScanView {
            depth: 3,
            index: 2,
            marked: true,
            pair: true,
            commas: 0,
            first: 0,
            number: 0,
            ..s
        }),
{
    lemma_three(s, 0x5D, 0x2C, 0x5B, limit);
}

/// A record that is an array tells whether its tensor has far data.
proof fn lemma_listing(s: ScanView, r: Record, limit: usize)
    requires
        s.place == Place::Bare,
        s.depth == 1,
        r.array,
        well_spelled(r),
    ensures
        ({
            let u = fed(s, spelled(r), limit);
            &&& u.place == Place::Bare
            &&& u.depth == 1
            &&& u.names == if far(r, limit) {
                s.names.insert(r.name)
            } else {
                s.names.remove(r.name)
            }
        }),
{
    let empty = Seq::<u8>::empty();
    let a = seq![0x22u8];
    let b = a + r.name;
    let c = b + seq![0x22u8, 0x3A, 0x5B, 0x22];
    let d = c + r.dtype;
    let e = d + seq![0x22u8, 0x2C, 0x5B];
    let g = e + r.shape;
    let h = g + seq![0x5Du8, 0x2C, 0x5B];
    let i = h + r.first;
    let j = i + seq![0x2Cu8];
    let k = j + r.second;
    assert(empty + r.name =~= r.name);
    lemma_quote(s, limit);
    lemma_fed_in_turn(s, a, r.name, limit);
    lemma_string(fed(s, a, limit), r.name, limit);
    lemma_fed_in_turn(s, b, seq![0x22u8, 0x3A, 0x5B, 0x22], limit);
    lemma_listing_opens(fed(s, b, limit), limit);
    lemma_fed_in_turn(s, c, r.dtype, limit);
    lemma_string(fed(s, c, limit), r.dtype, limit);
    lemma_fed_in_turn(s, d, seq![0x22u8, 0x2C, 0x5B], limit);
    lemma_second_element(fed(s, d, limit), limit);
    lemma_fed_in_turn(s, e, r.shape, limit);
    lemma_other_numbers(fed(s, e, limit), r.shape, limit);
    lemma_fed_in_turn(s, g, seq![0x5Du8, 0x2C, 0x5B], limit);
    lemma_third_element(fed(s, g, limit), limit);
    lemma_fed_in_turn(s, h, r.first, limit);
    lemma_number(fed(s, h, limit), r.first, limit);
    lemma_fed_in_turn(s, i, seq![0x2Cu8], limit);
    lemma_second_begins(fed(s, i, limit), limit);
    lemma_fed_in_turn(s, j, r.second, limit);
    lemma_number(fed(s, j, limit), r.second, limit);
    lemma_fed_in_turn(s, k, seq![0x5Du8, 0x5D], limit);
    lemma_record_closes(fed(s, k, limit), 0x5D, limit);
    assert(header::is_far(capped(value(r.first)), capped(value(r.second)), limit) == far(r, limit));
}

/// A record tells whether its tensor has far data.
proof fn lemma_record(s: ScanView, r: Record, limit: usize)
    requires
        s.place == Place::Bare,
        s.depth == 1,
        well_spelled(r),
    ensures
        ({
            let u = fed(s, spelled(r), limit);
            &&& u.place == Place::Bare
            &&& u.depth == 1
            &&& u.names == if far(r, limit) {
                s.names.insert(r.name)
            } else {
                s.names.remove(r.name)
            }
        }),
{
    if r.array {
        lemma_listing(s, r, limit);
    } else {
        let front = record_front(r);
        let middle = record_middle(r);
        assert(spelled(r) =~= front + middle + record_back(r));
        lemma_fed_in_turn(s, front + middle, record_back(r), limit);
        lemma_fed_in_turn(s, front, middle, limit);
        lemma_record_front(s, r, limit);
        lemma_record_middle(fed(s, front, limit), s, r, limit);
        lemma_record_back(fed(s, front + middle, limit), s, r, limit);
    }
}

/// Whether the last record with the name of record `i` is record `i`, and declares far data.
pub open spec fn counts(records: Seq<Record>, i: int, limit: usize) -> bool {
    &&& 0 <= i < records.len()
    &&& far(records[i], limit)
    &&& forall|j: int| i < j < records.len() ==> (#[trigger] records[j]).name != records[i].name
}

/// The tensors that are known behind a list of records.
proof fn lemma_records(s: ScanView, records: Seq<Record>, limit: usize)
    requires
        s.place == Place::Bare,
        s.depth == 1,
        s.names == Set::<Seq<u8>>::empty(),
        forall|i: int| 0 <= i < records.len() ==> well_spelled(#[trigger] records[i]),
    ensures
        ({
            let t = fed(s, listed(records), limit);
            &&& t.place == Place::Bare
            &&& t.depth == 1
            &&& forall|name: Seq<u8>| #[trigger]
                t.names.contains(name) <==> exists|i: int|
                    #[trigger] counts(records, i, limit) && records[i].name == name
        }),
    decreases records.len(),
{
    let t = fed(s, listed(records), limit);
    if records.len() > 0 {
        let front = records.drop_last();
        let last = records.last();
        assert forall|i: int| 0 <= i < front.len() implies well_spelled(#[trigger] front[i]) by {
            assert(well_spelled(records[i]));
        }
        assert(well_spelled(records[records.len() - 1]));
        lemma_records(s, front, limit);
        let before = fed(s, listed(front), limit);
        if records.len() == 1 {
            assert(records[0] == last);
            lemma_record(s, last, limit);
        } else {
            lemma_fed_in_turn(s, listed(front) + seq![0x2Cu8], spelled(last), limit);
            lemma_fed_in_turn(s, listed(front), seq![0x2Cu8], limit);
            lemma_one(before, 0x2C, limit);
            lemma_record(before, last, limit);
        }
        assert forall|name: Seq<u8>| #[trigger] t.names.contains(name) <==> exists|i: int|
            #[trigger] counts(records, i, limit) && records[i].name == name by {
            lemma_counts(records, name, limit);
        }
    } else {
        reveal(fed);
    }
}

/// What one more record changes.
proof fn lemma_counts(records: Seq<Record>, name: Seq<u8>, limit: usize)
    requires
        0 < records.len(),
    ensures
        ({
            let front = records.drop_last();
            let last = records.last();
            (exists|i: int| #[trigger] counts(records, i, limit) && records[i].name == name) <==> (
            if name == last.name {
                far(last, limit)
            } else {
                exists|i: int| #[trigger] counts(front, i, limit) && front[i].name == name
            })
        }),
{
    let front = records.drop_last();
    let last = records.last();
    let n = records.len() - 1;
    if exists|i: int| #[trigger] counts(records, i, limit) && records[i].name == name {
        let i = choose|i: int| #[trigger] counts(records, i, limit) && records[i].name == name;
        if i < n {
            assert(records[n].name != records[i].name);
            assert forall|j: int| i < j < front.len() implies (#[trigger] front[j]).name
                != front[i].name by {
                assert(records[j].name != records[i].name);
            }
            assert(counts(front, i, limit));
        }
    }
    if name == last.name && far(last, limit) {
        assert(counts(records, n, limit));
    }
    if name != last.name && exists|i: int|
        #[trigger] counts(front, i, limit) && front[i].name == name {
        let i = choose|i: int| #[trigger] counts(front, i, limit) && front[i].name == name;
        assert forall|j: int| i < j < records.len() implies (#[trigger] records[j]).name
            != records[i].name by {
            if j < n {
                assert(front[j].name != front[i].name);
            }
        }
        assert(counts(records, i, limit));
    }
}

/// Spaces behind a header change nothing.
proof fn lemma_spaces(s: ScanView, n: nat, limit: usize)
    requires
        s.place == Place::Bare,
    ensures
        fed(s, Seq::new(n, |i: int| 0x20u8), limit) == s,
    decreases n,
{
    reveal(fed);
    if n > 0 {
        let text = Seq::new(n, |i: int| 0x20u8);
        lemma_spaces(s, (n - 1) as nat, limit);
        assert(text.drop_last() =~= Seq::new((n - 1) as nat, |i: int| 0x20u8));
    }
}

/// A header declares far data if and only if the record of some tensor, the last where there are
/// several of that name, says that its data start in the upper half of the address space and end
/// inside of it, beyond the limit. However many records there are, and however long, each counts.
pub proof fn law_far_data_are_declared_by_a_record(
    records: Seq<Record>,
    spaces: nat,
    limit: usize,
)
    requires
        forall|i: int| 0 <= i < records.len() ==> well_spelled(#[trigger] records[i]),
    ensures
        header::declares_far_data(header_of(records, spaces), limit) <==> exists|i: int|
            #[trigger] counts(records, i, limit),
{
    let text = header_of(records, spaces);
    let a = seq![0x7Bu8];
    let b = a + listed(records);
    let c = b + seq![0x7Du8];
    let s = header::start();
    lemma_fed(text, limit, text.len());
    assert(text.take(text.len() as int) =~= text);
    lemma_one(s, 0x7B, limit);
    let sa = fed(s, a, limit);
    assert(sa.place == Place::Bare && sa.depth == 1 && sa.names == Set::<Seq<u8>>::empty());
    lemma_fed_in_turn(s, a, listed(records), limit);
    lemma_records(sa, records, limit);
    let sb = fed(s, b, limit);
    lemma_fed_in_turn(s, b, seq![0x7Du8], limit);
    lemma_one(sb, 0x7D, limit);
    let sc = fed(s, c, limit);
    assert(sc.place == Place::Bare && sc.names == sb.names);
    lemma_fed_in_turn(s, c, Seq::new(spaces, |i: int| 0x20u8), limit);
    lemma_spaces(sc, spaces, limit);
    if exists|i: int| #[trigger] counts(records, i, limit) {
        let i = choose|i: int| #[trigger] counts(records, i, limit);
        assert(sb.names.contains(records[i].name));
    }
    if sb.names != Set::<Seq<u8>>::empty() {
        if forall|name: Seq<u8>| !sb.names.contains(name) {
            assert(sb.names =~= Set::<Seq<u8>>::empty());
        }
        let name = choose|name: Seq<u8>| sb.names.contains(name);
        assert(sb.names.contains(name));
    }
}

} // verus!
