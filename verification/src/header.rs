//! The JSON header of a tensor file, read for the ends of data that it declares.
//!
//! A header is an object with a member for each tensor. The value of a member, its record, says
//! in `data_offsets` where the data of the tensor start and end, as an array of two numbers. A
//! record is an object or an array; in an array the offsets are the third element. Of two members
//! with the same name the later counts. Only headers that are JSON matter: of any other text
//! nothing is claimed.
use vstd::prelude::*;

verus! {

/// Numbers from here on are not told apart: two to the 64.
pub const BEYOND: u128 = 0x1_0000_0000_0000_0000;

/// Where a byte of a JSON text leaves off.
#[derive(Clone, Copy, PartialEq, Eq, Structural)]
pub enum Place {
    /// Outside of any string.
    Bare,
    /// In a string.
    Quoted,
    /// In a string, behind a backslash.
    Escaped,
    /// In a string, among the four hexadecimal digits of a code unit.
    Unicode,
}

/// What has been read of a header.
#[verifier::ext_equal]
pub struct ScanView {
    pub place: Place,
    /// The string that is being read, or was read last, without escapes.
    pub word: Seq<u8>,
    /// How many hexadecimal digits of a code unit have been read.
    pub digits: u8,
    /// The value of these digits.
    pub unit: u32,
    /// The first half of a surrogate pair, if the second is awaited; otherwise zero.
    pub high: u32,
    /// Number of objects and arrays that are open.
    pub depth: nat,
    /// The tensor whose record is being read, or was read last.
    pub name: Seq<u8>,
    /// Whether the record is an array.
    pub listed: bool,
    /// Which element of such a record is being read.
    pub index: u8,
    /// Whether the value that is being read is the offsets of the record.
    pub marked: bool,
    /// Whether that value is open, and an array.
    pub pair: bool,
    /// Number of commas in that array.
    pub commas: u8,
    /// The number in front of the last of these commas.
    pub first: u128,
    /// The number behind it.
    pub number: u128,
    /// Whether the record declares far data.
    pub far: bool,
    /// The tensors whose records declare far data.
    pub names: Set<Seq<u8>>,
}

/// Nothing read yet.
pub open spec fn start() -> ScanView {
    ScanView {
        place: Place::Bare,
        word: Seq::empty(),
        digits: 0,
        unit: 0,
        high: 0,
        depth: 0,
        name: Seq::empty(),
        listed: false,
        index: 0,
        marked: false,
        pair: false,
        commas: 0,
        first: 0,
        number: 0,
        far: false,
        names: Set::empty(),
    }
}

/// The member that holds the offsets: `data_offsets`.
pub open spec fn offsets_name() -> Seq<u8> {
    seq![0x64u8, 0x61, 0x74, 0x61, 0x5F, 0x6F, 0x66, 0x66, 0x73, 0x65, 0x74, 0x73]
}

/// The bytes of a character.
pub open spec fn utf8_of(c: u32) -> Seq<u8> {
    if c < 0x80 {
        seq![c as u8]
    } else if c < 0x800 {
        seq![(0xC0 + c / 0x40) as u8, (0x80 + c % 0x40) as u8]
    } else if c < 0x1_0000 {
        seq![
            (0xE0 + c / 0x1000) as u8,
            (0x80 + c / 0x40 % 0x40) as u8,
            (0x80 + c % 0x40) as u8,
        ]
    } else {
        seq![
            (0xF0 + c / 0x4_0000 % 8) as u8,
            (0x80 + c / 0x1000 % 0x40) as u8,
            (0x80 + c / 0x40 % 0x40) as u8,
            (0x80 + c % 0x40) as u8,
        ]
    }
}

/// What a backslash makes of the byte behind it.
pub open spec fn unescaped(c: u8) -> u8 {
    if c == 0x62 {
        0x08
    } else if c == 0x66 {
        0x0C
    } else if c == 0x6E {
        0x0A
    } else if c == 0x72 {
        0x0D
    } else if c == 0x74 {
        0x09
    } else {
        c
    }
}

/// The value of a hexadecimal digit.
pub open spec fn hex_of(c: u8) -> u32 {
    if 0x30 <= c <= 0x39 {
        (c - 0x30) as u32
    } else if 0x41 <= c <= 0x46 {
        (c - 0x41 + 10) as u32
    } else if 0x61 <= c <= 0x66 {
        (c - 0x61 + 10) as u32
    } else {
        0
    }
}

/// One more, up to four.
pub open spec fn counted(n: u8) -> u8 {
    if n < 4 {
        (n + 1) as u8
    } else {
        4
    }
}

/// A number with one more digit.
pub open spec fn grown(number: u128, c: u8) -> u128 {
    if number >= BEYOND || 10 * number + (c - 0x30) >= BEYOND {
        BEYOND
    } else {
        (10 * number + (c - 0x30)) as u128
    }
}

/// Whether data from `first` to `second` end beyond `limit` but inside the address space. As no
/// tensor takes more than an eighth of the address space, such data start in its upper half.
pub open spec fn is_far(first: u128, second: u128, limit: usize) -> bool {
    first > usize::MAX / 2 && limit < second <= usize::MAX
}

/// A code unit in a string: on its own, or as one half of a surrogate pair.
pub open spec fn with_unit(s: ScanView, unit: u32) -> ScanView {
    if 0xD800 <= unit < 0xDC00 {
        ScanView { place: Place::Quoted, high: unit, ..s }
    } else if 0xDC00 <= unit < 0xE000 && s.high != 0 {
        let c = (0x1_0000 + 0x400 * (s.high % 0x400) + unit % 0x400) as u32;
        ScanView { place: Place::Quoted, high: 0, word: s.word + utf8_of(c), ..s }
    } else {
        ScanView { place: Place::Quoted, high: 0, word: s.word + utf8_of(unit), ..s }
    }
}

/// One more byte of a string.
pub open spec fn in_string(s: ScanView, c: u8) -> ScanView {
    match s.place {
        Place::Escaped => if c == 0x75 {
            ScanView { place: Place::Unicode, digits: 0, unit: 0, ..s }
        } else {
            ScanView { place: Place::Quoted, word: s.word.push(unescaped(c)), ..s }
        },
        Place::Unicode => {
            let unit = ((16 * s.unit + hex_of(c)) % 0x1_0000) as u32;
            if s.digits >= 3 {
                with_unit(s, unit)
            } else {
                ScanView { digits: (s.digits + 1) as u8, unit, ..s }
            }
        },
        _ => if c == 0x22 {
            ScanView { place: Place::Bare, ..s }
        } else if c == 0x5C {
            ScanView { place: Place::Escaped, ..s }
        } else {
            ScanView { word: s.word.push(c), ..s }
        },
    }
}

/// An object or an array opens.
pub open spec fn opened(s: ScanView, array: bool) -> ScanView {
    if s.depth == 1 {
        ScanView { depth: 2, listed: array, index: 0, marked: false, pair: false, far: false, ..s }
    } else if s.depth == 2 {
        ScanView { depth: 3, pair: s.marked && array, commas: 0, first: 0, number: 0, ..s }
    } else {
        ScanView { depth: s.depth + 1, ..s }
    }
}

/// An object or an array closes.
pub open spec fn closed_at(s: ScanView, limit: usize) -> ScanView {
    if s.depth == 0 {
        s
    } else if s.depth == 3 && s.pair {
        ScanView {
            depth: 2,
            pair: false,
            far: s.far || s.commas == 1 && is_far(s.first, s.number, limit),
            ..s
        }
    } else if s.depth == 2 {
        ScanView {
            depth: 1,
            names: if s.far {
                s.names.insert(s.name)
            } else {
                s.names.remove(s.name)
            },
            ..s
        }
    } else {
        ScanView { depth: (s.depth - 1) as nat, ..s }
    }
}

/// A name ends and its value begins.
pub open spec fn named(s: ScanView) -> ScanView {
    if s.depth == 1 {
        ScanView { name: s.word, ..s }
    } else if s.depth == 2 {
        ScanView { marked: !s.listed && s.word == offsets_name(), ..s }
    } else {
        s
    }
}

/// A member or an element ends and another begins.
pub open spec fn parted(s: ScanView) -> ScanView {
    if s.depth == 2 {
        ScanView { index: counted(s.index), marked: s.listed && counted(s.index) == 2, ..s }
    } else if s.depth == 3 && s.pair {
        ScanView { commas: counted(s.commas), first: s.number, number: 0, ..s }
    } else {
        s
    }
}

/// One more byte outside of any string.
pub open spec fn in_bare(s: ScanView, c: u8, limit: usize) -> ScanView {
    if c == 0x22 {
        ScanView { place: Place::Quoted, word: Seq::empty(), high: 0, ..s }
    } else if c == 0x7B {
        opened(s, false)
    } else if c == 0x5B {
        opened(s, true)
    } else if c == 0x7D || c == 0x5D {
        closed_at(s, limit)
    } else if c == 0x3A {
        named(s)
    } else if c == 0x2C {
        parted(s)
    } else if 0x30 <= c <= 0x39 && s.depth == 3 && s.pair {
        ScanView { number: grown(s.number, c), ..s }
    } else {
        s
    }
}

/// One more byte.
pub open spec fn stepped(s: ScanView, c: u8, limit: usize) -> ScanView {
    if s.place == Place::Bare {
        in_bare(s, c, limit)
    } else {
        in_string(s, c)
    }
}

/// What the first `n` bytes of a header say.
pub open spec fn after(text: Seq<u8>, limit: usize, n: nat) -> ScanView
    decreases n,
{
    if n == 0 {
        start()
    } else {
        stepped(after(text, limit, (n - 1) as nat), text[n - 1], limit)
    }
}

/// Whether the record of some tensor declares that its data start in the upper half of the
/// address space and end beyond `limit`.
pub open spec fn declares_far_data(text: Seq<u8>, limit: usize) -> bool {
    after(text, limit, text.len()).names != Set::<Seq<u8>>::empty()
}

/// What has been read of a header.
struct Scan {
    place: Place,
    word: Vec<u8>,
    digits: u8,
    unit: u32,
    high: u32,
    depth: usize,
    name: Vec<u8>,
    listed: bool,
    index: u8,
    marked: bool,
    pair: bool,
    commas: u8,
    first: u128,
    number: u128,
    far: bool,
    names: Vec<Vec<u8>>,
}

/// The strings in a list.
spec fn set_of(list: Seq<Vec<u8>>) -> Set<Seq<u8>> {
    Set::new(|name: Seq<u8>| exists|i: int| 0 <= i < list.len() && (#[trigger] list[i])@ == name)
}

impl View for Scan {
    type V = ScanView;

    closed spec fn view(&self) -> ScanView {
        ScanView {
            place: self.place,
            word: self.word@,
            digits: self.digits,
            unit: self.unit,
            high: self.high,
            depth: self.depth as nat,
            name: self.name@,
            listed: self.listed,
            index: self.index,
            marked: self.marked,
            pair: self.pair,
            commas: self.commas,
            first: self.first,
            number: self.number,
            far: self.far,
            names: set_of(self.names@),
        }
    }
}

/// A copy of a string.
fn copied(s: &Vec<u8>) -> (r: Vec<u8>)
    ensures
        r@ == s@,
{
    let mut r: Vec<u8> = Vec::with_capacity(s.len());
    let mut i: usize = 0;
    while i < s.len()
        invariant
            i <= s.len(),
            r@ == s@.take(i as int),
        decreases s.len() - i,
    {
        r.push(s[i]);
        i += 1;
        assert(r@ =~= s@.take(i as int));
    }
    assert(s@.take(s.len() as int) =~= s@);
    r
}

/// Whether two strings are equal.
fn equal(a: &Vec<u8>, b: &Vec<u8>) -> (r: bool)
    ensures
        r == (a@ == b@),
{
    if a.len() != b.len() {
        return false;
    }
    let mut i: usize = 0;
    while i < a.len()
        invariant
            i <= a.len(),
            a.len() == b.len(),
            forall|j: int| 0 <= j < i ==> a@[j] == b@[j],
        decreases a.len() - i,
    {
        if a[i] != b[i] {
            return false;
        }
        i += 1;
    }
    assert(a@ =~= b@);
    true
}

/// Whether a string is the name of the member that holds the offsets.
fn is_offsets_name(word: &Vec<u8>) -> (r: bool)
    ensures
        r == (word@ == offsets_name()),
{
    let name: Vec<u8> = vec![
        0x64u8, 0x61, 0x74, 0x61, 0x5F, 0x6F, 0x66, 0x66, 0x73, 0x65, 0x74, 0x73,
    ];
    assert(name@ =~= offsets_name());
    equal(word, &name)
}

/// Appends the bytes of a character.
fn push_utf8(word: &mut Vec<u8>, c: u32)
    ensures
        final(word)@ == old(word)@ + utf8_of(c),
{
    if c < 0x80 {
        word.push(c as u8);
    } else if c < 0x800 {
        word.push((0xC0 + c / 0x40) as u8);
        word.push((0x80 + c % 0x40) as u8);
    } else if c < 0x1_0000 {
        word.push((0xE0 + c / 0x1000) as u8);
        word.push((0x80 + c / 0x40 % 0x40) as u8);
        word.push((0x80 + c % 0x40) as u8);
    } else {
        word.push((0xF0 + c / 0x4_0000 % 8) as u8);
        word.push((0x80 + c / 0x1000 % 0x40) as u8);
        word.push((0x80 + c / 0x40 % 0x40) as u8);
        word.push((0x80 + c % 0x40) as u8);
    }
    assert(word@ =~= old(word)@ + utf8_of(c));
}

/// What a backslash makes of the byte behind it.
fn unescape(c: u8) -> (r: u8)
    ensures
        r == unescaped(c),
{
    if c == 0x62 {
        0x08
    } else if c == 0x66 {
        0x0C
    } else if c == 0x6E {
        0x0A
    } else if c == 0x72 {
        0x0D
    } else if c == 0x74 {
        0x09
    } else {
        c
    }
}

/// The value of a hexadecimal digit.
fn hex(c: u8) -> (r: u32)
    ensures
        r == hex_of(c),
        r < 16,
{
    if 0x30 <= c && c <= 0x39 {
        (c - 0x30) as u32
    } else if 0x41 <= c && c <= 0x46 {
        (c - 0x41 + 10) as u32
    } else if 0x61 <= c && c <= 0x66 {
        (c - 0x61 + 10) as u32
    } else {
        0
    }
}

/// One more, up to four.
fn count(n: u8) -> (r: u8)
    ensures
        r == counted(n),
{
    if n < 4 {
        n + 1
    } else {
        4
    }
}

/// A number with one more digit.
fn grow(number: u128, c: u8) -> (r: u128)
    requires
        0x30 <= c <= 0x39,
    ensures
        r == grown(number, c),
{
    if number >= BEYOND {
        return BEYOND;
    }
    let next: u128 = 10 * number + (c - 0x30) as u128;
    if next >= BEYOND {
        BEYOND
    } else {
        next
    }
}

impl Scan {
    fn new() -> (r: Self)
        ensures
            r@ == start(),
    {
        let r = Scan {
            place: Place::Bare,
            word: Vec::new(),
            digits: 0,
            unit: 0,
            high: 0,
            depth: 0,
            name: Vec::new(),
            listed: false,
            index: 0,
            marked: false,
            pair: false,
            commas: 0,
            first: 0,
            number: 0,
            far: false,
            names: Vec::new(),
        };
        assert(r@ =~= start());
        r
    }

    fn take_unit(&mut self, unit: u32)
        ensures
            final(self)@ == with_unit(old(self)@, unit),
    {
        self.place = Place::Quoted;
        if 0xD800 <= unit && unit < 0xDC00 {
            self.high = unit;
        } else if 0xDC00 <= unit && unit < 0xE000 && self.high != 0 {
            let c: u32 = 0x1_0000 + 0x400 * (self.high % 0x400) + unit % 0x400;
            self.high = 0;
            push_utf8(&mut self.word, c);
        } else {
            self.high = 0;
            push_utf8(&mut self.word, unit);
        }
        assert(self@ =~= with_unit(old(self)@, unit));
    }

    fn step_in_string(&mut self, c: u8)
        ensures
            final(self)@ == in_string(old(self)@, c),
    {
        match self.place {
            Place::Escaped => {
                if c == 0x75 {
                    self.place = Place::Unicode;
                    self.digits = 0;
                    self.unit = 0;
                } else {
                    self.place = Place::Quoted;
                    self.word.push(unescape(c));
                }
            },
            Place::Unicode => {
                let unit: u32 = ((16 * self.unit as u64 + hex(c) as u64) % 0x1_0000) as u32;
                if self.digits >= 3 {
                    self.take_unit(unit);
                } else {
                    self.digits = self.digits + 1;
                    self.unit = unit;
                }
            },
            _ => {
                if c == 0x22 {
                    self.place = Place::Bare;
                } else if c == 0x5C {
                    self.place = Place::Escaped;
                } else {
                    self.word.push(c);
                }
            },
        }
        assert(self@ =~= in_string(old(self)@, c));
    }

    fn open(&mut self, array: bool)
        requires
            old(self)@.depth < usize::MAX,
        ensures
            final(self)@ == opened(old(self)@, array),
    {
        if self.depth == 1 {
            self.listed = array;
            self.index = 0;
            self.marked = false;
            self.pair = false;
            self.far = false;
        } else if self.depth == 2 {
            self.pair = self.marked && array;
            self.commas = 0;
            self.first = 0;
            self.number = 0;
        }
        self.depth = self.depth + 1;
        assert(self@ =~= opened(old(self)@, array));
    }

    /// Ends a record: its tensor is listed if and only if the record declares far data.
    fn end_record(&mut self)
        ensures
            final(self)@ == (ScanView {
                names: if old(self)@.far {
                    old(self)@.names.insert(old(self)@.name)
                } else {
                    old(self)@.names.remove(old(self)@.name)
                },
                ..old(self)@
            }),
    {
        let ghost before = self.names@;
        let ghost name = self.name@;
        let mut kept: Vec<Vec<u8>> = Vec::new();
        let mut i: usize = 0;
        while i < self.names.len()
            invariant
                i <= self.names.len(),
                self@ == old(self)@,
                self.names@ == before,
                self.name@ == name,
                set_of(kept@) == set_of(before.take(i as int)).remove(name),
            decreases self.names.len() - i,
        {
            let ghost earlier = kept@;
            let other = copied(&self.names[i]);
            proof {
                lemma_one_more(before.take(i as int), before[i as int]);
                assert(before.take(i as int).push(before[i as int]) =~= before.take(i + 1));
                lemma_one_more(earlier, other);
            }
            if !equal(&other, &self.name) {
                kept.push(other);
            }
            i += 1;
            assert(set_of(kept@) =~= set_of(before.take(i as int)).remove(name));
        }
        assert(before.take(before.len() as int) =~= before);
        if self.far {
            let last = copied(&self.name);
            proof {
                lemma_one_more(kept@, last);
            }
            kept.push(last);
        }
        self.names = kept;
        proof {
            let names = if old(self)@.far {
                old(self)@.names.insert(name)
            } else {
                old(self)@.names.remove(name)
            };
            assert(self@.names =~= names);
        }
    }

    fn close(&mut self, limit: usize)
        ensures
            final(self)@ == closed_at(old(self)@, limit),
    {
        if self.depth == 0 {
            return ;
        }
        if self.depth == 3 && self.pair {
            self.pair = false;
            if self.commas == 1 && self.first > (usize::MAX / 2) as u128 && self.number
                > limit as u128 && self.number <= usize::MAX as u128 {
                self.far = true;
            }
        } else if self.depth == 2 {
            self.end_record();
        }
        self.depth = self.depth - 1;
        assert(self@ =~= closed_at(old(self)@, limit));
    }

    fn step_in_bare(&mut self, c: u8, limit: usize)
        requires
            old(self)@.depth < usize::MAX,
        ensures
            final(self)@ == in_bare(old(self)@, c, limit),
    {
        if c == 0x22 {
            self.place = Place::Quoted;
            self.word = Vec::new();
            self.high = 0;
        } else if c == 0x7B {
            self.open(false);
        } else if c == 0x5B {
            self.open(true);
        } else if c == 0x7D || c == 0x5D {
            self.close(limit);
        } else if c == 0x3A {
            if self.depth == 1 {
                self.name = copied(&self.word);
            } else if self.depth == 2 {
                self.marked = !self.listed && is_offsets_name(&self.word);
            }
        } else if c == 0x2C {
            if self.depth == 2 {
                self.index = count(self.index);
                self.marked = self.listed && self.index == 2;
            } else if self.depth == 3 && self.pair {
                self.commas = count(self.commas);
                self.first = self.number;
                self.number = 0;
            }
        } else if 0x30 <= c && c <= 0x39 && self.depth == 3 && self.pair {
            self.number = grow(self.number, c);
        }
        assert(self@ =~= in_bare(old(self)@, c, limit));
    }

    fn step(&mut self, c: u8, limit: usize)
        requires
            old(self)@.depth < usize::MAX,
        ensures
            final(self)@ == stepped(old(self)@, c, limit),
    {
        match self.place {
            Place::Bare => self.step_in_bare(c, limit),
            _ => self.step_in_string(c),
        }
    }
}

/// A longer list holds one more string.
proof fn lemma_one_more(list: Seq<Vec<u8>>, last: Vec<u8>)
    ensures
        set_of(list.push(last)) == set_of(list).insert(last@),
{
    let longer = list.push(last);
    assert forall|name: Seq<u8>| #[trigger]
        set_of(longer).contains(name) <==> set_of(list).insert(last@).contains(name) by {
        if set_of(list).contains(name) {
            let i = choose|i: int| 0 <= i < list.len() && (#[trigger] list[i])@ == name;
            assert(longer[i]@ == name);
        }
        assert(longer[list.len() as int]@ == last@);
        if set_of(longer).contains(name) {
            let i = choose|i: int| 0 <= i < longer.len() && (#[trigger] longer[i])@ == name;
            if i < list.len() {
                assert(list[i]@ == name);
            }
        }
    }
    assert(set_of(longer) =~= set_of(list).insert(last@));
}

/// No more is open than bytes have been read.
proof fn lemma_depth(text: Seq<u8>, limit: usize, n: nat)
    ensures
        after(text, limit, n).depth <= n,
    decreases n,
{
    if n > 0 {
        lemma_depth(text, limit, (n - 1) as nat);
    }
}

/// Whether the record of some tensor declares that its data start in the upper half of the
/// address space and end beyond `limit`.
pub fn has_far_data(text: &[u8], limit: usize) -> (r: bool)
    ensures
        r == declares_far_data(text@, limit),
{
    let mut scan = Scan::new();
    let mut i: usize = 0;
    while i < text.len()
        invariant
            i <= text.len(),
            scan@ == after(text@, limit, i as nat),
        decreases text.len() - i,
    {
        proof {
            lemma_depth(text@, limit, i as nat);
        }
        scan.step(text[i], limit);
        i += 1;
    }
    proof {
        if scan.names@.len() > 0 {
            assert(scan@.names.contains(scan.names@[0]@));
        } else {
            assert(scan@.names =~= Set::<Seq<u8>>::empty());
        }
    }
    scan.names.len() > 0
}

} // verus!
