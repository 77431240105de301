//! Dotted names.
use vstd::prelude::*;
use vstd::string::*;

verus! {

/// What each string reads.
pub open spec fn views(list: Seq<String>) -> Seq<Seq<char>> {
    list.map_values(|s: String| s@)
}

/// Two parts of a dotted name.
pub open spec fn joined(a: Seq<char>, b: Seq<char>) -> Seq<char> {
    a.push('.') + b
}

/// Whether `s` is a single part of a dotted name.
pub open spec fn dotless(s: Seq<char>) -> bool {
    !s.contains('.')
}

/// Number of characters before the first dot, or of all if there is none.
pub open spec fn leading(s: Seq<char>) -> nat
    decreases s.len(),
{
    if s.len() == 0 || s[0] == '.' {
        0
    } else {
        1 + leading(s.drop_first())
    }
}

/// What stands before the first dot, or all of `s` if there is none.
pub open spec fn first_part(s: Seq<char>) -> Seq<char> {
    s.take(leading(s) as int)
}

/// `s` without any `prefix` in front.
pub open spec fn trimmed(s: Seq<char>, prefix: Seq<char>) -> Seq<char>
    decreases s.len(),
{
    if 0 < prefix.len() && prefix.is_prefix_of(s) {
        trimmed(s.skip(prefix.len() as int), prefix)
    } else {
        s
    }
}

proof fn lemma_leading(s: Seq<char>)
    ensures
        leading(s) <= s.len(),
        leading(s) < s.len() ==> s[leading(s) as int] == '.',
        forall|i: int| 0 <= i < leading(s) ==> s[i] != '.',
    decreases s.len(),
{
    if s.len() > 0 && s[0] != '.' {
        let rest = s.drop_first();
        lemma_leading(rest);
        assert forall|i: int| 0 <= i < leading(s) implies s[i] != '.' by {
            if i > 0 {
                assert(rest[i - 1] == s[i]);
            }
        }
    }
}

/// `n` is the length of the first part if there is no dot before it and it is followed by
/// a dot or by nothing.
proof fn lemma_leading_is(s: Seq<char>, n: nat)
    requires
        n <= s.len(),
        n < s.len() ==> s[n as int] == '.',
        forall|i: int| 0 <= i < n ==> s[i] != '.',
    ensures
        leading(s) == n,
{
    lemma_leading(s);
    if leading(s) < n {
        assert(s[leading(s) as int] != '.');
    }
    if n < leading(s) {
        assert(s[n as int] != '.');
    }
}

/// The first part of a name is its part before the first dot.
pub proof fn law_first_part_of_joined(a: Seq<char>, b: Seq<char>)
    requires
        dotless(a),
    ensures
        first_part(joined(a, b)) == a,
{
    let s = joined(a, b);
    assert forall|i: int| 0 <= i < a.len() implies s[i] != '.' by {
        assert(a.contains(a[i]));
    }
    lemma_leading_is(s, a.len());
    assert(s.take(a.len() as int) =~= a);
}

/// No dotted name has two readings with a dotless first part.
pub proof fn law_joined_is_injective(a: Seq<char>, b: Seq<char>, c: Seq<char>, d: Seq<char>)
    requires
        dotless(a),
        dotless(c),
        joined(a, b) == joined(c, d),
    ensures
        a == c,
        b == d,
{
    law_first_part_of_joined(a, b);
    law_first_part_of_joined(c, d);
    assert(joined(a, b).skip(a.len() as int + 1) =~= b);
    assert(joined(c, d).skip(c.len() as int + 1) =~= d);
}

/// A list of strings reads as each of them does, in their order.
pub proof fn law_each_string_is_read(list: Seq<String>, i: int)
    requires
        0 <= i < list.len(),
    ensures
        views(list).len() == list.len(),
        views(list)[i] == list[i]@,
{
}

/// A joined name is one part, a dot, and the other part.
pub proof fn law_a_dot_stands_between_the_parts(a: Seq<char>, b: Seq<char>)
    ensures
        joined(a, b).len() == a.len() + 1 + b.len(),
        joined(a, b)[a.len() as int] == '.',
        forall|i: int| 0 <= i < a.len() ==> #[trigger] joined(a, b)[i] == a[i],
        forall|i: int| 0 <= i < b.len() ==> #[trigger] b[i] == joined(a, b)[a.len() + 1 + i],
{
}

/// The first part of a name is the longest beginning of it without a dot.
pub proof fn law_the_first_part_ends_at_the_first_dot(s: Seq<char>)
    ensures
        first_part(s).len() <= s.len(),
        first_part(s).len() < s.len() ==> s[first_part(s).len() as int] == '.',
        forall|i: int| 0 <= i < first_part(s).len() ==> #[trigger] first_part(s)[i] == s[i],
        forall|i: int| 0 <= i < first_part(s).len() ==> #[trigger] first_part(s)[i] != '.',
{
    lemma_leading(s);
    let n = leading(s);
    assert forall|i: int| 0 <= i < n implies #[trigger] first_part(s)[i] != '.' by {
        assert(s[i] != '.');
    }
}

/// Each prefix in front of a name is taken off, and nothing else.
pub proof fn law_every_prefix_is_trimmed(s: Seq<char>, prefix: Seq<char>)
    requires
        0 < prefix.len(),
    ensures
        !prefix.is_prefix_of(trimmed(s, prefix)),
        !prefix.is_prefix_of(s) ==> trimmed(s, prefix) == s,
        trimmed(prefix + s, prefix) == trimmed(s, prefix),
    decreases s.len(),
{
    assert(prefix.is_prefix_of(prefix + s));
    assert((prefix + s).skip(prefix.len() as int) =~= s);
    if prefix.is_prefix_of(s) {
        law_every_prefix_is_trimmed(s.skip(prefix.len() as int), prefix);
    }
}

/// Joins two parts of a name by a dot.
pub fn join(a: &str, b: &str) -> (r: String)
    ensures
        r@ == joined(a@, b@),
{
    let mut name = a.to_owned();
    name.append(".");
    name.append(b);
    proof {
        reveal_strlit(".");
    }
    assert(name@ =~= joined(a@, b@));
    name
}

/// Whether two strings are equal.
pub fn same(a: &str, b: &str) -> (r: bool)
    ensures
        r == (a@ == b@),
{
    a.to_owned() == b.to_owned()
}

/// What stands before the first dot, or all of `s` if there is none.
pub fn take_first_part(s: &str) -> (r: &str)
    ensures
        r@ == first_part(s@),
{
    let len = s.unicode_len();
    let mut n: usize = 0;
    while n < len && s.get_char(n) != '.'
        invariant
            n <= len,
            len == s@.len(),
            forall|i: int| 0 <= i < n ==> s@[i] != '.',
        decreases len - n,
    {
        n += 1;
    }
    proof {
        lemma_leading_is(s@, n as nat);
    }
    s.substring_char(0, n)
}

/// Whether `s` starts with `prefix`.
fn starts_with(s: &str, prefix: &str) -> (r: bool)
    ensures
        r == prefix@.is_prefix_of(s@),
{
    let n = prefix.unicode_len();
    if n > s.unicode_len() {
        return false;
    }
    assert(s@.subrange(0, n as int) == prefix@ <==> prefix@.is_prefix_of(s@));
    same(s.substring_char(0, n), prefix)
}

/// `s` without any `prefix` in front.
pub fn trim_prefix<'a>(s: &'a str, prefix: &str) -> (r: &'a str)
    ensures
        r@ == trimmed(s@, prefix@),
{
    let n = prefix.unicode_len();
    let mut rest: &'a str = s;
    while n > 0 && starts_with(rest, prefix)
        invariant
            n == prefix@.len(),
            trimmed(rest@, prefix@) == trimmed(s@, prefix@),
        decreases rest@.len(),
    {
        let len = rest.unicode_len();
        assert(rest@.subrange(n as int, len as int) =~= rest@.skip(n as int));
        rest = rest.substring_char(n, len);
    }
    rest
}

} // verus!
