//! Text that the library compares, builds and orders.
//!
//! The model of a text is the sequence of its characters.

use vstd::prelude::*;

verus! {

broadcast use vstd::string::group_string_axioms;

/// Whether the text `s` begins with the text `prefix`.
pub open spec fn begins_with(s: Seq<char>, prefix: Seq<char>) -> bool {
    prefix.len() <= s.len() && s.take(prefix.len() as int) == prefix
}

/// Whether `s` begins with `prefix`.
pub fn has_prefix(s: &str, prefix: &str) -> (yes: bool)
    ensures
        yes == begins_with(s@, prefix@),
{
    let mut rest = s.chars();
    let mut wanted = prefix.chars();
    let n: usize = prefix.unicode_len();
    let mut i: usize = 0;
    while i < n
        invariant
            i <= n,
            n == prefix@.len(),
            i <= s@.len(),
            vstd::std_specs::iter::IteratorSpec::remaining(&rest) == s@.skip(i as int),
            vstd::std_specs::iter::IteratorSpec::remaining(&wanted) == prefix@.skip(i as int),
            s@.take(i as int) == prefix@.take(i as int),
        decreases n - i,
    {
        let found = rest.next();
        let want = wanted.next();
        if found != want {
            assert(s@.len() >= n ==> s@.take(n as int)[i as int] == s@[i as int]);
            return false;
        }
        assert(s@.take(i + 1) =~= s@.take(i as int).push(s@[i as int]));
        assert(prefix@.take(i + 1) =~= prefix@.take(i as int).push(prefix@[i as int]));
        assert(s@.skip(i as int).drop_first() =~= s@.skip(i + 1));
        assert(prefix@.skip(i as int).drop_first() =~= prefix@.skip(i + 1));
        i = i + 1;
    }
    assert(prefix@.take(n as int) =~= prefix@);
    true
}

/// Whether the two texts are the same.
pub fn same_text(a: &str, b: &str) -> (yes: bool)
    ensures
        yes == (a@ == b@),
{
    if a.unicode_len() != b.unicode_len() {
        return false;
    }
    let yes = has_prefix(a, b);
    assert(a@.take(a@.len() as int) =~= a@);
    yes
}

/// The decimal digit `d`, for `d` below ten.
pub open spec fn digit(d: nat) -> char {
    (('0' as nat) + d) as char
}

/// The decimal notation of `n`, without leading zeros.
pub open spec fn decimal(n: nat) -> Seq<char>
    decreases n,
{
    if n < 10 {
        seq![digit(n)]
    } else {
        decimal(n / 10).push(digit(n % 10))
    }
}

/// The text of one decimal digit.
fn digit_text(d: u64) -> (text: &'static str)
    requires
        d < 10,
    ensures
        text@ == seq![digit(d as nat)],
{
    proof {
        reveal_strlit("0");
        reveal_strlit("1");
        reveal_strlit("2");
        reveal_strlit("3");
        reveal_strlit("4");
        reveal_strlit("5");
        reveal_strlit("6");
        reveal_strlit("7");
        reveal_strlit("8");
        reveal_strlit("9");
    }
    let text = match d {
        0 => "0",
        1 => "1",
        2 => "2",
        3 => "3",
        4 => "4",
        5 => "5",
        6 => "6",
        7 => "7",
        8 => "8",
        _ => "9",
    };
    assert(text@ =~= seq![digit(d as nat)]);
    text
}

/// Appends the decimal notation of `n` to `out`.
pub fn push_decimal(out: &mut String, n: u64)
    ensures
        final(out)@ == old(out)@ + decimal(n as nat),
    decreases n,
{
    if n >= 10 {
        push_decimal(out, n / 10);
    }
    out.append(digit_text(n % 10));
    assert(out@ =~= old(out)@ + decimal(n as nat));
}

/// The order of texts: character by character, and a text comes before what it begins.
pub open spec fn text_le(a: Seq<char>, b: Seq<char>) -> bool
    decreases a.len(),
{
    if a.len() == 0 {
        true
    } else if b.len() == 0 {
        false
    } else if a[0] == b[0] {
        text_le(a.drop_first(), b.drop_first())
    } else {
        a[0] < b[0]
    }
}

/// Whether the texts stand in ascending order.
pub open spec fn ascending(lines: Seq<Seq<char>>) -> bool {
    forall|i: int, j: int| 0 <= i <= j < lines.len() ==> text_le(lines[i], lines[j])
}

/// The texts that a sequence of strings holds.
pub open spec fn texts(lines: Seq<String>) -> Seq<Seq<char>> {
    lines.map_values(|line: String| line@)
}

/// Sorts the lines with `<[String]>::sort`.
///
/// That function is stated to leave a reordering of the lines it was given, in the order of
/// strings, which is that of their characters' positions in the code charts.
#[verifier::external_body]
pub(crate) fn sort_lines(lines: &mut Vec<String>)
    ensures
        ascending(texts(final(lines)@)),
        texts(final(lines)@).to_multiset() == texts(old(lines)@).to_multiset(),
{
    lines.sort();
}

} // verus!
