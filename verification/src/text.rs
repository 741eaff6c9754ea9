//! Decimal numbers, lists, affixes of strings and UTF-8.

use vstd::prelude::*;
use vstd::string::*;

verus! {

/// The character of a decimal digit.
pub open spec fn digit_char(d: nat) -> char {
    (48 + d) as char
}

/// A natural number in decimal, without leading zeros.
pub open spec fn decimal(n: nat) -> Seq<char>
    decreases n,
{
    if n < 10 {
        seq![digit_char(n)]
    } else {
        decimal(n / 10).push(digit_char(n % 10))
    }
}

/// An integer in decimal, with a minus sign where it is negative.
pub open spec fn signed_decimal(n: int) -> Seq<char> {
    if n < 0 {
        "-"@ + decimal((-n) as nat)
    } else {
        decimal(n as nat)
    }
}

/// The items, each after the first behind a comma and a space.
pub open spec fn comma_joined(items: Seq<Seq<char>>) -> Seq<char>
    decreases items.len(),
{
    if items.len() == 0 {
        Seq::empty()
    } else if items.len() == 1 {
        items[0]
    } else {
        comma_joined(items.drop_last()) + ", "@ + items.last()
    }
}

/// A list of sizes, as in `[2, 3]`.
pub open spec fn size_list(sizes: Seq<usize>) -> Seq<char> {
    "["@ + comma_joined(sizes.map_values(|n: usize| decimal(n as nat))) + "]"@
}

/// A list of signed sizes, as in `[2, -1]`.
pub open spec fn signed_list(sizes: Seq<i64>) -> Seq<char> {
    "["@ + comma_joined(sizes.map_values(|n: i64| signed_decimal(n as int))) + "]"@
}

/// Whether `s` ends with `suffix`.
pub open spec fn has_suffix(s: Seq<char>, suffix: Seq<char>) -> bool {
    suffix.is_suffix_of(s)
}

/// Whether `s` starts with `prefix`.
pub open spec fn has_prefix(s: Seq<char>, prefix: Seq<char>) -> bool {
    prefix.is_prefix_of(s)
}

/// What stands before a suffix of the given length.
pub open spec fn stem(s: Seq<char>, suffix: Seq<char>) -> Seq<char> {
    s.take(s.len() - suffix.len())
}

/// The text that some bytes encode, where they are valid UTF-8.
pub open spec fn utf8_decoded(bytes: Seq<u8>) -> Option<Seq<char>> {
    if vstd::utf8::valid_utf8(bytes) {
        Some(vstd::utf8::decode_utf8(bytes))
    } else {
        None
    }
}

/// Reads bytes as text.
///
/// This is `core::str::from_utf8`, of which is claimed what its documentation
/// says: it succeeds exactly on valid UTF-8, and gives the encoded text.
#[verifier::external_body]
pub(crate) fn utf8_text(bytes: &[u8]) -> (r: Option<&str>)
    ensures
        match r {
            Some(text) => utf8_decoded(bytes@) == Some(text@),
            None => utf8_decoded(bytes@) is None,
        },
{
    core::str::from_utf8(bytes).ok()
}

fn digit_text(d: u64) -> (r: &'static str)
    requires
        d < 10,
    ensures
        r@ == seq![digit_char(d as nat)],
{
    proof {
        reveal_strlit("0");
        reveal_strlit("1");
        reveal_strlit("2");
        reveal_strlit("3");
        reveal_strlit("4");
        reveal_strlit("5");
        reveal_strlit("6");
        reveal_strlit("7");
        reveal_strlit("8");
        reveal_strlit("9");
    }
    match d {
        0 => "0",
        1 => "1",
        2 => "2",
        3 => "3",
        4 => "4",
        5 => "5",
        6 => "6",
        7 => "7",
        8 => "8",
        _ => "9",
    }
}

/// Writes a natural number in decimal.
pub fn decimal_text(n: u64) -> (r: String)
    ensures
        r@ == decimal(n as nat),
    decreases n,
{
    if n < 10 {
        digit_text(n).to_owned()
    } else {
        let mut s = decimal_text(n / 10);
        s.append(digit_text(n % 10));
        s
    }
}

/// Writes an integer in decimal.
pub fn signed_text(n: i64) -> (r: String)
    ensures
        r@ == signed_decimal(n as int),
{
    if n < 0 {
        let magnitude: u64 = if n == i64::MIN {
            9223372036854775808
        } else {
            (-n) as u64
        };
        let mut s = "-".to_owned();
        s.append(decimal_text(magnitude).as_str());
        s
    } else {
        decimal_text(n as u64)
    }
}

/// Writes a list of sizes in brackets.
pub fn size_list_text(sizes: &[usize]) -> (r: String)
    ensures
        r@ == size_list(sizes@),
{
    let ghost items = sizes@.map_values(|n: usize| decimal(n as nat));
    let mut s = "[".to_owned();
    for i in 0..sizes.len()
        invariant
            items == sizes@.map_values(|n: usize| decimal(n as nat)),
            s@ == "["@ + comma_joined(items.take(i as int)),
    {
        proof {
            assert(items.take(i + 1).drop_last() =~= items.take(i as int));
        }
        if i > 0 {
            s.append(", ");
        }
        s.append(decimal_text(sizes[i] as u64).as_str());
    }
    proof {
        assert(items.take(sizes@.len() as int) =~= items);
    }
    s.append("]");
    s
}

/// Writes a list of signed sizes in brackets.
pub fn signed_list_text(sizes: &[i64]) -> (r: String)
    ensures
        r@ == signed_list(sizes@),
{
    let ghost items = sizes@.map_values(|n: i64| signed_decimal(n as int));
    let mut s = "[".to_owned();
    for i in 0..sizes.len()
        invariant
            items == sizes@.map_values(|n: i64| signed_decimal(n as int)),
            s@ == "["@ + comma_joined(items.take(i as int)),
    {
        proof {
            assert(items.take(i + 1).drop_last() =~= items.take(i as int));
        }
        if i > 0 {
            s.append(", ");
        }
        s.append(signed_text(sizes[i]).as_str());
    }
    proof {
        assert(items.take(sizes@.len() as int) =~= items);
    }
    s.append("]");
    s
}

/// Tests for a prefix.
pub fn starts_with(s: &str, prefix: &str) -> (r: bool)
    ensures
        r == has_prefix(s@, prefix@),
{
    let n = prefix.unicode_len();
    if s.unicode_len() < n {
        return false;
    }
    for i in 0..n
        invariant
            n == prefix@.len(),
            n <= s@.len(),
            forall|j: int| 0 <= j < i ==> s@[j] == prefix@[j],
    {
        if s.get_char(i) != prefix.get_char(i) {
            return false;
        }
    }
    true
}

/// Takes a suffix off, where there is one.
pub fn strip_suffix<'a>(s: &'a str, suffix: &str) -> (r: Option<&'a str>)
    ensures
        match r {
            Some(rest) => has_suffix(s@, suffix@) && rest@ == stem(s@, suffix@),
            None => !has_suffix(s@, suffix@),
        },
{
    let len = s.unicode_len();
    let n = suffix.unicode_len();
    if len < n {
        return None;
    }
    let start = len - n;
    for i in 0..n
        invariant
            n == suffix@.len(),
            len == s@.len(),
            start == len - n,
            n <= len,
            forall|j: int| 0 <= j < i ==> s@[start + j] == suffix@[j],
    {
        if s.get_char(start + i) != suffix.get_char(i) {
            return None;
        }
    }
    let rest = s.substring_char(0, start);
    Some(rest)
}

/// A text has a prefix exactly where it is the prefix and something behind it.
pub proof fn law_prefix(s: Seq<char>, prefix: Seq<char>)
    ensures
        has_prefix(s, prefix) <==> exists|rest: Seq<char>| s == #[trigger] (prefix + rest),
{
    if has_prefix(s, prefix) {
        assert(s =~= prefix + s.skip(prefix.len() as int));
    }
    if exists|rest: Seq<char>| s == #[trigger] (prefix + rest) {
        assert(s.take(prefix.len() as int) =~= prefix);
    }
}

/// A text has a suffix exactly where it is something and the suffix behind it.
pub proof fn law_suffix(s: Seq<char>, suffix: Seq<char>)
    ensures
        has_suffix(s, suffix) <==> exists|front: Seq<char>| s == #[trigger] (front + suffix),
{
    if has_suffix(s, suffix) {
        assert(s =~= s.take(s.len() - suffix.len()) + suffix);
    }
    if exists|front: Seq<char>| s == #[trigger] (front + suffix) {
        assert(s.subrange(s.len() - suffix.len(), s.len() as int) =~= suffix);
    }
}

/// What is left of a text without its suffix is what stood before it.
pub proof fn law_stem(front: Seq<char>, suffix: Seq<char>)
    ensures
        stem(front + suffix, suffix) == front,
{
    assert(stem(front + suffix, suffix) =~= front);
}

/// Bytes are read as a text exactly where they are the encoding of that text.
pub proof fn law_utf8(bytes: Seq<u8>, text: Seq<char>)
    ensures
        utf8_decoded(bytes) == Some(text) <==> bytes == vstd::utf8::encode_utf8(text),
{
    if vstd::utf8::valid_utf8(bytes) {
        vstd::utf8::decode_utf8_encode_utf8(bytes);
    }
    vstd::utf8::encode_utf8_valid_utf8(text);
    vstd::utf8::encode_utf8_decode_utf8(text);
}

/// The number that decimal digits stand for.
pub open spec fn digits_value(digits: Seq<char>) -> int
    decreases digits.len(),
{
    if digits.len() == 0 {
        0
    } else {
        10 * digits_value(digits.drop_last()) + (digits.last() as int - '0' as int)
    }
}

/// A number in decimal is made of digits, reads as the number again, and has no
/// zero in front unless it is zero.
pub proof fn law_decimal_read_back(n: nat)
    ensures
        digits_value(decimal(n)) == n,
        forall|i: int| 0 <= i < decimal(n).len() ==> '0' <= #[trigger] decimal(n)[i] <= '9',
        decimal(n).len() > 0,
        decimal(n)[0] == '0' ==> n == 0 && decimal(n).len() == 1,
    decreases n,
{
    reveal_with_fuel(digits_value, 2);
    if n < 10 {
        assert(decimal(n).drop_last() =~= Seq::empty());
    } else {
        law_decimal_read_back(n / 10);
        assert(decimal(n).drop_last() =~= decimal(n / 10));
    }
}

/// A negative number is written as its magnitude behind a minus sign.
pub proof fn law_signed_decimal(n: nat)
    ensures
        signed_decimal(n as int) == decimal(n),
        n > 0 ==> signed_decimal(-n) == seq!['-'] + decimal(n),
{
    reveal_strlit("-");
    assert("-"@ =~= seq!['-']);
}

/// A list of sizes grows by a comma, a space and the size before its bracket.
pub proof fn law_size_list_grows(sizes: Seq<usize>, d: usize)
    ensures
        size_list(Seq::empty()) == seq!['[', ']'],
        size_list(seq![d]) == seq!['['] + decimal(d as nat) + seq![']'],
        sizes.len() > 0 ==> size_list(sizes.push(d)) == size_list(sizes).drop_last() + seq![
            ',',
            ' ',
        ] + decimal(d as nat) + seq![']'],
{
    reveal_strlit("[");
    reveal_strlit("]");
    reveal_strlit(", ");
    let item = |n: usize| decimal(n as nat);
    assert(size_list(Seq::empty()) =~= seq!['[', ']']);
    assert(seq![d].map_values(item) =~= seq![decimal(d as nat)]);
    assert(size_list(seq![d]) =~= seq!['['] + decimal(d as nat) + seq![']']);
    if sizes.len() > 0 {
        let items = sizes.push(d).map_values(item);
        assert(items.drop_last() =~= sizes.map_values(item));
        assert(items.last() == decimal(d as nat));
        assert(size_list(sizes).drop_last() =~= "["@ + comma_joined(sizes.map_values(item)));
        assert(size_list(sizes.push(d)) =~= size_list(sizes).drop_last() + seq![',', ' ']
            + decimal(d as nat) + seq![']']);
    }
}

/// A list of signed sizes grows in the same way.
pub proof fn law_signed_list_grows(sizes: Seq<i64>, d: i64)
    ensures
        signed_list(Seq::empty()) == seq!['[', ']'],
        signed_list(seq![d]) == seq!['['] + signed_decimal(d as int) + seq![']'],
        sizes.len() > 0 ==> signed_list(sizes.push(d)) == signed_list(sizes).drop_last() + seq![
            ',',
            ' ',
        ] + signed_decimal(d as int) + seq![']'],
{
    reveal_strlit("[");
    reveal_strlit("]");
    reveal_strlit(", ");
    let item = |n: i64| signed_decimal(n as int);
    assert(signed_list(Seq::empty()) =~= seq!['[', ']']);
    assert(seq![d].map_values(item) =~= seq![signed_decimal(d as int)]);
    assert(signed_list(seq![d]) =~= seq!['['] + signed_decimal(d as int) + seq![']']);
    if sizes.len() > 0 {
        let items = sizes.push(d).map_values(item);
        assert(items.drop_last() =~= sizes.map_values(item));
        assert(items.last() == signed_decimal(d as int));
        assert(signed_list(sizes).drop_last() =~= "["@ + comma_joined(sizes.map_values(item)));
        assert(signed_list(sizes.push(d)) =~= signed_list(sizes).drop_last() + seq![',', ' ']
            + signed_decimal(d as int) + seq![']']);
    }
}

} // verus!
