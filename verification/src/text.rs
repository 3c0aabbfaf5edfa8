//! Numbers and bytes as text.

use vstd::prelude::*;

verus! {

/// The character for one digit, in lower case above nine.
pub open spec fn digit_char(digit: int) -> char {
    if digit < 10 {
        ('0' as int + digit) as char
    } else {
        ('a' as int + digit - 10) as char
    }
}

/// `n` written in `base`, most significant digit first and without leading
/// zeros. Meant for bases from two to sixteen.
pub open spec fn numeral(n: nat, base: nat) -> Seq<char>
    decreases n,
{
    if base < 2 || n < base {
        seq![digit_char(n as int)]
    } else {
        proof {
            lemma_quotient_is_smaller(n, base);
        }
        numeral(n / base, base).push(digit_char((n % base) as int))
    }
}

/// `n` written in base ten.
pub open spec fn decimal(n: nat) -> Seq<char> {
    numeral(n, 10)
}

/// `n` written in base sixteen, without a prefix.
pub open spec fn hexadecimal(n: nat) -> Seq<char> {
    numeral(n, 16)
}

/// Dividing by the base leaves less.
pub proof fn lemma_quotient_is_smaller(n: nat, base: nat)
    by (nonlinear_arith)
    requires
        2 <= base <= n,
    ensures
        n / base < n,
{
}

/// Every character of a numeral is a digit of its base.
pub proof fn lemma_numeral_characters(n: nat, base: nat)
    requires
        2 <= base <= 16,
    ensures
        numeral(n, base).len() > 0,
        forall|i: int|
            0 <= i < numeral(n, base).len() ==> exists|d: int|
                0 <= d < base && #[trigger] numeral(n, base)[i] == #[trigger] digit_char(d),
    decreases n,
{
    if n < base {
        assert(numeral(n, base)[0] == digit_char(n as int));
    } else {
        lemma_quotient_is_smaller(n, base);
        lemma_numeral_characters(n / base, base);
        let front = numeral(n / base, base);
        assert forall|i: int| 0 <= i < numeral(n, base).len() implies exists|d: int|
            0 <= d < base && #[trigger] numeral(n, base)[i] == #[trigger] digit_char(d) by {
            if i < front.len() {
                assert(numeral(n, base)[i] == front[i]);
            } else {
                assert(numeral(n, base)[i] == digit_char((n % base) as int));
            }
        }
    }
}

/// Two numbers with the same numeral are the same number.
pub proof fn lemma_numeral_is_injective(a: nat, b: nat, base: nat)
    requires
        2 <= base <= 16,
        numeral(a, base) == numeral(b, base),
    ensures
        a == b,
    decreases a,
{
    let last_a = numeral(a, base).last();
    let last_b = numeral(b, base).last();
    if a < base && b < base {
        assert(last_a == digit_char(a as int));
        assert(last_b == digit_char(b as int));
    } else if a >= base && b >= base {
        lemma_quotient_is_smaller(a, base);
        assert(numeral(a, base).drop_last() =~= numeral(a / base, base));
        assert(numeral(b, base).drop_last() =~= numeral(b / base, base));
        lemma_numeral_is_injective(a / base, b / base, base);
        assert(last_a == digit_char((a % base) as int));
        assert(last_b == digit_char((b % base) as int));
        vstd::arithmetic::div_mod::lemma_fundamental_div_mod(a as int, base as int);
        vstd::arithmetic::div_mod::lemma_fundamental_div_mod(b as int, base as int);
    } else if a >= base {
        lemma_numeral_characters(a / base, base);
    } else {
        lemma_numeral_characters(b / base, base);
    }
}

/// The text of one digit.
fn digit_text(digit: u64) -> (text: &'static str)
    requires
        digit < 16,
    ensures
        text@ == seq![digit_char(digit as int)],
{
    proof {
        reveal_strlit("0");
        reveal_strlit("1");
        reveal_strlit("2");
        reveal_strlit("3");
        reveal_strlit("4");
        reveal_strlit("5");
        reveal_strlit("6");
        reveal_strlit("7");
        reveal_strlit("8");
        reveal_strlit("9");
        reveal_strlit("a");
        reveal_strlit("b");
        reveal_strlit("c");
        reveal_strlit("d");
        reveal_strlit("e");
        reveal_strlit("f");
    }
    match digit {
        0 => "0",
        1 => "1",
        2 => "2",
        3 => "3",
        4 => "4",
        5 => "5",
        6 => "6",
        7 => "7",
        8 => "8",
        9 => "9",
        10 => "a",
        11 => "b",
        12 => "c",
        13 => "d",
        14 => "e",
        _ => "f",
    }
}

/// Writes `n` in `base` at the end of `out`.
pub(crate) fn append_numeral(out: &mut String, n: u64, base: u64)
    requires
        2 <= base <= 16,
    ensures
        final(out)@ == old(out)@ + numeral(n as nat, base as nat),
    decreases n,
{
    if n < base {
        out.append(digit_text(n));
    } else {
        proof {
            lemma_quotient_is_smaller(n as nat, base as nat);
        }
        append_numeral(out, n / base, base);
        out.append(digit_text(n % base));
        assert(out@ =~= old(out)@ + numeral(n as nat, base as nat));
    }
}

/// Whether `part` stands in `text` at the character number `at`.
pub(crate) fn stands_at(text: &str, part: &str, at: usize, length: usize) -> (found: bool)
    requires
        length == part@.len(),
        at + length <= text@.len(),
        at + length <= usize::MAX,
    ensures
        found == (text@.subrange(at as int, at + length) == part@),
{
    let mut i: usize = 0;
    while i < length
        invariant
            i <= length,
            length == part@.len(),
            at + length <= text@.len(),
            at + length <= usize::MAX,
            forall|j: int| 0 <= j < i ==> text@[at + j] == part@[j],
        decreases length - i,
    {
        if text.get_char(at + i) != part.get_char(i) {
            assert(text@.subrange(at as int, at + length)[i as int] != part@[i as int]);
            return false;
        }
        i += 1;
    }
    assert(text@.subrange(at as int, at + length) =~= part@);
    true
}

/// Whether `text` begins with `part`.
pub(crate) fn begins_with(text: &str, part: &str) -> (found: bool)
    ensures
        found == part@.is_prefix_of(text@),
{
    let length = part.unicode_len();
    if text.unicode_len() < length {
        return false;
    }
    stands_at(text, part, 0, length)
}

/// A capital letter of the ASCII characters as a small one.
pub open spec fn ascii_lowercase(c: char) -> char {
    if 'A' <= c <= 'Z' {
        (c as int + 32) as char
    } else {
        c
    }
}

/// A text with its ASCII letters in small ones.
pub open spec fn ascii_small(text: Seq<char>) -> Seq<char> {
    text.map_values(|c: char| ascii_lowercase(c))
}

/// Bytes with those of the ASCII letters replaced by those of the small ones.
pub open spec fn ascii_small_bytes(bytes: Seq<u8>) -> Seq<u8> {
    bytes.map_values(
        |byte: u8|
            if 0x41 <= byte <= 0x5a {
                (byte + 32) as u8
            } else {
                byte
            },
    )
}

/// What `String::from_utf8_lossy` makes of some bytes.
pub uninterp spec fn lossy_text(bytes: Seq<u8>) -> Seq<char>;

/// Calls `String::from_utf8`, which gives the text that the bytes encode, and
/// refuses bytes that are not valid UTF-8.
#[verifier::external_body]
pub(crate) fn to_text(bytes: Vec<u8>) -> (text: Option<String>)
    ensures
        text is Some <==> vstd::utf8::valid_utf8(bytes@),
        text matches Some(text) ==> text@ == vstd::utf8::decode_utf8(bytes@),
{
    String::from_utf8(bytes).ok()
}

/// Calls `String::from_utf8_lossy`, which decodes bytes that are valid UTF-8,
/// and puts a replacement character for what is not. Where the bytes are not
/// valid, the text is only given a name. The byte of an ASCII letter stands for
/// that letter wherever it occurs, and is never part of another character, so
/// that a letter's case has no effect on the rest of the text.
#[verifier::external_body]
pub(crate) fn to_lossy_text(bytes: &Vec<u8>) -> (text: String)
    ensures
        text@ == lossy_text(bytes@),
        vstd::utf8::valid_utf8(bytes@) ==> text@ == vstd::utf8::decode_utf8(bytes@),
        ascii_small(text@) == lossy_text(ascii_small_bytes(bytes@)),
{
    String::from_utf8_lossy(bytes).into_owned()
}

/// The number that a digit stands for.
pub open spec fn digit_value(digit: char) -> int {
    if '0' <= digit <= '9' {
        digit as int - '0' as int
    } else {
        digit as int - 'a' as int + 10
    }
}

/// The number that a row of digits stands for.
pub open spec fn value_of(digits: Seq<char>, base: int) -> int
    decreases digits.len(),
{
    if digits.len() == 0 {
        0
    } else {
        value_of(digits.drop_last(), base) * base + digit_value(digits.last())
    }
}

/// A numeral stands for its number: read as digits of its base it gives the
/// number back, it holds digits of the base only, those above nine as small
/// letters, and it does not begin with a zero unless it is the number zero.
pub proof fn law_a_numeral_stands_for_its_number(n: nat, base: nat)
    requires
        2 <= base <= 16,
    ensures
        value_of(numeral(n, base), base as int) == n,
        numeral(n, base).len() > 0,
        forall|i: int|
            0 <= i < numeral(n, base).len() ==> 0 <= digit_value(#[trigger] numeral(n, base)[i])
                < base && ('0' <= numeral(n, base)[i] <= '9' || 'a' <= numeral(n, base)[i] <= 'f'),
        n > 0 ==> numeral(n, base)[0] != '0',
        n == 0 ==> numeral(n, base) == seq!['0'],
    decreases n,
{
    reveal_with_fuel(value_of, 2);
    if n < base {
        let digits = numeral(n, base);
        assert(digits =~= seq![digit_char(n as int)]);
        assert(digits.drop_last() =~= seq![]);
        assert(digits.last() == digit_char(n as int));
        assert(digit_value(digit_char(n as int)) == n);
    } else {
        lemma_quotient_is_smaller(n, base);
        law_a_numeral_stands_for_its_number(n / base, base);
        vstd::arithmetic::div_mod::lemma_fundamental_div_mod(n as int, base as int);
        let front = numeral(n / base, base);
        let last = digit_char((n % base) as int);
        let digits = numeral(n, base);
        assert(digits.drop_last() =~= front);
        assert(digit_value(last) == n % base);
        assert(value_of(digits, base as int) == (n / base) * base + n % base);
        assert(base * (n / base) == (n / base) * base) by (nonlinear_arith);
        assert(n / base > 0) by (nonlinear_arith)
            requires
                n >= base,
                base >= 2,
        ;
        assert forall|i: int| 0 <= i < digits.len() implies 0 <= digit_value(#[trigger] digits[i])
            < base && ('0' <= digits[i] <= '9' || 'a' <= digits[i] <= 'f') by {
            if i < front.len() {
                assert(digits[i] == front[i]);
            } else {
                assert(digits[i] == last);
            }
        }
        assert(digits[0] == front[0]);
    }
}

/// Making the ASCII letters small changes these letters only, each to its small
/// form, and leaves everything else where it is. Doing so twice changes nothing
/// more.
pub proof fn law_small_letters(text: Seq<char>, bytes: Seq<u8>)
    ensures
        ascii_small(text).len() == text.len(),
        forall|i: int|
            0 <= i < text.len() ==> ascii_small(text)[i] as int == #[trigger] text[i] as int
                + if 'A' <= text[i] <= 'Z' {
                'a' as int - 'A' as int
            } else {
                0
            },
        ascii_small(ascii_small(text)) == ascii_small(text),
        ascii_small_bytes(bytes).len() == bytes.len(),
        forall|i: int|
            0 <= i < bytes.len() ==> ascii_small_bytes(bytes)[i] as int == #[trigger] bytes[i]
                + if 'A' as int <= bytes[i] <= 'Z' as int {
                'a' as int - 'A' as int
            } else {
                0
            },
        ascii_small_bytes(ascii_small_bytes(bytes)) == ascii_small_bytes(bytes),
{
    assert(ascii_small(ascii_small(text)) =~= ascii_small(text));
    assert(ascii_small_bytes(ascii_small_bytes(bytes)) =~= ascii_small_bytes(bytes));
}

} // verus!
