//! The binary codec: every byte of a text as a group of eight binary digits,
//! and back.

use crate::text::{
    chars_of, is_word, lemma_words_of_spaced, push_all, spaced, split_words, string_of, word_views,
    words,
};
use vstd::prelude::*;
use vstd::utf8::{encode_utf8, is_ascii_chars, is_ascii_chars_encode_utf8};

verus! {

/// The binary digit for the lowest bit of `n`.
pub open spec fn bit(n: u8) -> char {
    if n % 2 == 1 {
        '1'
    } else {
        '0'
    }
}

/// The eight binary digits of a byte, the most significant first.
pub open spec fn byte_bits(b: u8) -> Seq<char> {
    seq![
        bit(b / 128),
        bit(b / 64),
        bit(b / 32),
        bit(b / 16),
        bit(b / 8),
        bit(b / 4),
        bit(b / 2),
        bit(b),
    ]
}

/// The groups of digits for a run of bytes, one group for each byte.
pub open spec fn binary_groups(bytes: Seq<u8>) -> Seq<Seq<char>> {
    Seq::new(bytes.len(), |i: int| byte_bits(bytes[i]))
}

/// The binary form of a run of bytes: its groups with single spaces between
/// them.
pub open spec fn binary_text(bytes: Seq<u8>) -> Seq<char> {
    spaced(binary_groups(bytes))
}

/// The digits of a token: the token itself, or what follows a leading `+`
/// that does not stand alone.
pub open spec fn digits_of(token: Seq<char>) -> Seq<char> {
    if token.len() > 1 && token[0] == '+' {
        token.drop_first()
    } else {
        token
    }
}

/// Whether every character is `0` or `1`.
pub open spec fn binary_digits(digits: Seq<char>) -> bool {
    forall|i: int| 0 <= i < digits.len() ==> (#[trigger] digits[i]) == '0' || digits[i] == '1'
}

/// The number that a run of binary digits writes, the most significant
/// digit first.
pub open spec fn binary_value(digits: Seq<char>) -> nat
    decreases digits.len(),
{
    if digits.len() == 0 {
        0
    } else {
        2 * binary_value(digits.drop_last()) + if digits.last() == '1' {
            1nat
        } else {
            0nat
        }
    }
}

/// The byte that a token writes in base 2: the token is an optional `+` and
/// then one or more binary digits whose value is at most 255. Any other
/// token writes no byte.
pub open spec fn parsed_byte(token: Seq<char>) -> Option<u8> {
    let digits = digits_of(token);
    if digits.len() > 0 && binary_digits(digits) && binary_value(digits) <= 255 {
        Some(binary_value(digits) as u8)
    } else {
        None
    }
}

/// The characters that a run of tokens decodes to: each token that writes a
/// byte gives the character with that code point, every other token is
/// passed over.
pub open spec fn decoded_chars(tokens: Seq<Seq<char>>) -> Seq<char>
    decreases tokens.len(),
{
    if tokens.len() == 0 {
        Seq::empty()
    } else {
        match parsed_byte(tokens.last()) {
            Some(b) => decoded_chars(tokens.drop_last()).push(b as char),
            None => decoded_chars(tokens.drop_last()),
        }
    }
}

/// What decoding makes of a binary text: the text is split at white space
/// into tokens, and the tokens are decoded one by one.
pub open spec fn binary_decoded(s: Seq<char>) -> Seq<char> {
    decoded_chars(words(s))
}

/// Decides [`bit`].
fn bit_char(n: u8) -> (c: char)
    ensures
        c == bit(n),
{
    if n % 2 == 1 {
        '1'
    } else {
        '0'
    }
}

/// The eight binary digits of `b`, the most significant first.
fn bits_of(b: u8) -> (group: Vec<char>)
    ensures
        group@ == byte_bits(b),
{
    let mut group: Vec<char> = Vec::new();
    group.push(bit_char(b / 128));
    group.push(bit_char(b / 64));
    group.push(bit_char(b / 32));
    group.push(bit_char(b / 16));
    group.push(bit_char(b / 8));
    group.push(bit_char(b / 4));
    group.push(bit_char(b / 2));
    group.push(bit_char(b));
    assert(group@ =~= byte_bits(b));
    group
}

/// Writes the bytes of `s` in binary: eight digits for each byte of its
/// UTF-8 form, the most significant bit first, single spaces between the
/// groups.
pub fn to_binary(s: &str) -> (r: String)
    ensures
        r@ == binary_text(encode_utf8(s@)),
{
    let bytes = s.as_bytes();
    let mut out = String::new();
    let mut i: usize = 0;
    assert(binary_groups(bytes@.take(0)) =~= Seq::<Seq<char>>::empty());
    while i < bytes.len()
        invariant
            i <= bytes.len(),
            out@ == spaced(binary_groups(bytes@.take(i as int))),
        decreases bytes.len() - i,
    {
        let b = bytes[i];
        let ghost before = out@;
        if i > 0 {
            out.push(' ');
        }
        let group = bits_of(b);
        push_all(&mut out, group.as_slice());
        proof {
            let done = binary_groups(bytes@.take(i as int));
            let next = binary_groups(bytes@.take(i + 1));
            assert(next.drop_last() =~= done);
            assert(next.last() == byte_bits(b));
            if i > 0 {
                assert(out@ =~= before + seq![' '] + byte_bits(b));
            } else {
                assert(out@ =~= byte_bits(b));
            }
        }
        i = i + 1;
    }
    assert(bytes@.take(bytes.len() as int) =~= bytes@);
    out
}

/// The value of a run of digits is at least the value of each of its
/// fronts.
proof fn lemma_value_grows(digits: Seq<char>, k: int)
    requires
        0 <= k <= digits.len(),
    ensures
        binary_value(digits.take(k)) <= binary_value(digits),
    decreases digits.len() - k,
{
    if k < digits.len() {
        lemma_value_grows(digits.drop_last(), k);
        assert(digits.drop_last().take(k) =~= digits.take(k));
    } else {
        assert(digits.take(k) =~= digits);
    }
}

/// Decides [`parsed_byte`].
fn parse_byte(token: &[char]) -> (r: Option<u8>)
    ensures
        r == parsed_byte(token@),
{
    let n = token.len();
    let start: usize = if n > 1 && token[0] == '+' {
        1
    } else {
        0
    };
    let ghost digits = digits_of(token@);
    assert(digits =~= token@.skip(start as int));
    if start == n {
        return None;
    }
    let mut value: u16 = 0;
    let mut i: usize = start;
    assert(digits.take(0) =~= Seq::<char>::empty());
    while i < n
        invariant
            n == token.len(),
            start <= i <= n,
            digits == digits_of(token@),
            digits == token@.skip(start as int),
            binary_digits(digits.take(i - start)),
            value == binary_value(digits.take(i - start)),
            value <= 255,
        decreases n - i,
    {
        let c = token[i];
        let ghost front = digits.take(i - start);
        let ghost longer = digits.take(i + 1 - start);
        assert(longer.drop_last() =~= front);
        assert(longer.last() == c);
        if c != '0' && c != '1' {
            assert(digits[i - start] == c);
            return None;
        }
        let digit: u16 = if c == '1' {
            1
        } else {
            0
        };
        let next: u16 = 2 * value + digit;
        if next > 255 {
            proof {
                lemma_value_grows(digits, i + 1 - start);
            }
            return None;
        }
        value = next;
        i = i + 1;
    }
    assert(digits.take(n - start) =~= digits);
    Some(value as u8)
}

/// Reads a binary text back: the text is split at white space, each token
/// that writes a byte in base 2 gives the character with that code point,
/// and a token that does not is passed over without an error.
pub fn from_binary(s: &str) -> (r: String)
    ensures
        r@ == binary_decoded(s@),
{
    let input = chars_of(s);
    let tokens = split_words(input.as_slice());
    let ghost all = words(s@);
    let mut out: Vec<char> = Vec::new();
    let mut i: usize = 0;
    assert(all.take(0) =~= Seq::<Seq<char>>::empty());
    while i < tokens.len()
        invariant
            i <= tokens.len(),
            all == word_views(tokens@),
            out@ == decoded_chars(all.take(i as int)),
        decreases tokens.len() - i,
    {
        proof {
            let next = all.take(i + 1);
            assert(next.drop_last() =~= all.take(i as int));
            assert(next.last() == tokens@[i as int]@);
        }
        match parse_byte(tokens[i].as_slice()) {
            Some(b) => {
                out.push(b as char);
            },
            None => {},
        }
        i = i + 1;
    }
    assert(all.take(tokens.len() as int) =~= all);
    string_of(out.as_slice())
}

/// One more digit doubles the value and adds the digit.
proof fn lemma_value_push(digits: Seq<char>, c: char)
    ensures
        binary_value(digits.push(c)) == 2 * binary_value(digits) + if c == '1' {
            1nat
        } else {
            0nat
        },
{
    assert(digits.push(c).drop_last() =~= digits);
}

/// The eight digits of a byte are one word, and the byte is what they write.
pub proof fn lemma_bits_write_byte(b: u8)
    ensures
        is_word(byte_bits(b)),
        parsed_byte(byte_bits(b)) == Some(b),
{
    let bits = byte_bits(b);
    let d0 = Seq::<char>::empty();
    let d1 = d0.push(bit(b / 128));
    let d2 = d1.push(bit(b / 64));
    let d3 = d2.push(bit(b / 32));
    let d4 = d3.push(bit(b / 16));
    let d5 = d4.push(bit(b / 8));
    let d6 = d5.push(bit(b / 4));
    let d7 = d6.push(bit(b / 2));
    let d8 = d7.push(bit(b));
    assert(bits =~= d8);
    lemma_value_push(d0, bit(b / 128));
    lemma_value_push(d1, bit(b / 64));
    lemma_value_push(d2, bit(b / 32));
    lemma_value_push(d3, bit(b / 16));
    lemma_value_push(d4, bit(b / 8));
    lemma_value_push(d5, bit(b / 4));
    lemma_value_push(d6, bit(b / 2));
    lemma_value_push(d7, bit(b));
    assert(binary_value(d1) == b / 128);
    assert(binary_value(d2) == b / 64);
    assert(binary_value(d3) == b / 32);
    assert(binary_value(d4) == b / 16);
    assert(binary_value(d5) == b / 8);
    assert(binary_value(d6) == b / 4);
    assert(binary_value(d7) == b / 2);
    assert(binary_value(d8) == b);
    assert(digits_of(bits) == bits);
}

/// Decoding undoes encoding on ASCII text: every text of ASCII characters,
/// and so every text of printable ones, comes back unchanged when its binary
/// form is decoded.
pub proof fn lemma_binary_round_trip(s: Seq<char>)
    requires
        is_ascii_chars(s),
    ensures
        binary_decoded(binary_text(encode_utf8(s))) == s,
{
    let bytes = encode_utf8(s);
    is_ascii_chars_encode_utf8(s);
    let groups = binary_groups(bytes);
    assert forall|i: int| 0 <= i < groups.len() implies is_word(#[trigger] groups[i]) by {
        lemma_bits_write_byte(bytes[i]);
    }
    lemma_words_of_spaced(groups);
    lemma_groups_decode(s, s.len() as int);
    assert(s.take(s.len() as int) =~= s);
    assert(groups.take(s.len() as int) =~= groups);
}

/// The groups for the first `k` characters of an ASCII text decode to those
/// characters.
proof fn lemma_groups_decode(s: Seq<char>, k: int)
    requires
        is_ascii_chars(s),
        0 <= k <= s.len(),
    ensures
        decoded_chars(binary_groups(encode_utf8(s)).take(k)) == s.take(k),
    decreases k,
{
    let bytes = encode_utf8(s);
    is_ascii_chars_encode_utf8(s);
    let front = binary_groups(bytes).take(k);
    if k == 0 {
        assert(s.take(0) =~= Seq::<char>::empty());
    } else {
        lemma_groups_decode(s, k - 1);
        assert(front.drop_last() =~= binary_groups(bytes).take(k - 1));
        assert(front.last() == byte_bits(bytes[k - 1]));
        lemma_bits_write_byte(bytes[k - 1]);
        assert(bytes[k - 1] == s[k - 1] as u8);
        assert((s[k - 1] as u8) as char == s[k - 1]);
        assert(s.take(k) =~= s.take(k - 1).push(s[k - 1]));
    }
}

} // verus!
