//! The plain transforms: upper case, lower case and reversal.

use crate::text::{chars_of, string_of};
use vstd::prelude::*;
use vstd::utf8::is_ascii_chars;

verus! {

/// What `str::to_uppercase` of the standard library makes of a text: its
/// upper-case form under Unicode's case mapping, which depends on the text
/// alone and on no locale.
pub uninterp spec fn unicode_uppercase(s: Seq<char>) -> Seq<char>;

/// What `str::to_lowercase` of the standard library makes of a text: its
/// lower-case form under Unicode's case mapping, which depends on the text
/// alone and on no locale.
pub uninterp spec fn unicode_lowercase(s: Seq<char>) -> Seq<char>;

/// Trusted: calls `str::to_uppercase`. Nothing is claimed of the result but
/// that it is the value named [`unicode_uppercase`].
#[verifier::external_body]
fn std_uppercase(s: &str) -> (r: String)
    ensures
        r@ == unicode_uppercase(s@),
{
    s.to_uppercase()
}

/// Trusted: calls `str::to_lowercase`. Nothing is claimed of the result but
/// that it is the value named [`unicode_lowercase`].
#[verifier::external_body]
fn std_lowercase(s: &str) -> (r: String)
    ensures
        r@ == unicode_lowercase(s@),
{
    s.to_lowercase()
}

/// The upper-case form of an ASCII character: `a` to `z` become `A` to `Z`,
/// every other character stays.
pub open spec fn upper_char(c: char) -> char {
    if 'a' <= c <= 'z' {
        ((c as u8) - 32) as u8 as char
    } else {
        c
    }
}

/// The lower-case form of an ASCII character: `A` to `Z` become `a` to `z`,
/// every other character stays.
pub open spec fn lower_char(c: char) -> char {
    if 'A' <= c <= 'Z' {
        ((c as u8) + 32) as u8 as char
    } else {
        c
    }
}

/// The upper-case form of a text. ASCII text is mapped character by
/// character; any other text has the form that Unicode gives it.
pub open spec fn uppercased(s: Seq<char>) -> Seq<char> {
    if is_ascii_chars(s) {
        Seq::new(s.len(), |i: int| upper_char(s[i]))
    } else {
        unicode_uppercase(s)
    }
}

/// The lower-case form of a text. ASCII text is mapped character by
/// character; any other text has the form that Unicode gives it.
pub open spec fn lowercased(s: Seq<char>) -> Seq<char> {
    if is_ascii_chars(s) {
        Seq::new(s.len(), |i: int| lower_char(s[i]))
    } else {
        unicode_lowercase(s)
    }
}

/// Decides [`upper_char`].
fn to_upper_char(c: char) -> (r: char)
    ensures
        r == upper_char(c),
{
    if 'a' <= c && c <= 'z' {
        ((c as u8) - 32) as char
    } else {
        c
    }
}

/// Decides [`lower_char`].
fn to_lower_char(c: char) -> (r: char)
    ensures
        r == lower_char(c),
{
    if 'A' <= c && c <= 'Z' {
        ((c as u8) + 32) as char
    } else {
        c
    }
}

/// Maps every character of `s` to its upper-case form.
pub fn capitalize(s: &str) -> (r: String)
    ensures
        r@ == uppercased(s@),
{
    if s.is_ascii() {
        let input = chars_of(s);
        let mut out: Vec<char> = Vec::new();
        let mut i: usize = 0;
        while i < input.len()
            invariant
                i <= input.len(),
                out@ == Seq::new(i as nat, |k: int| upper_char(input@[k])),
            decreases input.len() - i,
        {
            out.push(to_upper_char(input[i]));
            i = i + 1;
        }
        string_of(out.as_slice())
    } else {
        std_uppercase(s)
    }
}

/// Maps every character of `s` to its lower-case form.
pub fn lowercase(s: &str) -> (r: String)
    ensures
        r@ == lowercased(s@),
{
    if s.is_ascii() {
        let input = chars_of(s);
        let mut out: Vec<char> = Vec::new();
        let mut i: usize = 0;
        while i < input.len()
            invariant
                i <= input.len(),
                out@ == Seq::new(i as nat, |k: int| lower_char(input@[k])),
            decreases input.len() - i,
        {
            out.push(to_lower_char(input[i]));
            i = i + 1;
        }
        string_of(out.as_slice())
    } else {
        std_lowercase(s)
    }
}

/// The characters of `s` in the opposite order. A character is one code
/// point; sequences of combining marks get no special treatment.
pub fn reverse(s: &str) -> (r: String)
    ensures
        r@ == s@.reverse(),
{
    let input = chars_of(s);
    let n = input.len();
    let mut out: Vec<char> = Vec::new();
    let mut i: usize = 0;
    while i < n
        invariant
            n == input.len(),
            i <= n,
            out@.len() == i,
            forall|k: int| 0 <= k < i ==> out@[k] == input@[n - 1 - k],
        decreases n - i,
    {
        out.push(input[n - 1 - i]);
        i = i + 1;
    }
    assert(out@ == input@.reverse());
    string_of(out.as_slice())
}

/// Whether no character of `s` is one of the letters `A` to `Z`.
pub open spec fn no_capital(s: Seq<char>) -> bool {
    forall|i: int| 0 <= i < s.len() ==> !('A' <= #[trigger] s[i] <= 'Z')
}

/// Whether no character of `s` is one of the letters `a` to `z`.
pub open spec fn no_small(s: Seq<char>) -> bool {
    forall|i: int| 0 <= i < s.len() ==> !('a' <= #[trigger] s[i] <= 'z')
}

/// Reversing a text twice gives the text back.
pub proof fn lemma_reverse_twice(s: Seq<char>)
    ensures
        s.reverse().reverse() == s,
{
    assert(s.reverse().reverse() =~= s);
}

/// Capitalizing an ASCII text a second time changes nothing.
pub proof fn lemma_capitalize_twice(s: Seq<char>)
    requires
        is_ascii_chars(s),
    ensures
        uppercased(uppercased(s)) == uppercased(s),
{
    let up = uppercased(s);
    assert(is_ascii_chars(up));
    assert(uppercased(up) =~= up);
}

/// Lower case wins when it comes after upper case: whatever the casing of an
/// ASCII text was, capitalizing it and then lowering it gives the lower-case
/// form of the text, which holds no capital letter and which lowering again
/// leaves as it is.
pub proof fn lemma_capitalize_then_lowercase(s: Seq<char>)
    requires
        is_ascii_chars(s),
    ensures
        lowercased(uppercased(s)) == lowercased(s),
        no_capital(lowercased(uppercased(s))),
        lowercased(lowercased(uppercased(s))) == lowercased(uppercased(s)),
{
    let up = uppercased(s);
    assert(is_ascii_chars(up));
    let low = lowercased(up);
    assert(low =~= lowercased(s));
    assert(is_ascii_chars(low));
    assert(lowercased(low) =~= low);
}

/// Upper case wins when it comes after lower case: whatever the casing of an
/// ASCII text was, lowering it and then capitalizing it gives the upper-case
/// form of the text, which holds no small letter and which capitalizing
/// again leaves as it is.
pub proof fn lemma_lowercase_then_capitalize(s: Seq<char>)
    requires
        is_ascii_chars(s),
    ensures
        uppercased(lowercased(s)) == uppercased(s),
        no_small(uppercased(lowercased(s))),
        uppercased(uppercased(lowercased(s))) == uppercased(lowercased(s)),
{
    let low = lowercased(s);
    assert(is_ascii_chars(low));
    let up = uppercased(low);
    assert(up =~= uppercased(s));
    assert(is_ascii_chars(up));
    assert(uppercased(up) =~= up);
}

} // verus!
