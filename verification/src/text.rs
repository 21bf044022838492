//! Characters, words and spacing: the groundwork that every transform shares.
//!
//! Strings are taken apart into vectors of `char` at the boundary of the
//! library and put together again at the end, so that the transforms
//! themselves work on indexable sequences.

use vstd::prelude::*;

verus! {

/// Trusted: `String::push` of the standard library appends the one character
/// it is given to the end of the string and changes nothing else.
pub assume_specification[ String::push ](s: &mut String, c: char)
    ensures
        final(s)@ == old(s)@.push(c),
;

/// The characters of a string slice, in order.
pub fn chars_of(s: &str) -> (v: Vec<char>)
    ensures
        v@ == s@,
{
    let mut v: Vec<char> = Vec::new();
    for c in it: s.chars()
        invariant
            it.seq() == s@,
            v@ == s@.take(it.index()),
    {
        v.push(c);
    }
    assert(v@ == s@);
    v
}

/// Appends every character of `word` to `out`.
pub fn push_all(out: &mut String, word: &[char])
    ensures
        final(out)@ == old(out)@ + word@,
{
    let mut i: usize = 0;
    while i < word.len()
        invariant
            i <= word.len(),
            out@ == old(out)@ + word@.take(i as int),
        decreases word.len() - i,
    {
        out.push(word[i]);
        i = i + 1;
    }
    assert(word@.take(word.len() as int) == word@);
}

/// A string holding exactly the characters of `v`.
pub fn string_of(v: &[char]) -> (s: String)
    ensures
        s@ == v@,
{
    let mut s = String::new();
    push_all(&mut s, v);
    s
}

/// Whether two character slices hold the same characters.
pub fn same_chars(a: &[char], b: &[char]) -> (r: bool)
    ensures
        r == (a@ == b@),
{
    if a.len() != b.len() {
        return false;
    }
    let mut i: usize = 0;
    while i < a.len()
        invariant
            a.len() == b.len(),
            i <= a.len(),
            a@.take(i as int) == b@.take(i as int),
        decreases a.len() - i,
    {
        if a[i] != b[i] {
            return false;
        }
        assert(a@.take(i + 1) == a@.take(i as int).push(a@[i as int]));
        assert(b@.take(i + 1) == b@.take(i as int).push(b@[i as int]));
        i = i + 1;
    }
    assert(a@.take(a.len() as int) == a@);
    assert(b@.take(b.len() as int) == b@);
    true
}

/// The characters that carry Unicode's `White_Space` property: the ones at
/// which text is split into words and which trimming removes.
pub open spec fn white_space(c: char) -> bool {
    ||| '\u{9}' <= c <= '\u{d}'
    ||| c == ' '
    ||| c == '\u{85}'
    ||| c == '\u{a0}'
    ||| c == '\u{1680}'
    ||| '\u{2000}' <= c <= '\u{200a}'
    ||| c == '\u{2028}'
    ||| c == '\u{2029}'
    ||| c == '\u{202f}'
    ||| c == '\u{205f}'
    ||| c == '\u{3000}'
}

/// Decides [`white_space`] for one character.
pub fn is_whitespace(c: char) -> (r: bool)
    ensures
        r == white_space(c),
{
    if c <= '\u{ff}' {
        ('\u{9}' <= c && c <= '\u{d}') || c == ' ' || c == '\u{85}' || c == '\u{a0}'
    } else {
        c == '\u{1680}' || ('\u{2000}' <= c && c <= '\u{200a}') || c == '\u{2028}'
            || c == '\u{2029}' || c == '\u{202f}' || c == '\u{205f}' || c == '\u{3000}'
    }
}

/// A word is a non-empty run of characters none of which is white space.
pub open spec fn is_word(w: Seq<char>) -> bool {
    &&& w.len() > 0
    &&& forall|i: int| 0 <= i < w.len() ==> !white_space(#[trigger] w[i])
}

/// How many characters at the front of `s` come before the first white
/// space (all of them, if there is none).
pub open spec fn word_len(s: Seq<char>) -> nat
    decreases s.len(),
{
    if s.len() == 0 || white_space(s[0]) {
        0
    } else {
        1 + word_len(s.drop_first())
    }
}

/// The words of `s`: its maximal runs of characters that are not white
/// space, from left to right. White space only separates; it never yields an
/// empty word.
pub open spec fn words(s: Seq<char>) -> Seq<Seq<char>>
    decreases s.len(),
{
    if s.len() == 0 {
        Seq::empty()
    } else if white_space(s[0]) {
        words(s.drop_first())
    } else {
        proof {
            lemma_word_len_stops(s);
        }
        seq![s.take(word_len(s) as int)] + words(s.skip(word_len(s) as int))
    }
}

/// `word_len` is the position of the first white space, or the length.
pub proof fn lemma_word_len_is(s: Seq<char>, k: nat)
    requires
        k <= s.len(),
        forall|j: int| 0 <= j < k ==> !white_space(#[trigger] s[j]),
        k == s.len() || white_space(s[k as int]),
    ensures
        word_len(s) == k,
    decreases k,
{
    if k > 0 {
        let rest = s.drop_first();
        assert forall|j: int| 0 <= j < k - 1 implies !white_space(#[trigger] rest[j]) by {
            assert(rest[j] == s[j + 1]);
        }
        lemma_word_len_is(rest, (k - 1) as nat);
    }
}

/// The views of a vector of words.
pub open spec fn word_views(v: Seq<Vec<char>>) -> Seq<Seq<char>> {
    Seq::new(v.len(), |i: int| v[i]@)
}

/// Splits `s` at white space into its words.
pub fn split_words(s: &[char]) -> (out: Vec<Vec<char>>)
    ensures
        word_views(out@) == words(s@),
{
    let n = s.len();
    let mut out: Vec<Vec<char>> = Vec::new();
    let mut i: usize = 0;
    assert(s@.skip(0) == s@);
    assert(word_views(out@) + words(s@) == words(s@));
    while i < n
        invariant
            n == s.len(),
            i <= n,
            words(s@) == word_views(out@) + words(s@.skip(i as int)),
        decreases n - i,
    {
        let ghost tail = s@.skip(i as int);
        if is_whitespace(s[i]) {
            assert(tail.drop_first() == s@.skip(i + 1));
            i = i + 1;
        } else {
            let start = i;
            let mut word: Vec<char> = Vec::new();
            assert(s@.subrange(start as int, i as int) == word@);
            while i < n && !is_whitespace(s[i])
                invariant
                    n == s.len(),
                    start <= i <= n,
                    word@ == s@.subrange(start as int, i as int),
                    forall|k: int| start <= k < i ==> !white_space(#[trigger] s@[k]),
                decreases n - i,
            {
                word.push(s[i]);
                assert(s@.subrange(start as int, i + 1) == s@.subrange(
                    start as int,
                    i as int,
                ).push(s@[i as int]));
                i = i + 1;
            }
            proof {
                let len = (i - start) as nat;
                assert forall|j: int| 0 <= j < len implies !white_space(#[trigger] tail[j]) by {
                    assert(tail[j] == s@[start + j]);
                }
                lemma_word_len_is(tail, len);
                assert(tail.take(len as int) == word@);
                assert(tail.skip(len as int) == s@.skip(i as int));
                assert(word_views(out@.push(word)) == word_views(out@) + seq![word@]);
            }
            out.push(word);
        }
    }
    assert(word_views(out@) + Seq::<Seq<char>>::empty() == word_views(out@));
    out
}

/// `s` without the white space at its front.
pub open spec fn trim_start(s: Seq<char>) -> Seq<char>
    decreases s.len(),
{
    if s.len() > 0 && white_space(s[0]) {
        trim_start(s.drop_first())
    } else {
        s
    }
}

/// `s` without the white space at its end.
pub open spec fn trim_end(s: Seq<char>) -> Seq<char>
    decreases s.len(),
{
    if s.len() > 0 && white_space(s.last()) {
        trim_end(s.drop_last())
    } else {
        s
    }
}

/// `s` without the white space at either end.
pub open spec fn trim(s: Seq<char>) -> Seq<char> {
    trim_end(trim_start(s))
}

/// `trim_start` removes exactly the leading run of white space.
pub proof fn lemma_trim_start_is(s: Seq<char>, k: nat)
    requires
        k <= s.len(),
        forall|j: int| 0 <= j < k ==> white_space(#[trigger] s[j]),
        k == s.len() || !white_space(s[k as int]),
    ensures
        trim_start(s) == s.skip(k as int),
    decreases k,
{
    if k > 0 {
        let rest = s.drop_first();
        assert forall|j: int| 0 <= j < k - 1 implies white_space(#[trigger] rest[j]) by {
            assert(rest[j] == s[j + 1]);
        }
        lemma_trim_start_is(rest, (k - 1) as nat);
        assert(rest.skip(k - 1) == s.skip(k as int));
    } else {
        assert(s.skip(0) == s);
    }
}

/// `trim_end` removes exactly the trailing run of white space.
pub proof fn lemma_trim_end_is(s: Seq<char>, k: nat)
    requires
        k <= s.len(),
        forall|j: int| k <= j < s.len() ==> white_space(#[trigger] s[j]),
        k == 0 || !white_space(s[k - 1]),
    ensures
        trim_end(s) == s.take(k as int),
    decreases s.len() - k,
{
    if k < s.len() {
        let rest = s.drop_last();
        lemma_trim_end_is(rest, k);
        assert(rest.take(k as int) == s.take(k as int));
    } else {
        assert(s.take(s.len() as int) == s);
    }
}

/// Removes the white space at both ends of `s`.
pub fn trimmed(s: &[char]) -> (out: Vec<char>)
    ensures
        out@ == trim(s@),
{
    let n = s.len();
    let mut from: usize = 0;
    while from < n && is_whitespace(s[from])
        invariant
            n == s.len(),
            from <= n,
            forall|j: int| 0 <= j < from ==> white_space(#[trigger] s@[j]),
        decreases n - from,
    {
        from = from + 1;
    }
    let mut to: usize = n;
    while to > from && is_whitespace(s[to - 1])
        invariant
            n == s.len(),
            from <= to <= n,
            forall|j: int| to <= j < n ==> white_space(#[trigger] s@[j]),
        decreases to,
    {
        to = to - 1;
    }
    let mut out: Vec<char> = Vec::new();
    let mut i: usize = from;
    assert(s@.subrange(from as int, i as int) == out@);
    while i < to
        invariant
            from <= i <= to <= n,
            n == s.len(),
            out@ == s@.subrange(from as int, i as int),
        decreases to - i,
    {
        out.push(s[i]);
        assert(s@.subrange(from as int, i + 1) == s@.subrange(from as int, i as int).push(
            s@[i as int],
        ));
        i = i + 1;
    }
    proof {
        let front = s@.skip(from as int);
        lemma_trim_start_is(s@, from as nat);
        let keep = (to - from) as nat;
        assert forall|j: int| keep <= j < front.len() implies white_space(#[trigger] front[j]) by {
            assert(front[j] == s@[from + j]);
        }
        if keep > 0 {
            assert(front[keep - 1] == s@[to - 1]);
        }
        lemma_trim_end_is(front, keep);
        assert(front.take(keep as int) == s@.subrange(from as int, to as int));
    }
    out
}

/// The parts written one after another with a single space between
/// neighbours.
pub open spec fn spaced(parts: Seq<Seq<char>>) -> Seq<char>
    decreases parts.len(),
{
    if parts.len() == 0 {
        Seq::empty()
    } else if parts.len() == 1 {
        parts[0]
    } else {
        spaced(parts.drop_last()) + seq![' '] + parts.last()
    }
}

/// Where `word_len` stops: at the end of the text or at the first white
/// space, and at nothing before that.
pub proof fn lemma_word_len_stops(s: Seq<char>)
    ensures
        word_len(s) <= s.len(),
        forall|j: int| 0 <= j < word_len(s) ==> !white_space(#[trigger] s[j]),
        word_len(s) == s.len() || white_space(s[word_len(s) as int]),
    decreases s.len(),
{
    if s.len() > 0 && !white_space(s[0]) {
        let rest = s.drop_first();
        lemma_word_len_stops(rest);
        assert forall|j: int| 0 <= j < word_len(s) implies !white_space(#[trigger] s[j]) by {
            if j > 0 {
                assert(s[j] == rest[j - 1]);
            }
        }
        if word_len(s) < s.len() {
            assert(s[word_len(s) as int] == rest[word_len(rest) as int]);
        }
    }
}

/// A text that is cut in front of white space, or at its end, has the words
/// of its two parts.
pub proof fn lemma_words_split(a: Seq<char>, b: Seq<char>)
    requires
        b.len() == 0 || white_space(b[0]),
    ensures
        words(a + b) == words(a) + words(b),
    decreases a.len(),
{
    let whole = a + b;
    if a.len() == 0 {
        assert(whole =~= b);
        assert(words(a) + words(b) =~= words(b));
    } else if white_space(a[0]) {
        assert(whole.drop_first() =~= a.drop_first() + b);
        lemma_words_split(a.drop_first(), b);
    } else {
        lemma_word_len_stops(a);
        let n = word_len(a);
        assert forall|j: int| 0 <= j < n implies !white_space(#[trigger] whole[j]) by {
            assert(whole[j] == a[j]);
        }
        if n < a.len() {
            assert(whole[n as int] == a[n as int]);
        } else if b.len() > 0 {
            assert(whole[n as int] == b[0]);
        }
        lemma_word_len_is(whole, n);
        assert(whole.take(n as int) =~= a.take(n as int));
        assert(whole.skip(n as int) =~= a.skip(n as int) + b);
        lemma_words_split(a.skip(n as int), b);
        assert(words(whole) =~= words(a) + words(b));
    }
}

/// A word is its own single word.
pub proof fn lemma_words_of_word(w: Seq<char>)
    requires
        is_word(w),
    ensures
        words(w) == seq![w],
{
    lemma_word_len_is(w, w.len());
    assert(w.take(w.len() as int) =~= w);
    assert(w.skip(w.len() as int) =~= Seq::<char>::empty());
    assert(words(w.skip(w.len() as int)) =~= Seq::<Seq<char>>::empty());
    assert(words(w) =~= seq![w]);
}

/// Words that are written with single spaces between them are found again
/// when the text is split.
pub proof fn lemma_words_of_spaced(parts: Seq<Seq<char>>)
    requires
        forall|i: int| 0 <= i < parts.len() ==> is_word(#[trigger] parts[i]),
    ensures
        words(spaced(parts)) == parts,
    decreases parts.len(),
{
    if parts.len() == 0 {
    } else if parts.len() == 1 {
        lemma_words_of_word(parts[0]);
        assert(parts =~= seq![parts[0]]);
    } else {
        let front = parts.drop_last();
        let last = parts.last();
        assert forall|i: int| 0 <= i < front.len() implies is_word(#[trigger] front[i]) by {
            assert(front[i] == parts[i]);
        }
        lemma_words_of_spaced(front);
        let tail = seq![' '] + last;
        assert(spaced(parts) =~= spaced(front) + tail);
        lemma_words_split(spaced(front), tail);
        assert(tail.drop_first() =~= last);
        lemma_words_of_word(last);
        assert(words(tail) == seq![last]);
        assert(front + seq![last] =~= parts);
    }
}

/// The parts written one after another with nothing between them.
pub open spec fn concat(parts: Seq<Seq<char>>) -> Seq<char>
    decreases parts.len(),
{
    if parts.len() == 0 {
        Seq::empty()
    } else {
        concat(parts.drop_last()) + parts.last()
    }
}

/// Joins the parts with single spaces.
pub fn join_spaced(parts: &Vec<Vec<char>>) -> (out: String)
    ensures
        out@ == spaced(word_views(parts@)),
{
    let ghost all = word_views(parts@);
    let mut out = String::new();
    let mut i: usize = 0;
    assert(all.take(0) == Seq::<Seq<char>>::empty());
    while i < parts.len()
        invariant
            i <= parts.len(),
            all == word_views(parts@),
            out@ == spaced(all.take(i as int)),
        decreases parts.len() - i,
    {
        if i > 0 {
            out.push(' ');
        }
        push_all(&mut out, parts[i].as_slice());
        proof {
            let next = all.take(i + 1);
            assert(next.drop_last() == all.take(i as int));
            assert(next.last() == parts@[i as int]@);
        }
        i = i + 1;
    }
    assert(all.take(parts.len() as int) == all);
    out
}

} // verus!
