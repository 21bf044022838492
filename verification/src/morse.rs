//! The Morse codec and the table of codes that it works from.
//!
//! A table pairs keys with codes. It is read from a JSON object whose values
//! are strings, and keeps its entries in ascending order of their keys.
//! Encoding looks a character up by the key that consists of it alone;
//! decoding finds the keys by their code.

use crate::error::PipelineError;
use crate::text::{
    chars_of, concat, is_word, join_spaced, lemma_words_of_spaced, push_all, same_chars, spaced,
    split_words, string_of, word_views, words,
};
use crate::transforms::{capitalize, lemma_capitalize_twice, uppercased};
use vstd::utf8::is_ascii_chars;
use std::collections::BTreeMap;
use vstd::prelude::*;
use vstd::slice::slice_to_vec;

verus! {

/// Trusted: `serde_json::Error`, the error of a failed parse. The library
/// only tells it from a success; nothing inside it is looked at.
#[verifier::external_type_specification]
#[verifier::external_body]
pub struct ExJsonError(serde_json::Error);

/// The entries of a table, each a key with its code, as plain sequences of
/// characters.
pub type Entries = Seq<(Seq<char>, Seq<char>)>;

/// What `serde_json::from_str` makes of a text that is read as a map from
/// strings to strings: the entries of the map in ascending order of their
/// keys, or `None` where the text is rejected.
pub uninterp spec fn json_string_map(data: Seq<char>) -> Option<Seq<(Seq<char>, Seq<char>)>>;

/// The pairs of strings as pairs of character sequences.
pub open spec fn pair_views(pairs: Seq<(String, String)>) -> Entries {
    Seq::new(pairs.len(), |i: int| (pairs[i].0@, pairs[i].1@))
}

/// Trusted: calls `serde_json::from_str` with a `BTreeMap<String, String>`
/// as the target and hands the map's entries out in its own order. Nothing is
/// claimed of the outcome but that it is the value named
/// [`json_string_map`], with the error standing for `None`.
#[verifier::external_body]
fn read_string_map(data: &str) -> (r: Result<Vec<(String, String)>, serde_json::Error>)
    ensures
        match r {
            Ok(pairs) => json_string_map(data@) == Some(pair_views(pairs@)),
            Err(_) => json_string_map(data@) is None,
        },
{
    match serde_json::from_str::<BTreeMap<String, String>>(data) {
        Ok(map) => Ok(map.into_iter().collect()),
        Err(e) => Err(e),
    }
}

/// Whether no two entries share a key.
pub open spec fn distinct_keys(t: Entries) -> bool {
    forall|i: int, j: int| 0 <= i < j < t.len() ==> (#[trigger] t[i]).0 != (#[trigger] t[j]).0
}

/// Whether some entry has the key `key`.
pub open spec fn has_key(t: Entries, key: Seq<char>) -> bool {
    exists|i: int| 0 <= i < t.len() && (#[trigger] t[i]).0 == key
}

/// The position of an entry with the key `key`, where there is one.
pub open spec fn key_index(t: Entries, key: Seq<char>) -> int {
    choose|i: int| 0 <= i < t.len() && (#[trigger] t[i]).0 == key
}

/// The code that the table gives for `key`.
pub open spec fn code_of(t: Entries, key: Seq<char>) -> Option<Seq<char>> {
    if has_key(t, key) {
        Some(t[key_index(t, key)].1)
    } else {
        None
    }
}

/// The table after `key` has been given the code `code`: an entry with that
/// key is replaced where it stands, a new key goes to the end.
pub open spec fn with_entry(t: Entries, key: Seq<char>, code: Seq<char>) -> Entries {
    if has_key(t, key) {
        t.update(key_index(t, key), (key, code))
    } else {
        t.push((key, code))
    }
}

/// The table that holds the given pairs, entered one after another.
pub open spec fn table_of(pairs: Entries) -> Entries
    decreases pairs.len(),
{
    if pairs.len() == 0 {
        Seq::empty()
    } else {
        with_entry(table_of(pairs.drop_last()), pairs.last().0, pairs.last().1)
    }
}

/// The token that stands for one character of the text: `/` for a space,
/// the character's code where the table has one, and `?` for anything else.
pub open spec fn morse_word(t: Entries, c: char) -> Seq<char> {
    if c == ' ' {
        seq!['/']
    } else {
        match code_of(t, seq![c]) {
            Some(code) => code,
            None => seq!['?'],
        }
    }
}

/// The tokens for the characters of `text`, one for each character.
pub open spec fn morse_words(t: Entries, text: Seq<char>) -> Seq<Seq<char>> {
    Seq::new(text.len(), |i: int| morse_word(t, text[i]))
}

/// The Morse form of `text`: its tokens with single spaces between them.
/// The text is taken as it is; no case is changed here.
pub open spec fn morse_text(t: Entries, text: Seq<char>) -> Seq<char> {
    spaced(morse_words(t, text))
}

/// The keys of all entries whose code is `code`, in the table's order.
pub open spec fn keys_with_code(t: Entries, code: Seq<char>) -> Seq<Seq<char>>
    decreases t.len(),
{
    if t.len() == 0 {
        Seq::empty()
    } else if t.last().1 == code {
        keys_with_code(t.drop_last(), code).push(t.last().0)
    } else {
        keys_with_code(t.drop_last(), code)
    }
}

/// The keys found for a run of tokens: for each token in turn, every key
/// that has it as its code. A token that is the code of no key contributes
/// nothing.
pub open spec fn decoded_keys(t: Entries, codes: Seq<Seq<char>>) -> Seq<Seq<char>>
    decreases codes.len(),
{
    if codes.len() == 0 {
        Seq::empty()
    } else {
        decoded_keys(t, codes.drop_last()) + keys_with_code(t, codes.last())
    }
}

/// What decoding makes of a Morse text: the text is split at white space
/// into codes, and the keys found for them are written with single spaces
/// between them.
pub open spec fn keys_text(t: Entries, morse: Seq<char>) -> Seq<char> {
    spaced(decoded_keys(t, words(morse)))
}

/// The first key, in the table's order, that has the code `code`.
pub open spec fn key_of(t: Entries, code: Seq<char>) -> Option<Seq<char>> {
    let keys = keys_with_code(t, code);
    if keys.len() > 0 {
        Some(keys[0])
    } else {
        None
    }
}

/// What one token of a Morse text stands for in running text: a space for
/// the word separator `/`, the first key that has the token as its code, and
/// nothing where no key has it.
pub open spec fn plain_word(t: Entries, code: Seq<char>) -> Seq<char> {
    if code == seq!['/'] {
        seq![' ']
    } else {
        match key_of(t, code) {
            Some(key) => key,
            None => Seq::empty(),
        }
    }
}

/// What the tokens stand for, token by token.
pub open spec fn plain_words(t: Entries, codes: Seq<Seq<char>>) -> Seq<Seq<char>> {
    Seq::new(codes.len(), |i: int| plain_word(t, codes[i]))
}

/// The running text that a Morse text stands for: the text is split at
/// white space into tokens, and what they stand for is written without
/// anything between.
pub open spec fn plain_text(t: Entries, morse: Seq<char>) -> Seq<char> {
    concat(plain_words(t, words(morse)))
}

/// A code as a table should have it: one or more dots and dashes.
pub open spec fn dots_and_dashes(code: Seq<char>) -> bool {
    &&& code.len() > 0
    &&& forall|i: int| 0 <= i < code.len() ==> (#[trigger] code[i]) == '.' || code[i] == '-'
}

/// Whether every code of the table is made of dots and dashes.
pub open spec fn proper_codes(t: Entries) -> bool {
    forall|i: int| 0 <= i < t.len() ==> dots_and_dashes((#[trigger] t[i]).1)
}

/// Whether no two entries share a code, so that a code names its key.
pub open spec fn unambiguous(t: Entries) -> bool {
    forall|i: int, j: int| 0 <= i < j < t.len() ==> (#[trigger] t[i]).1 != (#[trigger] t[j]).1
}

/// Whether every character of `text` is a space or has a code in the table.
pub open spec fn writable(t: Entries, text: Seq<char>) -> bool {
    forall|k: int| 0 <= k < text.len() ==> text[k] == ' ' || has_key(t, seq![#[trigger] text[k]])
}

struct Entry {
    key: Vec<char>,
    code: Vec<char>,
}

/// A table of Morse codes: keys with their codes, no key twice.
pub struct CodeTable {
    entries: Vec<Entry>,
}

impl View for CodeTable {
    type V = Entries;

    closed spec fn view(&self) -> Entries {
        entry_views(self.entries@)
    }
}

/// The entries as pairs of character sequences.
spec fn entry_views(entries: Seq<Entry>) -> Entries {
    Seq::new(entries.len(), |i: int| (entries[i].key@, entries[i].code@))
}

impl CodeTable {
    #[verifier::type_invariant]
    spec fn well_formed(self) -> bool {
        distinct_keys(self@)
    }

    /// A table without entries.
    pub fn new() -> (t: CodeTable)
        ensures
            t@ == Seq::<(Seq<char>, Seq<char>)>::empty(),
            distinct_keys(t@),
    {
        let t = CodeTable { entries: Vec::new() };
        assert(t@ =~= Seq::<(Seq<char>, Seq<char>)>::empty());
        t
    }

    /// The number of entries.
    pub fn len(&self) -> (n: usize)
        ensures
            n == self@.len(),
    {
        self.entries.len()
    }

    /// Where the entry with the key `key` stands, if there is one.
    fn find(&self, key: &[char]) -> (r: Option<usize>)
        ensures
            distinct_keys(self@),
            match r {
                Some(i) => has_key(self@, key@) && i == key_index(self@, key@) && i
                    < self.entries@.len(),
                None => !has_key(self@, key@),
            },
    {
        proof {
            use_type_invariant(self);
        }
        let mut i: usize = 0;
        while i < self.entries.len()
            invariant
                i <= self.entries@.len(),
                distinct_keys(self@),
                forall|k: int| 0 <= k < i ==> (#[trigger] self@[k]).0 != key@,
            decreases self.entries@.len() - i,
        {
            if same_chars(self.entries[i].key.as_slice(), key) {
                assert(self@[i as int].0 == key@);
                return Some(i);
            }
            i = i + 1;
        }
        None
    }

    /// Gives `key` the code `code`. A key that the table has keeps its place
    /// and loses its old code; a new key goes to the end.
    pub fn insert(&mut self, key: &str, code: &str)
        ensures
            final(self)@ == with_entry(old(self)@, key@, code@),
            distinct_keys(final(self)@),
    {
        let key_chars = chars_of(key);
        let code_chars = chars_of(code);
        let ghost before = self@;
        let found = self.find(key_chars.as_slice());
        proof {
            lemma_with_entry_distinct(before, key@, code@);
        }
        let entry = Entry { key: key_chars, code: code_chars };
        let mut entries: Vec<Entry> = Vec::new();
        core::mem::swap(&mut self.entries, &mut entries);
        match found {
            Some(i) => {
                entries.set(i, entry);
            },
            None => {
                entries.push(entry);
            },
        }
        proof {
            if found is Some {
                assert(entry_views(entries@) =~= before.update(found->0 as int, (key@, code@)));
            } else {
                assert(entry_views(entries@) =~= before.push((key@, code@)));
            }
        }
        core::mem::swap(&mut self.entries, &mut entries);
    }

    /// The code for `key`, if the table has one.
    pub fn code(&self, key: &str) -> (r: Option<String>)
        ensures
            match r {
                Some(code) => code_of(self@, key@) == Some(code@),
                None => code_of(self@, key@) is None,
            },
    {
        let key_chars = chars_of(key);
        match self.find(key_chars.as_slice()) {
            Some(i) => Some(string_of(self.entries[i].code.as_slice())),
            None => None,
        }
    }

    /// The table that holds the given pairs of key and code, entered one after
    /// another. A key that occurs more than once keeps its first place and has
    /// the code that was given last.
    pub fn from_pairs(pairs: &Vec<(String, String)>) -> (table: CodeTable)
        ensures
            table@ == table_of(pair_views(pairs@)),
            distinct_keys(table@),
    {
        let ghost all = pair_views(pairs@);
        let mut table = CodeTable::new();
        let mut i: usize = 0;
        assert(all.take(0) =~= Seq::<(Seq<char>, Seq<char>)>::empty());
        while i < pairs.len()
            invariant
                i <= pairs.len(),
                all == pair_views(pairs@),
                table@ == table_of(all.take(i as int)),
                distinct_keys(table@),
            decreases pairs.len() - i,
        {
            table.insert(pairs[i].0.as_str(), pairs[i].1.as_str());
            proof {
                let next = all.take(i + 1);
                assert(next.drop_last() =~= all.take(i as int));
                assert(next.last() == (pairs@[i as int].0@, pairs@[i as int].1@));
            }
            i = i + 1;
        }
        assert(all.take(pairs.len() as int) =~= all);
        table
    }

    /// Whether no two entries share a code, so that every code names one key.
    pub fn is_unambiguous(&self) -> (r: bool)
        ensures
            r == unambiguous(self@),
    {
        let n: usize = self.entries.len();
        let mut j: usize = 0;
        while j < n
            invariant
                n == self.entries@.len(),
                j <= n,
                forall|a: int, b: int|
                    0 <= a < b < j ==> (#[trigger] self@[a]).1 != (#[trigger] self@[b]).1,
            decreases n - j,
        {
            let mut i: usize = 0;
            while i < j
                invariant
                    n == self.entries@.len(),
                    i <= j < n,
                    forall|a: int| 0 <= a < i ==> (#[trigger] self@[a]).1 != self@[j as int].1,
                decreases j - i,
            {
                if same_chars(self.entries[i].code.as_slice(), self.entries[j].code.as_slice()) {
                    assert(self@[i as int].1 == self@[j as int].1);
                    return false;
                }
                i = i + 1;
            }
            j = j + 1;
        }
        true
    }

    /// Whether every code is made of dots and dashes, and of at least one.
    pub fn has_proper_codes(&self) -> (r: bool)
        ensures
            r == proper_codes(self@),
    {
        let mut i: usize = 0;
        while i < self.entries.len()
            invariant
                i <= self.entries@.len(),
                forall|a: int| 0 <= a < i ==> dots_and_dashes((#[trigger] self@[a]).1),
            decreases self.entries@.len() - i,
        {
            let code = self.entries[i].code.as_slice();
            if code.len() == 0 {
                assert(!dots_and_dashes(self@[i as int].1));
                return false;
            }
            let mut k: usize = 0;
            while k < code.len()
                invariant
                    k <= code.len(),
                    i < self.entries@.len(),
                    code@ == self@[i as int].1,
                    forall|m: int| 0 <= m < k ==> (#[trigger] code@[m]) == '.' || code@[m] == '-',
                decreases code.len() - k,
            {
                if code[k] != '.' && code[k] != '-' {
                    assert(!dots_and_dashes(self@[i as int].1));
                    return false;
                }
                k = k + 1;
            }
            i = i + 1;
        }
        true
    }

    /// Reads a table from the text of a JSON object whose values are strings.
    /// A key that occurs more than once has the code that was given last.
    pub fn parse(data: &str) -> (r: Result<CodeTable, PipelineError>)
        ensures
            match json_string_map(data@) {
                Some(pairs) => r matches Ok(t) && t@ == table_of(pairs) && distinct_keys(t@),
                None => r matches Err(e) && e == PipelineError::TableLoad,
            },
    {
        match read_string_map(data) {
            Ok(pairs) => Ok(CodeTable::from_pairs(&pairs)),
            Err(_) => Err(PipelineError::TableLoad),
        }
    }

    /// Writes `text` in Morse: one token for each character, single spaces
    /// between the tokens. A space becomes `/`, a character that the table
    /// has becomes its code, any other becomes `?`.
    pub fn encode(&self, text: &str) -> (r: String)
        ensures
            r@ == morse_text(self@, text@),
    {
        let input = chars_of(text);
        let mut out = String::new();
        let mut i: usize = 0;
        assert(morse_words(self@, input@.take(0)) =~= Seq::<Seq<char>>::empty());
        while i < input.len()
            invariant
                i <= input.len(),
                out@ == spaced(morse_words(self@, input@.take(i as int))),
            decreases input.len() - i,
        {
            let c = input[i];
            if i > 0 {
                out.push(' ');
            }
            if c == ' ' {
                out.push('/');
            } else {
                let mut key: Vec<char> = Vec::new();
                key.push(c);
                assert(key@ =~= seq![c]);
                match self.find(key.as_slice()) {
                    Some(k) => {
                        push_all(&mut out, self.entries[k].code.as_slice());
                    },
                    None => {
                        out.push('?');
                    },
                }
            }
            proof {
                let done = morse_words(self@, input@.take(i as int));
                let next = morse_words(self@, input@.take(i + 1));
                assert(next.drop_last() =~= done);
                assert(next.last() == morse_word(self@, c));
                assert(seq![' '].push('/') =~= seq![' '] + seq!['/']);
                assert(seq![' '].push('?') =~= seq![' '] + seq!['?']);
                assert(Seq::<char>::empty().push('/') =~= seq!['/']);
                assert(Seq::<char>::empty().push('?') =~= seq!['?']);
            }
            i = i + 1;
        }
        assert(input@.take(input.len() as int) =~= input@);
        out
    }

    /// Reads a Morse text back: the text is split at white space into tokens,
    /// and for each token every key that has it as its code is put out, with
    /// single spaces between the keys. A token that is the code of no key puts
    /// nothing out; the word separator `/` is a token like any other here.
    pub fn decode(&self, morse: &str) -> (r: String)
        ensures
            r@ == keys_text(self@, morse@),
    {
        let input = chars_of(morse);
        let codes = split_words(input.as_slice());
        let ghost all = words(morse@);
        let mut found: Vec<Vec<char>> = Vec::new();
        let mut i: usize = 0;
        assert(all.take(0) =~= Seq::<Seq<char>>::empty());
        assert(word_views(found@) =~= Seq::<Seq<char>>::empty());
        while i < codes.len()
            invariant
                i <= codes.len(),
                all == word_views(codes@),
                word_views(found@) == decoded_keys(self@, all.take(i as int)),
            decreases codes.len() - i,
        {
            let ghost before = word_views(found@);
            let ghost code = codes@[i as int]@;
            let mut j: usize = 0;
            assert(self@.take(0) =~= Seq::<(Seq<char>, Seq<char>)>::empty());
            assert(before + Seq::<Seq<char>>::empty() =~= before);
            while j < self.entries.len()
                invariant
                    i < codes.len(),
                    j <= self.entries@.len(),
                    code == codes@[i as int]@,
                    word_views(found@) == before + keys_with_code(self@.take(j as int), code),
                decreases self.entries@.len() - j,
            {
                let ghost sofar = keys_with_code(self@.take(j as int), code);
                proof {
                    let next = self@.take(j + 1);
                    assert(next.drop_last() =~= self@.take(j as int));
                    assert(next.last() == self@[j as int]);
                }
                if same_chars(self.entries[j].code.as_slice(), codes[i].as_slice()) {
                    let key = slice_to_vec(self.entries[j].key.as_slice());
                    found.push(key);
                    assert(word_views(found@) =~= (before + sofar).push(self@[j as int].0));
                    assert((before + sofar).push(self@[j as int].0) =~= before + sofar.push(
                        self@[j as int].0,
                    ));
                }
                j = j + 1;
            }
            proof {
                assert(self@.take(self.entries@.len() as int) =~= self@);
                let next = all.take(i + 1);
                assert(next.drop_last() =~= all.take(i as int));
                assert(next.last() == code);
            }
            i = i + 1;
        }
        assert(all.take(codes.len() as int) =~= all);
        join_spaced(&found)
    }

    /// Where the first entry with the code `code` stands, if there is one.
    fn find_code(&self, code: &[char]) -> (r: Option<usize>)
        ensures
            match r {
                Some(j) => j < self.entries@.len() && key_of(self@, code@) == Some(self@[j as int].0),
                None => key_of(self@, code@) is None,
            },
    {
        let mut j: usize = 0;
        assert(self@.take(0) =~= Seq::<(Seq<char>, Seq<char>)>::empty());
        while j < self.entries.len()
            invariant
                j <= self.entries@.len(),
                keys_with_code(self@.take(j as int), code@).len() == 0,
            decreases self.entries@.len() - j,
        {
            proof {
                let next = self@.take(j + 1);
                assert(next.drop_last() =~= self@.take(j as int));
                assert(next.last() == self@[j as int]);
            }
            if same_chars(self.entries[j].code.as_slice(), code) {
                proof {
                    let upto = keys_with_code(self@.take(j + 1), code@);
                    assert(upto.len() == 1);
                    assert(upto[0] == self@[j as int].0);
                    lemma_keys_front(self@, code@, j + 1);
                    assert(keys_with_code(self@, code@).take(1)[0] == upto[0]);
                }
                return Some(j);
            }
            j = j + 1;
        }
        assert(self@.take(self.entries@.len() as int) =~= self@);
        None
    }

    /// Reads a Morse text back into running text: the text is split at white
    /// space into tokens, `/` gives a space, a code gives the first key that
    /// has it, and a token that is no code of the table gives nothing. What
    /// the tokens give is written without anything between.
    pub fn decode_text(&self, morse: &str) -> (r: String)
        ensures
            r@ == plain_text(self@, morse@),
    {
        let input = chars_of(morse);
        let codes = split_words(input.as_slice());
        let ghost all = words(morse@);
        let mut out = String::new();
        let mut i: usize = 0;
        assert(plain_words(self@, all.take(0)) =~= Seq::<Seq<char>>::empty());
        while i < codes.len()
            invariant
                i <= codes.len(),
                all == word_views(codes@),
                out@ == concat(plain_words(self@, all.take(i as int))),
            decreases codes.len() - i,
        {
            let code = codes[i].as_slice();
            let ghost before = out@;
            if code.len() == 1 && code[0] == '/' {
                assert(code@ =~= seq!['/']);
                out.push(' ');
                assert(out@ =~= before + seq![' ']);
            } else {
                assert(code@ != seq!['/']) by {
                    if code@ == seq!['/'] {
                        assert(code@.len() == 1);
                        assert(code@[0] == '/');
                    }
                }
                match self.find_code(code) {
                    Some(j) => {
                        push_all(&mut out, self.entries[j].key.as_slice());
                    },
                    None => {
                        assert(out@ =~= before + Seq::<char>::empty());
                    },
                }
            }
            proof {
                let done = plain_words(self@, all.take(i as int));
                let next = plain_words(self@, all.take(i + 1));
                assert(next.drop_last() =~= done);
                assert(next.last() == plain_word(self@, code@));
            }
            i = i + 1;
        }
        assert(all.take(codes.len() as int) =~= all);
        out
    }
}

/// The keys found in a front of the table are a front of the keys found in
/// the whole table.
proof fn lemma_keys_front(t: Entries, code: Seq<char>, m: int)
    requires
        0 <= m <= t.len(),
    ensures
        keys_with_code(t.take(m), code).len() <= keys_with_code(t, code).len(),
        keys_with_code(t, code).take(keys_with_code(t.take(m), code).len() as int)
            == keys_with_code(t.take(m), code),
    decreases t.len() - m,
{
    if m < t.len() {
        lemma_keys_front(t.drop_last(), code, m);
        assert(t.drop_last().take(m) =~= t.take(m));
        let front = keys_with_code(t.take(m), code);
        let most = keys_with_code(t.drop_last(), code);
        if t.last().1 == code {
            assert(most.push(t.last().0).take(front.len() as int) =~= most.take(front.len() as int));
        }
    } else {
        assert(t.take(m) =~= t);
        let all = keys_with_code(t, code);
        assert(all.take(all.len() as int) =~= all);
    }
}

/// Entering a pair keeps the keys of a table distinct.
pub proof fn lemma_with_entry_distinct(t: Entries, key: Seq<char>, code: Seq<char>)
    requires
        distinct_keys(t),
    ensures
        distinct_keys(with_entry(t, key, code)),
{
    let u = with_entry(t, key, code);
    if has_key(t, key) {
        let k = key_index(t, key);
        assert forall|i: int, j: int| 0 <= i < j < u.len() implies (#[trigger] u[i]).0 != (
        #[trigger] u[j]).0 by {
            assert(u[i].0 == t[i].0);
            assert(u[j].0 == t[j].0);
        }
    } else {
        assert forall|i: int, j: int| 0 <= i < j < u.len() implies (#[trigger] u[i]).0 != (
        #[trigger] u[j]).0 by {
            if j < t.len() {
                assert(u[i] == t[i]);
                assert(u[j] == t[j]);
            } else {
                assert(u[i] == t[i]);
            }
        }
    }
}

/// Writes `s` in Morse by the table that the JSON text `data` holds. The
/// text is put in upper case first, so that the table serves both cases.
/// Fails where `data` is no table.
pub fn to_morse(s: &str, data: String) -> (r: Result<String, PipelineError>)
    ensures
        match json_string_map(data@) {
            Some(pairs) => r matches Ok(out) && out@ == morse_text(
                table_of(pairs),
                uppercased(s@),
            ),
            None => r matches Err(e) && e == PipelineError::TableLoad,
        },
{
    match CodeTable::parse(data.as_str()) {
        Ok(table) => {
            let upper = capitalize(s);
            Ok(table.encode(upper.as_str()))
        },
        Err(e) => Err(e),
    }
}

/// Reads the Morse text `s` back by the table that the JSON text `data`
/// holds. Fails where `data` is no table.
pub fn from_morse(s: &str, data: String) -> (r: Result<String, PipelineError>)
    ensures
        match json_string_map(data@) {
            Some(pairs) => r matches Ok(out) && out@ == keys_text(table_of(pairs), s@),
            None => r matches Err(e) && e == PipelineError::TableLoad,
        },
{
    match CodeTable::parse(data.as_str()) {
        Ok(table) => Ok(table.decode(s)),
        Err(e) => Err(e),
    }
}

/// A code that no entry has finds no key.
proof fn lemma_no_key(t: Entries, code: Seq<char>)
    requires
        forall|j: int| 0 <= j < t.len() ==> (#[trigger] t[j]).1 != code,
    ensures
        keys_with_code(t, code).len() == 0,
    decreases t.len(),
{
    if t.len() > 0 {
        let front = t.drop_last();
        assert forall|j: int| 0 <= j < front.len() implies (#[trigger] front[j]).1 != code by {
            assert(front[j] == t[j]);
        }
        lemma_no_key(front, code);
        assert(t.last() == t[t.len() - 1]);
    }
}

/// In a table where no two entries share a code, the code of an entry finds
/// the key of that entry and no other.
pub proof fn lemma_code_names_key(t: Entries, i: int)
    requires
        unambiguous(t),
        0 <= i < t.len(),
    ensures
        keys_with_code(t, t[i].1) == seq![t[i].0],
    decreases t.len(),
{
    let code = t[i].1;
    let front = t.drop_last();
    assert(t.last() == t[t.len() - 1]);
    if i == t.len() - 1 {
        assert forall|j: int| 0 <= j < front.len() implies (#[trigger] front[j]).1 != code by {
            assert(front[j] == t[j]);
        }
        lemma_no_key(front, code);
        assert(keys_with_code(front, code) =~= Seq::<Seq<char>>::empty());
        assert(keys_with_code(t, code) =~= seq![t[i].0]);
    } else {
        assert forall|a: int, b: int| 0 <= a < b < front.len() implies (#[trigger] front[a]).1 != (
        #[trigger] front[b]).1 by {
            assert(front[a] == t[a]);
            assert(front[b] == t[b]);
        }
        assert(front[i] == t[i]);
        lemma_code_names_key(front, i);
    }
}

/// Parts of one character each, written one after another, are the text of
/// those characters.
proof fn lemma_concat_singles(parts: Seq<Seq<char>>, text: Seq<char>)
    requires
        parts.len() == text.len(),
        forall|k: int| 0 <= k < text.len() ==> #[trigger] parts[k] == seq![text[k]],
    ensures
        concat(parts) == text,
    decreases parts.len(),
{
    if parts.len() > 0 {
        let front = parts.drop_last();
        let shorter = text.drop_last();
        assert forall|k: int| 0 <= k < shorter.len() implies #[trigger] front[k] == seq![
            shorter[k],
        ] by {
            assert(front[k] == parts[k]);
        }
        lemma_concat_singles(front, shorter);
        assert(parts.last() == parts[parts.len() - 1]);
        assert(shorter + seq![text.last()] =~= text);
    } else {
        assert(text =~= Seq::<char>::empty());
    }
}

/// Decoding undoes encoding where the table allows it: if every code is made
/// of dots and dashes, no two entries share a code, and every character of
/// the text is a space or has a code, then the Morse form of the text, read
/// back into running text, is the text again, with a space wherever `/`
/// stood for one.
pub proof fn lemma_morse_round_trip(t: Entries, text: Seq<char>)
    requires
        proper_codes(t),
        unambiguous(t),
        writable(t, text),
    ensures
        plain_text(t, morse_text(t, text)) == text,
{
    let tokens = morse_words(t, text);
    assert forall|k: int| 0 <= k < tokens.len() implies is_word(#[trigger] tokens[k]) && plain_word(
        t,
        tokens[k],
    ) == seq![text[k]] by {
        let c = text[k];
        if c == ' ' {
            assert(tokens[k] == seq!['/']);
            assert(is_word(seq!['/']));
        } else {
            assert(has_key(t, seq![c]));
            let i = key_index(t, seq![c]);
            let code = t[i].1;
            assert(tokens[k] == code);
            assert(dots_and_dashes(code));
            assert(code[0] == '.' || code[0] == '-');
            assert(code != seq!['/']) by {
                if code == seq!['/'] {
                    assert(code[0] == '/');
                }
            }
            assert(is_word(code)) by {
                assert forall|m: int| 0 <= m < code.len() implies !crate::text::white_space(
                    #[trigger] code[m],
                ) by {
                    assert(code[m] == '.' || code[m] == '-');
                }
            }
            lemma_code_names_key(t, i);
        }
    }
    lemma_words_of_spaced(tokens);
    lemma_concat_singles(plain_words(t, tokens), text);
}

/// What `to_morse` writes can be read back: if every code of the table is
/// made of dots and dashes, no two entries share a code, and every character
/// of the upper-case form of `s` is a space or has a code, then the Morse
/// form of `s`, read back into running text, is the upper-case form of `s`.
/// For ASCII text, putting what was read back in upper case once more
/// changes nothing.
pub proof fn lemma_to_morse_round_trip(t: Entries, s: Seq<char>)
    requires
        proper_codes(t),
        unambiguous(t),
        writable(t, uppercased(s)),
    ensures
        plain_text(t, morse_text(t, uppercased(s))) == uppercased(s),
        is_ascii_chars(s) ==> uppercased(plain_text(t, morse_text(t, uppercased(s))))
            == uppercased(s),
{
    lemma_morse_round_trip(t, uppercased(s));
    if is_ascii_chars(s) {
        lemma_capitalize_twice(s);
    }
}

} // verus!
