//! Character classes and the elementary text operations the scanner is built from.
//!
//! Text is modelled as `Seq<char>`; executable code works on a `Vec<char>` copy of the
//! input so that every position can be inspected in constant time.

use vstd::prelude::*;
use vstd::utf8::{encode_scalar, encode_utf8};

verus! {

/// A decimal digit, `0` to `9`.
pub open spec fn is_digit(c: char) -> bool {
    '0' <= c && c <= '9'
}

/// A character that may occur in a numeric literal: a decimal digit or the point.
pub open spec fn is_numeric(c: char) -> bool {
    is_digit(c) || c == '.'
}

/// A letter of the basic Latin alphabet, in either case.
pub open spec fn is_ascii_letter(c: char) -> bool {
    ('a' <= c && c <= 'z') || ('A' <= c && c <= 'Z')
}

/// One of the comparators `=`, `<` and `>`.
pub open spec fn is_comparator(c: char) -> bool {
    c == '=' || c == '<' || c == '>'
}

/// Whether `char::is_alphabetic` returns `true` for `c`. The answer is fixed for each
/// character by the Unicode character database; it is not restated here.
pub uninterp spec fn unicode_alphabetic(c: char) -> bool;

/// `char::is_alphabetic` of the standard library: the result depends on the character
/// alone, and `unicode_alphabetic` is the name for it. Nothing else is claimed.
pub assume_specification[ char::is_alphabetic ](c: char) -> (b: bool)
    ensures
        b == unicode_alphabetic(c),
;

/// `String::push` of the standard library appends the character to the end of the
/// string and leaves the rest as it was.
pub assume_specification[ String::push ](s: &mut String, c: char)
    ensures
        final(s)@ == old(s)@.push(c),
;

/// Whether `c` is a letter, where `alphabetic` says whether Unicode calls it
/// alphabetic: inside ASCII the letters are the 52 Latin letters, whatever
/// `alphabetic` says; beyond ASCII they are the alphabetic characters.
pub open spec fn is_letter_given(c: char, alphabetic: bool) -> bool {
    is_ascii_letter(c) || (c > '\u{7f}' && alphabetic)
}

/// A letter: inside ASCII the 52 Latin letters, beyond ASCII whatever Unicode calls
/// alphabetic.
pub open spec fn is_letter(c: char) -> bool {
    is_letter_given(c, unicode_alphabetic(c))
}

/// Decides whether `c` is a letter, given whether Unicode calls it alphabetic.
pub fn letter_given(c: char, alphabetic: bool) -> (r: bool)
    ensures
        r == is_letter_given(c, alphabetic),
{
    if (c >= 'a' && c <= 'z') || (c >= 'A' && c <= 'Z') {
        true
    } else if c <= '\u{7f}' {
        false
    } else {
        alphabetic
    }
}

/// The classes of characters of which the scanner takes maximal runs.
#[derive(Clone, Copy, Debug)]
pub enum CharClass {
    /// Digits and the decimal point.
    Numeric,
    /// Letters, see [`is_letter`].
    Letter,
    /// Every character but the given one.
    Except(char),
    /// Every character but the comparators `=`, `<` and `>`.
    Plain,
}

impl CharClass {
    /// Membership of `c` in the class.
    pub open spec fn holds(self, c: char) -> bool {
        match self {
            CharClass::Numeric => is_numeric(c),
            CharClass::Letter => is_letter(c),
            CharClass::Except(x) => c != x,
            CharClass::Plain => !is_comparator(c),
        }
    }

    /// Decides membership of `c` in the class.
    pub fn contains(&self, c: char) -> (r: bool)
        ensures
            r == self.holds(c),
    {
        match *self {
            CharClass::Numeric => (c >= '0' && c <= '9') || c == '.',
            CharClass::Letter => letter_given(c, c.is_alphabetic()),
            CharClass::Except(x) => c != x,
            CharClass::Plain => !(c == '=' || c == '<' || c == '>'),
        }
    }
}

/// The position at which the longest run of `class` characters starting at `from`
/// ends: the first position at or after `from` that holds no character of the class.
pub open spec fn run_end(text: Seq<char>, from: int, class: CharClass) -> int
    decreases text.len() - from,
{
    if 0 <= from < text.len() && class.holds(text[from]) {
        run_end(text, from + 1, class)
    } else {
        from
    }
}

/// `run_end` is the unique position that bounds a run: everything before it belongs to
/// the class, and the character at it, if there is one, does not.
pub proof fn lemma_run_end(text: Seq<char>, from: int, class: CharClass)
    requires
        0 <= from <= text.len(),
    ensures
        from <= run_end(text, from, class) <= text.len(),
        forall|i: int| from <= i < run_end(text, from, class) ==> class.holds(#[trigger] text[i]),
        run_end(text, from, class) < text.len() ==> !class.holds(
            text[run_end(text, from, class)],
        ),
        from < text.len() && class.holds(text[from]) ==> from < run_end(text, from, class),
    decreases text.len() - from,
{
    if from < text.len() && class.holds(text[from]) {
        lemma_run_end(text, from + 1, class);
    }
}

/// A position `end` that bounds a run of `class` characters from `from` is `run_end`.
pub proof fn lemma_run_end_unique(text: Seq<char>, from: int, end: int, class: CharClass)
    requires
        0 <= from <= end <= text.len(),
        forall|i: int| from <= i < end ==> class.holds(#[trigger] text[i]),
        end < text.len() ==> !class.holds(text[end]),
    ensures
        run_end(text, from, class) == end,
    decreases end - from,
{
    if from < end {
        lemma_run_end_unique(text, from + 1, end, class);
    }
}

/// Whether `word` stands in `text` at position `at`.
pub open spec fn has_prefix_at(text: Seq<char>, at: int, word: Seq<char>) -> bool {
    &&& 0 <= at
    &&& at + word.len() <= text.len()
    &&& text.subrange(at, at + word.len()) == word
}

/// Finds the end of the run of `class` characters that starts at `from`.
pub fn scan_run(text: &Vec<char>, from: usize, class: CharClass) -> (end: usize)
    requires
        from <= text.len(),
    ensures
        end == run_end(text@, from as int, class),
        from <= end <= text.len(),
{
    let mut end: usize = from;
    while end < text.len() && class.contains(text[end])
        invariant
            from <= end <= text.len(),
            forall|i: int| from <= i < end ==> class.holds(#[trigger] text@[i]),
        decreases text.len() - end,
    {
        end += 1;
    }
    proof {
        lemma_run_end_unique(text@, from as int, end as int, class);
    }
    end
}

/// Tests whether `word` stands in `text` at position `at`.
pub fn starts_with_at(text: &Vec<char>, at: usize, word: &str) -> (r: bool)
    requires
        at <= text.len(),
    ensures
        r == has_prefix_at(text@, at as int, word@),
{
    let pattern = chars_of(word);
    if pattern.len() > text.len() - at {
        return false;
    }
    let mut i: usize = 0;
    while i < pattern.len()
        invariant
            i <= pattern.len(),
            at + pattern.len() <= text.len(),
            pattern@ == word@,
            forall|j: int| 0 <= j < i ==> text@[at + j] == pattern@[j],
        decreases pattern.len() - i,
    {
        if text[at + i] != pattern[i] {
            return false;
        }
        i += 1;
    }
    assert(text@.subrange(at as int, at + pattern.len()) =~= pattern@);
    true
}

/// The characters of `text`, in order.
pub fn chars_of(text: &str) -> (out: Vec<char>)
    ensures
        out@ == text@,
{
    let mut out: Vec<char> = Vec::new();
    for c in it: text.chars()
        invariant
            out@ == it.seq().take(it.index@),
    {
        out.push(c);
    }
    out
}

/// The characters of `text` from `from` up to `to`, as a string.
pub fn text_between(text: &Vec<char>, from: usize, to: usize) -> (out: String)
    requires
        from <= to <= text.len(),
    ensures
        out@ == text@.subrange(from as int, to as int),
{
    let mut out = String::new();
    let mut i: usize = from;
    while i < to
        invariant
            from <= i <= to <= text.len(),
            out@ == text@.subrange(from as int, i as int),
        decreases to - i,
    {
        out.push(text[i]);
        i += 1;
    }
    out
}

/// The pieces into which the occurrences of `sep` cut `text` from position `from` on,
/// in order and without the empty ones: the maximal runs of characters other than
/// `sep`.
pub open spec fn segments_from(text: Seq<char>, from: int, sep: char) -> Seq<Seq<char>>
    decreases text.len() - from,
{
    if 0 <= from < text.len() {
        let end = run_end(text, from, CharClass::Except(sep));
        if end == from {
            segments_from(text, from + 1, sep)
        } else {
            proof {
                lemma_run_end(text, from, CharClass::Except(sep));
            }
            seq![text.subrange(from, end)] + segments_from(text, end, sep)
        }
    } else {
        Seq::empty()
    }
}

/// The non-empty pieces into which the occurrences of `sep` cut `text`.
pub open spec fn segments(text: Seq<char>, sep: char) -> Seq<Seq<char>> {
    segments_from(text, 0, sep)
}

/// Every piece holds a character, and a piece together with one character for each
/// of the other pieces fits into the text that was cut. So where there are two
/// pieces or more, each is shorter than the text.
pub proof fn lemma_segments_fit(text: Seq<char>, from: int, sep: char)
    requires
        0 <= from <= text.len(),
    ensures
        forall|i: int|
            0 <= i < segments_from(text, from, sep).len() ==> {
                &&& 1 <= (#[trigger] segments_from(text, from, sep)[i]).len()
                &&& segments_from(text, from, sep)[i].len() + segments_from(text, from, sep).len()
                    - 1 <= text.len() - from
            },
    decreases text.len() - from,
{
    let all = segments_from(text, from, sep);
    if from < text.len() {
        let end = run_end(text, from, CharClass::Except(sep));
        lemma_run_end(text, from, CharClass::Except(sep));
        if end == from {
            lemma_segments_fit(text, from + 1, sep);
            assert(all == segments_from(text, from + 1, sep));
        } else {
            lemma_segments_fit(text, end, sep);
            let rest = segments_from(text, end, sep);
            assert forall|i: int| 0 <= i < all.len() implies 1 <= (#[trigger] all[i]).len()
                && all[i].len() + all.len() - 1 <= text.len() - from by {
                if i == 0 && rest.len() > 0 {
                    assert(1 <= rest[0].len());
                }
            }
        }
    }
}

/// The strings' characters, string by string.
pub open spec fn texts(strings: Seq<String>) -> Seq<Seq<char>> {
    strings.map_values(|s: String| s@)
}

/// Cuts `text` at every occurrence of `sep` and keeps the pieces that are not empty.
pub fn split_segments(text: &Vec<char>, sep: char) -> (pieces: Vec<String>)
    ensures
        texts(pieces@) == segments(text@, sep),
{
    let mut pieces: Vec<String> = Vec::new();
    let mut at: usize = 0;
    while at < text.len()
        invariant
            at <= text.len(),
            texts(pieces@) + segments_from(text@, at as int, sep) == segments(text@, sep),
        decreases text.len() - at,
    {
        let end = scan_run(text, at, CharClass::Except(sep));
        if end == at {
            at += 1;
        } else {
            let piece = text_between(text, at, end);
            pieces.push(piece);
            at = end;
        }
    }
    pieces
}

/// The first of the comparators `=`, `<` and `>` in `text`, if it holds one.
pub open spec fn leading_comparator(text: Seq<char>) -> Option<char> {
    let at = run_end(text, 0, CharClass::Plain);
    if at < text.len() {
        Some(text[at])
    } else {
        None
    }
}

/// A byte that, taken as a character, is one of the comparators.
pub open spec fn is_comparator_byte(b: u8) -> bool {
    b == 0x3c || b == 0x3d || b == 0x3e
}

/// No byte of `bytes` before position `at` is a comparator, and the one at `at` is, if
/// there is one.
pub open spec fn first_comparator_byte(bytes: Seq<u8>, at: int) -> bool {
    &&& 0 <= at <= bytes.len()
    &&& forall|j: int| 0 <= j < at ==> !is_comparator_byte(#[trigger] bytes[j])
    &&& at < bytes.len() ==> is_comparator_byte(bytes[at])
}

/// The encoding of a character is that character's own number where this is below 128,
/// and otherwise consists of bytes from 128 up.
proof fn lemma_encoded_char(c: char)
    ensures
        c <= '\u{7f}' ==> encode_scalar(c as u32) == seq![c as u8],
        c > '\u{7f}' ==> forall|j: int|
            0 <= j < encode_scalar(c as u32).len() ==> #[trigger] encode_scalar(c as u32)[j]
                >= 0x80,
        1 <= encode_scalar(c as u32).len(),
        c <= '\u{7f}' ==> (c as u8) as char == c && (is_comparator(c) <==> is_comparator_byte(
            c as u8,
        )),
{
    let s = c as u32;
    if s <= 0x7f {
        assert((s & 0x7f) as u8 == s as u8) by (bit_vector)
            requires
                s <= 0x7f,
        ;
    } else {
        assert(0xC0u8 | (((s >> 6) & 0x1F) as u8) >= 0x80) by (bit_vector);
        assert(0xE0u8 | (((s >> 12) & 0x0F) as u8) >= 0x80) by (bit_vector);
        assert(0xF0u8 | (((s >> 18) & 0x7) as u8) >= 0x80) by (bit_vector);
        assert(0x80u8 | ((s & 0x3F) as u8) >= 0x80) by (bit_vector);
        assert(0x80u8 | (((s >> 6) & 0x3F) as u8) >= 0x80) by (bit_vector);
        assert(0x80u8 | (((s >> 12) & 0x3F) as u8) >= 0x80) by (bit_vector);
    }
}

/// Where the first comparator byte stands in the UTF-8 encoding of the characters of
/// `text` from position `from` on, there the encoding holds the first comparator
/// character among them; and where no byte is a comparator, no character is.
pub proof fn lemma_comparator_in_bytes(text: Seq<char>, from: int, at: int)
    requires
        0 <= from <= text.len(),
        first_comparator_byte(encode_utf8(text.skip(from)), at),
    ensures
        at < encode_utf8(text.skip(from)).len() ==> {
            &&& run_end(text, from, CharClass::Plain) < text.len()
            &&& text[run_end(text, from, CharClass::Plain)] == encode_utf8(
                text.skip(from),
            )[at] as char
        },
        at == encode_utf8(text.skip(from)).len() ==> run_end(text, from, CharClass::Plain)
            == text.len(),
    decreases text.len() - from,
{
    let rest = text.skip(from);
    let bytes = encode_utf8(rest);
    if from < text.len() {
        let c = text[from];
        let head = encode_scalar(c as u32);
        let tail = encode_utf8(text.skip(from + 1));
        assert(rest.drop_first() =~= text.skip(from + 1));
        lemma_encoded_char(c);
        if is_comparator(c) {
            assert(bytes[0] == c as u8);
        } else {
            assert forall|j: int| 0 <= j < at - head.len() implies !is_comparator_byte(
                #[trigger] tail[j],
            ) by {
                assert(tail[j] == bytes[j + head.len()]);
            }
            lemma_comparator_in_bytes(text, from + 1, at - head.len());
        }
    }
}

/// Decides whether a byte, taken as a character, is a comparator.
fn comparator_byte(b: u8) -> (r: bool)
    ensures
        r == is_comparator_byte(b),
{
    b == 0x3c || b == 0x3d || b == 0x3e
}

/// Finds the first comparator in `txt`, by its position in the UTF-8 encoding: the
/// position of the first byte that is a comparator. That byte is the first comparator
/// among the characters of `txt`; where no byte is a comparator, no character is.
pub fn find_comparator(txt: &str) -> (r: Option<usize>)
    ensures
        match r {
            Some(at) => {
                &&& at < encode_utf8(txt@).len()
                &&& first_comparator_byte(encode_utf8(txt@), at as int)
                &&& leading_comparator(txt@) == Some(encode_utf8(txt@)[at as int] as char)
            },
            None => {
                &&& first_comparator_byte(encode_utf8(txt@), encode_utf8(txt@).len() as int)
                &&& leading_comparator(txt@) is None
            },
        },
{
    let bytes = txt.as_bytes();
    let mut at: usize = 0;
    while at < bytes.len() && !comparator_byte(bytes[at])
        invariant
            at <= bytes.len(),
            forall|j: int| 0 <= j < at ==> !is_comparator_byte(#[trigger] bytes@[j]),
        decreases bytes.len() - at,
    {
        at += 1;
    }
    proof {
        assert(txt@.skip(0) =~= txt@);
        lemma_comparator_in_bytes(txt@, 0, at as int);
    }
    if at < bytes.len() {
        Some(at)
    } else {
        None
    }
}

/// Whether two strings hold the same characters.
pub fn same_text(a: &str, b: &str) -> (r: bool)
    ensures
        r == (a@ == b@),
{
    let x = a.as_bytes();
    let y = b.as_bytes();
    proof {
        // The encoding can be decoded again, so equal bytes mean equal characters.
        vstd::utf8::encode_utf8_decode_utf8(a@);
        vstd::utf8::encode_utf8_decode_utf8(b@);
    }
    if x.len() != y.len() {
        return false;
    }
    let mut i: usize = 0;
    while i < x.len()
        invariant
            i <= x.len(),
            x.len() == y.len(),
            x@ == encode_utf8(a@),
            y@ == encode_utf8(b@),
            forall|j: int| 0 <= j < i ==> x@[j] == y@[j],
        decreases x.len() - i,
    {
        if x[i] != y[i] {
            return false;
        }
        i += 1;
    }
    assert(x@ =~= y@);
    true
}

} // verus!
