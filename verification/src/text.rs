//! Characters, lines and whitespace-separated fields of a table snapshot.
//!
//! A snapshot is modelled as a sequence of characters. Lines are the pieces
//! between newline characters; the fields of a line are its maximal runs of
//! characters that are not whitespace.

use vstd::prelude::*;
use vstd::slice::slice_subrange;

verus! {

/// Whether `c` has the Unicode `White_Space` property.
pub open spec fn is_space(c: char) -> bool {
    let u = c as u32;
    ||| 0x09 <= u <= 0x0d
    ||| u == 0x20
    ||| u == 0x85
    ||| u == 0xa0
    ||| u == 0x1680
    ||| 0x2000 <= u <= 0x200a
    ||| u == 0x2028
    ||| u == 0x2029
    ||| u == 0x202f
    ||| u == 0x205f
    ||| u == 0x3000
}

/// The number of characters of `s` in front of its first newline, or the
/// length of `s` if it holds none.
pub open spec fn line_len(s: Seq<char>) -> nat
    decreases s.len(),
{
    if s.len() == 0 || s[0] == '\n' {
        0
    } else {
        1 + line_len(s.skip(1))
    }
}

/// The number of characters of `s` in front of its first whitespace
/// character, or the length of `s` if it holds none.
pub open spec fn word_len(s: Seq<char>) -> nat
    decreases s.len(),
{
    if s.len() == 0 || is_space(s[0]) {
        0
    } else {
        1 + word_len(s.skip(1))
    }
}

/// The lines of `s`: the pieces between newlines, in order. A newline at the
/// very end closes the last line and opens no further one.
pub open spec fn lines(s: Seq<char>) -> Seq<Seq<char>>
    decreases s.len(),
{
    if s.len() == 0 {
        Seq::empty()
    } else {
        let n = line_len(s);
        if n < s.len() {
            seq![s.take(n as int)] + lines(s.skip(n as int + 1))
        } else {
            seq![s]
        }
    }
}

/// The fields of `s`: its maximal runs of non-whitespace characters, in
/// order.
pub open spec fn fields(s: Seq<char>) -> Seq<Seq<char>>
    decreases s.len(),
{
    if s.len() == 0 {
        Seq::empty()
    } else if is_space(s[0]) {
        fields(s.skip(1))
    } else {
        let n = word_len(s);
        proof {
            lemma_word_len_bound(s);
        }
        seq![s.take(n as int)] + fields(s.skip(n as int))
    }
}

/// The character sequences that the slices of `parts` hold.
pub open spec fn slice_texts(parts: Seq<&[char]>) -> Seq<Seq<char>> {
    parts.map_values(|part: &[char]| part@)
}

/// `word_len` never exceeds the length.
pub proof fn lemma_word_len_bound(s: Seq<char>)
    ensures
        word_len(s) <= s.len(),
    decreases s.len(),
{
    if s.len() != 0 && !is_space(s[0]) {
        lemma_word_len_bound(s.skip(1));
    }
}

/// No field is empty, and no field holds a whitespace character.
pub proof fn lemma_fields_hold_no_space(s: Seq<char>, i: int, j: int)
    requires
        0 <= i < fields(s).len(),
        0 <= j < fields(s)[i].len(),
    ensures
        fields(s)[i].len() > 0,
        !is_space(fields(s)[i][j]),
    decreases s.len(),
{
    if s.len() == 0 {
    } else if is_space(s[0]) {
        lemma_fields_hold_no_space(s.skip(1), i, j);
    } else {
        let n = word_len(s);
        lemma_word_len_bound(s);
        if i == 0 {
            lemma_word_holds_no_space(s, j);
        } else {
            lemma_fields_hold_no_space(s.skip(n as int), i - 1, j);
        }
    }
}

/// The characters in front of the first whitespace are not whitespace.
proof fn lemma_word_holds_no_space(s: Seq<char>, j: int)
    requires
        0 <= j < word_len(s),
    ensures
        j < s.len(),
        !is_space(s[j]),
    decreases s.len(),
{
    if j > 0 {
        lemma_word_holds_no_space(s.skip(1), j - 1);
    }
}

/// `String::push` appends the character to the end of the string.
pub assume_specification[ String::push ](s: &mut String, ch: char)
    ensures
        final(s)@ == old(s)@.push(ch),
;

/// Whether `c` is a whitespace character.
pub fn is_whitespace(c: char) -> (b: bool)
    ensures
        b == is_space(c),
{
    let u: u32 = c as u32;
    (0x09 <= u && u <= 0x0d) || u == 0x20 || u == 0x85 || u == 0xa0 || u == 0x1680 || (0x2000 <= u
        && u <= 0x200a) || u == 0x2028 || u == 0x2029 || u == 0x202f || u == 0x205f || u == 0x3000
}

/// The characters of `text`, in order.
pub fn chars_of(text: &str) -> (chars: Vec<char>)
    ensures
        chars@ == text@,
{
    let mut chars: Vec<char> = Vec::new();
    for c in it: text.chars()
        invariant
            it.seq() == text@,
            chars@ == it.seq().take(it.index()),
    {
        chars.push(c);
    }
    chars
}

/// A string of the characters of `chars`, in order.
pub fn string_of(chars: &[char]) -> (text: String)
    ensures
        text@ == chars@,
{
    let mut text = String::new();
    let n = chars.len();
    let mut i: usize = 0;
    while i < n
        invariant
            n == chars@.len(),
            i <= n,
            text@ == chars@.take(i as int),
        decreases n - i,
    {
        text.push(chars[i]);
        i += 1;
    }
    text
}

/// Splits `text` into its lines.
pub fn split_lines<'a>(text: &'a [char]) -> (parts: Vec<&'a [char]>)
    ensures
        slice_texts(parts@) == lines(text@),
{
    let n = text.len();
    let mut parts: Vec<&'a [char]> = Vec::new();
    let mut pos: usize = 0;
    assert(text@.skip(0) == text@);
    while pos < n
        invariant
            n == text@.len(),
            pos <= n,
            slice_texts(parts@) + lines(text@.skip(pos as int)) == lines(text@),
        decreases n - pos,
    {
        let start = pos;
        let mut end = pos;
        while end < n && text[end] != '\n'
            invariant
                n == text@.len(),
                start <= end <= n,
                line_len(text@.skip(start as int)) == (end - start) + line_len(
                    text@.skip(end as int),
                ),
            decreases n - end,
        {
            assert(text@.skip(end as int).skip(1) == text@.skip(end + 1));
            end += 1;
        }
        let part = slice_subrange(text, start, end);
        proof {
            let rest = text@.skip(start as int);
            assert(rest.take(end - start) == part@);
            if end < n {
                assert(rest.skip(end - start + 1) == text@.skip(end + 1));
            }
        }
        parts.push(part);
        pos = if end < n {
            end + 1
        } else {
            end
        };
    }
    parts
}

/// Splits `line` into its fields.
pub fn split_fields<'a>(line: &'a [char]) -> (parts: Vec<&'a [char]>)
    ensures
        slice_texts(parts@) == fields(line@),
{
    let n = line.len();
    let mut parts: Vec<&'a [char]> = Vec::new();
    let mut pos: usize = 0;
    assert(line@.skip(0) == line@);
    while pos < n
        invariant
            n == line@.len(),
            pos <= n,
            slice_texts(parts@) + fields(line@.skip(pos as int)) == fields(line@),
        decreases n - pos,
    {
        if is_whitespace(line[pos]) {
            assert(line@.skip(pos as int).skip(1) == line@.skip(pos + 1));
            pos += 1;
        } else {
            let start = pos;
            let mut end = pos;
            while end < n && !is_whitespace(line[end])
                invariant
                    n == line@.len(),
                    start <= end <= n,
                    word_len(line@.skip(start as int)) == (end - start) + word_len(
                        line@.skip(end as int),
                    ),
                decreases n - end,
            {
                assert(line@.skip(end as int).skip(1) == line@.skip(end + 1));
                end += 1;
            }
            let part = slice_subrange(line, start, end);
            proof {
                let rest = line@.skip(start as int);
                assert(rest.take(end - start) == part@);
                assert(rest.skip(end - start) == line@.skip(end as int));
            }
            parts.push(part);
            pos = end;
        }
    }
    parts
}

} // verus!
