//! Character classes and runs over the characters of a text.
use vstd::prelude::*;
use crate::decimal::is_ascii_digit;

verus! {

/// A character of the Unicode `White_Space` property, the class `\s` stands for.
pub open spec fn is_white_space(c: char) -> bool {
    let u = c as u32;
    ||| 0x09 <= u <= 0x0d
    ||| u == 0x20
    ||| u == 0x85
    ||| u == 0xa0
    ||| u == 0x1680
    ||| 0x2000 <= u <= 0x200a
    ||| u == 0x2028
    ||| u == 0x2029
    ||| u == 0x202f
    ||| u == 0x205f
    ||| u == 0x3000
}

/// The end of the run of ASCII digits that starts at `i`.
pub open spec fn digit_run_end(s: Seq<char>, i: int) -> int
    decreases s.len() - i,
{
    if 0 <= i < s.len() && is_ascii_digit(s[i]) {
        digit_run_end(s, i + 1)
    } else {
        i
    }
}

/// The end of the run of white space that starts at `i`.
pub open spec fn space_run_end(s: Seq<char>, i: int) -> int
    decreases s.len() - i,
{
    if 0 <= i < s.len() && is_white_space(s[i]) {
        space_run_end(s, i + 1)
    } else {
        i
    }
}

/// Whether `c` is an ASCII digit.
pub fn char_is_digit(c: char) -> (b: bool)
    ensures
        b == is_ascii_digit(c),
{
    '0' <= c && c <= '9'
}

/// Whether `c` is white space in the sense of `\s`.
pub fn char_is_white_space(c: char) -> (b: bool)
    ensures
        b == is_white_space(c),
{
    let u = c as u32;
    (0x09 <= u && u <= 0x0d) || u == 0x20 || u == 0x85 || u == 0xa0 || u == 0x1680 || (0x2000
        <= u && u <= 0x200a) || u == 0x2028 || u == 0x2029 || u == 0x202f || u == 0x205f || u
        == 0x3000
}

/// The end of the digit run of `chars` that starts at `i`.
pub fn find_digit_run_end(chars: &Vec<char>, i: usize) -> (j: usize)
    requires
        i <= chars@.len(),
    ensures
        j as int == digit_run_end(chars@, i as int),
        i <= j <= chars@.len(),
        forall|k: int| i <= k < j ==> is_ascii_digit(#[trigger] chars@[k]),
{
    let mut j = i;
    while j < chars.len() && char_is_digit(chars[j])
        invariant
            i <= j <= chars@.len(),
            digit_run_end(chars@, i as int) == digit_run_end(chars@, j as int),
            forall|k: int| i <= k < j ==> is_ascii_digit(#[trigger] chars@[k]),
        decreases chars@.len() - j,
    {
        j = j + 1;
    }
    j
}

/// The end of the white-space run of `chars` that starts at `i`.
pub fn find_space_run_end(chars: &Vec<char>, i: usize) -> (j: usize)
    requires
        i <= chars@.len(),
    ensures
        j as int == space_run_end(chars@, i as int),
        i <= j <= chars@.len(),
{
    let mut j = i;
    while j < chars.len() && char_is_white_space(chars[j])
        invariant
            i <= j <= chars@.len(),
            space_run_end(chars@, i as int) == space_run_end(chars@, j as int),
        decreases chars@.len() - j,
    {
        j = j + 1;
    }
    j
}

/// The characters of a text, in order.
pub fn text_chars(text: &str) -> (chars: Vec<char>)
    ensures
        chars@ == text@,
{
    let mut chars: Vec<char> = Vec::new();
    for c in it: text.chars()
        invariant
            chars@ == it.seq().take(it.index() as int),
    {
        chars.push(c);
    }
    chars
}

/// A run of digits from `i` to `j`, not followed by a digit, ends at `j`.
pub proof fn lemma_digit_run_end_at(s: Seq<char>, i: int, j: int)
    requires
        0 <= i <= j <= s.len(),
        forall|k: int| i <= k < j ==> '0' <= #[trigger] s[k] <= '9',
        j == s.len() || !('0' <= s[j] <= '9'),
    ensures
        digit_run_end(s, i) == j,
    decreases j - i,
{
    if i < j {
        lemma_digit_run_end_at(s, i + 1, j);
    }
}

/// A run of white space starting at a character that is no white space is empty.
pub proof fn lemma_space_run_empty(s: Seq<char>, i: int)
    requires
        0 <= i <= s.len(),
        i == s.len() || !is_white_space(s[i]),
    ensures
        space_run_end(s, i) == i,
{
}

} // verus!
