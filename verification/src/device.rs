//! What the device reports about itself through `adb`: whether one is listed,
//! and its screen size (`<width>x<height>`, as the pattern `(\d+)x(\d+)` finds it).
use vstd::prelude::*;
use crate::decimal::{digits_value, is_ascii_digit, parse_digit_run, parse_digit_run_checked};
use crate::text::{digit_run_end, find_digit_run_end, lemma_digit_run_end_at, text_chars};

verus! {

/// Whether the output of `adb devices` lists a device: it is longer than its
/// 28-byte header line alone.
pub fn devices_listed(adb_output: &str) -> (listed: bool)
    ensures
        listed == (adb_output.len() > 28),
{
    adb_output.len() > 28
}

/// A size written from `i` on: the end of the width and the end of the height,
/// the height starting right after the `x`.
pub open spec fn size_at(s: Seq<char>, i: int) -> Option<(int, int)> {
    let e1 = digit_run_end(s, i);
    if e1 > i && e1 < s.len() && s[e1] == 'x' {
        let e2 = digit_run_end(s, e1 + 1);
        if e2 > e1 + 1 {
            Some((e1, e2))
        } else {
            None
        }
    } else {
        None
    }
}

/// The leftmost size that starts at `i` or later, with its start.
pub open spec fn first_size_from(s: Seq<char>, i: int) -> Option<(int, int, int)>
    decreases s.len() - i,
{
    if i < 0 || i >= s.len() {
        None
    } else {
        match size_at(s, i) {
            Some((e1, e2)) => Some((i, e1, e2)),
            None => first_size_from(s, i + 1),
        }
    }
}

/// The first size written in a text: width and height.
pub open spec fn scan_screen_size(s: Seq<char>) -> Option<(nat, nat)> {
    match first_size_from(s, 0) {
        Some((i, e1, e2)) => Some(
            (digits_value(s.subrange(i, e1)), digits_value(s.subrange(e1 + 1, e2))),
        ),
        None => None,
    }
}

/// The texts whose size, if any, fits an `i32` both ways, where reading it does not fail.
pub open spec fn screen_size_fits(s: Seq<char>) -> bool {
    scan_screen_size(s) matches Some(sz) ==> sz.0 <= i32::MAX && sz.1 <= i32::MAX
}

fn size_at_index(chars: &Vec<char>, i: usize) -> (r: Option<(usize, usize)>)
    requires
        i < chars@.len(),
    ensures
        match r {
            Some((e1, e2)) => {
                &&& size_at(chars@, i as int) == Some((e1 as int, e2 as int))
                &&& i < e1 < e2 <= chars@.len()
                &&& forall|k: int| i <= k < e1 ==> is_ascii_digit(#[trigger] chars@[k])
                &&& forall|k: int| e1 + 1 <= k < e2 ==> is_ascii_digit(#[trigger] chars@[k])
            },
            None => size_at(chars@, i as int) is None,
        },
{
    let e1 = find_digit_run_end(chars, i);
    if e1 == i || e1 >= chars.len() || chars[e1] != 'x' {
        return None;
    }
    let e2 = find_digit_run_end(chars, e1 + 1);
    if e2 == e1 + 1 {
        None
    } else {
        Some((e1, e2))
    }
}

fn find_size(chars: &Vec<char>) -> (r: Option<(usize, usize, usize)>)
    ensures
        match r {
            Some((i, e1, e2)) => {
                &&& first_size_from(chars@, 0) == Some((i as int, e1 as int, e2 as int))
                &&& i < e1 < e2 <= chars@.len()
                &&& forall|k: int| i <= k < e1 ==> is_ascii_digit(#[trigger] chars@[k])
                &&& forall|k: int| e1 + 1 <= k < e2 ==> is_ascii_digit(#[trigger] chars@[k])
            },
            None => first_size_from(chars@, 0) is None,
        },
{
    let mut i: usize = 0;
    while i < chars.len()
        invariant
            i <= chars@.len(),
            first_size_from(chars@, 0) == first_size_from(chars@, i as int),
        decreases chars@.len() - i,
    {
        match size_at_index(chars, i) {
            Some((e1, e2)) => {
                return Some((i, e1, e2));
            },
            None => {
                i = i + 1;
            },
        }
    }
    None
}

/// Whether reading the size out of `text` stays within `screen_size_fits`.
pub fn screen_size_fits_check(text: &str) -> (ok: bool)
    ensures
        ok == screen_size_fits(text@),
{
    let chars = text_chars(text);
    match find_size(&chars) {
        None => true,
        Some((i, e1, e2)) => {
            parse_digit_run_checked(&chars, i, e1).is_some() && parse_digit_run_checked(
                &chars,
                e1 + 1,
                e2,
            ).is_some()
        },
    }
}

/// The screen size in the output of `adb shell wm size` (such as
/// `Physical size: 1080x2400`): width and height of the first size written.
pub fn parse_screen_size(text: &str) -> (r: Option<(i32, i32)>)
    requires
        screen_size_fits(text@),
    ensures
        match r {
            Some((w, h)) => scan_screen_size(text@) == Some((w as nat, h as nat)),
            None => scan_screen_size(text@) is None,
        },
{
    let chars = text_chars(text);
    match find_size(&chars) {
        None => None,
        Some((i, e1, e2)) => {
            let w = parse_digit_run(&chars, i, e1);
            let h = parse_digit_run(&chars, e1 + 1, e2);
            Some((w, h))
        },
    }
}

/// The size taken is the leftmost one: it starts at `i`, and none starts
/// before `i`. When there is none, no position starts one.
pub proof fn law_leftmost_size(s: Seq<char>)
    ensures
        match first_size_from(s, 0) {
            Some((i, e1, e2)) => {
                &&& 0 <= i < s.len()
                &&& size_at(s, i) == Some((e1, e2))
                &&& forall|j: int| 0 <= j < i ==> #[trigger] size_at(s, j) is None
            },
            None => forall|j: int| 0 <= j < s.len() ==> #[trigger] size_at(s, j) is None,
        },
{
    lemma_first_size_from(s, 0);
}

proof fn lemma_first_size_from(s: Seq<char>, k: int)
    requires
        0 <= k,
    ensures
        match first_size_from(s, k) {
            Some((i, e1, e2)) => {
                &&& k <= i < s.len()
                &&& size_at(s, i) == Some((e1, e2))
                &&& forall|j: int| k <= j < i ==> #[trigger] size_at(s, j) is None
            },
            None => forall|j: int| k <= j < s.len() ==> #[trigger] size_at(s, j) is None,
        },
    decreases s.len() - k,
{
    if k < s.len() {
        lemma_first_size_from(s, k + 1);
    }
}

/// A text that is just `<width>x<height>` is read as that size: the width is the
/// number before the `x` and the height the one after it, in that order.
pub proof fn law_plain_screen_size(a: Seq<char>, b: Seq<char>)
    requires
        a.len() > 0,
        b.len() > 0,
        forall|k: int| 0 <= k < a.len() ==> '0' <= #[trigger] a[k] <= '9',
        forall|k: int| 0 <= k < b.len() ==> '0' <= #[trigger] b[k] <= '9',
    ensures
        scan_screen_size(a + seq!['x'] + b) == Some((digits_value(a), digits_value(b))),
{
    let s = a + seq!['x'] + b;
    let n = a.len() as int;
    assert(s[n] == 'x');
    assert forall|k: int| 0 <= k < n implies '0' <= #[trigger] s[k] <= '9' by {
        assert(s[k] == a[k]);
    }
    assert forall|k: int| n + 1 <= k < s.len() implies '0' <= #[trigger] s[k] <= '9' by {
        assert(s[k] == b[k - n - 1]);
    }
    lemma_digit_run_end_at(s, 0, n);
    lemma_digit_run_end_at(s, n + 1, s.len() as int);
    assert(size_at(s, 0) == Some((n, s.len() as int)));
    assert(s.subrange(0, n) =~= a);
    assert(s.subrange(n + 1, s.len() as int) =~= b);
}

} // verus!
