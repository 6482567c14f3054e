//! Decimal text of integers, both ways.
use vstd::prelude::*;

verus! {

/// An ASCII decimal digit.
pub open spec fn is_ascii_digit(c: char) -> bool {
    '0' <= c <= '9'
}

/// The value of an ASCII digit.
pub open spec fn digit_value(c: char) -> int {
    c as int - '0' as int
}

/// The ASCII digit for a value in `0..10`.
pub open spec fn digit_char(d: int) -> char {
    (d + '0' as int) as char
}

/// The decimal digits of a natural number, most significant first, no leading zeros.
pub open spec fn nat_decimal(n: nat) -> Seq<char>
    decreases n,
{
    if n < 10 {
        seq![digit_char(n as int)]
    } else {
        nat_decimal(n / 10).push(digit_char(n as int % 10))
    }
}

/// The text that `to_string` gives for an integer: a `-` before the digits of a negative one.
pub open spec fn int_decimal(i: int) -> Seq<char> {
    if i < 0 {
        seq!['-'] + nat_decimal((-i) as nat)
    } else {
        nat_decimal(i as nat)
    }
}

/// The quotient `a / b` rounded toward zero, as integer division in Rust rounds it.
pub open spec fn trunc_div(a: int, b: int) -> int {
    let q = (if a >= 0 { a } else { -a }) / (if b >= 0 { b } else { -b });
    if (a >= 0) == (b >= 0) { q } else { -q }
}

/// The value of a run of ASCII digits (leading zeros allowed; empty gives 0).
pub open spec fn digits_value(s: Seq<char>) -> nat
    decreases s.len(),
{
    if s.len() == 0 {
        0
    } else {
        (digits_value(s.drop_last()) * 10 + digit_value(s.last())) as nat
    }
}

/// Appends one character to a string.
#[verifier::external_body]
pub(crate) fn string_push(s: &mut String, c: char)
    ensures
        final(s)@ == old(s)@.push(c),
{
    s.push(c);
}

/// Appends the decimal digits of `n`.
fn push_decimal(s: &mut String, n: u32)
    ensures
        final(s)@ == old(s)@ + nat_decimal(n as nat),
    decreases n,
{
    if n >= 10 {
        push_decimal(s, n / 10);
    }
    let d: u8 = (n % 10) as u8;
    let c: char = (d + 48u8) as char;
    assert(c == digit_char((n % 10) as int));
    string_push(s, c);
    assert(nat_decimal(n as nat) == if n < 10 {
        seq![digit_char(n as int)]
    } else {
        nat_decimal((n / 10) as nat).push(digit_char(n as int % 10))
    });
    assert(final(s)@ =~= old(s)@ + nat_decimal(n as nat));
}

/// Appends the decimal text of `i`, as `i.to_string()` writes it.
pub fn push_i32_decimal(s: &mut String, i: i32)
    ensures
        final(s)@ == old(s)@ + int_decimal(i as int),
{
    if i < 0 {
        string_push(s, '-');
        let m: i64 = -(i as i64);
        push_decimal(s, m as u32);
        assert(final(s)@ =~= old(s)@ + int_decimal(i as int));
    } else {
        push_decimal(s, i as u32);
    }
}

/// The decimal text of `i`, as `i.to_string()` gives it.
pub fn i32_to_string(i: i32) -> (s: String)
    ensures
        s@ == int_decimal(i as int),
{
    let mut s = String::new();
    push_i32_decimal(&mut s, i);
    assert(s@ =~= int_decimal(i as int));
    s
}

/// The value of `chars[start..end]`, all ASCII digits, as `i32::from_str` parses it.
pub fn parse_digit_run(chars: &Vec<char>, start: usize, end: usize) -> (v: i32)
    requires
        start <= end <= chars@.len(),
        forall|k: int| start <= k < end ==> is_ascii_digit(#[trigger] chars@[k]),
        digits_value(chars@.subrange(start as int, end as int)) <= i32::MAX,
    ensures
        v as int == digits_value(chars@.subrange(start as int, end as int)),
{
    let mut v: i32 = 0;
    let mut k: usize = start;
    while k < end
        invariant
            start <= k <= end <= chars@.len(),
            forall|j: int| start <= j < end ==> is_ascii_digit(#[trigger] chars@[j]),
            digits_value(chars@.subrange(start as int, end as int)) <= i32::MAX,
            v as int == digits_value(chars@.subrange(start as int, k as int)),
        decreases end - k,
    {
        let ghost prefix = chars@.subrange(start as int, k as int + 1);
        assert(prefix.drop_last() =~= chars@.subrange(start as int, k as int));
        proof {
            lemma_digits_value_prefix(chars@.subrange(start as int, end as int), (k - start + 1) as nat);
            assert(chars@.subrange(start as int, end as int).take((k - start + 1) as int) =~= prefix);
        }
        let c = chars[k];
        let d: i32 = (c as u32 - 48u32) as i32;
        v = v * 10 + d;
        k = k + 1;
    }
    v
}

/// The value of `chars[start..end]`, all ASCII digits, when it fits an `i32`.
pub fn parse_digit_run_checked(chars: &Vec<char>, start: usize, end: usize) -> (r: Option<i32>)
    requires
        start <= end <= chars@.len(),
        forall|k: int| start <= k < end ==> is_ascii_digit(#[trigger] chars@[k]),
    ensures
        r is Some <==> digits_value(chars@.subrange(start as int, end as int)) <= i32::MAX,
        r matches Some(v) ==> v as int == digits_value(chars@.subrange(start as int, end as int)),
{
    let mut v: i32 = 0;
    let mut k: usize = start;
    while k < end
        invariant
            start <= k <= end <= chars@.len(),
            forall|j: int| start <= j < end ==> is_ascii_digit(#[trigger] chars@[j]),
            v as int == digits_value(chars@.subrange(start as int, k as int)),
        decreases end - k,
    {
        let ghost prefix = chars@.subrange(start as int, k as int + 1);
        assert(prefix.drop_last() =~= chars@.subrange(start as int, k as int));
        proof {
            lemma_digits_value_prefix(chars@.subrange(start as int, end as int), (k - start + 1) as nat);
            assert(chars@.subrange(start as int, end as int).take((k - start + 1) as int) =~= prefix);
        }
        let c = chars[k];
        let d: i64 = (c as u32 - 48u32) as i64;
        let w: i64 = (v as i64) * 10 + d;
        if w > i32::MAX as i64 {
            return None;
        }
        v = w as i32;
        k = k + 1;
    }
    Some(v)
}

/// A prefix of a digit run is worth no more than the whole run.
pub proof fn lemma_digits_value_prefix(s: Seq<char>, n: nat)
    requires
        n <= s.len(),
        forall|k: int| 0 <= k < s.len() ==> is_ascii_digit(#[trigger] s[k]),
    ensures
        digits_value(s.take(n as int)) <= digits_value(s),
    decreases s.len(),
{
    if n < s.len() {
        lemma_digits_value_prefix(s.drop_last(), n);
        assert(s.drop_last().take(n as int) =~= s.take(n as int));
        assert(is_ascii_digit(s[s.len() - 1]));
    } else {
        assert(s.take(n as int) =~= s);
    }
}

/// Reading back the decimal text of a natural number gives the number.
pub proof fn lemma_decimal_roundtrip(n: nat)
    ensures
        digits_value(nat_decimal(n)) == n,
        forall|k: int| 0 <= k < nat_decimal(n).len() ==> is_ascii_digit(#[trigger] nat_decimal(n)[k]),
    decreases n,
{
    if n >= 10 {
        lemma_decimal_roundtrip(n / 10);
        let s = nat_decimal(n);
        assert(s.drop_last() =~= nat_decimal(n / 10));
        assert(digit_value(digit_char(n as int % 10)) == n as int % 10);
        assert(s.last() == digit_char(n as int % 10));
        assert(digits_value(s) == digits_value(s.drop_last()) * 10 + digit_value(s.last()));
        assert((n / 10) * 10 + n % 10 == n);
    } else {
        assert(digit_value(digit_char(n as int)) == n as int);
        assert(nat_decimal(n).drop_last() =~= Seq::<char>::empty());
        assert(digits_value(Seq::<char>::empty()) == 0);
    }
}

/// `10` to the power `k`.
pub open spec fn pow10(k: nat) -> nat
    decreases k,
{
    if k == 0 {
        1
    } else {
        10 * pow10((k - 1) as nat)
    }
}

/// A number below `10^k` (with `k >= 1`) has at most `k` decimal digits.
pub proof fn lemma_decimal_len(n: nat, k: nat)
    requires
        k >= 1,
        n < pow10(k),
    ensures
        nat_decimal(n).len() <= k,
    decreases k,
{
    if n >= 10 {
        assert(k >= 2) by {
            if k == 1 {
                assert(pow10(1) == 10) by {
                    reveal_with_fuel(pow10, 2);
                }
            }
        }
        lemma_decimal_len(n / 10, (k - 1) as nat);
    }
}

/// The decimal text of an `i32` has at most eleven characters.
pub proof fn lemma_i32_decimal_len(i: i32)
    ensures
        int_decimal(i as int).len() <= 11,
{
    assert(pow10(10) == 10000000000) by {
        reveal_with_fuel(pow10, 11);
    }
    if i < 0 {
        lemma_decimal_len((-(i as int)) as nat, 10);
    } else {
        lemma_decimal_len(i as nat, 10);
    }
}

/// The decimal text of an integer holds no space: only digits and perhaps a
/// leading `-`.
pub proof fn lemma_int_decimal_no_space(i: int)
    ensures
        forall|k: int| 0 <= k < int_decimal(i).len() ==> #[trigger] int_decimal(i)[k] != ' ',
        int_decimal(i).len() >= 1,
{
    if i < 0 {
        lemma_decimal_roundtrip((-i) as nat);
        let d = nat_decimal((-i) as nat);
        assert forall|k: int| 0 <= k < int_decimal(i).len() implies #[trigger] int_decimal(i)[k] != ' ' by {
            if k > 0 {
                assert(int_decimal(i)[k] == d[k - 1]);
                assert(is_ascii_digit(d[k - 1]));
            }
        }
    } else {
        lemma_decimal_roundtrip(i as nat);
        assert forall|k: int| 0 <= k < int_decimal(i).len() implies #[trigger] int_decimal(i)[k] != ' ' by {
            assert(is_ascii_digit(nat_decimal(i as nat)[k]));
        }
    }
}

/// Different integers have different decimal texts.
pub proof fn lemma_int_decimal_injective(a: int, b: int)
    requires
        int_decimal(a) == int_decimal(b),
    ensures
        a == b,
{
    if a < 0 && b < 0 {
        lemma_decimal_roundtrip((-a) as nat);
        lemma_decimal_roundtrip((-b) as nat);
        assert(int_decimal(a).drop_first() =~= nat_decimal((-a) as nat));
        assert(int_decimal(b).drop_first() =~= nat_decimal((-b) as nat));
    } else if a >= 0 && b >= 0 {
        lemma_decimal_roundtrip(a as nat);
        lemma_decimal_roundtrip(b as nat);
    } else if a < 0 {
        lemma_decimal_roundtrip(b as nat);
        assert(int_decimal(a)[0] == '-');
        assert(is_ascii_digit(int_decimal(b)[0]));
    } else {
        lemma_decimal_roundtrip(a as nat);
        assert(int_decimal(b)[0] == '-');
        assert(is_ascii_digit(int_decimal(a)[0]));
    }
}

} // verus!
