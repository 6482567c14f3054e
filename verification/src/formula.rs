//! The formula read off the screen (`<digits> <op> <digits>`, as the pattern
//! `(\d+)\s*([-+x/])\s*(\d+)\s*` finds it), its answer, and the memory of the
//! last formula answered so that a formula still on screen is answered once.
//!
//! Digits are the ASCII digits `0`-`9`: the numbers are parsed with the rules of
//! `i32::from_str`, which accepts no other. White space is the Unicode
//! `White_Space` class.
use vstd::prelude::*;
use crate::decimal::{
    digits_value, i32_to_string, int_decimal, is_ascii_digit, lemma_decimal_roundtrip,
    parse_digit_run, parse_digit_run_checked, trunc_div,
};
use crate::text::{
    digit_run_end, find_digit_run_end, find_space_run_end, lemma_digit_run_end_at,
    lemma_space_run_empty, space_run_end, text_chars,
};

verus! {

/// The four operations a formula may ask for.
#[derive(Clone, Copy, Debug, PartialEq, Eq, Structural)]
pub enum Operator {
    Add,
    Sub,
    Mul,
    Div,
}

/// The characters that stand for an operation: `+`, `-`, `x` and `/`.
pub open spec fn is_operator_char(c: char) -> bool {
    c == '+' || c == '-' || c == 'x' || c == '/'
}

/// The operation an operator character stands for.
pub open spec fn operator_of(c: char) -> Operator {
    if c == '+' {
        Operator::Add
    } else if c == '-' {
        Operator::Sub
    } else if c == 'x' {
        Operator::Mul
    } else {
        Operator::Div
    }
}

/// The value of `a op b`; a quotient is rounded toward zero, as `i32` division does.
pub open spec fn apply_operator(a: int, op: Operator, b: int) -> int {
    match op {
        Operator::Add => a + b,
        Operator::Sub => a - b,
        Operator::Mul => a * b,
        Operator::Div => trunc_div(a, b),
    }
}

/// A formula that starts at `i`: the end of its first number, the position of its
/// operator, and the bounds of its second number. Digit runs are taken whole and
/// spaces skipped, as the pattern's greedy repetitions do.
pub open spec fn formula_at(s: Seq<char>, i: int) -> Option<(int, int, int, int)> {
    let e1 = digit_run_end(s, i);
    let o = space_run_end(s, e1);
    if e1 > i && o < s.len() && is_operator_char(s[o]) {
        let b = space_run_end(s, o + 1);
        let e = digit_run_end(s, b);
        if e > b {
            Some((e1, o, b, e))
        } else {
            None
        }
    } else {
        None
    }
}

/// The leftmost formula that starts at `i` or later, with its start.
pub open spec fn first_formula_from(s: Seq<char>, i: int) -> Option<(int, int, int, int, int)>
    decreases s.len() - i,
{
    if i < 0 || i >= s.len() {
        None
    } else {
        match formula_at(s, i) {
            Some((e1, o, b, e)) => Some((i, e1, o, b, e)),
            None => first_formula_from(s, i + 1),
        }
    }
}

/// The first formula of a text: its two numbers and its operation.
pub open spec fn scan_formula(s: Seq<char>) -> Option<(nat, Operator, nat)> {
    match first_formula_from(s, 0) {
        Some((i, e1, o, b, e)) => Some(
            (digits_value(s.subrange(i, e1)), operator_of(s[o]), digits_value(s.subrange(b, e))),
        ),
        None => None,
    }
}

/// The formula answered last. `op` is `None` after a reset, so that no formula
/// is then taken for a repeat.
pub struct LastFormula {
    pub num1: i32,
    pub op: Option<Operator>,
    pub num2: i32,
}

/// The memory as it is at start and after a reset: `0`, no operator, `0`.
pub open spec fn cleared_formula() -> LastFormula {
    LastFormula { num1: 0, op: None, num2: 0 }
}

/// Whether `f` is the formula answered last.
pub open spec fn is_repeat(last: LastFormula, f: (nat, Operator, nat)) -> bool {
    last.num1 == f.0 && last.op == Some(f.1) && last.num2 == f.2
}

/// The inputs on which answering does not fail: both numbers fit an `i32`, and
/// unless the formula is a repeat, the answer fits one and no division is by zero.
pub open spec fn formula_fits(last: LastFormula, s: Seq<char>) -> bool {
    match scan_formula(s) {
        Some(f) => {
            &&& f.0 <= i32::MAX
            &&& f.2 <= i32::MAX
            &&& !is_repeat(last, f) ==> {
                &&& (f.1 == Operator::Div ==> f.2 != 0)
                &&& i32::MIN <= apply_operator(f.0 as int, f.1, f.2 as int) <= i32::MAX
            }
        },
        None => true,
    }
}

/// The memory after answering the text `s`.
pub open spec fn next_last(last: LastFormula, s: Seq<char>) -> LastFormula {
    match scan_formula(s) {
        Some(f) => if is_repeat(last, f) {
            last
        } else {
            LastFormula { num1: f.0 as i32, op: Some(f.1), num2: f.2 as i32 }
        },
        None => last,
    }
}

/// The answer to the text `s`: the decimal text of the first formula's value,
/// or nothing when there is no formula or it was answered last.
pub open spec fn formula_answer(last: LastFormula, s: Seq<char>) -> Option<Seq<char>> {
    match scan_formula(s) {
        Some(f) => if is_repeat(last, f) {
            None
        } else {
            Some(int_decimal(apply_operator(f.0 as int, f.1, f.2 as int)))
        },
        None => None,
    }
}

impl LastFormula {
    /// The memory at start: no formula answered yet.
    pub fn new() -> (last: LastFormula)
        ensures
            last == cleared_formula(),
    {
        LastFormula { num1: 0, op: None, num2: 0 }
    }
}

/// Forgets the formula answered last, so that it is answered again.
pub fn reset_formula(last: &mut LastFormula)
    ensures
        *final(last) == cleared_formula(),
{
    *last = LastFormula { num1: 0, op: None, num2: 0 };
}

/// The operation that an operator character stands for.
fn operator_from_char(c: char) -> (op: Operator)
    requires
        is_operator_char(c),
    ensures
        op == operator_of(c),
{
    if c == '+' {
        Operator::Add
    } else if c == '-' {
        Operator::Sub
    } else if c == 'x' {
        Operator::Mul
    } else {
        Operator::Div
    }
}

/// The formula that starts at `i`, as `formula_at` gives it.
fn formula_at_index(chars: &Vec<char>, i: usize) -> (r: Option<(usize, usize, usize, usize)>)
    requires
        i < chars@.len(),
    ensures
        match r {
            Some((e1, o, b, e)) => {
                &&& formula_at(chars@, i as int) == Some((e1 as int, o as int, b as int, e as int))
                &&& i < e1 <= o < b <= e <= chars@.len()
                &&& forall|k: int| i <= k < e1 ==> is_ascii_digit(#[trigger] chars@[k])
                &&& forall|k: int| b <= k < e ==> is_ascii_digit(#[trigger] chars@[k])
                &&& is_operator_char(chars@[o as int])
            },
            None => formula_at(chars@, i as int) is None,
        },
{
    let e1 = find_digit_run_end(chars, i);
    if e1 == i {
        return None;
    }
    let o = find_space_run_end(chars, e1);
    if o >= chars.len() {
        return None;
    }
    let c = chars[o];
    if !(c == '+' || c == '-' || c == 'x' || c == '/') {
        return None;
    }
    let b = find_space_run_end(chars, o + 1);
    let e = find_digit_run_end(chars, b);
    if e == b {
        None
    } else {
        Some((e1, o, b, e))
    }
}

/// The leftmost formula of the text, with its start.
fn find_formula(chars: &Vec<char>) -> (r: Option<(usize, usize, usize, usize, usize)>)
    ensures
        match r {
            Some((i, e1, o, b, e)) => {
                &&& first_formula_from(chars@, 0) == Some(
                    (i as int, e1 as int, o as int, b as int, e as int),
                )
                &&& i < e1 <= o < b <= e <= chars@.len()
                &&& forall|k: int| i <= k < e1 ==> is_ascii_digit(#[trigger] chars@[k])
                &&& forall|k: int| b <= k < e ==> is_ascii_digit(#[trigger] chars@[k])
                &&& is_operator_char(chars@[o as int])
            },
            None => first_formula_from(chars@, 0) is None,
        },
{
    let mut i: usize = 0;
    while i < chars.len()
        invariant
            i <= chars@.len(),
            first_formula_from(chars@, 0) == first_formula_from(chars@, i as int),
        decreases chars@.len() - i,
    {
        match formula_at_index(chars, i) {
            Some((e1, o, b, e)) => {
                return Some((i, e1, o, b, e));
            },
            None => {
                i = i + 1;
            },
        }
    }
    None
}

/// Whether answering `formula` with the memory `last` stays within `formula_fits`,
/// where answering it does not fail.
pub fn formula_fits_check(last: &LastFormula, formula: &str) -> (ok: bool)
    ensures
        ok == formula_fits(*last, formula@),
{
    let chars = text_chars(formula);
    match find_formula(&chars) {
        None => true,
        Some((i, e1, o, b, e)) => {
            let op = operator_from_char(chars[o]);
            match (parse_digit_run_checked(&chars, i, e1), parse_digit_run_checked(&chars, b, e)) {
                (Some(num1), Some(num2)) => {
                    let same_op = match last.op {
                        Some(p) => p == op,
                        None => false,
                    };
                    if last.num1 == num1 && same_op && last.num2 == num2 {
                        return true;
                    }
                    let a = num1 as i64;
                    let c = num2 as i64;
                    let value: i64 = match op {
                        Operator::Add => a + c,
                        Operator::Sub => a - c,
                        Operator::Mul => {
                            assert(0 <= a * c <= 0x7fff_ffff * 0x7fff_ffff) by (nonlinear_arith)
                                requires
                                    0 <= a <= 0x7fff_ffff,
                                    0 <= c <= 0x7fff_ffff,
                            ;
                            a * c
                        },
                        Operator::Div => {
                            if c == 0 {
                                return false;
                            }
                            a / c
                        },
                    };
                    i32::MIN as i64 <= value && value <= i32::MAX as i64
                },
                _ => false,
            }
        },
    }
}

/// Reads the first formula of `formula`, and answers it unless it is the one
/// answered last: the decimal text of its value. The memory then holds it.
pub fn cpt_basic_arithmetic(last: &mut LastFormula, formula: &str) -> (res: Option<String>)
    requires
        formula_fits(*old(last), formula@),
    ensures
        *final(last) == next_last(*old(last), formula@),
        res is Some <==> formula_answer(*old(last), formula@) is Some,
        res matches Some(r) ==> formula_answer(*old(last), formula@) == Some(r@),
{
    let chars = text_chars(formula);
    match find_formula(&chars) {
        None => None,
        Some((i, e1, o, b, e)) => {
            let num1 = parse_digit_run(&chars, i, e1);
            let op = operator_from_char(chars[o]);
            let num2 = parse_digit_run(&chars, b, e);
            let same_op = match last.op {
                Some(p) => p == op,
                None => false,
            };
            if last.num1 == num1 && same_op && last.num2 == num2 {
                return None;
            }
            *last = LastFormula { num1, op: Some(op), num2 };
            let result: i32 = match op {
                Operator::Add => num1 + num2,
                Operator::Sub => num1 - num2,
                Operator::Mul => num1 * num2,
                Operator::Div => num1 / num2,
            };
            Some(i32_to_string(result))
        },
    }
}

/// A formula still on screen is answered once: right after the text was
/// answered, the same text gets no answer.
pub proof fn law_answered_once(last: LastFormula, s: Seq<char>)
    requires
        formula_fits(last, s),
    ensures
        formula_answer(next_last(last, s), s) is None,
{
}

/// After a reset, any text that holds a formula is answered.
pub proof fn law_reset_answers_again(s: Seq<char>)
    ensures
        scan_formula(s) is Some ==> formula_answer(cleared_formula(), s) is Some,
{
}

/// The formula taken is the leftmost one: it starts at `i`, and none starts before `i`.
/// When there is none, no position starts one.
pub proof fn law_leftmost_formula(s: Seq<char>)
    ensures
        match first_formula_from(s, 0) {
            Some((i, e1, o, b, e)) => {
                &&& 0 <= i < s.len()
                &&& formula_at(s, i) == Some((e1, o, b, e))
                &&& forall|j: int| 0 <= j < i ==> #[trigger] formula_at(s, j) is None
            },
            None => forall|j: int| 0 <= j < s.len() ==> #[trigger] formula_at(s, j) is None,
        },
{
    lemma_first_formula_from(s, 0);
}

proof fn lemma_first_formula_from(s: Seq<char>, k: int)
    requires
        0 <= k,
    ensures
        match first_formula_from(s, k) {
            Some((i, e1, o, b, e)) => {
                &&& k <= i < s.len()
                &&& formula_at(s, i) == Some((e1, o, b, e))
                &&& forall|j: int| k <= j < i ==> #[trigger] formula_at(s, j) is None
            },
            None => forall|j: int| k <= j < s.len() ==> #[trigger] formula_at(s, j) is None,
        },
    decreases s.len() - k,
{
    if k < s.len() {
        lemma_first_formula_from(s, k + 1);
    }
}

/// The answer is the decimal text of the formula's value: reading its digits
/// back gives the value, after a `-` when the value is negative.
pub proof fn law_answer_reads_back(last: LastFormula, s: Seq<char>)
    ensures
        formula_answer(last, s) matches Some(t) ==> {
            let f = scan_formula(s)->0;
            let v = apply_operator(f.0 as int, f.1, f.2 as int);
            if v >= 0 {
                &&& digits_value(t) == v
                &&& forall|k: int| 0 <= k < t.len() ==> is_ascii_digit(#[trigger] t[k])
            } else {
                &&& t[0] == '-'
                &&& digits_value(t.drop_first()) == -v
                &&& forall|k: int| 1 <= k < t.len() ==> is_ascii_digit(#[trigger] t[k])
            }
        },
{
    if let Some(t) = formula_answer(last, s) {
        let f = scan_formula(s)->0;
        let v = apply_operator(f.0 as int, f.1, f.2 as int);
        if v >= 0 {
            lemma_decimal_roundtrip(v as nat);
        } else {
            lemma_decimal_roundtrip((-v) as nat);
            assert(t.drop_first() =~= crate::decimal::nat_decimal((-v) as nat));
            assert forall|k: int| 1 <= k < t.len() implies is_ascii_digit(#[trigger] t[k]) by {
                assert(t[k] == t.drop_first()[k - 1]);
            }
        }
    }
}

/// A text made of a number, an operator character and a number, with nothing
/// around them, is read as that formula: first number before the operator,
/// second after it.
pub proof fn law_plain_formula(a: Seq<char>, c: char, b: Seq<char>)
    requires
        a.len() > 0,
        b.len() > 0,
        forall|k: int| 0 <= k < a.len() ==> '0' <= #[trigger] a[k] <= '9',
        forall|k: int| 0 <= k < b.len() ==> '0' <= #[trigger] b[k] <= '9',
        c == '+' || c == '-' || c == 'x' || c == '/',
    ensures
        scan_formula(a + seq![c] + b) == Some((digits_value(a), operator_of(c), digits_value(b))),
        c == '+' ==> operator_of(c) == Operator::Add,
        c == '-' ==> operator_of(c) == Operator::Sub,
        c == 'x' ==> operator_of(c) == Operator::Mul,
        c == '/' ==> operator_of(c) == Operator::Div,
{
    let s = a + seq![c] + b;
    let n = a.len() as int;
    assert(s[n] == c);
    assert forall|k: int| 0 <= k < n implies '0' <= #[trigger] s[k] <= '9' by {
        assert(s[k] == a[k]);
    }
    assert forall|k: int| n + 1 <= k < s.len() implies '0' <= #[trigger] s[k] <= '9' by {
        assert(s[k] == b[k - n - 1]);
    }
    lemma_digit_run_end_at(s, 0, n);
    lemma_space_run_empty(s, n);
    assert(s[n + 1] == b[0]);
    lemma_space_run_empty(s, n + 1);
    lemma_digit_run_end_at(s, n + 1, s.len() as int);
    assert(formula_at(s, 0) == Some((n, n, n + 1, s.len() as int)));
    assert(s.subrange(0, n) =~= a);
    assert(s.subrange(n + 1, s.len() as int) =~= b);
}

/// With no formula remembered (at start or after a reset), a plain formula is
/// answered with the decimal text of its value: sum, difference, product, or
/// quotient of the first number by the second.
pub proof fn law_plain_formula_answer(last: LastFormula, a: Seq<char>, c: char, b: Seq<char>)
    requires
        last.op is None,
        a.len() > 0,
        b.len() > 0,
        forall|k: int| 0 <= k < a.len() ==> '0' <= #[trigger] a[k] <= '9',
        forall|k: int| 0 <= k < b.len() ==> '0' <= #[trigger] b[k] <= '9',
        c == '+' || c == '-' || c == 'x' || c == '/',
    ensures
        c == '+' ==> formula_answer(last, a + seq![c] + b) == Some(
            int_decimal(digits_value(a) as int + digits_value(b) as int),
        ),
        c == '-' ==> formula_answer(last, a + seq![c] + b) == Some(
            int_decimal(digits_value(a) - digits_value(b)),
        ),
        c == 'x' ==> formula_answer(last, a + seq![c] + b) == Some(
            int_decimal(digits_value(a) as int * digits_value(b) as int),
        ),
        c == '/' && digits_value(b) > 0 ==> formula_answer(last, a + seq![c] + b) == Some(
            int_decimal(digits_value(a) as int / digits_value(b) as int),
        ),
{
    law_plain_formula(a, c, b);
}

/// A formula is taken for a repeat, and left unanswered, exactly when its first
/// number, its operation and its second number all equal the remembered ones;
/// otherwise it is answered with the decimal text of its value, and the memory
/// then holds it.
pub proof fn law_repeat_only_when_all_equal(last: LastFormula, s: Seq<char>)
    ensures
        scan_formula(s) matches Some(f) ==> {
            &&& formula_answer(last, s) is None <==> (last.num1 == f.0 && last.op == Some(f.1)
                && last.num2 == f.2)
            &&& !(last.num1 == f.0 && last.op == Some(f.1) && last.num2 == f.2) ==> formula_answer(
                last,
                s,
            ) == Some(int_decimal(apply_operator(f.0 as int, f.1, f.2 as int)))
            &&& !(last.num1 == f.0 && last.op == Some(f.1) && last.num2 == f.2) && f.0
                <= i32::MAX && f.2 <= i32::MAX ==> next_last(last, s).num1 == f.0 && next_last(
                last,
                s,
            ).op == Some(f.1) && next_last(last, s).num2 == f.2
            &&& (last.num1 == f.0 && last.op == Some(f.1) && last.num2 == f.2) ==> next_last(last, s)
                == last
        },
        scan_formula(s) is None ==> formula_answer(last, s) is None && next_last(last, s) == last,
{
}

} // verus!
