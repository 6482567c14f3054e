//! The touch strokes that write digits on the device, and the shell commands
//! (`input swipe x1 y1 x2 y2 0`) that play them.
use vstd::prelude::*;
use crate::decimal::{
    digit_value, int_decimal, is_ascii_digit, lemma_int_decimal_injective,
    lemma_int_decimal_no_space, push_i32_decimal, trunc_div,
};
use crate::text::text_chars;

verus! {

/// Width of a written digit, in device pixels.
pub const BASIC_W: i32 = 60;

/// Height of a written digit, in device pixels.
pub const BASIC_H: i32 = 120;

/// Horizontal space left between two written digits, besides a margin of 20.
pub const GAP: i32 = 80;

/// A list of strokes: start and end point of each swipe.
pub type Setper = Vec<(i32, i32, i32, i32)>;

/// A stroke with its coordinates as integers.
pub open spec fn stroke_view(st: (i32, i32, i32, i32)) -> (int, int, int, int) {
    (st.0 as int, st.1 as int, st.2 as int, st.3 as int)
}

/// The strokes of a list, as integers.
pub open spec fn strokes_view(steps: Seq<(i32, i32, i32, i32)>) -> Seq<(int, int, int, int)> {
    steps.map_values(|st: (i32, i32, i32, i32)| stroke_view(st))
}

/// The shell command that plays one stroke, with a swipe duration of `0`.
pub open spec fn stroke_command(st: (int, int, int, int)) -> Seq<char> {
    "input swipe "@ + int_decimal(st.0) + " "@ + int_decimal(st.1) + " "@ + int_decimal(st.2)
        + " "@ + int_decimal(st.3) + " 0"@
}

/// Commands joined by `"; "`.
pub open spec fn join_commands(cmds: Seq<Seq<char>>) -> Seq<char>
    decreases cmds.len(),
{
    if cmds.len() == 0 {
        seq![]
    } else if cmds.len() == 1 {
        cmds[0]
    } else {
        join_commands(cmds.drop_last()) + "; "@ + cmds.last()
    }
}

/// The script for a list of strokes: their commands joined by `"; "`, then `"; "`.
pub open spec fn script_of(steps: Seq<(int, int, int, int)>) -> Seq<char> {
    join_commands(steps.map_values(|st: (int, int, int, int)| stroke_command(st))) + "; "@
}

/// The strokes that write the digit `d` in the cell whose top left corner is `(x, y)`.
pub open spec fn digit_strokes(d: int, x: int, y: int) -> Seq<(int, int, int, int)> {
    let w = BASIC_W as int;
    let h = BASIC_H as int;
    if d == 0 {
        seq![(x, y, x + w, y), (x + w, y, x + w / 2, y + h), (x + w / 2, y + h, x, y)]
    } else if d == 1 {
        seq![(x + w / 2, y, x + w / 2, y + h)]
    } else if d == 2 {
        seq![(x, y, x + w, y), (x + w, y, x, y + h), (x, y + h, x + w, y + h)]
    } else if d == 3 {
        seq![
            (x, y, x + w, y + h / 3),
            (x + w, y + h / 3, x, y + h / 2),
            (x, y + h / 2, x + w, y + h),
            (x + w, y + h, x, y + h),
        ]
    } else if d == 4 {
        seq![(x, y, x, y + h / 2), (x, y + h / 2, x + w, y + h / 2), (x + w / 2, y, x + w / 2, y + h)]
    } else if d == 5 {
        seq![
            (x, y, x, y + h / 2),
            (x, y + h / 2, x + w, y + h / 2),
            (x + w, y + h / 2, x + w, y + h),
            (x + w, y + h, x, y + h),
            (x, y, x + w, y),
        ]
    } else if d == 6 {
        seq![(x, y, x, y + h), (x, y + h, x + w, y + h / 2), (x + w, y + h / 2, x, y + h / 2)]
    } else if d == 7 {
        seq![(x, y, x + w, y), (x + w, y, x, y + h)]
    } else if d == 8 {
        seq![
            (x + w / 2, y + h / 2, x, y),
            (x, y, x + w, y),
            (x + w, y, x, y + h),
            (x, y + h, x + w, y + h),
            (x + w, y + h, x, y),
        ]
    } else {
        seq![
            (x + w, y + h / 3, x, y + h / 3),
            (x, y + h / 3, x, y),
            (x, y, x + w, y),
            (x + w, y, x, y + h),
        ]
    }
}

/// The inputs on which a digit can be drawn at `(x, y)` without leaving `i32`.
pub open spec fn cell_fits(x: int, y: int) -> bool {
    i32::MIN <= x && x + BASIC_W <= i32::MAX && i32::MIN <= y && y + BASIC_H <= i32::MAX
}

/// Appends the command that plays one stroke.
fn push_stroke_command(s: &mut String, st: (i32, i32, i32, i32))
    ensures
        final(s)@ == old(s)@ + stroke_command(stroke_view(st)),
{
    s.append("input swipe ");
    push_i32_decimal(s, st.0);
    s.append(" ");
    push_i32_decimal(s, st.1);
    s.append(" ");
    push_i32_decimal(s, st.2);
    s.append(" ");
    push_i32_decimal(s, st.3);
    s.append(" 0");
    assert(final(s)@ =~= old(s)@ + stroke_command(stroke_view(st)));
}

/// The script that plays `steps`: one `input swipe` command per stroke, each
/// followed by `"; "`.
pub fn vec_to_string(steps: Setper) -> (s: String)
    ensures
        s@ == script_of(strokes_view(steps@)),
{
    let ghost cmds = strokes_view(steps@).map_values(
        |st: (int, int, int, int)| stroke_command(st),
    );
    let mut s = String::new();
    let mut i: usize = 0;
    while i < steps.len()
        invariant
            i <= steps@.len(),
            cmds == strokes_view(steps@).map_values(|st: (int, int, int, int)| stroke_command(st)),
            cmds.len() == steps@.len(),
            s@ == join_commands(cmds.take(i as int)),
        decreases steps@.len() - i,
    {
        assert(cmds[i as int] == stroke_command(stroke_view(steps@[i as int])));
        assert(cmds.take(i as int + 1).drop_last() =~= cmds.take(i as int));
        if i > 0 {
            s.append("; ");
        } else {
            assert(s@ =~= Seq::<char>::empty());
        }
        push_stroke_command(&mut s, steps[i]);
        assert(s@ =~= join_commands(cmds.take(i as int + 1)));
        i = i + 1;
    }
    assert(cmds.take(i as int) =~= cmds);
    s.append("; ");
    s
}

/// The script that writes the digit 0 in the cell whose top left corner is
/// `(start_x, start_y)`.
pub fn draw_zero(start_x: i32, start_y: i32) -> (s: String)
    requires
        cell_fits(start_x as int, start_y as int),
    ensures
        s@ == script_of(digit_strokes(0, start_x as int, start_y as int)),
{
    let steps: Setper = vec![
        (start_x, start_y, start_x + BASIC_W, start_y),
        (start_x + BASIC_W, start_y, start_x + BASIC_W / 2, start_y + BASIC_H),
        (start_x + BASIC_W / 2, start_y + BASIC_H, start_x, start_y),
    ];
    assert(strokes_view(steps@) =~= digit_strokes(0, start_x as int, start_y as int));
    vec_to_string(steps)
}

/// The script that writes the digit 1 in the cell whose top left corner is
/// `(start_x, start_y)`.
/// Only the middle of the cell is reached across, so only `start_x + BASIC_W / 2`
/// must fit.
pub fn draw_one(start_x: i32, start_y: i32) -> (s: String)
    requires
        start_x + BASIC_W / 2 <= i32::MAX,
        start_y + BASIC_H <= i32::MAX,
    ensures
        s@ == script_of(digit_strokes(1, start_x as int, start_y as int)),
{
    let steps: Setper = vec![
        (start_x + BASIC_W / 2, start_y, start_x + BASIC_W / 2, start_y + BASIC_H),
    ];
    assert(strokes_view(steps@) =~= digit_strokes(1, start_x as int, start_y as int));
    vec_to_string(steps)
}

/// The script that writes the digit 2 in the cell whose top left corner is
/// `(start_x, start_y)`.
pub fn draw_two(start_x: i32, start_y: i32) -> (s: String)
    requires
        cell_fits(start_x as int, start_y as int),
    ensures
        s@ == script_of(digit_strokes(2, start_x as int, start_y as int)),
{
    let steps: Setper = vec![
        (start_x, start_y, start_x + BASIC_W, start_y),
        (start_x + BASIC_W, start_y, start_x, start_y + BASIC_H),
        (start_x, start_y + BASIC_H, start_x + BASIC_W, start_y + BASIC_H),
    ];
    assert(strokes_view(steps@) =~= digit_strokes(2, start_x as int, start_y as int));
    vec_to_string(steps)
}

/// The script that writes the digit 3 in the cell whose top left corner is
/// `(start_x, start_y)`.
pub fn draw_three(start_x: i32, start_y: i32) -> (s: String)
    requires
        cell_fits(start_x as int, start_y as int),
    ensures
        s@ == script_of(digit_strokes(3, start_x as int, start_y as int)),
{
    let steps: Setper = vec![
        (start_x, start_y, start_x + BASIC_W, start_y + BASIC_H / 3),
        (start_x + BASIC_W, start_y + BASIC_H / 3, start_x, start_y + BASIC_H / 2),
        (start_x, start_y + BASIC_H / 2, start_x + BASIC_W, start_y + BASIC_H),
        (start_x + BASIC_W, start_y + BASIC_H, start_x, start_y + BASIC_H),
    ];
    assert(strokes_view(steps@) =~= digit_strokes(3, start_x as int, start_y as int));
    vec_to_string(steps)
}

/// The script that writes the digit 4 in the cell whose top left corner is
/// `(start_x, start_y)`.
pub fn draw_four(start_x: i32, start_y: i32) -> (s: String)
    requires
        cell_fits(start_x as int, start_y as int),
    ensures
        s@ == script_of(digit_strokes(4, start_x as int, start_y as int)),
{
    let steps: Setper = vec![
        (start_x, start_y, start_x, start_y + BASIC_H / 2),
        (start_x, start_y + BASIC_H / 2, start_x + BASIC_W, start_y + BASIC_H / 2),
        (start_x + BASIC_W / 2, start_y, start_x + BASIC_W / 2, start_y + BASIC_H),
    ];
    assert(strokes_view(steps@) =~= digit_strokes(4, start_x as int, start_y as int));
    vec_to_string(steps)
}

/// The script that writes the digit 5 in the cell whose top left corner is
/// `(start_x, start_y)`.
pub fn draw_five(start_x: i32, start_y: i32) -> (s: String)
    requires
        cell_fits(start_x as int, start_y as int),
    ensures
        s@ == script_of(digit_strokes(5, start_x as int, start_y as int)),
{
    let steps: Setper = vec![
        (start_x, start_y, start_x, start_y + BASIC_H / 2),
        (start_x, start_y + BASIC_H / 2, start_x + BASIC_W, start_y + BASIC_H / 2),
        (start_x + BASIC_W, start_y + BASIC_H / 2, start_x + BASIC_W, start_y + BASIC_H),
        (start_x + BASIC_W, start_y + BASIC_H, start_x, start_y + BASIC_H),
        (start_x, start_y, start_x + BASIC_W, start_y),
    ];
    assert(strokes_view(steps@) =~= digit_strokes(5, start_x as int, start_y as int));
    vec_to_string(steps)
}

/// The script that writes the digit 6 in the cell whose top left corner is
/// `(start_x, start_y)`.
pub fn draw_six(start_x: i32, start_y: i32) -> (s: String)
    requires
        cell_fits(start_x as int, start_y as int),
    ensures
        s@ == script_of(digit_strokes(6, start_x as int, start_y as int)),
{
    let steps: Setper = vec![
        (start_x, start_y, start_x, start_y + BASIC_H),
        (start_x, start_y + BASIC_H, start_x + BASIC_W, start_y + BASIC_H / 2),
        (start_x + BASIC_W, start_y + BASIC_H / 2, start_x, start_y + BASIC_H / 2),
    ];
    assert(strokes_view(steps@) =~= digit_strokes(6, start_x as int, start_y as int));
    vec_to_string(steps)
}

/// The script that writes the digit 7 in the cell whose top left corner is
/// `(start_x, start_y)`.
pub fn draw_seven(start_x: i32, start_y: i32) -> (s: String)
    requires
        cell_fits(start_x as int, start_y as int),
    ensures
        s@ == script_of(digit_strokes(7, start_x as int, start_y as int)),
{
    let steps: Setper = vec![
        (start_x, start_y, start_x + BASIC_W, start_y),
        (start_x + BASIC_W, start_y, start_x, start_y + BASIC_H),
    ];
    assert(strokes_view(steps@) =~= digit_strokes(7, start_x as int, start_y as int));
    vec_to_string(steps)
}

/// The script that writes the digit 8 in the cell whose top left corner is
/// `(start_x, start_y)`.
pub fn draw_eight(start_x: i32, start_y: i32) -> (s: String)
    requires
        cell_fits(start_x as int, start_y as int),
    ensures
        s@ == script_of(digit_strokes(8, start_x as int, start_y as int)),
{
    let steps: Setper = vec![
        (start_x + BASIC_W / 2, start_y + BASIC_H / 2, start_x, start_y),
        (start_x, start_y, start_x + BASIC_W, start_y),
        (start_x + BASIC_W, start_y, start_x, start_y + BASIC_H),
        (start_x, start_y + BASIC_H, start_x + BASIC_W, start_y + BASIC_H),
        (start_x + BASIC_W, start_y + BASIC_H, start_x, start_y),
    ];
    assert(strokes_view(steps@) =~= digit_strokes(8, start_x as int, start_y as int));
    vec_to_string(steps)
}

/// The script that writes the digit 9 in the cell whose top left corner is
/// `(start_x, start_y)`.
pub fn draw_nine(start_x: i32, start_y: i32) -> (s: String)
    requires
        cell_fits(start_x as int, start_y as int),
    ensures
        s@ == script_of(digit_strokes(9, start_x as int, start_y as int)),
{
    let steps: Setper = vec![
        (start_x + BASIC_W, start_y + BASIC_H / 3, start_x, start_y + BASIC_H / 3),
        (start_x, start_y + BASIC_H / 3, start_x, start_y),
        (start_x, start_y, start_x + BASIC_W, start_y),
        (start_x + BASIC_W, start_y, start_x, start_y + BASIC_H),
    ];
    assert(strokes_view(steps@) =~= digit_strokes(9, start_x as int, start_y as int));
    vec_to_string(steps)
}

/// Left edge of the cell of the `i`-th character of an answer.
pub open spec fn glyph_x(i: int) -> int {
    90 + i * (BASIC_W + GAP + 20)
}

/// Top edge of the cells on a device `device_h` pixels high: below the middle.
pub open spec fn glyph_y(device_h: int) -> int {
    trunc_div(device_h, 2) + 100
}

/// The script that writes one character at `(x, y)`: a digit is written, any
/// other character (a minus sign) is left out but still takes its cell.
pub open spec fn glyph_script(c: char, x: int, y: int) -> Seq<char> {
    if is_ascii_digit(c) {
        script_of(digit_strokes(digit_value(c), x, y))
    } else {
        seq![]
    }
}

/// The script that writes an answer, character `i` in the cell at `glyph_x(i)`.
pub open spec fn answer_script(res: Seq<char>, y: int) -> Seq<char>
    decreases res.len(),
{
    if res.len() == 0 {
        seq![]
    } else {
        answer_script(res.drop_last(), y) + glyph_script(res.last(), glyph_x(res.len() - 1), y)
    }
}

/// The script that writes the answer `res` on a device `device_h` pixels high,
/// one cell per character from the left edge.
pub fn draw_result(res: String, device_h: i32) -> (s: String)
    requires
        glyph_x(res@.len() as int) <= i32::MAX,
    ensures
        s@ == answer_script(res@, glyph_y(device_h as int)),
{
    let start_y = device_h / 2 + 100;
    let ghost y = glyph_y(device_h as int);
    assert(start_y == y);
    let chars = text_chars(res.as_str());
    let mut start_x: i32 = 90;
    let mut swipe = String::new();
    let mut i: usize = 0;
    while i < chars.len()
        invariant
            i <= chars@.len(),
            chars@ == res@,
            glyph_x(res@.len() as int) <= i32::MAX,
            start_y == y,
            y == glyph_y(device_h as int),
            start_x == glyph_x(i as int),
            swipe@ == answer_script(chars@.take(i as int), y),
        decreases chars@.len() - i,
    {
        assert(glyph_x(i as int) + BASIC_W <= i32::MAX) by (nonlinear_arith)
            requires
                glyph_x(res@.len() as int) <= i32::MAX,
                i < res@.len(),
                glyph_x(i as int) == 90 + i * 160,
                glyph_x(res@.len() as int) == 90 + res@.len() * 160,
        ;
        let ghost before = swipe@;
        let c = chars[i];
        match c {
            '0' => swipe.append(draw_zero(start_x, start_y).as_str()),
            '1' => swipe.append(draw_one(start_x, start_y).as_str()),
            '2' => swipe.append(draw_two(start_x, start_y).as_str()),
            '3' => swipe.append(draw_three(start_x, start_y).as_str()),
            '4' => swipe.append(draw_four(start_x, start_y).as_str()),
            '5' => swipe.append(draw_five(start_x, start_y).as_str()),
            '6' => swipe.append(draw_six(start_x, start_y).as_str()),
            '7' => swipe.append(draw_seven(start_x, start_y).as_str()),
            '8' => swipe.append(draw_eight(start_x, start_y).as_str()),
            '9' => swipe.append(draw_nine(start_x, start_y).as_str()),
            _ => {},
        }
        assert(chars@.take(i as int + 1).drop_last() =~= chars@.take(i as int));
        assert(swipe@ =~= before + glyph_script(c, glyph_x(i as int), y));
        assert(glyph_x(i as int + 1) <= i32::MAX) by (nonlinear_arith)
            requires
                glyph_x(res@.len() as int) <= i32::MAX,
                i + 1 <= res@.len(),
                glyph_x(i as int + 1) == 90 + (i + 1) * 160,
                glyph_x(res@.len() as int) == 90 + res@.len() * 160,
        ;
        start_x = start_x + BASIC_W + GAP + 20;
        i = i + 1;
    }
    assert(chars@.take(i as int) =~= res@);
    swipe
}

/// Whether a stroke stays inside the cell whose top left corner is `(x, y)`.
pub open spec fn stroke_in_cell(st: (int, int, int, int), x: int, y: int) -> bool {
    &&& x <= st.0 <= x + BASIC_W
    &&& x <= st.2 <= x + BASIC_W
    &&& y <= st.1 <= y + BASIC_H
    &&& y <= st.3 <= y + BASIC_H
}

/// Every digit is written with at least one stroke, and every stroke stays
/// inside the digit's cell, `BASIC_W` wide and `BASIC_H` high.
pub proof fn law_digit_in_cell(d: int, x: int, y: int)
    requires
        0 <= d < 10,
    ensures
        digit_strokes(d, x, y).len() >= 1,
        forall|k: int|
            0 <= k < digit_strokes(d, x, y).len() ==> stroke_in_cell(
                #[trigger] digit_strokes(d, x, y)[k],
                x,
                y,
            ),
{
}

/// Cells of different characters of an answer do not overlap: a cell ends
/// `GAP + 20` pixels before the next one starts, so each digit written stays
/// clear of every other.
pub proof fn law_cells_apart(i: int, j: int)
    requires
        0 <= i < j,
    ensures
        glyph_x(i) + BASIC_W + GAP + 20 <= glyph_x(j),
{
    assert(i * 160 + 160 <= j * 160) by (nonlinear_arith)
        requires
            i < j,
    ;
}

proof fn lemma_join_append(a: Seq<Seq<char>>, b: Seq<Seq<char>>)
    requires
        a.len() > 0,
        b.len() > 0,
    ensures
        join_commands(a + b) == join_commands(a) + "; "@ + join_commands(b),
    decreases b.len(),
{
    if b.len() == 1 {
        assert((a + b).drop_last() =~= a);
    } else {
        lemma_join_append(a, b.drop_last());
        assert((a + b).drop_last() =~= a + b.drop_last());
        assert(join_commands(a + b) =~= join_commands(a) + "; "@ + join_commands(b));
    }
}

/// Playing two non-empty lists of strokes one after the other is playing
/// the list of all of them: the script of the whole is the two scripts in turn.
pub proof fn law_script_concat(a: Seq<(int, int, int, int)>, b: Seq<(int, int, int, int)>)
    requires
        a.len() > 0,
        b.len() > 0,
    ensures
        script_of(a + b) == script_of(a) + script_of(b),
{
    let f = |st: (int, int, int, int)| stroke_command(st);
    assert((a + b).map_values(f) =~= a.map_values(f) + b.map_values(f));
    lemma_join_append(a.map_values(f), b.map_values(f));
    assert(script_of(a + b) =~= script_of(a) + script_of(b));
}

/// The script of a list of strokes written from the back: each stroke's command
/// followed by `"; "`.
pub open spec fn terminated_script(steps: Seq<(int, int, int, int)>) -> Seq<char>
    decreases steps.len(),
{
    if steps.len() == 0 {
        seq![]
    } else {
        terminated_script(steps.drop_last()) + stroke_command(steps.last()) + "; "@
    }
}

proof fn lemma_script_terminated(steps: Seq<(int, int, int, int)>)
    requires
        steps.len() > 0,
    ensures
        script_of(steps) == terminated_script(steps),
    decreases steps.len(),
{
    let f = |st: (int, int, int, int)| stroke_command(st);
    let cmds = steps.map_values(f);
    if steps.len() == 1 {
        assert(steps.drop_last() =~= Seq::<(int, int, int, int)>::empty());
        assert(terminated_script(steps.drop_last()) == Seq::<char>::empty());
        assert(terminated_script(steps) == Seq::<char>::empty() + stroke_command(steps.last()) + "; "@);
        assert(cmds =~= seq![stroke_command(steps.last())]);
        assert(terminated_script(steps) =~= stroke_command(steps[0]) + "; "@);
    } else {
        lemma_script_terminated(steps.drop_last());
        assert(cmds.drop_last() =~= steps.drop_last().map_values(f));
        assert(script_of(steps) =~= terminated_script(steps));
    }
}

/// Two texts that end with the same text are equal once it is cut off.
proof fn lemma_cancel_suffix(a: Seq<char>, b: Seq<char>, l: Seq<char>)
    requires
        a + l == b + l,
    ensures
        a == b,
{
    assert((a + l).len() == (b + l).len());
    assert(a =~= (a + l).take(a.len() as int));
    assert(b =~= (b + l).take(b.len() as int));
}

/// A text cut after its last space: the part after the space, which holds none,
/// and the part up to the space are both fixed by the text.
proof fn lemma_split_last_space(a: Seq<char>, u: Seq<char>, b: Seq<char>, v: Seq<char>)
    requires
        a.len() > 0,
        a.last() == ' ',
        b.len() > 0,
        b.last() == ' ',
        forall|k: int| 0 <= k < u.len() ==> u[k] != ' ',
        forall|k: int| 0 <= k < v.len() ==> v[k] != ' ',
        a + u == b + v,
    ensures
        a == b,
        u == v,
{
    let t = a + u;
    assert(t.len() == a.len() + u.len());
    assert(t.len() == b.len() + v.len());
    if u.len() < v.len() {
        let k = a.len() - 1;
        assert(b.len() <= k);
        assert(t[k] == ' ');
        assert((b + v)[k] == v[k - b.len()]);
        assert(v[k - b.len()] != ' ');
    } else if v.len() < u.len() {
        let k = b.len() - 1;
        assert(a.len() <= k);
        assert((b + v)[k] == ' ');
        assert(t[k] == u[k - a.len()]);
        assert(u[k - a.len()] != ' ');
    }
    assert(a =~= t.take(a.len() as int));
    assert(b =~= (b + v).take(b.len() as int));
    assert(u =~= t.skip(a.len() as int));
    assert(v =~= (b + v).skip(b.len() as int));
}

/// A field after a space, read back off the end of a text.
proof fn lemma_peel_field(p: Seq<char>, d: Seq<char>, q: Seq<char>, e: Seq<char>)
    requires
        p + " "@ + d == q + " "@ + e,
        forall|k: int| 0 <= k < d.len() ==> d[k] != ' ',
        forall|k: int| 0 <= k < e.len() ==> e[k] != ' ',
    ensures
        p == q,
        d == e,
{
    reveal_strlit(" ");
    assert((p + " "@).last() == ' ');
    assert((q + " "@).last() == ' ');
    lemma_split_last_space(p + " "@, d, q + " "@, e);
    lemma_cancel_suffix(p, q, " "@);
}

/// The command of a stroke, followed by `"; "`, is read back off the end of any
/// text: the stroke and what comes before it are fixed.
proof fn lemma_stroke_suffix(x: Seq<char>, s: (int, int, int, int), y: Seq<char>, t: (int, int, int, int))
    requires
        x + stroke_command(s) + "; "@ == y + stroke_command(t) + "; "@,
    ensures
        s == t,
        x == y,
{
    let sp = " "@;
    let head = "input swipe "@;
    lemma_int_decimal_no_space(s.0);
    lemma_int_decimal_no_space(s.1);
    lemma_int_decimal_no_space(s.2);
    lemma_int_decimal_no_space(s.3);
    lemma_int_decimal_no_space(t.0);
    lemma_int_decimal_no_space(t.1);
    lemma_int_decimal_no_space(t.2);
    lemma_int_decimal_no_space(t.3);
    let d0 = int_decimal(s.0);
    let d1 = int_decimal(s.1);
    let d2 = int_decimal(s.2);
    let d3 = int_decimal(s.3);
    let e0 = int_decimal(t.0);
    let e1 = int_decimal(t.1);
    let e2 = int_decimal(t.2);
    let e3 = int_decimal(t.3);
    lemma_cancel_suffix(x + stroke_command(s), y + stroke_command(t), "; "@);
    let p3 = x + head + d0 + sp + d1 + sp + d2;
    let q3 = y + head + e0 + sp + e1 + sp + e2;
    assert(x + stroke_command(s) =~= p3 + sp + d3 + " 0"@);
    assert(y + stroke_command(t) =~= q3 + sp + e3 + " 0"@);
    lemma_cancel_suffix(p3 + sp + d3, q3 + sp + e3, " 0"@);
    lemma_peel_field(p3, d3, q3, e3);
    let p2 = x + head + d0 + sp + d1;
    let q2 = y + head + e0 + sp + e1;
    lemma_peel_field(p2, d2, q2, e2);
    let p1 = x + head + d0;
    let q1 = y + head + e0;
    lemma_peel_field(p1, d1, q1, e1);
    lemma_head_field(x, d0, y, e0);
    lemma_int_decimal_injective(s.0, t.0);
    lemma_int_decimal_injective(s.1, t.1);
    lemma_int_decimal_injective(s.2, t.2);
    lemma_int_decimal_injective(s.3, t.3);
}

/// The first field of a command, read back after the words `input swipe `.
proof fn lemma_head_field(x: Seq<char>, d: Seq<char>, y: Seq<char>, e: Seq<char>)
    requires
        x + "input swipe "@ + d == y + "input swipe "@ + e,
        forall|k: int| 0 <= k < d.len() ==> d[k] != ' ',
        forall|k: int| 0 <= k < e.len() ==> e[k] != ' ',
    ensures
        x == y,
        d == e,
{
    reveal_strlit("input swipe ");
    assert((x + "input swipe "@).last() == ' ');
    assert((y + "input swipe "@).last() == ' ');
    lemma_split_last_space(x + "input swipe "@, d, y + "input swipe "@, e);
    lemma_cancel_suffix(x, y, "input swipe "@);
}

proof fn lemma_terminated_injective(a: Seq<(int, int, int, int)>, b: Seq<(int, int, int, int)>)
    requires
        terminated_script(a) == terminated_script(b),
    ensures
        a == b,
    decreases a.len() + b.len(),
{
    reveal_strlit("input swipe ");
    if a.len() == 0 && b.len() == 0 {
        assert(a =~= b);
    } else if a.len() == 0 {
        assert(terminated_script(b).len() >= "input swipe "@.len());
    } else if b.len() == 0 {
        assert(terminated_script(a).len() >= "input swipe "@.len());
    } else {
        lemma_stroke_suffix(
            terminated_script(a.drop_last()),
            a.last(),
            terminated_script(b.drop_last()),
            b.last(),
        );
        lemma_terminated_injective(a.drop_last(), b.drop_last());
        assert(a =~= a.drop_last().push(a.last()));
        assert(b =~= b.drop_last().push(b.last()));
    }
}

/// A script is read back into the strokes it plays: lists of strokes with the
/// same script are the same list (the empty list alone gives `"; "`).
pub proof fn law_script_determines_strokes(a: Seq<(i32, i32, i32, i32)>, b: Seq<(i32, i32, i32, i32)>)
    requires
        script_of(strokes_view(a)) == script_of(strokes_view(b)),
    ensures
        a == b,
{
    reveal_strlit("input swipe ");
    reveal_strlit("; ");
    let va = strokes_view(a);
    let vb = strokes_view(b);
    if va.len() > 0 {
        lemma_script_terminated(va);
    }
    if vb.len() > 0 {
        lemma_script_terminated(vb);
    }
    if va.len() == 0 && vb.len() > 0 {
        assert(script_of(va) =~= "; "@);
        assert(terminated_script(vb).len() >= "input swipe "@.len());
    } else if vb.len() == 0 && va.len() > 0 {
        assert(script_of(vb) =~= "; "@);
        assert(terminated_script(va).len() >= "input swipe "@.len());
    } else if va.len() > 0 {
        lemma_terminated_injective(va, vb);
    }
    assert forall|k: int| 0 <= k < a.len() implies a[k] == b[k] by {
        assert(va[k] == vb[k]);
    }
    assert(a =~= b);
}

/// The shape of each digit in its cell, 60 pixels wide and 120 high with its
/// top left corner at `(x, y)`: every stroke as (from, to), in the order drawn.
///
/// 0: a top bar, a slant from the top right corner to the bottom middle, and one
/// back to the top left. 1: a vertical down the middle. 2: a top bar, a slant from
/// the top right to the bottom left, a bottom bar. 3: zigzag from the top left to
/// the right a third down, to the left at half height, to the bottom right, then a
/// bottom bar. 4: the left edge of the upper half, a middle bar, a vertical down
/// the middle. 5: the left edge of the upper half, a middle bar, the right edge of
/// the lower half, a bottom bar, a top bar. 6: the whole left edge, a slant from
/// the bottom left up to the right at half height, a middle bar back to the left.
/// 7: a top bar and a slant from the top right to the bottom left. 8: from the
/// centre to the top left, a top bar, a slant to the bottom left, a bottom bar, a
/// slant from the bottom right back to the top left. 9: a bar a third down from
/// right to left, the left edge up to the top, a top bar, and a slant from the top
/// right corner to the bottom left corner.
pub proof fn law_digit_shapes(x: int, y: int)
    ensures
        digit_strokes(0, x, y) == seq![
            (x, y, x + 60, y),
            (x + 60, y, x + 30, y + 120),
            (x + 30, y + 120, x, y),
        ],
        digit_strokes(1, x, y) == seq![(x + 30, y, x + 30, y + 120)],
        digit_strokes(2, x, y) == seq![
            (x, y, x + 60, y),
            (x + 60, y, x, y + 120),
            (x, y + 120, x + 60, y + 120),
        ],
        digit_strokes(3, x, y) == seq![
            (x, y, x + 60, y + 40),
            (x + 60, y + 40, x, y + 60),
            (x, y + 60, x + 60, y + 120),
            (x + 60, y + 120, x, y + 120),
        ],
        digit_strokes(4, x, y) == seq![
            (x, y, x, y + 60),
            (x, y + 60, x + 60, y + 60),
            (x + 30, y, x + 30, y + 120),
        ],
        digit_strokes(5, x, y) == seq![
            (x, y, x, y + 60),
            (x, y + 60, x + 60, y + 60),
            (x + 60, y + 60, x + 60, y + 120),
            (x + 60, y + 120, x, y + 120),
            (x, y, x + 60, y),
        ],
        digit_strokes(6, x, y) == seq![
            (x, y, x, y + 120),
            (x, y + 120, x + 60, y + 60),
            (x + 60, y + 60, x, y + 60),
        ],
        digit_strokes(7, x, y) == seq![(x, y, x + 60, y), (x + 60, y, x, y + 120)],
        digit_strokes(8, x, y) == seq![
            (x + 30, y + 60, x, y),
            (x, y, x + 60, y),
            (x + 60, y, x, y + 120),
            (x, y + 120, x + 60, y + 120),
            (x + 60, y + 120, x, y),
        ],
        digit_strokes(9, x, y) == seq![
            (x + 60, y + 40, x, y + 40),
            (x, y + 40, x, y),
            (x, y, x + 60, y),
            (x + 60, y, x, y + 120),
        ],
{
}

/// Writing an answer one character longer: an ASCII digit `c` adds the strokes of
/// its value (at least one) in the next cell, 160 pixels right of the previous
/// one and the first at x = 90; any other character (a minus sign) adds nothing.
pub proof fn law_answer_script_push(res: Seq<char>, c: char, y: int)
    ensures
        '0' <= c <= '9' ==> answer_script(res.push(c), y) == answer_script(res, y) + script_of(
            digit_strokes(c as int - 48, 90 + 160 * (res.len() as int), y),
        ),
        '0' <= c <= '9' ==> digit_strokes(c as int - 48, 90 + 160 * (res.len() as int), y).len() >= 1,
        !('0' <= c <= '9') ==> answer_script(res.push(c), y) == answer_script(res, y),
        answer_script(Seq::<char>::empty(), y) == Seq::<char>::empty(),
{
    assert(res.push(c).drop_last() =~= res);
    if '0' <= c <= '9' {
        law_digit_in_cell(c as int - 48, 90 + 160 * (res.len() as int), y);
        assert(glyph_x(res.len() as int) == 90 + 160 * (res.len() as int)) by (nonlinear_arith);
    }
}

/// The cells of an answer stand at half the device height plus 100 pixels.
pub proof fn law_answer_row(device_h: int)
    ensures
        device_h >= 0 ==> glyph_y(device_h) == device_h / 2 + 100,
        device_h < 0 ==> glyph_y(device_h) == -((-device_h) / 2) + 100,
{
}

/// The script of one stroke from `(x1, y1)` to `(x2, y2)` is the shell command
/// `input swipe x1 y1 x2 y2 0; `: start point first, then end point, each as
/// x then y in decimal, then a duration of 0.
pub proof fn law_single_stroke_script(x1: int, y1: int, x2: int, y2: int)
    ensures
        script_of(seq![(x1, y1, x2, y2)]) == "input swipe "@ + int_decimal(x1) + " "@ + int_decimal(
            y1,
        ) + " "@ + int_decimal(x2) + " "@ + int_decimal(y2) + " 0; "@,
{
    reveal_strlit(" 0");
    reveal_strlit("; ");
    reveal_strlit(" 0; ");
    let st = (x1, y1, x2, y2);
    lemma_script_terminated(seq![st]);
    assert(seq![st].drop_last() =~= Seq::<(int, int, int, int)>::empty());
    assert(terminated_script(seq![st].drop_last()) == Seq::<char>::empty());
    assert(" 0"@ + "; "@ =~= " 0; "@);
    assert(terminated_script(seq![st]) =~= "input swipe "@ + int_decimal(x1) + " "@ + int_decimal(
        y1,
    ) + " "@ + int_decimal(x2) + " "@ + int_decimal(y2) + " 0; "@);
}

} // verus!
