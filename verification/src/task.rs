//! The control of the answering task: the keys that start, stop and reset it,
//! whether it runs, and one round of it from the text read off the screen.
use vstd::prelude::*;
use crate::decimal::lemma_i32_decimal_len;
use crate::formula::{
    cpt_basic_arithmetic, formula_answer, formula_fits, next_last, LastFormula,
};
use crate::swipe::{answer_script, draw_result, glyph_x, glyph_y};

verus! {

/// Whether the answering task runs.
pub struct AppState {
    pub running: bool,
}

impl AppState {
    /// The state at start: not running.
    pub fn new() -> (state: AppState)
        ensures
            !state.running,
    {
        AppState { running: false }
    }

    /// Whether a start request starts a task: not while one runs.
    pub fn should_start(&self) -> (start: bool)
        ensures
            start == !self.running,
    {
        !self.running
    }

    /// Marks the task as running, as a started task does first.
    pub fn begin(&mut self)
        ensures
            final(self).running,
    {
        self.running = true;
    }

    /// Asks the task to stop after its current round.
    pub fn stop_task(&mut self)
        ensures
            !final(self).running,
    {
        self.running = false;
    }

    /// Whether the task goes on with another round.
    pub fn keeps_running(&self) -> (more: bool)
        ensures
            more == self.running,
    {
        self.running
    }
}

/// The keys that control the task.
#[derive(Clone, Copy, Debug, PartialEq, Eq, Structural)]
pub enum Key {
    /// `0` on the keypad.
    Kp0,
    KeyR,
    Space,
    KeyQ,
    /// Any other key.
    Other,
}

/// What the keyboard reports.
#[derive(Clone, Copy, Debug, PartialEq, Eq, Structural)]
pub enum KeyEvent {
    KeyPress(Key),
    /// A key release, or any other event.
    Other,
}

/// What a key asks for.
#[derive(Clone, Copy, Debug, PartialEq, Eq, Structural)]
pub enum Command {
    StartTask,
    ResetFormula,
    StopTask,
    Quit,
    Nothing,
}

/// What an event asks for: keypad `0` starts the task, `R` resets the formula
/// memory, space stops the task, `Q` quits; anything else asks for nothing.
pub fn command_for(event: KeyEvent) -> (command: Command)
    ensures
        event == KeyEvent::KeyPress(Key::Kp0) ==> command == Command::StartTask,
        event == KeyEvent::KeyPress(Key::KeyR) ==> command == Command::ResetFormula,
        event == KeyEvent::KeyPress(Key::Space) ==> command == Command::StopTask,
        event == KeyEvent::KeyPress(Key::KeyQ) ==> command == Command::Quit,
        event == KeyEvent::KeyPress(Key::Other) || event == KeyEvent::Other ==> command
            == Command::Nothing,
{
    match event {
        KeyEvent::KeyPress(key) => match key {
            Key::Kp0 => Command::StartTask,
            Key::KeyR => Command::ResetFormula,
            Key::Space => Command::StopTask,
            Key::KeyQ => Command::Quit,
            Key::Other => Command::Nothing,
        },
        KeyEvent::Other => Command::Nothing,
    }
}

/// One round of the task once the screen has been read: the answer to the
/// formula in `ocr_text`, and the script that writes it, unless there is no
/// answer to give.
pub fn answer_swipes(last: &mut LastFormula, ocr_text: &str, device_h: i32) -> (res: Option<
    (String, String),
>)
    requires
        formula_fits(*old(last), ocr_text@),
    ensures
        *final(last) == next_last(*old(last), ocr_text@),
        res is Some <==> formula_answer(*old(last), ocr_text@) is Some,
        res matches Some((answer, script)) ==> {
            &&& formula_answer(*old(last), ocr_text@) == Some(answer@)
            &&& script@ == answer_script(answer@, glyph_y(device_h as int))
        },
{
    match cpt_basic_arithmetic(last, ocr_text) {
        Some(res) => {
            proof {
                let f = crate::formula::scan_formula(ocr_text@)->0;
                let v = crate::formula::apply_operator(f.0 as int, f.1, f.2 as int);
                lemma_i32_decimal_len(v as i32);
                assert(res@ == crate::decimal::int_decimal(v));
                let n = res@.len();
                assert(glyph_x(n as int) <= i32::MAX) by (nonlinear_arith)
                    requires
                        n <= 11,
                        glyph_x(n as int) == 90 + n * 160,
                ;
            }
            let script = draw_result(res.clone(), device_h);
            Some((res, script))
        },
        None => None,
    }
}

} // verus!
