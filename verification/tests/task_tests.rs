use testocr::color::rgb;
use testocr::formula::LastFormula;
use testocr::swipe::{draw_one, draw_two};
use testocr::task::{answer_swipes, command_for, AppState, Command, Key, KeyEvent};

#[test]
fn keys_ask_for_commands() {
    assert_eq!(command_for(KeyEvent::KeyPress(Key::Kp0)), Command::StartTask);
    assert_eq!(command_for(KeyEvent::KeyPress(Key::KeyR)), Command::ResetFormula);
    assert_eq!(command_for(KeyEvent::KeyPress(Key::Space)), Command::StopTask);
    assert_eq!(command_for(KeyEvent::KeyPress(Key::KeyQ)), Command::Quit);
    assert_eq!(command_for(KeyEvent::KeyPress(Key::Other)), Command::Nothing);
    assert_eq!(command_for(KeyEvent::Other), Command::Nothing);
}

#[test]
fn task_start_and_stop() {
    let mut state = AppState::new();
    assert!(!state.running);
    assert!(state.should_start());
    state.begin();
    assert!(state.keeps_running());
    assert!(!state.should_start());
    state.stop_task();
    assert!(!state.keeps_running());
    assert!(state.should_start());
}

#[test]
fn round_of_the_task() {
    let mut last = LastFormula::new();
    let s = answer_swipes(&mut last, "5 + 7 =", 2400);
    assert_eq!(s, Some(("12".to_string(), draw_one(90, 1300) + &draw_two(250, 1300))));
    assert_eq!(answer_swipes(&mut last, "5 + 7 =", 2400), None);
    assert_eq!(answer_swipes(&mut last, "nothing", 2400), None);
}

#[test]
fn colour_packing() {
    assert_eq!(rgb(0, 0, 255), 0x00ff_0000);
    assert_eq!(rgb(0x12, 0x34, 0x56), 0x0056_3412);
    let c = rgb(10, 20, 30);
    assert_eq!((c & 0xff, (c >> 8) & 0xff, (c >> 16) & 0xff), (10, 20, 30));
}
