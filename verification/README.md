# testocr

Answers arithmetic drills on an Android device: a region of the desktop screen
(where an emulator shows a formula such as `12 + 7`) is captured, read by the
`tesseract` text recogniser, the formula is computed, and the answer is written
on the device with `adb shell input swipe` strokes, one digit per cell.

The library in `src/` holds the logic, verified with Verus:

- `formula`: finding the first formula in recognised text, computing it, and the
  memory that answers a formula still on screen only once (`cpt_basic_arithmetic`,
  `reset_formula`);
- `swipe`: the strokes of each digit and the shell script that plays them
  (`draw_zero` .. `draw_nine`, `vec_to_string`, `draw_result`);
- `capture`: the screen region copied out of a BGRA frame into RGBA, and its BMP
  encoding (through the `image` crate);
- `device`: what `adb` reports (device listed, screen size);
- `task`: the keys that control the task, its running state, and one round of it;
- `decimal`, `text`, `color`: decimal text of integers, character runs, colour packing.

`app/` is the program around it: keyboard hook (`rdev`), screen capture (`scrap`),
text recognition (`rusty-tesseract`), `adb` processes, and a Windows overlay.
