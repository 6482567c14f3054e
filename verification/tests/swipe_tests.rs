use testocr::swipe::{
    draw_eight, draw_five, draw_four, draw_nine, draw_one, draw_result, draw_seven, draw_six,
    draw_three, draw_two, draw_zero, vec_to_string,
};

#[test]
fn script_of_no_strokes() {
    assert_eq!(vec_to_string(vec![]), "; ");
}

#[test]
fn script_of_strokes() {
    assert_eq!(vec_to_string(vec![(1, 2, 3, 4)]), "input swipe 1 2 3 4 0; ");
    assert_eq!(
        vec_to_string(vec![(1, 2, 3, 4), (-5, 6, 7, -8)]),
        "input swipe 1 2 3 4 0; input swipe -5 6 7 -8 0; "
    );
}

#[test]
fn scripts_concatenate() {
    let a = vec![(1, 2, 3, 4), (5, 6, 7, 8)];
    let b = vec![(9, 10, 11, 12)];
    let mut ab = a.clone();
    ab.extend(b.clone());
    assert_eq!(vec_to_string(ab), vec_to_string(a) + &vec_to_string(b));
}

#[test]
fn digit_zero_strokes() {
    assert_eq!(
        draw_zero(90, 100),
        "input swipe 90 100 150 100 0; input swipe 150 100 120 220 0; input swipe 120 220 90 100 0; "
    );
}

#[test]
fn digit_one_strokes() {
    assert_eq!(draw_one(0, 0), "input swipe 30 0 30 120 0; ");
}

#[test]
fn digit_strokes_counts() {
    let count = |s: String| s.matches("input swipe").count();
    assert_eq!(count(draw_two(0, 0)), 3);
    assert_eq!(count(draw_three(0, 0)), 4);
    assert_eq!(count(draw_four(0, 0)), 3);
    assert_eq!(count(draw_five(0, 0)), 5);
    assert_eq!(count(draw_six(0, 0)), 3);
    assert_eq!(count(draw_seven(0, 0)), 2);
    assert_eq!(count(draw_eight(0, 0)), 5);
    assert_eq!(count(draw_nine(0, 0)), 4);
}

#[test]
fn digit_three_strokes() {
    assert_eq!(
        draw_three(10, 20),
        "input swipe 10 20 70 60 0; input swipe 70 60 10 80 0; input swipe 10 80 70 140 0; input swipe 70 140 10 140 0; "
    );
}

#[test]
fn digit_strokes_stay_in_cell() {
    let scripts = [
        draw_zero(1000, 500),
        draw_one(1000, 500),
        draw_two(1000, 500),
        draw_three(1000, 500),
        draw_four(1000, 500),
        draw_five(1000, 500),
        draw_six(1000, 500),
        draw_seven(1000, 500),
        draw_eight(1000, 500),
        draw_nine(1000, 500),
    ];
    for s in scripts.iter() {
        for cmd in s.split("; ").filter(|c| !c.is_empty()) {
            let n: Vec<i32> = cmd.split(' ').skip(2).take(4).map(|t| t.parse().unwrap()).collect();
            assert!(1000 <= n[0] && n[0] <= 1060 && 1000 <= n[2] && n[2] <= 1060);
            assert!(500 <= n[1] && n[1] <= 620 && 500 <= n[3] && n[3] <= 620);
        }
    }
}

#[test]
fn answer_written_cell_by_cell() {
    let expected = draw_one(90, 1300) + &draw_two(250, 1300);
    assert_eq!(draw_result("12".to_string(), 2400), expected);
}

#[test]
fn minus_sign_takes_a_cell() {
    assert_eq!(draw_result("-3".to_string(), 2400), draw_three(250, 1300));
}

#[test]
fn odd_and_negative_heights() {
    assert_eq!(draw_result("7".to_string(), 2401), draw_seven(90, 1300));
    assert_eq!(draw_result("7".to_string(), -3), draw_seven(90, 99));
    assert_eq!(draw_result("".to_string(), 2400), "");
}


#[test]
fn digit_one_near_the_right_edge() {
    let x = i32::MAX - 30;
    assert_eq!(
        draw_one(x, 0),
        format!("input swipe {} 0 {} 120 0; ", i32::MAX, i32::MAX)
    );
}

#[test]
fn script_reads_back_into_strokes() {
    let steps = vec![(1, -2, 30, 400), (-5, 6, 7, -8), (0, 0, 0, 0)];
    let script = vec_to_string(steps.clone());
    let read: Vec<(i32, i32, i32, i32)> = script
        .split("; ")
        .filter(|c| !c.is_empty())
        .map(|c| {
            let n: Vec<i32> = c.split(' ').skip(2).take(4).map(|t| t.parse().unwrap()).collect();
            (n[0], n[1], n[2], n[3])
        })
        .collect();
    assert_eq!(read, steps);
    assert_ne!(vec_to_string(vec![(1, 2, 3, 4)]), vec_to_string(vec![(12, 3, 4, 0)]));
}
