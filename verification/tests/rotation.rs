use pixel_shift::rotation::{line_shift, step_around};

#[test]
fn the_shift_is_the_product_brought_onto_the_axis() {
    assert_eq!(line_shift(0, 32, 4), 0);
    assert_eq!(line_shift(1, 32, 4), 0);
    assert_eq!(line_shift(1, 1, 2), 1);
    assert_eq!(line_shift(3, 32, 7), 5);
    assert_eq!(line_shift(5, 32, 100), 60);
    assert_eq!(line_shift(4, 3, 5), 2);
}

#[test]
fn a_negative_increment_shifts_the_other_way_round() {
    assert_eq!(line_shift(3, -32, 7), 2);
    assert_eq!(line_shift(1, -1, 5), 4);
    assert_eq!(line_shift(2, -1, 5), 3);
    assert_eq!(line_shift(5, -1, 5), 0);
    assert_eq!(line_shift(0, -32, 9), 0);
    assert_eq!(line_shift(1, -32, 32), 0);
}

#[test]
fn opposite_increments_give_shifts_that_cancel() {
    for len in 1..12u32 {
        for index in 0..12u32 {
            for k in [-33i64, -32, -5, -1, 0, 1, 5, 32, 33] {
                let there = line_shift(index, k, len);
                let back = line_shift(index, -k, len);
                assert!(there < len);
                assert_eq!((there + back) % len, 0);
            }
        }
    }
}

#[test]
fn an_axis_of_one_cell_never_shifts() {
    assert_eq!(line_shift(0, 32, 1), 0);
    assert_eq!(line_shift(17, -32, 1), 0);
    assert_eq!(line_shift(u32::MAX, i64::MIN, 1), 0);
}

#[test]
fn the_widest_operands_do_not_overflow() {
    assert_eq!(line_shift(u32::MAX, i64::MAX, u32::MAX), 0);
    assert_eq!(line_shift(u32::MAX, i64::MAX, 1000), 65);
    assert_eq!(line_shift(u32::MAX, i64::MIN, 1000), 640);
    assert_eq!(line_shift(1, i64::MIN, 1000), 192);
    assert_eq!(line_shift(1, i64::MIN, u32::MAX), 2147483647);
    assert_eq!(line_shift(u32::MAX, -1, 10), 5);
}

#[test]
fn steps_go_round_the_axis() {
    assert_eq!(step_around(0, 0, 1), 0);
    assert_eq!(step_around(0, 3, 5), 3);
    assert_eq!(step_around(1, 3, 5), 4);
    assert_eq!(step_around(2, 3, 5), 0);
    assert_eq!(step_around(4, 4, 5), 3);
    assert_eq!(step_around(u32::MAX - 1, u32::MAX - 1, u32::MAX), u32::MAX - 2);
}
