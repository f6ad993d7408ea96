use purepic::wheel::{accumulate_wheel, WHEEL_DELTA};

#[test]
fn a_full_notch_is_one_step() {
    assert_eq!(accumulate_wheel(0, 120), (1, 0));
    assert_eq!(accumulate_wheel(0, -120), (-1, 0));
    assert_eq!(accumulate_wheel(0, 360), (3, 0));
}

#[test]
fn fractions_add_up_to_whole_notches() {
    let (steps, rest) = accumulate_wheel(0, 40);
    assert_eq!((steps, rest), (0, 40));
    let (steps, rest) = accumulate_wheel(rest, 40);
    assert_eq!((steps, rest), (0, 80));
    let (steps, rest) = accumulate_wheel(rest, 60);
    assert_eq!((steps, rest), (1, 20));
}

#[test]
fn turning_back_discards_the_fraction() {
    assert_eq!(accumulate_wheel(100, -30), (0, -30));
    assert_eq!(accumulate_wheel(-100, 150), (1, 30));
}

#[test]
fn no_rotation_keeps_the_fraction() {
    assert_eq!(accumulate_wheel(-70, 0), (0, -70));
}

#[test]
fn kept_fraction_stays_below_a_notch() {
    let mut rest = 0;
    for delta in [119i16, 1, -7, 500, -32768, 32767, 3] {
        let (_, next) = accumulate_wheel(rest, delta);
        assert!(next.abs() < WHEEL_DELTA);
        rest = next;
    }
}

#[test]
fn a_fraction_of_several_notches_is_paid_out_at_once() {
    assert_eq!(accumulate_wheel(500, 120), (5, 20));
    assert_eq!(accumulate_wheel(-500, 120), (1, 0));
}
