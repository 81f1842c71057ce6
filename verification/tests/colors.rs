use fractal_render::fractal::{color_scheme, ConvResult, EscapeCounter, EXTRA_ITER};
use fractal_render::image_utils::RGB;

#[test]
fn a_point_that_did_not_escape_is_black() {
    let res = ConvResult::new(57, 57, 4.0f64.to_bits());
    assert!(!res.escaped());
    let smooth = RGB { r: 10, g: 20, b: 30, a: 255 };
    assert_eq!(color_scheme(&res, smooth), RGB { r: 0, g: 0, b: 0, a: 255 });
}

#[test]
fn a_point_that_escaped_has_red_and_blue_exchanged() {
    let res = ConvResult::new(57, 12, 12345.0f64.to_bits());
    assert!(res.escaped());
    let smooth = RGB { r: 10, g: 20, b: 30, a: 255 };
    assert_eq!(color_scheme(&res, smooth), RGB { r: 30, g: 20, b: 10, a: 255 });
}

#[test]
fn a_count_that_is_not_the_bound_counts_as_escaped() {
    let res = ConvResult::new(0, 1, 0);
    assert!(res.escaped());
    let smooth = RGB { r: 1, g: 2, b: 3, a: 4 };
    assert_eq!(color_scheme(&res, smooth), RGB { r: 3, g: 2, b: 1, a: 255 });
}

#[test]
fn a_colour_is_opaque_whatever_the_smooth_colour() {
    let transparent = RGB { r: 9, g: 8, b: 7, a: 0 };
    assert_eq!(color_scheme(&ConvResult::new(5, 5, 0), transparent).a, 255);
    assert_eq!(
        color_scheme(&ConvResult::new(5, 2, 0), transparent),
        RGB { r: 7, g: 8, b: 9, a: 255 }
    );
}

#[test]
fn conv_result_keeps_its_fields() {
    let res = ConvResult::new(9, 4, 77);
    assert_eq!(res, ConvResult { max_iter: 9, iter: 4, norm_sqr: 77 });
}

/// Runs a counter to its end; `escapes_at` is the iteration after which the
/// point has escaped, if any. Gives the number of iterations run.
fn run(counter: &mut EscapeCounter, escapes_at: Option<usize>) -> usize {
    let mut steps = 0;
    loop {
        steps += 1;
        let escaped = escapes_at.map_or(false, |at| steps >= at);
        if counter.advance(escaped) {
            return steps;
        }
        assert!(steps < 10_000);
    }
}

#[test]
fn extra_iterations_are_five() {
    assert_eq!(EXTRA_ITER, 5);
}

#[test]
fn a_new_counter_has_counted_nothing() {
    let counter = EscapeCounter::new(9);
    assert_eq!(counter, EscapeCounter { max_iter: 9, iter: 0, terminate_iter: 0 });
}

#[test]
fn a_quiet_run_counts_up_to_the_bound_and_runs_five_more() {
    let mut counter = EscapeCounter::new(3);
    assert_eq!(run(&mut counter, None), 8);
    assert_eq!(counter.iter, 3);
    let res = counter.result(7);
    assert_eq!(res, ConvResult { max_iter: 3, iter: 3, norm_sqr: 7 });
    assert!(!res.escaped());
}

#[test]
fn an_escape_stops_the_count_and_five_more_are_run() {
    let mut counter = EscapeCounter::new(10);
    assert_eq!(run(&mut counter, Some(2)), 7);
    assert_eq!(counter.iter, 2);
    assert!(counter.result(0).escaped());
}

#[test]
fn an_escape_at_the_bound_does_not_count_as_one() {
    let mut counter = EscapeCounter::new(4);
    assert_eq!(run(&mut counter, Some(4)), 9);
    assert_eq!(counter.iter, 4);
    assert!(!counter.result(0).escaped());
}

#[test]
fn a_bound_of_zero_counts_nothing_and_runs_five() {
    let counter = EscapeCounter::new(0);
    assert_eq!(counter, EscapeCounter { max_iter: 0, iter: 0, terminate_iter: 1 });
    let mut quiet = counter;
    assert_eq!(run(&mut quiet, None), 5);
    assert_eq!(quiet.iter, 0);
    assert_eq!(quiet.result(3), ConvResult { max_iter: 0, iter: 0, norm_sqr: 3 });
    assert!(!quiet.result(3).escaped());
    let mut loud = counter;
    assert_eq!(run(&mut loud, Some(1)), 5);
    assert_eq!(loud.iter, 0);
    assert!(!loud.result(0).escaped());
}

#[test]
fn a_bound_of_one_counts_one() {
    let mut counter = EscapeCounter::new(1);
    assert_eq!(run(&mut counter, None), 6);
    assert_eq!(counter.iter, 1);
    assert!(!counter.result(0).escaped());
}

#[test]
fn a_counter_steps_as_its_rule_says() {
    let mut counter = EscapeCounter::new(2);
    assert!(!counter.advance(false));
    assert_eq!(counter, EscapeCounter { max_iter: 2, iter: 1, terminate_iter: 0 });
    assert!(!counter.advance(false));
    assert_eq!(counter, EscapeCounter { max_iter: 2, iter: 2, terminate_iter: 1 });
    for extra in 2..=5 {
        assert!(!counter.advance(true));
        assert_eq!(counter, EscapeCounter { max_iter: 2, iter: 2, terminate_iter: extra });
    }
    assert!(counter.advance(false));
    assert_eq!(counter, EscapeCounter { max_iter: 2, iter: 2, terminate_iter: 6 });
    assert!(counter.advance(false));
    assert_eq!(counter, EscapeCounter { max_iter: 2, iter: 2, terminate_iter: 6 });
}
