use mandelbrot::color::{color_for, Color};

fn rgb(red: u8, green: u8, blue: u8) -> Color {
    Color { red, green, blue }
}

#[test]
fn interior_points_are_dark_teal() {
    assert_eq!(color_for(25, 25), rgb(0, 20, 20));
    assert_eq!(color_for(0, 0), rgb(0, 20, 20));
    assert_eq!(color_for(8, 8), rgb(0, 20, 20));
    assert_eq!(color_for(usize::MAX, usize::MAX), rgb(0, 20, 20));
}

#[test]
fn first_step_has_no_green_and_no_blue() {
    assert_eq!(color_for(0, 25), rgb(100, 0, 0));
    assert_eq!(color_for(0, 1000), rgb(100, 0, 0));
}

#[test]
fn green_depends_on_the_distance_to_the_budget() {
    assert_eq!(color_for(24, 25).green, 25);
    assert_eq!(color_for(23, 25).green, 2);
    assert_eq!(color_for(22, 25).green, 0);
    assert_eq!(color_for(3, 25).green, 0);
    assert_eq!(color_for(999, 1000).green, 25);
}

#[test]
fn blue_is_the_whole_part_of_the_logarithm_ratio() {
    assert_eq!(color_for(24, 25), rgb(100, 25, 251));
    assert_eq!(color_for(23, 25), rgb(100, 2, 248));
    assert_eq!(color_for(22, 25), rgb(100, 0, 245));
    assert_eq!(color_for(12, 25), rgb(100, 0, 200));
    assert_eq!(color_for(5, 25), rgb(100, 0, 140));
    assert_eq!(color_for(4, 25), rgb(100, 0, 125));
    assert_eq!(color_for(3, 25), rgb(100, 0, 108));
    assert_eq!(color_for(2, 25), rgb(100, 0, 85));
    assert_eq!(color_for(1, 25), rgb(100, 0, 54));
    assert_eq!(color_for(7, 8), rgb(100, 25, 241));
    assert_eq!(color_for(1, 2), rgb(100, 25, 160));
    assert_eq!(color_for(0, 1), rgb(100, 25, 0));
}

#[test]
fn blue_is_exact_where_the_ratio_is_a_whole_number() {
    // log 2 / log 8 is a third, log 4 / log 8 two thirds.
    assert_eq!(color_for(1, 7), rgb(100, 0, 85));
    assert_eq!(color_for(3, 7), rgb(100, 0, 170));
}

#[test]
fn counts_above_the_budget_fill_both_channels() {
    assert_eq!(color_for(30, 25), rgb(100, 255, 255));
    assert_eq!(color_for(5, 0), rgb(100, 255, 255));
    assert_eq!(color_for(1, 0), rgb(100, 255, 255));
}

#[test]
fn large_budgets_stay_in_range() {
    assert_eq!(color_for(999, 1000), rgb(100, 25, 254));
    assert_eq!(color_for(usize::MAX - 1, usize::MAX), rgb(100, 25, 254));
    assert_eq!(color_for(0, usize::MAX), rgb(100, 0, 0));
}

#[test]
fn every_count_up_to_the_budget_gives_red_100_or_the_interior() {
    for budget in 1usize..=40 {
        let mut last_blue = 0u8;
        for count in 0..budget {
            let color = color_for(count, budget);
            assert_eq!(color.red, 100);
            assert!(color.green <= 25);
            assert!(color.blue >= last_blue);
            assert!(color.blue < 255);
            last_blue = color.blue;
        }
        assert_eq!(color_for(budget, budget), rgb(0, 20, 20));
    }
}
