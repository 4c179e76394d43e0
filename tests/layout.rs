use ascii_forge::layout::{
    calculate_layout, fixed, flexible, max, min, percent, range, resolve_constraints,
    CalculatedLayout, Constraint, Layout, LayoutError, Rect,
};
use ascii_forge::math::{vec2, Vec2};

#[test]
fn test_percent_plus_fixed_heights() {
    let layout_result = Layout::new()
        .row(percent(100), vec![percent(100)])
        .row(fixed(5), vec![percent(100)])
        .calculate(vec2(100, 100))
        .unwrap();
    assert_eq!(
        layout_result,
        vec![
            vec![Rect::new(0, 0, 100, 95)],
            vec![Rect::new(0, 95, 100, 5)]
        ]
    );
}

#[test]
fn test_even_flexible_split() {
    let layout_result = Layout::new()
        .row(flexible(), vec![flexible(), flexible()])
        .row(flexible(), vec![flexible(), flexible()])
        .calculate(vec2(100, 100))
        .unwrap();
    assert_eq!(
        layout_result,
        vec![
            vec![Rect::new(0, 0, 50, 50), Rect::new(50, 0, 50, 50)],
            vec![Rect::new(0, 50, 50, 50), Rect::new(50, 50, 50, 50)]
        ]
    );
}

#[test]
fn test_rect_helpers() {
    let rect = Rect::new(10, 20, 30, 40);
    assert_eq!(rect.position(), vec2(10, 20));
    assert_eq!(rect.size(), vec2(30, 40));
    assert_eq!(rect.bottom_right(), vec2(40, 60));
    assert_eq!(rect.center(), vec2(25, 40));
}

#[test]
fn test_rect_padding() {
    let rect = Rect::new(10, 10, 30, 30);
    let padded = rect.with_padding(5);
    assert_eq!(padded, Rect::new(15, 15, 20, 20));
}

#[test]
fn test_rect_from_corners() {
    let rect = Rect::from_corners(vec2(10, 20), vec2(40, 60));
    assert_eq!(rect, Rect::new(10, 20, 30, 40));
}

#[test]
fn test_min_constraint() {
    let sizes = resolve_constraints(&[min(30), min(20)], 100).unwrap();
    assert_eq!(sizes, vec![55, 45]); // Remaining space distributed
}

#[test]
fn test_max_constraint() {
    let sizes = resolve_constraints(&[max(30), flexible()], 100).unwrap();
    assert_eq!(sizes, vec![30, 70]);
}

#[test]
fn test_min_insufficient() {
    let result = resolve_constraints(&[min(60), min(60)], 100);
    assert_eq!(result, Err(LayoutError::InsufficientSpace));
}

#[test]
fn fixed_then_flexible_takes_the_rest() {
    let sizes = resolve_constraints(&[fixed(5), flexible()], 20).unwrap();
    assert_eq!(sizes, vec![5, 15]);
}

#[test]
fn half_and_half_of_an_odd_space_fits() {
    let sizes = resolve_constraints(&[percent(50), percent(50)], 101).unwrap();
    let total: u32 = sizes.iter().map(|&s| s as u32).sum();
    assert!(total <= 101);
    assert_eq!(sizes, vec![50, 50]);
}

#[test]
fn empty_constraints_give_no_sizes() {
    assert_eq!(resolve_constraints(&[], 10), Ok(vec![]));
}

#[test]
fn percentage_over_hundred_is_invalid() {
    assert_eq!(
        resolve_constraints(&[percent(101)], 100),
        Err(LayoutError::InvalidPercentages)
    );
    assert_eq!(
        resolve_constraints(&[percent(60), percent(50)], 100),
        Err(LayoutError::InvalidPercentages)
    );
}

#[test]
fn fixed_sizes_over_the_space_fail() {
    assert_eq!(
        resolve_constraints(&[fixed(15), fixed(10)], 20),
        Err(LayoutError::InsufficientSpace)
    );
}

#[test]
fn percentages_round_half_up() {
    // 33% of 10 is 3.3, 50% of 9 is 4.5.
    assert_eq!(resolve_constraints(&[percent(33)], 10), Ok(vec![3]));
    assert_eq!(resolve_constraints(&[percent(50)], 9), Ok(vec![5]));
}

#[test]
fn percentages_shrink_next_to_fixed() {
    // Ideal 80 + fixed 40 exceed 100: the share is scaled by 60 / 80.
    assert_eq!(
        resolve_constraints(&[percent(80), fixed(40)], 100),
        Ok(vec![60, 40])
    );
}

#[test]
fn uneven_slack_goes_to_earlier_first() {
    assert_eq!(
        resolve_constraints(&[flexible(), flexible(), flexible()], 10),
        Ok(vec![4, 3, 3])
    );
}

#[test]
fn range_grows_to_its_max() {
    assert_eq!(
        resolve_constraints(&[range(2, 5), flexible()], 20),
        Ok(vec![5, 15])
    );
    assert_eq!(
        resolve_constraints(&[range(2, 5)], 20),
        Ok(vec![5])
    );
}

#[test]
fn constraint_conflict_is_a_distinct_error() {
    assert_ne!(LayoutError::ConstraintConflict, LayoutError::InsufficientSpace);
    assert_eq!(Constraint::Fixed(3), fixed(3));
}

#[test]
fn same_layout_twice_gives_same_rects() {
    let build = || {
        Layout::new()
            .row(fixed(3), vec![min(10), flexible()])
            .empty_row(flexible())
    };
    let first = build().calculate(vec2(40, 12));
    let second = build().calculate(vec2(40, 12));
    assert_eq!(first, second);
    assert_eq!(
        first.unwrap(),
        vec![
            vec![Rect::new(0, 0, 25, 3), Rect::new(25, 0, 15, 3)],
            vec![Rect::new(0, 3, 40, 9)]
        ]
    );
}

#[test]
fn a_row_that_cannot_fit_fails_the_layout() {
    let result = calculate_layout(
        vec2(10, 10),
        vec![(flexible(), vec![fixed(20)])],
    );
    assert_eq!(result, Err(LayoutError::InsufficientSpace));
}

#[test]
fn calculated_layout_lookups() {
    let rects = Layout::new()
        .row(fixed(2), vec![fixed(4), flexible()])
        .calculate(vec2(10, 5))
        .unwrap();
    let calc = CalculatedLayout::new(rects);
    assert_eq!(calc.row_count(), 1);
    assert_eq!(calc.col_count(0), 2);
    assert_eq!(calc.col_count(3), 0);
    assert_eq!(calc.get(0, 1), Some(&Rect::new(4, 0, 6, 2)));
    assert_eq!(calc.get(1, 0), None);
    assert_eq!(calc.row(0).map(|r| r.len()), Some(2));
    let all = calc.iter();
    assert_eq!(all.len(), 2);
    assert_eq!(all[1], (0, 1, Rect::new(4, 0, 6, 2)));
}

#[test]
fn rect_padding_sides_and_pos_size() {
    let rect = Rect::from_pos_size(vec2(2, 3), vec2(10, 8));
    assert_eq!(rect, Rect::new(2, 3, 10, 8));
    assert_eq!(rect.with_padding_sides(1, 2, 3, 4), Rect::new(6, 4, 4, 4));
    assert_eq!(rect.with_padding(6), Rect::new(8, 9, 0, 0));
}

#[test]
fn vec2_conversions_and_sum() {
    assert_eq!(Vec2::from((3, 4)), vec2(3, 4));
    assert_eq!(Vec2::from(7), vec2(7, 7));
    assert_eq!(vec2(1, 2) + vec2(3, 4), vec2(4, 6));
    assert_eq!(Vec2::from(Rect::new(5, 6, 7, 8)), vec2(5, 6));
}
