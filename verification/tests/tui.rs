use blazewvr::tui::{layout, Rect};

#[test]
fn layout_splits_left_column_into_input_over_script_and_right_column_into_output() {
    let area = Rect::new(0, 0, 100, 40);
    let regions = layout(area);

    assert_eq!(regions.input.x, 0);
    assert_eq!(regions.script.x, 0);
    assert_eq!(regions.output.x, regions.input.width);

    assert_eq!(regions.input.y, 0);
    assert_eq!(regions.script.y, regions.input.y + regions.input.height);

    assert_eq!(regions.input.height + regions.script.height, area.height);
    assert_eq!(regions.input.width, regions.script.width);
    assert_eq!(regions.input.width + regions.output.width, area.width);
}

// ---- further cases ----

#[test]
fn layout_halves_an_even_area_exactly() {
    let regions = layout(Rect::new(0, 0, 100, 40));
    assert_eq!(regions.input, Rect::new(0, 0, 50, 20));
    assert_eq!(regions.script, Rect::new(0, 20, 50, 20));
    assert_eq!(regions.output, Rect::new(50, 0, 50, 40));
}

#[test]
fn rect_new_clamps_to_the_coordinate_range() {
    let r = Rect::new(65_000, 65_500, 1_000, 100);
    assert_eq!(r.width, 535);
    assert_eq!(r.height, 35);
}
