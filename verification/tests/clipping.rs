use hough_image::clip::clip_line_liang_barsky;

const CLIP_LINE_IMG_WIDTH: i32 = 500;
const CLIP_LINE_IMG_HEIGHT: i32 = 300;

#[test]
fn test_clip_line_liang_barsky_1() {
    let start = (-200, -100);
    let end = (220, 400);

    let clipped = clip_line_liang_barsky(
        (0, CLIP_LINE_IMG_WIDTH, 0, CLIP_LINE_IMG_HEIGHT),
        (start.0, start.1, end.0, end.1),
    )
    .unwrap();

    assert_eq!((0, 138, 136, 300), clipped);
}

#[test]
fn test_clip_line_liang_barsky_2() {
    let start = (300, -200);
    let end = (0, 390);

    let clipped = clip_line_liang_barsky(
        (0, CLIP_LINE_IMG_WIDTH, 0, CLIP_LINE_IMG_HEIGHT),
        (start.0, start.1, end.0, end.1),
    )
    .unwrap();

    assert_eq!((198, 0, 46, 300), clipped);
}

#[test]
fn test_clip_line_liang_barsky_3() {
    let start = (400, 400);
    let end = (400, -150);

    let clipped = clip_line_liang_barsky(
        (0, CLIP_LINE_IMG_WIDTH, 0, CLIP_LINE_IMG_HEIGHT),
        (start.0, start.1, end.0, end.1),
    )
    .unwrap();

    assert_eq!((400, 300, 400, 0), clipped);
}

#[test]
fn test_clip_line_liang_barsky_4() {
    let start = (200, 100);
    let end = (250, 190);

    let clipped = clip_line_liang_barsky(
        (0, CLIP_LINE_IMG_WIDTH, 0, CLIP_LINE_IMG_HEIGHT),
        (start.0, start.1, end.0, end.1),
    )
    .unwrap();

    assert_eq!((200, 100, 250, 190), clipped);
}

#[test]
fn test_clip_line_liang_barsky_outside_of_clipping_window() {
    let start = (-200, -100);
    let end = (-250, -190);

    let clipped = clip_line_liang_barsky(
        (0, CLIP_LINE_IMG_WIDTH, 0, CLIP_LINE_IMG_HEIGHT),
        (start.0, start.1, end.0, end.1),
    );

    assert_eq!(None, clipped);
}

#[test]
fn clip_rejects_second_scenario_of_a_line_left_of_the_window() {
    let clipped = clip_line_liang_barsky((0, 500, 0, 300), (-200, -100, -250, -190));
    assert_eq!(None, clipped);
}

#[test]
fn clip_keeps_a_line_that_lies_inside() {
    let area = (0, 99, 0, 89);
    for line in [(0, 0, 99, 89), (10, 20, 30, 40), (99, 0, 0, 89), (5, 5, 5, 5), (0, 89, 99, 89)] {
        assert_eq!(Some(line), clip_line_liang_barsky(area, line));
    }
}

#[test]
fn clip_is_idempotent() {
    let area = (0, 500, 0, 300);
    let lines =
        [(-200, -100, 220, 400), (300, -200, 0, 390), (400, 400, 400, -150), (-7, 12, 913, 299)];
    for line in lines {
        let once = clip_line_liang_barsky(area, line).unwrap();
        assert_eq!(Some(once), clip_line_liang_barsky(area, once));
    }
}

#[test]
fn clip_rejects_lines_beyond_each_side() {
    let area = (0, 500, 0, 300);
    // left, right, below, above: both end points beyond the same side
    assert_eq!(None, clip_line_liang_barsky(area, (-1, 10, -300, 290)));
    assert_eq!(None, clip_line_liang_barsky(area, (501, 10, 900, 290)));
    assert_eq!(None, clip_line_liang_barsky(area, (10, -1, 490, -50)));
    assert_eq!(None, clip_line_liang_barsky(area, (10, 301, 490, 1000)));
    // parallel to the side it lies beyond
    assert_eq!(None, clip_line_liang_barsky(area, (-5, 0, -5, 300)));
    assert_eq!(None, clip_line_liang_barsky(area, (0, 305, 500, 305)));
    // a single point outside
    assert_eq!(None, clip_line_liang_barsky(area, (600, 600, 600, 600)));
}

#[test]
fn clip_rejects_a_line_that_passes_a_corner_outside() {
    // end points beyond different sides, and no point inside
    assert_eq!(None, clip_line_liang_barsky((0, 10, 0, 10), (-10, 5, 5, 25)));
}

#[test]
fn clip_result_lies_inside_the_window() {
    let area = (-20, 35, 7, 19);
    let lines = [(-100, -100, 100, 100), (40, 0, -30, 30), (0, 100, 3, -100), (-1000, 8, 1000, 18)];
    for line in lines {
        if let Some((x0, y0, x1, y1)) = clip_line_liang_barsky(area, line) {
            assert!(-20 <= x0 && x0 <= 35 && 7 <= y0 && y0 <= 19);
            assert!(-20 <= x1 && x1 <= 35 && 7 <= y1 && y1 <= 19);
        }
    }
    assert_eq!(Some((7, 7, 19, 19)), clip_line_liang_barsky(area, (-100, -100, 100, 100)));
}

#[test]
fn clip_rounds_halves_away_from_zero() {
    // crosses x = 0 at y = 0.5 and x = -4 at y = -1.5
    assert_eq!(Some((0, 1, 1, 1)), clip_line_liang_barsky((0, 10, -10, 10), (-1, 0, 1, 1)));
    assert_eq!(Some((-4, -2, -3, -1)), clip_line_liang_barsky((-4, 10, -10, 10), (-5, -2, -3, -1)));
}

#[test]
fn clip_works_at_the_limits_of_the_coordinates() {
    let area = (i32::MIN, i32::MAX, i32::MIN, i32::MAX);
    let line = (i32::MIN, i32::MAX, i32::MAX, i32::MIN);
    assert_eq!(Some(line), clip_line_liang_barsky(area, line));
    assert_eq!(
        Some((0, 0, 0, 0)),
        clip_line_liang_barsky((0, 0, 0, 0), (i32::MIN, i32::MIN, i32::MAX, i32::MAX))
    );
    assert_eq!(None, clip_line_liang_barsky((5, 4, 0, 10), (0, 0, 10, 10)));
}
