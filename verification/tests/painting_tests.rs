use egui_presentation::painting::{PaintingModel, Point, StrokeStyle};
use egui_presentation::presentation::Presentation;

#[test]
fn duplicate_point_is_suppressed() {
    let mut m = PaintingModel::new();
    let p1 = Point { x: 100, y: 200 };
    let p2 = Point { x: 300, y: 400 };
    m.begin_or_continue(p1);
    m.begin_or_continue(p1);
    m.begin_or_continue(p2);
    let strokes = m.renderable_strokes();
    assert_eq!(strokes.len(), 1);
    assert_eq!(strokes[0], vec![p1, p2]);
}

#[test]
fn distinct_points_are_all_kept() {
    let mut m = PaintingModel::new();
    m.begin_or_continue(Point { x: 0, y: 0 });
    m.begin_or_continue(Point { x: 1, y: 0 });
    m.begin_or_continue(Point { x: 0, y: 0 });
    let strokes = m.renderable_strokes();
    assert_eq!(strokes[0].len(), 3);
}

#[test]
fn release_seals_stroke_and_opens_empty_one() {
    let mut m = PaintingModel::new();
    assert_eq!(m.stroke_count(), 1);
    m.begin_or_continue(Point { x: 1, y: 1 });
    m.begin_or_continue(Point { x: 2, y: 2 });
    m.release();
    assert_eq!(m.stroke_count(), 2);
    let strokes = m.renderable_strokes();
    assert_eq!(strokes.len(), 1);
    assert_eq!(strokes[0].len(), 2);
}

#[test]
fn release_on_empty_open_stroke_changes_nothing() {
    let mut m = PaintingModel::new();
    m.release();
    assert_eq!(m.stroke_count(), 1);
    m.begin_or_continue(Point { x: 1, y: 1 });
    m.release();
    m.release();
    assert_eq!(m.stroke_count(), 2);
}

#[test]
fn clear_leaves_exactly_one_empty_open_stroke() {
    let mut m = PaintingModel::new();
    m.begin_or_continue(Point { x: 1, y: 1 });
    m.begin_or_continue(Point { x: 2, y: 2 });
    m.release();
    m.begin_or_continue(Point { x: 3, y: 3 });
    m.clear();
    assert_eq!(m.stroke_count(), 1);
    assert!(m.renderable_strokes().is_empty());
}

#[test]
fn single_point_stroke_is_not_renderable() {
    let mut m = PaintingModel::new();
    m.begin_or_continue(Point { x: 5, y: 5 });
    assert!(m.renderable_strokes().is_empty());
    m.release();
    assert!(m.renderable_strokes().is_empty());
}

#[test]
fn initial_style_is_thin_green_pen() {
    let m = PaintingModel::new();
    let st = m.style();
    assert_eq!(st.width_milli, 1000);
    assert_eq!((st.red, st.green, st.blue), (25, 200, 100));
}

#[test]
fn style_can_be_changed_without_touching_strokes() {
    let mut m = PaintingModel::new();
    m.begin_or_continue(Point { x: 1, y: 1 });
    m.begin_or_continue(Point { x: 2, y: 2 });
    m.set_style(StrokeStyle { width_milli: 2500, red: 1, green: 2, blue: 3 });
    assert_eq!(m.style().width_milli, 2500);
    assert_eq!(m.renderable_strokes().len(), 1);
}

#[test]
fn controller_forwards_painting_events() {
    let mut p = Presentation::from_document("s");
    p.paint_point(Point { x: 1, y: 1 });
    p.paint_point(Point { x: 2, y: 2 });
    p.paint_release();
    assert_eq!(p.painting().stroke_count(), 2);
    assert_eq!(p.painting().renderable_strokes().len(), 1);
    p.paint_clear();
    assert_eq!(p.painting().stroke_count(), 1);
}
