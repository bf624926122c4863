use egui_presentation::presentation::Presentation;

fn three_slide_doc() -> String {
    let d = "-".repeat(79);
    format!("A\n{}\nB\n{}\nC", d, d)
}

#[test]
fn advancing_deck_length_times_returns_to_start() {
    let doc = three_slide_doc();
    let mut p = Presentation::from_document(&doc);
    p.advance();
    assert_eq!(p.slide_nr(), 1);
    let start = p.slide_nr();
    for _ in 0..p.slide_count() {
        p.advance();
    }
    assert_eq!(p.slide_nr(), start);
}

#[test]
fn retreat_wraps_to_last_slide() {
    let doc = three_slide_doc();
    let mut p = Presentation::from_document(&doc);
    assert_eq!(p.slide_nr(), 0);
    p.retreat();
    assert_eq!(p.slide_nr(), 2);
    p.retreat();
    assert_eq!(p.slide_nr(), 1);
}

#[test]
fn advance_wraps_to_first_slide() {
    let doc = three_slide_doc();
    let mut p = Presentation::from_document(&doc);
    p.advance();
    p.advance();
    assert_eq!(p.slide_nr(), 2);
    p.advance();
    assert_eq!(p.slide_nr(), 0);
}

#[test]
fn single_slide_deck_is_fixed_under_navigation() {
    let mut p = Presentation::from_document("only slide");
    p.advance();
    assert_eq!(p.slide_nr(), 0);
    p.retreat();
    assert_eq!(p.slide_nr(), 0);
}

#[test]
fn restored_slide_index_wraps_into_range() {
    let doc = format!("A\n{}\nB", "-".repeat(79));
    let p = Presentation::restore(&doc, 5, 7, true);
    assert_eq!(p.slide_count(), 2);
    assert_eq!(p.slide_nr(), 1);
    assert_eq!(p.counter_value(), 7);
    assert!(p.some_bool());
}

#[test]
fn counter_increments_and_decrements() {
    let mut p = Presentation::from_document("s");
    assert_eq!(p.counter_value(), 0);
    p.increment_counter();
    p.increment_counter();
    assert_eq!(p.counter_value(), 2);
    p.decrement_counter();
    p.decrement_counter();
    p.decrement_counter();
    assert_eq!(p.counter_value(), -1);
}

#[test]
fn toggle_flips_each_time() {
    let mut p = Presentation::from_document("s");
    assert!(!p.some_bool());
    p.toggle();
    assert!(p.some_bool());
    p.toggle();
    assert!(!p.some_bool());
}
