use egui_presentation::presentation::Presentation;
use egui_presentation::slide::{Slide, SlideMarker};

fn delim_line() -> String {
    "-".repeat(79)
}

#[test]
fn two_slide_deck() {
    let doc = format!("A\n{}\nB", delim_line());
    let p = Presentation::from_document(&doc);
    assert_eq!(p.slide_count(), 2);
    assert_eq!(p.slide_nr(), 0);
    assert_eq!(p.current_slide().markdown, "A");
    assert!(p.current_slide().markers.is_empty());
    let mut p = p;
    p.advance();
    assert_eq!(p.current_slide().markdown, "B");
    assert!(p.current_slide().markers.is_empty());
}

#[test]
fn empty_document_is_one_empty_slide() {
    let p = Presentation::from_document("");
    assert_eq!(p.slide_count(), 1);
    assert_eq!(p.current_slide().markdown, "");
    assert!(p.current_slide().markers.is_empty());
}

#[test]
fn document_without_delimiter_is_one_slide() {
    let p = Presentation::from_document("Just one\nslide here");
    assert_eq!(p.slide_count(), 1);
    assert_eq!(p.current_slide().markdown, "Just one\nslide here");
}

#[test]
fn short_dash_rule_does_not_split() {
    let doc = format!("A\n{}\nB", "-".repeat(78));
    let p = Presentation::from_document(&doc);
    assert_eq!(p.slide_count(), 1);
}

#[test]
fn trailing_delimiter_yields_trailing_empty_slide() {
    let doc = format!("X\n{}\n", delim_line());
    let mut p = Presentation::from_document(&doc);
    assert_eq!(p.slide_count(), 2);
    assert_eq!(p.current_slide().markdown, "X");
    p.advance();
    assert_eq!(p.current_slide().markdown, "");
}

#[test]
fn slide_bodies_are_trimmed() {
    let s = Slide::new("  \n A line \n ");
    assert_eq!(s.markdown, "A line");
    assert!(s.markers.is_empty());
}

#[test]
fn toggle_widget_marker_is_extracted() {
    let s = Slide::new("Hello\n!!!toggle_widget\nWorld");
    assert_eq!(s.markdown, "Hello\nWorld");
    assert_eq!(s.markers, vec![SlideMarker::ToggleWidget]);
}

#[test]
fn unknown_marker_keeps_raw_text_and_is_removed() {
    let s = Slide::new("!!!bogus\nBody");
    assert_eq!(s.markdown, "Body");
    assert_eq!(s.markers, vec![SlideMarker::UnknownMarker("bogus".to_string())]);
}

#[test]
fn unknown_marker_payload_is_untrimmed() {
    let s = Slide::new("!!! bogus \nBody");
    assert_eq!(s.markers, vec![SlideMarker::UnknownMarker(" bogus ".to_string())]);
}

#[test]
fn marker_keyword_may_carry_spaces() {
    let s = Slide::new("!!! painting \nBody");
    assert_eq!(s.markers, vec![SlideMarker::Painting]);
}

#[test]
fn all_marker_keywords_are_recognized() {
    let s = Slide::new(
        "!!!counter_example\n!!!ui_example\n!!!toggle_widget\n!!!id_clashes\n!!!dancing_strings\n!!!painting",
    );
    assert_eq!(s.markdown, "");
    assert_eq!(
        s.markers,
        vec![
            SlideMarker::CounterExample,
            SlideMarker::UiExample,
            SlideMarker::ToggleWidget,
            SlideMarker::IdClashesExample,
            SlideMarker::DancingStrings,
            SlideMarker::Painting,
        ]
    );
}

#[test]
fn marker_order_follows_source_order() {
    let s = Slide::new("!!!counter_example\nmiddle\n!!!toggle_widget");
    assert_eq!(s.markdown, "middle");
    assert_eq!(
        s.markers,
        vec![SlideMarker::CounterExample, SlideMarker::ToggleWidget]
    );
}

#[test]
fn duplicate_markers_are_kept() {
    let s = Slide::new("!!!painting\n!!!painting");
    assert_eq!(
        s.markers,
        vec![SlideMarker::Painting, SlideMarker::Painting]
    );
}

#[test]
fn marker_count_equals_sentinel_line_count() {
    let s = Slide::new("a\n!!!painting\nb\n!!!bogus\nc\n!!!toggle_widget");
    assert_eq!(s.markers.len(), 3);
    assert_eq!(s.markdown, "a\nb\nc");
    assert!(!s.markdown.lines().any(|l| l.starts_with("!!!")));
}

#[test]
fn join_of_bodies_reproduces_marker_free_document() {
    let d = delim_line();
    let doc = format!("A\n{}\nB\n{}\nC", d, d);
    let mut p = Presentation::from_document(&doc);
    let mut bodies = Vec::new();
    for _ in 0..p.slide_count() {
        bodies.push(p.current_slide().markdown.clone());
        p.advance();
    }
    let sep = format!("\n{}\n", d);
    let rejoined = bodies.join(sep.as_str());
    assert_eq!(rejoined, doc);
}

#[test]
fn blank_interior_lines_survive_in_body() {
    let s = Slide::new("a\n\nb");
    assert_eq!(s.markdown, "a\n\nb");
}
