//! The document buffer, viewport, article pane and geometry.

use newsminal::article::Article;
use newsminal::component::ComponentKind;
use newsminal::geometry::Geometry;
use newsminal::input::{Direction, ViewKind};
use newsminal::textpad::{SurfaceOp, TextPad};

fn setup_textpad() -> (TextPad, Geometry) {
    let (w, h) = (10u16, 10u16);
    let lorem_ipsum1 = String::from("Lorem ipsum dolor sit amet, consectetur adipiscing elit.");
    let lorem_ipsum2 =
        String::from("Lorem iaculis sem ac magna iaculis, sit amet imperdiet tortor congue.");
    let lorem_ipsum3 =
        String::from("Nam sed auctor metus. Sed viverra neque vitae pharetra dictum.");
    let comps = vec![
        ComponentKind::Paragraph(lorem_ipsum1),
        ComponentKind::Paragraph(lorem_ipsum2),
        ComponentKind::Paragraph(lorem_ipsum3),
    ];
    let geo = Geometry::new((w, h));
    let tp = TextPad::new(comps, &geo).unwrap();
    (tp, geo)
}

#[test]
fn scroll_by_lines() {
    let (mut tp, geo) = setup_textpad();
    tp.scroll_by_lines(&geo, Direction::Down, 5);
    assert_eq!(tp.first, 5);
    tp.scroll_by_lines(&geo, Direction::Up, 5);
    assert_eq!(tp.first, 0);
}

#[test]
fn scroll_by_paragraph() {
    let (mut tp, geo) = setup_textpad();
    tp.scroll_by_component(&geo, Direction::Down);
    assert_eq!(tp.first, 8);
    tp.scroll_by_component(&geo, Direction::Up);
    assert_eq!(tp.first, 0);
}

#[test]
fn positions_are_contiguous() {
    let (tp, _geo) = setup_textpad();
    let mut expected_posy = 0;
    for i in 0..3 {
        let comp = tp.components.get(i).unwrap();
        assert_eq!(comp.get_posy(), expected_posy);
        expected_posy += comp.height();
    }
    assert_eq!(expected_posy, tp.content.len());
}

#[test]
fn scroll_never_leaves_range() {
    let (mut tp, geo) = setup_textpad();
    let len = tp.content.len();
    let th = geo.term_height as usize;
    for _ in 0..5 {
        tp.scroll_by_lines(&geo, Direction::Down, 1000);
        assert!(tp.first <= len - th);
    }
    assert_eq!(tp.first, len - th);
    tp.scroll_by_lines(&geo, Direction::Up, 1000);
    assert_eq!(tp.first, 0);
}

#[test]
fn scroll_up_stops_at_zero() {
    let (mut tp, geo) = setup_textpad();
    tp.scroll_by_lines(&geo, Direction::Down, 3);
    tp.scroll_by_lines(&geo, Direction::Up, 2);
    assert_eq!(tp.first, 1);
    tp.scroll_by_lines(&geo, Direction::Up, 7);
    assert_eq!(tp.first, 0);
}

#[test]
fn short_content_does_not_scroll() {
    let comps = vec![ComponentKind::Paragraph(String::from("short"))];
    let geo = Geometry::new((10, 10));
    let mut tp = TextPad::new(comps, &geo).unwrap();
    tp.scroll_by_lines(&geo, Direction::Down, 4);
    assert_eq!(tp.first, 0);
}

#[test]
fn end_to_end_paragraph_lines() {
    let geo = Geometry::new((10, 10));
    let tp = TextPad::new(vec![ComponentKind::Paragraph(String::from("TEST"))], &geo).unwrap();
    let texts: Vec<&str> = tp.content.iter().map(|l| l.text.as_str()).collect();
    assert_eq!(texts, vec!["", "    TEST"]);
    let tp2 = TextPad::new(
        vec![ComponentKind::Paragraph(String::from("TEST TEST"))],
        &geo,
    ).unwrap();
    let texts2: Vec<&str> = tp2.content.iter().map(|l| l.text.as_str()).collect();
    assert_eq!(texts2, vec!["", "    TEST", "TEST"]);
}

#[test]
fn draw_emits_visible_rows() {
    let (tp, geo) = setup_textpad();
    let ops = tp.draw(&geo);
    // Clear plus a MoveTo/Print pair per visible row.
    assert_eq!(ops.len(), 1 + 2 * 10);
    assert!(matches!(ops[0], SurfaceOp::Clear));
    match &ops[2] {
        SurfaceOp::Print(l) => assert_eq!(l.text, ""),
        _ => panic!("expected a print"),
    }
}

#[test]
fn article_flattens_and_scrolls() {
    let content = vec![
        vec![String::from("a"), String::from("b")],
        vec![String::from("c")],
    ];
    let mut art = Article::new(content, 2, 10);
    assert_eq!(art.content, vec!["a", "b", "c"]);
    assert_eq!(art.first, 0);
    let ops = art.scroll_up();
    assert_eq!(art.first, 1);
    assert_eq!(ops.len(), 3);
    let ops = art.scroll_up();
    assert_eq!(art.first, 1);
    assert!(ops.is_empty());
    art.scroll_down();
    assert_eq!(art.first, 0);
    let ops = art.scroll_down();
    assert_eq!(art.first, 0);
    assert!(ops.is_empty());
}

#[test]
fn geometry_derives_column() {
    let geo = Geometry::new((100, 30));
    assert_eq!(geo.width, 50);
    assert_eq!(geo.startx, 25);
    assert_eq!(geo.term_height, 30);
}

#[test]
fn geometry_changes_view() {
    let mut geo = Geometry::new((100, 30));
    geo.change_view(ViewKind::Article);
    assert_eq!(geo.width, 70);
    assert_eq!(geo.startx, 15);
    geo.change_view(ViewKind::Feed);
    assert_eq!(geo.width, 50);
}

#[test]
fn geometry_resize_clamps_to_terminal() {
    let mut geo = Geometry::new((100, 30));
    geo.change_view(ViewKind::Article);
    geo.resize((60, 20));
    assert_eq!(geo.term_width, 60);
    assert_eq!(geo.term_height, 20);
    assert_eq!(geo.width, 60);
    assert_eq!(geo.startx, 0);
}

#[test]
fn narrow_terminal_bounds_width() {
    let geo = Geometry::new((8, 12));
    assert_eq!(geo.width, 8);
    assert_eq!(geo.startx, 0);
}
