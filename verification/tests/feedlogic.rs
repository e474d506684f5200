//! The feed, its merge ordering, the selection cursor, input mapping, the
//! highlight state machine and the error window.

use newsminal::controllers::{ErrorWindow, FeedControler};
use newsminal::errors::BackendError;
use newsminal::feed::{collect_new_items, Body, Feed, FeedItem, Site};
use newsminal::geometry::Geometry;
use newsminal::input::{Controls, Direction, InputBuffer, InputEvent, Key, ViewKind};
use newsminal::style::{FeedItemColor, Style};
use newsminal::textpad::SurfaceOp;

fn item(title: &str, published: i64) -> FeedItem {
    FeedItem {
        title: String::from(title),
        published,
        published_text: format!("t{}", published),
        body: Body::ToFetch { url: String::from("http://example.invalid/a") },
        parser: Site::N1,
    }
}

fn feed3() -> Feed {
    Feed {
        items: vec![item("A", 50), item("B", 40), item("C", 30)],
        selected: 0,
    }
}

// --- feed assembly and merge ---

#[test]
fn collect_keeps_only_strictly_newer() {
    let batches = vec![
        vec![item("A", 70), item("B", 60), item("C", 50)],
        vec![item("D", 65), item("E", 45)],
    ];
    let fresh = collect_new_items(batches);
    let titles: Vec<&str> = fresh.iter().map(|i| i.title.as_str()).collect();
    // Cutoff is 50 (the newest batch-ending stamp); order is newest first.
    assert_eq!(titles, vec!["A", "D", "B"]);
}

#[test]
fn feed_new_fails_on_nothing() {
    let r = Feed::new(vec![]);
    assert!(matches!(r, Err(BackendError::FeedError)));
    assert_eq!(
        BackendError::FeedError.message(),
        "Couldn't get any articles from feed (check logs)"
    );
    assert_eq!(
        BackendError::NoContent.message(),
        "Couldn't scrape content from article HTML"
    );
}

#[test]
fn merge_stops_at_current_newest() {
    let mut feed = feed3();
    let batch = vec![item("N1", 70), item("N2", 60), item("A", 50), item("Z", 45)];
    let n = feed.merge_new(batch).unwrap();
    assert_eq!(n, 2);
    let stamps: Vec<i64> = feed.items.iter().map(|i| i.published).collect();
    assert_eq!(stamps, vec![70, 60, 50, 40, 30]);
    // Strictly descending, so duplicate-free.
    for w in stamps.windows(2) {
        assert!(w[0] > w[1]);
    }
}

#[test]
fn merge_of_stale_batch_adds_nothing() {
    let mut feed = feed3();
    let n = feed.merge_new(vec![item("A", 50), item("Old", 10)]).unwrap();
    assert_eq!(n, 0);
    assert_eq!(feed.items.len(), 3);
}

#[test]
fn entry_builds_into_a_box() {
    let it = item("A", 50);
    match it.build() {
        newsminal::component::ComponentKind::Boxed(rows) => {
            assert_eq!(rows, vec![String::from("A"), String::from("t50")]);
        },
        _ => panic!("expected a boxed block"),
    }
}

// --- selection cursor ---

#[test]
fn selection_stays_in_range() {
    let geo = Geometry::new((50, 30));
    let mut ctrl = FeedControler::build(feed3(), geo).unwrap();
    assert_eq!(ctrl.feed.selected, 0);
    ctrl.move_select(Direction::Up, true);
    assert_eq!(ctrl.feed.selected, 0);
    for _ in 0..5 {
        ctrl.move_select(Direction::Down, true);
    }
    assert_eq!(ctrl.feed.selected, 2);
    ctrl.move_select(Direction::Up, true);
    assert_eq!(ctrl.feed.selected, 1);
}

#[test]
fn prepend_keeps_logical_selection() {
    let geo = Geometry::new((50, 30));
    let mut ctrl = FeedControler::build(feed3(), geo).unwrap();
    ctrl.move_select(Direction::Down, false);
    assert_eq!(ctrl.feed.selected, 1);
    let before = ctrl.feed.items[ctrl.feed.selected].title.clone();
    let batch = vec![item("N1", 70), item("N2", 60), item("A", 50)];
    ctrl.absorb_new(batch).unwrap();
    assert_eq!(ctrl.feed.selected, 3);
    assert_eq!(ctrl.feed.items[ctrl.feed.selected].title, before);
    assert_eq!(ctrl.feed.items.len(), 5);
}

#[test]
fn goto_top_resets_cursor() {
    let geo = Geometry::new((50, 30));
    let mut ctrl = FeedControler::build(feed3(), geo).unwrap();
    ctrl.move_select(Direction::Down, true);
    ctrl.goto_top();
    assert_eq!(ctrl.feed.selected, 0);
    assert_eq!(ctrl.textpad.first, 0);
}

#[test]
fn mouse_click_selects_entry() {
    let geo = Geometry::new((50, 30));
    let mut ctrl = FeedControler::build(feed3(), geo).unwrap();
    // Each entry box is six rows tall; row 7 lies inside the second box.
    let (_ops, same) = ctrl.mouse_select(geo.startx + 1, 7);
    assert_eq!(ctrl.feed.selected, 1);
    assert!(!same);
    let (_ops, same) = ctrl.mouse_select(geo.startx + 1, 7);
    assert!(same);
}

#[test]
fn mouse_click_below_list_clamps_to_last() {
    let geo = Geometry::new((50, 30));
    let mut ctrl = FeedControler::build(feed3(), geo).unwrap();
    // Three six-row boxes end at row 18; a click below them selects the last
    // entry instead of running off the list.
    let (_ops, _same) = ctrl.mouse_select(geo.startx + 1, 25);
    assert_eq!(ctrl.feed.selected, 2);
}

#[test]
fn mouse_click_outside_column_is_ignored() {
    let geo = Geometry::new((120, 30));
    let mut ctrl = FeedControler::build(feed3(), geo).unwrap();
    let (ops, same) = ctrl.mouse_select(0, 1);
    assert!(ops.is_empty());
    assert!(!same);
    assert_eq!(ctrl.feed.selected, 0);
}

// --- input mapping ---

fn press(c: char) -> InputEvent {
    InputEvent::KeyEvent { key: Key::Char(c), ctrl: false, press: true }
}

#[test]
fn keys_map_to_commands() {
    let mut input = InputBuffer::new();
    assert_eq!(
        input.map(press('j'), ViewKind::Feed),
        Some(Controls::MoveSelect(Direction::Down))
    );
    assert_eq!(
        input.map(press('k'), ViewKind::Article),
        Some(Controls::Scroll(Direction::Up, 1))
    );
    assert_eq!(input.map(press('q'), ViewKind::Error), Some(Controls::Quit));
    assert_eq!(input.map(press('r'), ViewKind::Feed), Some(Controls::Refresh));
    assert_eq!(input.map(press('r'), ViewKind::Article), None);
}

#[test]
fn double_g_goes_to_top() {
    let mut input = InputBuffer::new();
    assert_eq!(input.map_key('g', ViewKind::Feed), None);
    assert_eq!(input.map_key('g', ViewKind::Feed), Some(Controls::GotoTop));
    // The buffer was emptied by the recognized command.
    assert_eq!(input.map_key('g', ViewKind::Feed), None);
    input.clear();
    assert_eq!(input.map_key('g', ViewKind::Feed), None);
}

#[test]
fn control_c_quits() {
    let mut input = InputBuffer::new();
    let ev = InputEvent::KeyEvent { key: Key::Char('c'), ctrl: true, press: true };
    assert_eq!(input.map(ev, ViewKind::Feed), Some(Controls::Quit));
    let release = InputEvent::KeyEvent { key: Key::Char('q'), ctrl: false, press: false };
    assert_eq!(input.map(release, ViewKind::Feed), None);
}

#[test]
fn mouse_and_resize_map() {
    let mut input = InputBuffer::new();
    assert_eq!(input.map(InputEvent::Resize(80, 24), ViewKind::Feed), Some(Controls::Resize(80, 24)));
    assert_eq!(
        input.map(InputEvent::MouseScrollDown, ViewKind::Article),
        Some(Controls::Scroll(Direction::Down, 3))
    );
    assert_eq!(
        input.map(InputEvent::MouseScrollDown, ViewKind::Feed),
        Some(Controls::MoveSelect(Direction::Down))
    );
    assert_eq!(
        input.map(InputEvent::MouseLeftDown(3, 4), ViewKind::Feed),
        Some(Controls::MouseSelect(3, 4))
    );
    assert_eq!(input.map(InputEvent::MouseRightDown, ViewKind::Article), Some(Controls::Quit));
}

// --- highlight state machine ---

#[test]
fn read_survives_deselection() {
    // NotSelected only resets a red override, so a Read (dim) entry keeps
    // its dim style.
    assert_eq!(FeedItemColor::Read.to_style(None), Some(Style::Dim));
    assert_eq!(FeedItemColor::NotSelected.to_style(Some(Style::Dim)), None);
    assert_eq!(FeedItemColor::NotSelected.to_style(Some(Style::Red)), Some(Style::Plain));
    assert_eq!(FeedItemColor::NotNew.to_style(Some(Style::Blue)), Some(Style::Plain));
    assert_eq!(FeedItemColor::NotNew.to_style(Some(Style::Dim)), None);
}

// --- error window ---

#[test]
fn error_window_draws_red_box() {
    let geo = Geometry::new((50, 30));
    let win = ErrorWindow::build("boom", geo);
    assert_eq!(win.msg, "(ERROR) boom");
    let ops = win.draw().unwrap();
    // Clear plus a MoveTo/Print pair for each of the four box rows.
    assert_eq!(ops.len(), 9);
    assert!(matches!(ops[0], SurfaceOp::Clear));
    match &ops[6] {
        SurfaceOp::Print(l) => {
            assert!(l.text.contains("(ERROR) boom"));
            assert_eq!(l.text.chars().count(), 50);
            assert_eq!(l.style, Style::Red);
        },
        _ => panic!("expected the message row"),
    }
}

#[test]
fn site_tags() {
    assert_eq!(Site::N1.tag(), "N1");
    assert_eq!(Site::Danas.tag(), "D");
    assert_eq!(Site::Insajder.tag(), "\u{394}");
}
