use wmkit::bar::{
    occupancy_of, Acquired, BarConfig, Cursor, DrawCommand, Frame, HookInitError, Part, Phase,
    SegmentState, StatusBar, SurfaceRequest, Workspace,
};
use wmkit::color::Color;
use wmkit::style::{Padding, Style};
use wmkit::tags::TagList;

const BLACK: u32 = 0x282828ff;
const GREY: u32 = 0x3c3836ff;
const WHITE: u32 = 0xebdbb2ff;
const BLUE: u32 = 0x458588ff;
const UNIT: u32 = 1024;

fn color(packed: u32) -> Color {
    Color::from_packed(packed)
}

fn padding() -> Padding {
    Padding { horizontal: 2 * UNIT, vertical: 2 * UNIT }
}

fn tags(names: &[&str]) -> TagList {
    TagList::new(names.iter().map(|t| t.to_string()).collect()).unwrap()
}

fn bar_with(names: &[&str], bg: Option<Color>) -> StatusBar {
    StatusBar::new(BarConfig {
        height: 18,
        style: Style::new("ProFont For Powerline", 11, color(WHITE), bg, padding()).unwrap(),
        highlight: color(BLUE),
        empty: color(GREY),
        tags: tags(names),
    })
}

fn bar(names: &[&str]) -> StatusBar {
    bar_with(names, Some(color(BLACK)))
}

fn ready(names: &[&str]) -> StatusBar {
    let mut bar = bar(names);
    assert_eq!(bar.startup(1920, Acquired::Ready), Ok(()));
    bar
}

fn report(entries: &[(&str, usize)]) -> Vec<Workspace> {
    entries.iter().map(|(tag, clients)| Workspace { tag: tag.to_string(), clients: *clients }).collect()
}

fn states(bar: &StatusBar) -> Vec<SegmentState> {
    (0..bar.tags().len()).map(|i| bar.segment_state(i).unwrap()).collect()
}

fn nothing() -> Frame {
    Frame { backdrop: Vec::new(), segments: Vec::new(), finish: Vec::new() }
}

fn segment(label: &str, fill: Option<u32>, ink: u32, extent: u32) -> Vec<DrawCommand> {
    let span = extent as u64 + 4 * UNIT as u64;
    let mut commands =
        vec![DrawCommand::SelectFont { font: "ProFont For Powerline".to_string(), size: 11 }];
    if let Some(fill) = fill {
        commands.push(DrawCommand::SetColor(color(fill)));
        commands.push(DrawCommand::Rectangle { x: 0, y: 0, width: span, height: 18 * 1024 });
    }
    commands.push(DrawCommand::SetColor(color(ink)));
    commands.push(DrawCommand::Text { label: label.to_string(), padding: padding() });
    commands.push(DrawCommand::Translate { dx: span, dy: 0 });
    commands
}

fn backdrop() -> Vec<DrawCommand> {
    vec![
        DrawCommand::SetColor(color(BLACK)),
        DrawCommand::Rectangle { x: 0, y: 0, width: 1920 * 1024, height: 18 * 1024 },
    ]
}

#[test]
fn a_new_bar_is_not_started() {
    let bar = bar(&["1", "2", "3"]);
    assert_eq!(bar.phase(), Phase::Uninitialized);
    assert_eq!(bar.focused(), None);
    assert_eq!(states(&bar), vec![SegmentState::Empty; 3]);
    assert_eq!(bar.tags().len(), 3);
    assert_eq!(bar.style().font(), "ProFont For Powerline");
    assert_eq!(bar.segment_state(3), None);
}

#[test]
fn the_surface_is_as_wide_as_the_screen_and_as_high_as_the_bar() {
    let bar = bar(&["1"]);
    assert_eq!(
        bar.surface_request(1366),
        SurfaceRequest {
            width: 1366,
            height: 18,
            fonts: vec!["ProFont For Powerline".to_string()],
        }
    );
}

#[test]
fn startup_makes_the_bar_ready() {
    let mut bar = bar(&["1", "2", "3"]);
    assert_eq!(bar.startup(1920, Acquired::Ready), Ok(()));
    assert_eq!(bar.phase(), Phase::Ready);
    assert_eq!(bar.focused(), Some(0));
    assert_eq!(
        states(&bar),
        vec![SegmentState::Focused, SegmentState::Empty, SegmentState::Empty]
    );
}

#[test]
fn a_bar_without_tags_starts_with_no_focus() {
    let mut bar = bar(&[]);
    assert_eq!(bar.startup(800, Acquired::Ready), Ok(()));
    assert_eq!(bar.focused(), None);
    let frame = bar.redraw(&Vec::new());
    assert_eq!(frame.segments, Vec::<Vec<DrawCommand>>::new());
    assert_eq!(frame.finish, vec![DrawCommand::Flush]);
}

#[test]
fn without_a_surface_the_bar_cannot_start() {
    let mut bar = bar(&["1", "2"]);
    assert_eq!(bar.startup(1920, Acquired::NoSurface), Err(HookInitError::SurfaceUnavailable));
    assert_eq!(bar.phase(), Phase::Terminated);
    assert_eq!(bar.startup(1920, Acquired::Ready), Err(HookInitError::NotUninitialized));
    assert_eq!(bar.phase(), Phase::Terminated);
    assert_eq!(bar.redraw(&vec![Some(10), Some(10)]), nothing());
}

#[test]
fn without_its_font_the_bar_cannot_start() {
    let mut bar = bar(&["1", "2"]);
    assert_eq!(bar.startup(1920, Acquired::NoFont), Err(HookInitError::FontUnavailable));
    assert_eq!(bar.phase(), Phase::Terminated);
}

#[test]
fn a_ready_bar_does_not_start_again() {
    let mut bar = ready(&["1", "2"]);
    bar.workspace_change("1", "2", &report(&[("2", 1)]), &Vec::new());
    assert_eq!(bar.startup(640, Acquired::Ready), Err(HookInitError::NotUninitialized));
    assert_eq!(bar.startup(640, Acquired::NoSurface), Err(HookInitError::NotUninitialized));
    assert_eq!(bar.phase(), Phase::Ready);
    assert_eq!(bar.focused(), Some(1));
    assert_eq!(bar.redraw(&Vec::new()).backdrop, backdrop());
}

#[test]
fn a_change_of_workspace_moves_the_focus_and_forgets_the_old_occupancy() {
    let mut bar = ready(&["1", "2", "3"]);
    bar.workspace_change("1", "2", &report(&[("1", 0), ("2", 1), ("3", 0)]), &Vec::new());
    assert_eq!(bar.focused(), Some(1));
    assert_eq!(
        states(&bar),
        vec![SegmentState::Empty, SegmentState::Focused, SegmentState::Empty]
    );

    let extents = vec![Some(7 * UNIT), Some(8 * UNIT), Some(9 * UNIT)];
    let frame = bar.workspace_change("2", "1", &Vec::new(), &extents);
    assert_eq!(bar.focused(), Some(0));
    assert_eq!(
        states(&bar),
        vec![SegmentState::Focused, SegmentState::Empty, SegmentState::Empty]
    );
    assert_eq!(
        frame,
        Frame {
            backdrop: backdrop(),
            segments: vec![
                segment("1", Some(BLUE), GREY, 7 * UNIT),
                segment("2", Some(BLACK), GREY, 8 * UNIT),
                segment("3", Some(BLACK), GREY, 9 * UNIT),
            ],
            finish: vec![DrawCommand::Flush],
        }
    );
}

#[test]
fn occupancy_is_what_the_report_says() {
    let mut bar = ready(&["1", "2", "3"]);
    let extents = vec![Some(UNIT), Some(UNIT), Some(UNIT)];
    let frame = bar.workspace_change(
        "1",
        "3",
        &report(&[("3", 2), ("2", 1), ("1", 0), ("7", 5)]),
        &extents,
    );
    assert_eq!(
        states(&bar),
        vec![SegmentState::Empty, SegmentState::Occupied, SegmentState::Focused]
    );
    assert_eq!(
        frame.segments,
        vec![
            segment("1", Some(BLACK), GREY, UNIT),
            segment("2", Some(BLACK), WHITE, UNIT),
            segment("3", Some(BLUE), WHITE, UNIT),
        ]
    );
}

#[test]
fn a_focused_workspace_that_is_not_shown_highlights_nothing() {
    let mut bar = ready(&["1", "2"]);
    bar.workspace_change("1", "9", &report(&[("1", 1)]), &Vec::new());
    assert_eq!(bar.focused(), None);
    assert_eq!(states(&bar), vec![SegmentState::Occupied, SegmentState::Empty]);
}

#[test]
fn the_previous_workspace_plays_no_part() {
    let mut a = ready(&["1", "2", "3"]);
    let mut b = ready(&["1", "2", "3"]);
    let extents = vec![Some(UNIT), None, Some(3 * UNIT)];
    let said = report(&[("2", 1)]);
    let from_a = a.workspace_change("1", "3", &said, &extents);
    let from_b = b.workspace_change("no such tag", "3", &said, &extents);
    assert_eq!(from_a, from_b);
    assert_eq!(a, b);
}

#[test]
fn a_bar_that_is_not_ready_ignores_a_change() {
    let mut bar = bar(&["1", "2"]);
    let frame = bar.workspace_change("1", "2", &report(&[("2", 1)]), &vec![Some(1), Some(1)]);
    assert_eq!(frame, nothing());
    assert_eq!(bar.phase(), Phase::Uninitialized);
    assert_eq!(bar.focused(), None);
    assert_eq!(states(&bar), vec![SegmentState::Empty, SegmentState::Empty]);
}

#[test]
fn a_segment_is_the_label_and_its_padding_on_both_sides() {
    let bar = ready(&["web"]);
    let frame = bar.redraw(&vec![Some(30 * UNIT + 512)]);
    assert_eq!(
        frame.segments,
        vec![vec![
            DrawCommand::SelectFont { font: "ProFont For Powerline".to_string(), size: 11 },
            DrawCommand::SetColor(color(BLUE)),
            DrawCommand::Rectangle { x: 0, y: 0, width: 35328, height: 18432 },
            DrawCommand::SetColor(color(GREY)),
            DrawCommand::Text { label: "web".to_string(), padding: padding() },
            DrawCommand::Translate { dx: 35328, dy: 0 },
        ]]
    );
}

#[test]
fn the_widest_label_does_not_overflow() {
    let mut bar = StatusBar::new(BarConfig {
        height: u32::MAX,
        style: Style::new(
            "Serif",
            10,
            color(WHITE),
            Some(color(BLACK)),
            Padding { horizontal: u32::MAX, vertical: 0 },
        )
        .unwrap(),
        highlight: color(BLUE),
        empty: color(GREY),
        tags: tags(&["1"]),
    });
    bar.startup(u32::MAX, Acquired::Ready).unwrap();
    let frame = bar.redraw(&vec![Some(u32::MAX)]);
    let span = 3 * (u32::MAX as u64);
    assert_eq!(
        frame.backdrop[1],
        DrawCommand::Rectangle {
            x: 0,
            y: 0,
            width: u32::MAX as u64 * 1024,
            height: u32::MAX as u64 * 1024,
        }
    );
    assert_eq!(frame.segments[0][5], DrawCommand::Translate { dx: span, dy: 0 });
}

#[test]
fn without_a_background_nothing_is_filled_but_the_focus() {
    let mut bar = bar_with(&["1", "2"], None);
    bar.startup(1920, Acquired::Ready).unwrap();
    let frame = bar.workspace_change("1", "2", &report(&[("1", 3)]), &vec![Some(UNIT), Some(UNIT)]);
    assert_eq!(frame.backdrop, Vec::new());
    assert_eq!(
        frame.segments,
        vec![segment("1", None, WHITE, UNIT), segment("2", Some(BLUE), GREY, UNIT)]
    );
    assert_eq!(frame.finish, vec![DrawCommand::Flush]);
}

#[test]
fn a_label_that_could_not_be_measured_costs_its_segment_only() {
    let mut bar = ready(&["1", "2", "3"]);
    let said = report(&[("1", 1), ("2", 1)]);
    let all = bar.workspace_change("1", "2", &said, &vec![Some(UNIT), Some(2 * UNIT), Some(3 * UNIT)]);
    for failed in 0..3 {
        let mut extents = vec![Some(UNIT), Some(2 * UNIT), Some(3 * UNIT)];
        extents[failed] = None;
        let frame = bar.redraw(&extents);
        assert_eq!(frame.backdrop, all.backdrop);
        assert_eq!(frame.finish, vec![DrawCommand::Flush]);
        for i in 0..3 {
            if i == failed {
                assert_eq!(frame.segments[i], Vec::new());
            } else {
                assert_eq!(frame.segments[i], all.segments[i]);
            }
        }
    }
}

#[test]
fn every_label_failing_still_flushes() {
    let bar = ready(&["1", "2"]);
    let frame = bar.redraw(&vec![None, None]);
    assert_eq!(frame.backdrop, backdrop());
    assert_eq!(frame.segments, vec![Vec::new(), Vec::new()]);
    assert_eq!(frame.finish, vec![DrawCommand::Flush]);
}

#[test]
fn missing_extents_count_as_not_measured_and_spare_ones_are_left() {
    let bar = ready(&["1", "2", "3"]);
    let frame = bar.redraw(&vec![Some(UNIT)]);
    assert_eq!(
        frame.segments,
        vec![segment("1", Some(BLUE), GREY, UNIT), Vec::new(), Vec::new()]
    );
    let frame = bar.redraw(&vec![None, Some(UNIT), None, Some(UNIT), Some(UNIT)]);
    assert_eq!(
        frame.segments,
        vec![Vec::new(), segment("2", Some(BLACK), GREY, UNIT), Vec::new()]
    );
}

#[test]
fn a_handled_event_repaints_only_when_asked() {
    let mut bar = ready(&["1", "2"]);
    let extents = vec![Some(UNIT), Some(UNIT)];
    let drawn = bar.workspace_change("1", "2", &report(&[("1", 1)]), &extents);
    assert_eq!(bar.event_handled(false, &extents), nothing());
    assert_eq!(bar.event_handled(true, &extents), drawn);
    assert_eq!(bar.focused(), Some(1));
    assert_eq!(states(&bar), vec![SegmentState::Occupied, SegmentState::Focused]);
}

#[test]
fn teardown_releases_the_surface_of_a_ready_bar() {
    let mut bar = ready(&["1", "2"]);
    assert!(bar.teardown());
    assert_eq!(bar.phase(), Phase::Terminated);
    assert!(!bar.teardown());
    assert_eq!(bar.phase(), Phase::Terminated);
    assert_eq!(bar.redraw(&vec![Some(1), Some(1)]), nothing());
    assert_eq!(bar.event_handled(true, &vec![Some(1), Some(1)]), nothing());
    assert_eq!(
        bar.workspace_change("1", "2", &Vec::new(), &vec![Some(1), Some(1)]),
        nothing()
    );
    assert_eq!(bar.focused(), Some(0));
}

#[test]
fn teardown_of_a_bar_that_never_started_releases_nothing() {
    let mut bar = bar(&["1"]);
    assert!(!bar.teardown());
    assert_eq!(bar.phase(), Phase::Terminated);
    assert_eq!(bar.startup(1920, Acquired::Ready), Err(HookInitError::NotUninitialized));
}

#[test]
fn a_workspace_is_occupied_when_some_report_of_it_counts_a_window() {
    let shown = tags(&["1", "2", "3", "4"]);
    let said = report(&[("2", 0), ("4", 1), ("2", 3), ("5", 9), ("1", 0)]);
    assert_eq!(occupancy_of(&shown, &said), vec![false, true, false, true]);
    assert_eq!(occupancy_of(&shown, &Vec::new()), vec![false; 4]);
    assert_eq!(occupancy_of(&tags(&[]), &said), Vec::<bool>::new());
}

fn walk(frame: &Frame, fails: &[Cursor]) -> Vec<Cursor> {
    let mut visited = Vec::new();
    let mut at = frame.first();
    while let Some(cursor) = at {
        assert!(frame.command(cursor).is_some());
        visited.push(cursor);
        at = frame.next(cursor, fails.contains(&cursor));
    }
    visited
}

fn at(part: Part, step: usize) -> Cursor {
    Cursor { part, step }
}

#[test]
fn a_frame_is_carried_out_part_by_part() {
    let mut bar = bar_with(&["1", "2"], None);
    bar.startup(1920, Acquired::Ready).unwrap();
    let frame = bar.redraw(&vec![Some(UNIT), Some(UNIT)]);
    assert_eq!(frame.backdrop.len(), 0);
    assert_eq!(frame.segments[0].len(), 6);
    assert_eq!(frame.segments[1].len(), 4);
    let mut expected = Vec::new();
    for step in 0..6 {
        expected.push(at(Part::Segment(0), step));
    }
    for step in 0..4 {
        expected.push(at(Part::Segment(1), step));
    }
    expected.push(at(Part::Finish, 0));
    assert_eq!(walk(&frame, &[]), expected);
    assert_eq!(frame.command(at(Part::Finish, 0)), Some(&DrawCommand::Flush));
    assert_eq!(frame.command(at(Part::Finish, 1)), None);
    assert_eq!(frame.command(at(Part::Backdrop, 0)), None);
    assert_eq!(frame.command(at(Part::Segment(2), 0)), None);
    assert_eq!(frame.command(at(Part::Segment(1), 4)), None);
    assert_eq!(
        frame.command(at(Part::Segment(1), 2)),
        Some(&DrawCommand::Text { label: "2".to_string(), padding: padding() })
    );
}

#[test]
fn a_failed_step_costs_the_rest_of_its_segment_only() {
    let bar = ready(&["1", "2", "3"]);
    let frame = bar.redraw(&vec![Some(UNIT), Some(UNIT), Some(UNIT)]);
    let font_of_second = at(Part::Segment(1), 0);
    let visited = walk(&frame, &[font_of_second]);
    let mut expected = vec![at(Part::Backdrop, 0), at(Part::Backdrop, 1)];
    for step in 0..6 {
        expected.push(at(Part::Segment(0), step));
    }
    expected.push(font_of_second);
    for step in 0..6 {
        expected.push(at(Part::Segment(2), step));
    }
    expected.push(at(Part::Finish, 0));
    assert_eq!(visited, expected);
}

#[test]
fn failures_everywhere_still_reach_every_part_and_the_flush() {
    let bar = ready(&["1", "2", "3"]);
    let frame = bar.redraw(&vec![Some(UNIT), None, Some(UNIT)]);
    let fails = [
        at(Part::Backdrop, 0),
        at(Part::Segment(0), 3),
        at(Part::Segment(2), 0),
        at(Part::Finish, 0),
    ];
    assert_eq!(
        walk(&frame, &fails),
        vec![
            at(Part::Backdrop, 0),
            at(Part::Segment(0), 0),
            at(Part::Segment(0), 1),
            at(Part::Segment(0), 2),
            at(Part::Segment(0), 3),
            at(Part::Segment(2), 0),
            at(Part::Finish, 0),
        ]
    );
}

#[test]
fn an_empty_frame_has_no_first_step() {
    assert_eq!(nothing().first(), None);
    assert_eq!(nothing().next(at(Part::Backdrop, 0), false), None);
    assert_eq!(nothing().next(at(Part::Segment(usize::MAX), usize::MAX), true), None);
    let bar = ready(&["1"]);
    let frame = bar.redraw(&Vec::new());
    assert_eq!(frame.next(at(Part::Segment(usize::MAX), 0), false), Some(at(Part::Finish, 0)));
    assert_eq!(frame.next(at(Part::Finish, 0), false), None);
    assert_eq!(frame.next(at(Part::Finish, usize::MAX), false), None);
}
