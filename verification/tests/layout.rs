//! Tests of the layout engine and click resolution.

use statusbar::consts::wayland2bar;
use statusbar::layout::{
    resolve_click, scroll_button, try_layout, Action, Command, LineCommand, TextCommand,
    MARGIN,
};
use statusbar::parse::{parse_styled_string, str_to_chars};
use statusbar::Color;

fn fg() -> Color {
    Color::new(0, 0, 0, 255)
}

fn bg() -> Color {
    Color::new(255, 255, 255, 255)
}

fn run(line: &str, widths: Vec<usize>, surface: usize) -> (Vec<Command>, Vec<Action>) {
    let parts = parse_styled_string(line).unwrap().into_content();
    try_layout(parts, &widths, fg(), bg(), surface).unwrap()
}

#[test]
fn action_region_in_scenario() {
    // A 100 px surface with 5 px margins: the single region starts at
    // the margin.
    let (cmds, actions) = run("%{A:test:}test%{A}", vec![20], 100);
    assert_eq!(actions.len(), 1);
    assert_eq!(actions[0].button, 1);
    assert_eq!(actions[0].cmd, str_to_chars("test"));
    assert_eq!(actions[0].start, 5);
    assert_eq!(actions[0].end, 25);
    assert_eq!(cmds.len(), 1);
    match &cmds[0] {
        Command::Text(t) => {
            assert_eq!(t.start, 5);
            assert_eq!(t.end, 25);
        }
        _ => panic!("expected a text command"),
    }
}

#[test]
fn left_lane_first_text_starts_at_margin() {
    let (cmds, _) = run("ab", vec![30], 100);
    match &cmds[0] {
        Command::Text(t) => assert_eq!(t.start, MARGIN),
        _ => panic!("expected a text command"),
    }
}

#[test]
fn right_lane_last_command_ends_at_width_minus_margin() {
    let (cmds, _) = run("%{r}ab", vec![30], 100);
    match &cmds[0] {
        Command::Text(t) => {
            assert_eq!(t.start, 65);
            assert_eq!(t.end, 95);
        }
        _ => panic!("expected a text command"),
    }
}

#[test]
fn center_lane_is_centered() {
    let (cmds, _) = run("%{c}ab", vec![30], 100);
    match &cmds[0] {
        Command::Text(t) => {
            assert_eq!(t.start, 35);
            assert_eq!(t.end, 65);
        }
        _ => panic!("expected a text command"),
    }
}

#[test]
fn offset_moves_cursor_without_drawing() {
    let (cmds, _) = run("a%{O10}b", vec![5, 5], 100);
    assert_eq!(cmds.len(), 2);
    match (&cmds[0], &cmds[1]) {
        (Command::Text(t1), Command::Text(t2)) => {
            assert_eq!((t1.start, t1.end), (5, 10));
            assert_eq!((t2.start, t2.end), (20, 25));
        }
        _ => panic!("expected two text commands"),
    }
}

#[test]
fn styles_color_subsequent_text() {
    let (cmds, _) = run("%{B0ff}a%{B-}b", vec![5, 5], 100);
    match (&cmds[0], &cmds[1]) {
        (Command::Text(t1), Command::Text(t2)) => {
            assert_eq!(t1.fg, fg());
            assert_eq!(t1.bg, Color::new(0, 255, 255, 255));
            assert_eq!(t2.bg, bg());
        }
        _ => panic!("expected two text commands"),
    }
}

#[test]
fn swap_exchanges_colors() {
    let (cmds, _) = run("%{R}a", vec![5], 100);
    match &cmds[0] {
        Command::Text(t) => {
            assert_eq!(t.fg, bg());
            assert_eq!(t.bg, fg());
        }
        _ => panic!("expected a text command"),
    }
}

#[test]
fn underline_double_on_gives_one_segment() {
    // On, text, On (already open), Off: exactly one underline from
    // the first toggle to the off.
    let (cmds, _) = run("%{+u}test%{+u}%{-u}", vec![30], 100);
    let underlines: Vec<&LineCommand> = cmds
        .iter()
        .filter_map(|c| match c {
            Command::Underline(l) => Some(l),
            _ => None,
        })
        .collect();
    assert_eq!(underlines.len(), 1);
    assert_eq!(underlines[0].start, 5);
    assert_eq!(underlines[0].end, 35);
    assert_eq!(underlines[0].color, fg());
}

#[test]
fn underline_left_open_is_dropped() {
    let (cmds, _) = run("%{+u}test", vec![30], 100);
    assert!(cmds.iter().all(|c| matches!(c, Command::Text(_))));
}

#[test]
fn overline_toggle_opens_and_closes() {
    let (cmds, _) = run("%{!o}ab%{!o}", vec![10], 100);
    let overlines: Vec<&LineCommand> = cmds
        .iter()
        .filter_map(|c| match c {
            Command::Overline(l) => Some(l),
            _ => None,
        })
        .collect();
    assert_eq!(overlines.len(), 1);
    assert_eq!((overlines[0].start, overlines[0].end), (5, 15));
}

#[test]
fn balanced_actions_emit_one_region_per_close() {
    // One closed pair and one auto-closed trailing open.
    let (_, actions) = run("%{A:a:}x%{A}%{A:b:}y", vec![10, 10], 100);
    assert_eq!(actions.len(), 2);
    assert_eq!(actions[0].cmd, str_to_chars("a"));
    assert_eq!((actions[0].start, actions[0].end), (5, 15));
    assert_eq!(actions[1].cmd, str_to_chars("b"));
    assert_eq!((actions[1].start, actions[1].end), (15, 25));
}

#[test]
fn second_open_while_pending_is_ignored() {
    let (_, actions) = run("%{A:a:}x%{A2:b:}y%{A}", vec![10, 10], 100);
    assert_eq!(actions.len(), 1);
    assert_eq!(actions[0].button, 1);
    assert_eq!(actions[0].cmd, str_to_chars("a"));
    assert_eq!((actions[0].start, actions[0].end), (5, 25));
}

#[test]
fn lane_switch_while_action_pending_is_ignored() {
    let (cmds, actions) = run("%{A:a:}x%{c}y%{A}", vec![10, 10], 100);
    assert_eq!(actions.len(), 1);
    assert_eq!((actions[0].start, actions[0].end), (5, 25));
    // Both text runs stay in the left lane.
    match (&cmds[0], &cmds[1]) {
        (Command::Text(t1), Command::Text(t2)) => {
            assert_eq!((t1.start, t1.end), (5, 15));
            assert_eq!((t2.start, t2.end), (15, 25));
        }
        _ => panic!("expected two text commands"),
    }
}

#[test]
fn lanes_concatenate_left_center_right() {
    let (cmds, _) = run("l%{c}c%{r}r", vec![10, 10, 10], 100);
    let spans: Vec<(usize, usize)> = cmds
        .iter()
        .map(|c| match c {
            Command::Text(TextCommand { start, end, .. }) => (*start, *end),
            _ => panic!("expected text commands"),
        })
        .collect();
    assert_eq!(spans, vec![(5, 15), (45, 55), (85, 95)]);
}

#[test]
fn try_layout_rejects_mismatched_widths() {
    let parts = parse_styled_string("ab").unwrap().into_content();
    assert!(try_layout(parts, &vec![], fg(), bg(), 100).is_none());
    let parts = parse_styled_string("ab").unwrap().into_content();
    assert!(try_layout(parts, &vec![1, 2], fg(), bg(), 100).is_none());
}

#[test]
fn try_layout_rejects_overfull_lanes() {
    let parts = parse_styled_string("%{c}ab").unwrap().into_content();
    assert!(try_layout(parts, &vec![200], fg(), bg(), 100).is_none());
    let parts = parse_styled_string("%{r}ab").unwrap().into_content();
    assert!(try_layout(parts, &vec![96], fg(), bg(), 100).is_none());
    let parts = parse_styled_string("ab").unwrap().into_content();
    assert!(try_layout(parts, &vec![200], fg(), bg(), 100).is_some());
}

#[test]
fn overlapping_regions_resolve_to_later() {
    // A left region [5, 25) and a center region [10, 20) with the
    // same button: a click inside the overlap picks the later one.
    let (_, actions) = run("%{A:a:}xx%{A}%{c}%{A:b:}y%{A}", vec![20, 10], 30);
    assert_eq!(actions.len(), 2);
    assert_eq!((actions[0].start, actions[0].end), (5, 25));
    assert_eq!((actions[1].start, actions[1].end), (10, 20));
    let hit = resolve_click(&actions, 15, 1).unwrap();
    assert_eq!(hit, 1);
    assert_eq!(actions[hit].cmd, str_to_chars("b"));
}

#[test]
fn click_resolution_respects_bounds_and_button() {
    let (_, actions) = run("%{A2:a:}x%{A}", vec![10], 100);
    assert_eq!(resolve_click(&actions, 7, 2), Some(0));
    // The end of the span is exclusive.
    assert_eq!(resolve_click(&actions, 15, 2), None);
    assert_eq!(resolve_click(&actions, 4, 2), None);
    assert_eq!(resolve_click(&actions, 7, 1), None);
    assert_eq!(resolve_click(&vec![], 7, 1), None);
}

#[test]
fn scroll_maps_to_synthetic_buttons() {
    assert_eq!(scroll_button(3), 5);
    assert_eq!(scroll_button(-2), 4);
    assert_eq!(scroll_button(0), 0);
}

#[test]
fn pointer_buttons_map_to_bar_buttons() {
    assert_eq!(wayland2bar(272), Some(1));
    assert_eq!(wayland2bar(273), Some(2));
    assert_eq!(wayland2bar(274), Some(3));
    assert_eq!(wayland2bar(300), None);
}

#[test]
fn command_into_offset_shifts_both_edges() {
    let t = TextCommand {
        string: str_to_chars("x"),
        fg: fg(),
        bg: bg(),
        start: 3,
        end: 9,
    };
    let t = t.into_offset(7);
    assert_eq!((t.start, t.end), (10, 16));
    let l = LineCommand { color: fg(), start: 1, end: 2 }.into_offset(4);
    assert_eq!((l.start, l.end), (5, 6));
    let a = Action {
        button: 1,
        cmd: str_to_chars("c"),
        start: 0,
        end: 8,
    }
    .into_offset(2);
    assert_eq!((a.start, a.end), (2, 10));
}
