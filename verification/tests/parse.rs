//! Tests of the markup parser.

use statusbar::parse::{
    parse_styled_string, str_to_chars, Action, Align, Attribute, AttributeAction, Color,
    Style, StyledString, StyledStringPart,
};

#[test]
fn test_parse() {
    let str = "test";
    let styled: StyledString = str.parse().unwrap();
    assert_eq!(
        styled,
        StyledString::new(vec![StyledStringPart::Text(str_to_chars("test"))])
    );

    let str = "%{B0ff}";
    let styled: StyledString = str.parse().unwrap();
    assert_eq!(
        styled,
        StyledString::new(vec![StyledStringPart::Style(Style::new(
            None,
            Some(statusbar::Color::new(0, 255, 255, 255))
        ))])
    );

    let str = "%{B0ff}test";
    let styled: StyledString = str.parse().unwrap();
    assert_eq!(
        styled,
        StyledString::new(vec![
            StyledStringPart::Style(Style::new(None, Some(statusbar::Color::new(0, 255, 255, 255)))),
            StyledStringPart::Text(str_to_chars("test"))
        ])
    );

    let str = "%{A:test:}test%{A}";
    let styled: StyledString = str.parse().unwrap();
    assert_eq!(
        styled,
        StyledString::new(vec![
            StyledStringPart::Action(Action::new(1, str_to_chars("test"))),
            StyledStringPart::Text(str_to_chars("test")),
            StyledStringPart::ActionEnd,
        ])
    );
}

#[test]
fn parse_empty_line_is_empty() {
    let styled = parse_styled_string("").unwrap();
    assert_eq!(styled, StyledString::new(vec![]));
}

#[test]
fn parse_action_with_button() {
    let styled = parse_styled_string("%{A3:cmd arg:}").unwrap();
    assert_eq!(
        styled,
        StyledString::new(vec![StyledStringPart::Action(Action::new(
            3,
            str_to_chars("cmd arg")
        ))])
    );
}

#[test]
fn parse_action_command_may_hold_braces() {
    let styled = parse_styled_string("%{A:a}b:}").unwrap();
    assert_eq!(
        styled,
        StyledString::new(vec![StyledStringPart::Action(Action::new(
            1,
            str_to_chars("a}b")
        ))])
    );
}

#[test]
fn parse_foreground_and_resets() {
    let styled = parse_styled_string("%{F123456}%{F-}%{B-}").unwrap();
    assert_eq!(
        styled,
        StyledString::new(vec![
            StyledStringPart::Style(Style::new(
                Some(statusbar::Color::new(0x12, 0x34, 0x56, 255)),
                None
            )),
            StyledStringPart::Style(Style {
                fg: Color::UseDefault,
                bg: Color::Unchanged,
            }),
            StyledStringPart::Style(Style {
                fg: Color::Unchanged,
                bg: Color::UseDefault,
            }),
        ])
    );
}

#[test]
fn parse_swap_align_offset_attributes() {
    let styled = parse_styled_string("%{R}%{l}%{c}%{r}%{O42}%{+u}%{-o}%{!u}").unwrap();
    assert_eq!(
        styled,
        StyledString::new(vec![
            StyledStringPart::Swap,
            StyledStringPart::Align(Align::Left),
            StyledStringPart::Align(Align::Center),
            StyledStringPart::Align(Align::Right),
            StyledStringPart::Offset(42),
            StyledStringPart::Attribute {
                attribute: Attribute::Underline,
                action: AttributeAction::On
            },
            StyledStringPart::Attribute {
                attribute: Attribute::Overline,
                action: AttributeAction::Off
            },
            StyledStringPart::Attribute {
                attribute: Attribute::Underline,
                action: AttributeAction::Toggle
            },
        ])
    );
}

#[test]
fn parse_eight_digit_color() {
    let styled = parse_styled_string("%{B12345678}").unwrap();
    assert_eq!(
        styled,
        StyledString::new(vec![StyledStringPart::Style(Style::new(
            None,
            Some(statusbar::Color::new(0x12, 0x34, 0x56, 0x78))
        ))])
    );
}

#[test]
fn parse_rejects_bare_percent() {
    let err = parse_styled_string("100%").unwrap_err();
    assert_eq!(err.position, 3);
}

#[test]
fn parse_rejects_bad_color_length() {
    assert!(parse_styled_string("%{B12345}").is_err());
    assert!(parse_styled_string("%{B1234567}").is_err());
    assert!(parse_styled_string("%{B12}").is_err());
}

#[test]
fn parse_rejects_bad_button() {
    assert!(parse_styled_string("%{A6:x:}").is_err());
    assert!(parse_styled_string("%{A0:x:}").is_err());
}

#[test]
fn parse_rejects_empty_command() {
    assert!(parse_styled_string("%{A:}").is_err());
}

#[test]
fn parse_rejects_unterminated_directive() {
    assert!(parse_styled_string("%{").is_err());
    assert!(parse_styled_string("%{B0ff").is_err());
    assert!(parse_styled_string("%{A:cmd:").is_err());
}

#[test]
fn parse_rejects_unknown_directive() {
    assert!(parse_styled_string("%{x}").is_err());
    assert!(parse_styled_string("%{+x}").is_err());
}

#[test]
fn parse_rejects_empty_offset() {
    assert!(parse_styled_string("%{O}").is_err());
}

#[test]
fn parse_rejects_huge_offset() {
    assert!(parse_styled_string("%{O99999999999999999999999999}").is_err());
}

#[test]
fn parse_into_content_round_trips() {
    let styled = parse_styled_string("a%{R}b").unwrap();
    let content = styled.into_content();
    assert_eq!(content.len(), 3);
    assert_eq!(content[0], StyledStringPart::Text(str_to_chars("a")));
    assert_eq!(content[1], StyledStringPart::Swap);
    assert_eq!(content[2], StyledStringPart::Text(str_to_chars("b")));
}

#[test]
fn action_into_tuple_returns_parts() {
    let a = Action::new(4, str_to_chars("run me"));
    let (button, cmd) = a.into_tuple();
    assert_eq!(button, 4);
    assert_eq!(cmd, str_to_chars("run me"));
}

#[test]
fn style_accessors_return_fields() {
    let s = Style::new(Some(statusbar::Color::new(1, 2, 3, 4)), None);
    assert_eq!(
        s.foreground_color(),
        Color::New(statusbar::Color::new(1, 2, 3, 4))
    );
    assert_eq!(s.background_color(), Color::Unchanged);
}

#[test]
fn color_ref_resolution() {
    let default = statusbar::Color::new(1, 1, 1, 1);
    let now = statusbar::Color::new(2, 2, 2, 2);
    let new = statusbar::Color::new(3, 3, 3, 3);
    assert_eq!(Color::UseDefault.into_color(default, now), default);
    assert_eq!(Color::Unchanged.into_color(default, now), now);
    assert_eq!(Color::New(new).into_color(default, now), new);
}
