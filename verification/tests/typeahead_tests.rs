use explorer_rs::typeahead_input::{
    collect_frame_typed, decide_action, decide_action_after, should_route_to_filter, FrameTyped,
    InputEvent, KeyName, TypeaheadAction,
};
use std::time::{Duration, Instant};

#[test]
fn route_to_filter_when_unfocused_and_typed() {
    assert!(should_route_to_filter(false, "てすと"));
    assert!(should_route_to_filter(false, "a"));
    assert!(!should_route_to_filter(true, "てすと"));
    assert!(!should_route_to_filter(false, ""));
}

#[test]
fn decide_routes_ime_text_to_filter() {
    let frame = FrameTyped {
        text: "てすと".into(),
        backspace: false,
    };
    match decide_action(false, &frame, "", None) {
        TypeaheadAction::RouteToFilter { typed } => assert_eq!(typed, "てすと"),
        other => panic!("expected RouteToFilter, got {other:?}"),
    }
}

#[test]
fn decide_defers_when_textedit_focused() {
    let frame = FrameTyped {
        text: "あ".into(),
        backspace: false,
    };
    assert!(matches!(
        decide_action(true, &frame, "", None),
        TypeaheadAction::Idle
    ));
}

#[test]
fn decide_clears_stale_typeahead() {
    let frame = FrameTyped::default();
    let old = Instant::now() - Duration::from_secs(3);
    assert!(matches!(
        decide_action(false, &frame, "x", Some(old)),
        TypeaheadAction::ClearTypeahead { .. }
    ));
}

#[test]
fn decide_after_fresh_typeahead_rechecks() {
    let frame = FrameTyped::default();
    assert!(matches!(
        decide_action_after(false, &frame, "x", Some(1500)),
        TypeaheadAction::RepaintAfter(100)
    ));
    assert!(matches!(
        decide_action_after(false, &frame, "x", Some(1501)),
        TypeaheadAction::ClearTypeahead { status: None }
    ));
    assert!(matches!(
        decide_action_after(false, &frame, "x", None),
        TypeaheadAction::Idle
    ));
}

#[test]
fn backspace_on_typeahead_is_left_alone() {
    let frame = FrameTyped {
        text: "a".into(),
        backspace: true,
    };
    assert!(matches!(
        decide_action_after(false, &frame, "abc", Some(10)),
        TypeaheadAction::Idle
    ));
    // With an empty buffer the text still goes to the filter.
    assert!(matches!(
        decide_action_after(false, &frame, "", Some(10)),
        TypeaheadAction::RouteToFilter { .. }
    ));
}

fn key(k: KeyName, ctrl: bool) -> InputEvent {
    InputEvent::Key {
        key: k,
        pressed: true,
        ctrl,
        command: false,
        alt: false,
    }
}

#[test]
fn collect_prefers_text_events() {
    let events = vec![
        key(KeyName::A, false),
        InputEvent::Text("あ".into()),
        InputEvent::Text("\u{7}".into()),
        InputEvent::Text("い".into()),
        InputEvent::Other,
    ];
    let f = collect_frame_typed(&events);
    assert_eq!(f.text, "あい");
    assert!(!f.backspace);
}

#[test]
fn collect_falls_back_to_keys() {
    let events = vec![
        key(KeyName::F, false),
        key(KeyName::Num1, false),
        key(KeyName::C, true),
        key(KeyName::Period, false),
        key(KeyName::Other, false),
        InputEvent::Key {
            key: KeyName::Z,
            pressed: false,
            ctrl: false,
            command: false,
            alt: false,
        },
        key(KeyName::Backslash, false),
        key(KeyName::Backspace, false),
    ];
    let f = collect_frame_typed(&events);
    assert_eq!(f.text, "f1.\\");
    assert!(f.backspace);
}

#[test]
fn collect_ignores_modified_backspace() {
    let events = vec![key(KeyName::Backspace, true)];
    let f = collect_frame_typed(&events);
    assert!(!f.backspace);
    assert_eq!(f.text, "");
}

#[test]
fn routing_agrees_with_should_route() {
    for (wants, text) in [(false, "a"), (true, "a"), (false, "")] {
        let frame = FrameTyped {
            text: text.into(),
            backspace: false,
        };
        let routed = matches!(
            decide_action_after(wants, &frame, "", None),
            TypeaheadAction::RouteToFilter { .. }
        );
        assert_eq!(routed, should_route_to_filter(wants, text));
    }
}
