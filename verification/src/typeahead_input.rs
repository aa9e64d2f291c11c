//! IME-safe typed input for the filter and the typeahead buffer.
//!
//! Committed text (an IME composition, or a printable key) arrives as a text
//! event, so text events are the primary source; bare letter, digit and a
//! few punctuation keys count only when no text event came in the frame.

use vstd::prelude::*;
use crate::text;
use crate::text::{char_is_control, push_char, push_str};

verus! {

/// Keys that the input of a frame can hold.
#[derive(Debug, Clone, Copy, PartialEq, Eq, Structural)]
pub enum KeyName {
    A, B, C, D, E, F, G, H, I, J, K, L, M, N, O, P, Q, R, S, T, U, V, W, X, Y, Z,
    Num0, Num1, Num2, Num3, Num4, Num5, Num6, Num7, Num8, Num9,
    Minus, Period, Slash, Backslash, Comma,
    Backspace,
    /// Any other key.
    Other,
}

/// One input event of a frame.
#[derive(Debug, Clone)]
pub enum InputEvent {
    /// Committed text.
    Text(String),
    /// A key going down or up, with the modifiers held.
    Key { key: KeyName, pressed: bool, ctrl: bool, command: bool, alt: bool },
    /// Anything else (pointer, scroll, ...).
    Other,
}

/// Characters typed this frame (Text first, then Key fallback).
#[derive(Debug, Clone)]
pub struct FrameTyped {
    pub text: String,
    pub backspace: bool,
}

impl Default for FrameTyped {
    fn default() -> (r: Self)
        ensures
            r.text@ == Seq::<char>::empty(),
            !r.backspace,
    {
        FrameTyped { text: String::new(), backspace: false }
    }
}

/// What the app should do after processing unfocused typing.
#[derive(Debug, Clone)]
pub enum TypeaheadAction {
    /// Nothing to do.
    Idle,
    /// Clear typeahead buffer and optionally set status.
    ClearTypeahead { status: Option<String> },
    /// Append to filter, focus filter field, refresh list.
    RouteToFilter { typed: String },
    /// Request a repaint after this many milliseconds.
    RepaintAfter(u64),
}

// ---------------------------------------------------------------------------
// Collecting a frame's input
// ---------------------------------------------------------------------------

/// The character a bare key types when no text event fired.
pub open spec fn key_char(k: KeyName) -> Option<char> {
    match k {
        KeyName::A => Some('a'),
        KeyName::B => Some('b'),
        KeyName::C => Some('c'),
        KeyName::D => Some('d'),
        KeyName::E => Some('e'),
        KeyName::F => Some('f'),
        KeyName::G => Some('g'),
        KeyName::H => Some('h'),
        KeyName::I => Some('i'),
        KeyName::J => Some('j'),
        KeyName::K => Some('k'),
        KeyName::L => Some('l'),
        KeyName::M => Some('m'),
        KeyName::N => Some('n'),
        KeyName::O => Some('o'),
        KeyName::P => Some('p'),
        KeyName::Q => Some('q'),
        KeyName::R => Some('r'),
        KeyName::S => Some('s'),
        KeyName::T => Some('t'),
        KeyName::U => Some('u'),
        KeyName::V => Some('v'),
        KeyName::W => Some('w'),
        KeyName::X => Some('x'),
        KeyName::Y => Some('y'),
        KeyName::Z => Some('z'),
        KeyName::Num0 => Some('0'),
        KeyName::Num1 => Some('1'),
        KeyName::Num2 => Some('2'),
        KeyName::Num3 => Some('3'),
        KeyName::Num4 => Some('4'),
        KeyName::Num5 => Some('5'),
        KeyName::Num6 => Some('6'),
        KeyName::Num7 => Some('7'),
        KeyName::Num8 => Some('8'),
        KeyName::Num9 => Some('9'),
        KeyName::Minus => Some('-'),
        KeyName::Period => Some('.'),
        KeyName::Slash => Some('/'),
        KeyName::Backslash => Some('\\'),
        KeyName::Comma => Some(','),
        KeyName::Backspace => None,
        KeyName::Other => None,
    }
}

/// The character a bare key types (see [`key_char`]).
pub fn key_char_of(k: KeyName) -> (r: Option<char>)
    ensures
        r == key_char(k),
{
    match k {
        KeyName::A => Some('a'),
        KeyName::B => Some('b'),
        KeyName::C => Some('c'),
        KeyName::D => Some('d'),
        KeyName::E => Some('e'),
        KeyName::F => Some('f'),
        KeyName::G => Some('g'),
        KeyName::H => Some('h'),
        KeyName::I => Some('i'),
        KeyName::J => Some('j'),
        KeyName::K => Some('k'),
        KeyName::L => Some('l'),
        KeyName::M => Some('m'),
        KeyName::N => Some('n'),
        KeyName::O => Some('o'),
        KeyName::P => Some('p'),
        KeyName::Q => Some('q'),
        KeyName::R => Some('r'),
        KeyName::S => Some('s'),
        KeyName::T => Some('t'),
        KeyName::U => Some('u'),
        KeyName::V => Some('v'),
        KeyName::W => Some('w'),
        KeyName::X => Some('x'),
        KeyName::Y => Some('y'),
        KeyName::Z => Some('z'),
        KeyName::Num0 => Some('0'),
        KeyName::Num1 => Some('1'),
        KeyName::Num2 => Some('2'),
        KeyName::Num3 => Some('3'),
        KeyName::Num4 => Some('4'),
        KeyName::Num5 => Some('5'),
        KeyName::Num6 => Some('6'),
        KeyName::Num7 => Some('7'),
        KeyName::Num8 => Some('8'),
        KeyName::Num9 => Some('9'),
        KeyName::Minus => Some('-'),
        KeyName::Period => Some('.'),
        KeyName::Slash => Some('/'),
        KeyName::Backslash => Some('\\'),
        KeyName::Comma => Some(','),
        KeyName::Backspace => None,
        KeyName::Other => None,
    }
}

/// Text that counts as typed: not empty, and no control character in it.
pub open spec fn accepted_text(t: Seq<char>) -> bool {
    t.len() > 0 && forall|i: int| 0 <= i < t.len() ==> !text::control_char(#[trigger] t[i])
}

/// The event is a press of `Backspace` without Ctrl, Command or Alt.
pub open spec fn is_plain_backspace(e: InputEvent) -> bool {
    e matches InputEvent::Key { key, pressed, ctrl, command, alt } && key == KeyName::Backspace
        && pressed && !ctrl && !command && !alt
}

/// What a single event adds to the committed text.
pub open spec fn text_of(e: InputEvent) -> Seq<char> {
    match e {
        InputEvent::Text(t) => if accepted_text(t@) {
            t@
        } else {
            seq![]
        },
        _ => seq![],
    }
}

/// The event is committed text that counts.
pub open spec fn is_accepted_text(e: InputEvent) -> bool {
    e matches InputEvent::Text(t) && accepted_text(t@)
}

/// What a single event types on the key fallback path: the key's character
/// when it is pressed without Ctrl, Command or Alt.
pub open spec fn key_text_of(e: InputEvent) -> Seq<char> {
    match e {
        InputEvent::Key { key, pressed, ctrl, command, alt } => if pressed && !ctrl && !command
            && !alt && key_char(key) is Some {
            seq![key_char(key)->0]
        } else {
            seq![]
        },
        _ => seq![],
    }
}

/// The committed text of the events, in order.
pub open spec fn committed_text(evs: Seq<InputEvent>) -> Seq<char>
    decreases evs.len(),
{
    if evs.len() == 0 {
        seq![]
    } else {
        committed_text(evs.drop_last()) + text_of(evs.last())
    }
}

/// The characters typed by bare keys, in order.
pub open spec fn key_text(evs: Seq<InputEvent>) -> Seq<char>
    decreases evs.len(),
{
    if evs.len() == 0 {
        seq![]
    } else {
        key_text(evs.drop_last()) + key_text_of(evs.last())
    }
}

/// What a frame typed: the committed text when some text event counts,
/// else the bare keys; and whether a plain Backspace was pressed.
pub open spec fn frame_text(evs: Seq<InputEvent>) -> Seq<char> {
    if exists|i: int| 0 <= i < evs.len() && is_accepted_text(#[trigger] evs[i]) {
        committed_text(evs)
    } else {
        key_text(evs)
    }
}

/// A plain Backspace was pressed in the frame.
pub open spec fn frame_backspace(evs: Seq<InputEvent>) -> bool {
    exists|i: int| 0 <= i < evs.len() && is_plain_backspace(#[trigger] evs[i])
}

fn accepts_text(t: &str) -> (r: bool)
    ensures
        r == accepted_text(t@),
{
    let v = text::chars_of(t);
    if v.len() == 0 {
        return false;
    }
    let mut i: usize = 0;
    while i < v.len()
        invariant
            i <= v@.len(),
            v@ == t@,
            forall|k: int| 0 <= k < i ==> !text::control_char(#[trigger] v@[k]),
        decreases v@.len() - i,
    {
        if char_is_control(v[i]) {
            return false;
        }
        i = i + 1;
    }
    true
}

/// Collect printable input for the current frame.
///
/// - Prefer text events (IME commit / composed characters).
/// - Fall back to bare letter, digit and punctuation keys only when no
///   text event counted.
/// - Ignore Ctrl/Command/Alt modified keys on the key fallback path.
pub fn collect_frame_typed(events: &[InputEvent]) -> (r: FrameTyped)
    ensures
        r.text@ == frame_text(events@),
        r.backspace == frame_backspace(events@),
{
    let mut backspace = false;
    let mut i: usize = 0;
    while i < events.len()
        invariant
            i <= events@.len(),
            backspace == exists|k: int| 0 <= k < i && is_plain_backspace(#[trigger] events@[k]),
        decreases events@.len() - i,
    {
        match &events[i] {
            InputEvent::Key { key, pressed, ctrl, command, alt } => {
                if *key == KeyName::Backspace && *pressed && !*ctrl && !*command && !*alt {
                    backspace = true;
                }
            },
            _ => {},
        }
        proof {
            if is_plain_backspace(events@[i as int]) {
                assert(backspace);
            }
        }
        i = i + 1;
    }
    let mut typed = String::new();
    let mut has_text = false;
    let mut i: usize = 0;
    while i < events.len()
        invariant
            i <= events@.len(),
            typed@ == committed_text(events@.take(i as int)),
            has_text == exists|k: int| 0 <= k < i && is_accepted_text(#[trigger] events@[k]),
        decreases events@.len() - i,
    {
        proof {
            assert(events@.take(i + 1).drop_last() == events@.take(i as int));
        }
        match &events[i] {
            InputEvent::Text(t) => {
                if accepts_text(t.as_str()) {
                    push_str(&mut typed, t.as_str());
                    has_text = true;
                } else {
                    proof {
                        assert(typed@ + Seq::<char>::empty() == typed@);
                    }
                }
            },
            _ => {
                proof {
                    assert(typed@ + Seq::<char>::empty() == typed@);
                }
            },
        }
        proof {
            if is_accepted_text(events@[i as int]) {
                assert(has_text);
            }
        }
        i = i + 1;
    }
    proof {
        assert(events@.take(events@.len() as int) == events@);
    }
    if has_text {
        return FrameTyped { text: typed, backspace };
    }
    let mut keys = String::new();
    let mut i: usize = 0;
    while i < events.len()
        invariant
            i <= events@.len(),
            keys@ == key_text(events@.take(i as int)),
        decreases events@.len() - i,
    {
        proof {
            assert(events@.take(i + 1).drop_last() == events@.take(i as int));
        }
        let ghost before = keys@;
        match &events[i] {
            InputEvent::Key { key, pressed, ctrl, command, alt } => {
                if *pressed && !*ctrl && !*command && !*alt {
                    match key_char_of(*key) {
                        Some(c) => {
                            push_char(&mut keys, c);
                            proof {
                                assert(before.push(c) == before + seq![c]);
                            }
                        },
                        None => {},
                    }
                }
            },
            _ => {},
        }
        proof {
            assert(keys@ == before + key_text_of(events@[i as int]));
        }
        i = i + 1;
    }
    FrameTyped { text: keys, backspace }
}

// ---------------------------------------------------------------------------
// What to do with it
// ---------------------------------------------------------------------------

/// Whether unfocused typing should go to the filter bar: nothing else wants
/// the keyboard and something was typed.
pub open spec fn routes_to_filter(wants_keyboard: bool, typed: Seq<char>) -> bool {
    !wants_keyboard && typed.len() > 0
}

/// Whether unfocused typing should go to the filter bar.
pub fn should_route_to_filter(wants_keyboard: bool, typed: &str) -> (r: bool)
    ensures
        r == routes_to_filter(wants_keyboard, typed@),
{
    let v = text::chars_of(typed);
    !wants_keyboard && v.len() > 0
}

/// Milliseconds after which a typeahead buffer is stale.
pub const STALE_AFTER_MS: u128 = 1500;

/// Milliseconds to wait before checking the typeahead buffer again.
pub const RECHECK_MS: u64 = 100;

/// The input is left alone: a text field owns the keyboard, or a
/// backspace is editing a non-empty typeahead buffer.
pub open spec fn input_left_alone(wants_keyboard: bool, backspace: bool, typeahead: Seq<char>) -> bool {
    wants_keyboard || (backspace && typeahead.len() > 0)
}

/// The next action for unfocused keyboard input, given how many
/// milliseconds ago the typeahead buffer was last typed into (`None` when it
/// never was); see [`decided`].
pub fn decide_action_after(
    wants_keyboard: bool,
    frame: &FrameTyped,
    typeahead: &str,
    elapsed_ms: Option<u128>,
) -> (r: TypeaheadAction)
    ensures
        decided(r, wants_keyboard, frame.text@, frame.backspace, typeahead@, elapsed_ms),
{
    if wants_keyboard {
        return TypeaheadAction::Idle;
    }
    let ta = text::chars_of(typeahead);
    if frame.backspace && ta.len() > 0 {
        return TypeaheadAction::Idle;
    }
    let typed = text::chars_of(frame.text.as_str());
    if typed.len() > 0 {
        return TypeaheadAction::RouteToFilter { typed: text::string_from_chars(typed.as_slice()) };
    }
    match elapsed_ms {
        Some(e) => {
            if e > STALE_AFTER_MS {
                TypeaheadAction::ClearTypeahead { status: None }
            } else {
                TypeaheadAction::RepaintAfter(RECHECK_MS)
            }
        },
        None => TypeaheadAction::Idle,
    }
}

/// `std::time::Instant`, a reading of the monotonic clock; opaque here.
#[verifier::external_type_specification]
#[verifier::external_body]
pub struct ExInstant(std::time::Instant);

/// Calls `Instant::elapsed`: the time passed since `at`. Nothing is stated
/// of it, which depends on the clock.
#[verifier::external_body]
fn elapsed_since(at: &std::time::Instant) -> std::time::Duration {
    at.elapsed()
}

/// Calls `Duration::as_millis`. Durations are opaque here, so nothing is
/// stated of the number.
#[verifier::external_body]
fn duration_millis(d: &std::time::Duration) -> u128 {
    d.as_millis()
}

/// Milliseconds passed since `at`, read from the clock.
fn millis_since(at: &std::time::Instant) -> u128 {
    let d = elapsed_since(at);
    duration_millis(&d)
}

/// Decide next action for unfocused keyboard input (IME-safe filter unify).
///
/// Call only when no dialog owns the UI. `wants_keyboard` tells whether a
/// text field owns the input. The age of the typeahead buffer is read from
/// the clock; whatever it is, the action is the one [`decide_action_after`]
/// gives for it.
pub fn decide_action(
    wants_keyboard: bool,
    frame: &FrameTyped,
    typeahead: &str,
    typeahead_at: Option<std::time::Instant>,
) -> (r: TypeaheadAction)
    ensures
        exists|e: Option<u128>|
            (e is Some <==> typeahead_at is Some) && #[trigger] decided(
                r,
                wants_keyboard,
                frame.text@,
                frame.backspace,
                typeahead@,
                e,
            ),
{
    let elapsed = match &typeahead_at {
        Some(at) => Some(millis_since(at)),
        None => None,
    };
    let r = decide_action_after(wants_keyboard, frame, typeahead, elapsed);
    proof {
        assert(decided(r, wants_keyboard, frame.text@, frame.backspace, typeahead@, elapsed));
    }
    r
}

/// `r` is the action for these inputs: nothing when the input is left alone
/// (see [`input_left_alone`]); else the typed text to the filter; else, when
/// the buffer has an age, clear it once it is older than [`STALE_AFTER_MS`]
/// or check again after [`RECHECK_MS`]; else nothing.
pub open spec fn decided(
    r: TypeaheadAction,
    wants_keyboard: bool,
    text: Seq<char>,
    backspace: bool,
    typeahead: Seq<char>,
    elapsed_ms: Option<u128>,
) -> bool {
    match r {
        TypeaheadAction::Idle => input_left_alone(wants_keyboard, backspace, typeahead) || (text.len()
            == 0 && elapsed_ms is None),
        TypeaheadAction::RouteToFilter { typed } => !input_left_alone(
            wants_keyboard,
            backspace,
            typeahead,
        ) && text.len() > 0 && typed@ == text,
        TypeaheadAction::ClearTypeahead { status } => !input_left_alone(
            wants_keyboard,
            backspace,
            typeahead,
        ) && text.len() == 0 && status is None && (elapsed_ms matches Some(e) && e > STALE_AFTER_MS),
        TypeaheadAction::RepaintAfter(ms) => !input_left_alone(wants_keyboard, backspace, typeahead)
            && text.len() == 0 && ms == RECHECK_MS && (elapsed_ms matches Some(e) && e
            <= STALE_AFTER_MS),
    }
}

/// Typed text goes to the filter exactly when [`should_route_to_filter`]
/// says so, unless a backspace is editing the typeahead buffer: whatever the
/// clock says, an action decided for a frame is `RouteToFilter` if and only
/// if the frame's text should be routed and the input is not left alone for
/// a backspace, and then it carries the frame's text.
pub proof fn routing_follows_should_route(
    r: TypeaheadAction,
    wants_keyboard: bool,
    text: Seq<char>,
    backspace: bool,
    typeahead: Seq<char>,
    elapsed_ms: Option<u128>,
)
    requires
        decided(r, wants_keyboard, text, backspace, typeahead, elapsed_ms),
    ensures
        (r is RouteToFilter) <==> (routes_to_filter(wants_keyboard, text) && !(backspace
            && typeahead.len() > 0)),
        r matches TypeaheadAction::RouteToFilter { typed } ==> typed@ == text,
{
}

} // verus!
