use yespanda::app::AppMsg;
use yespanda::chord::{chord_press, key_pressed, ChordState, KeyPress};
use yespanda::keys::{Key, ModifierType};

const G: u32 = 0x67;
const SPACE: u32 = 0x20;
const RETURN: u32 = 0xff0d;
const KP_ENTER: u32 = 0xff8d;
const ESCAPE: u32 = 0xff1b;
const MS: u64 = 1_000_000;
const T0: u64 = 5_000_000_000;

fn key(value: u32) -> Key {
    Key { value }
}

fn press(value: u32) -> KeyPress {
    let unicode = if value < 0x80 { char::from_u32(value) } else { None };
    KeyPress { key: key(value), unicode }
}

fn at(ms: u64) -> u64 {
    T0 + ms * MS
}

fn chords() -> Vec<(Key, Key, AppMsg)> {
    vec![
        (key(SPACE), key('e' as u32), AppMsg::ToggleSidebar),
        (key(SPACE), key(SPACE), AppMsg::PickFile),
        (key(G), key(G), AppMsg::ScrollTop),
    ]
}

fn typed(state: &mut ChordState, value: u32, now: u64) -> Option<AppMsg> {
    chord_press(&chords(), Some(key(G)), state, press(value), now)
}

#[test]
fn gg_fires_scroll_top() {
    let mut state = ChordState::default();
    // First g arms the leader; it must NOT fire yet.
    assert_eq!(typed(&mut state, G, T0), None);
    assert!(state.leader.is_some());
    // Second g within the window completes the chord.
    assert_eq!(typed(&mut state, G, at(100)), Some(AppMsg::ScrollTop));
    assert!(state.leader.is_none());
}

#[test]
fn g_then_capital_g_leaves_jump_to_bindings() {
    let mut state = ChordState::default();
    assert_eq!(typed(&mut state, G, T0), None);
    assert_eq!(typed(&mut state, 'G' as u32, at(100)), None);
    assert!(state.leader.is_none());
}

#[test]
fn space_space_fires_pick_file() {
    let mut state = ChordState::default();
    assert_eq!(typed(&mut state, SPACE, T0), None);
    assert!(state.leader.is_some());
    assert_eq!(typed(&mut state, SPACE, at(100)), Some(AppMsg::PickFile));
    assert!(state.leader.is_none());
}

#[test]
fn space_e_fires_toggle_sidebar() {
    let mut state = ChordState::default();
    assert_eq!(typed(&mut state, SPACE, T0), None);
    assert_eq!(typed(&mut state, 'e' as u32, at(100)), Some(AppMsg::ToggleSidebar));
    assert!(state.leader.is_none());
}

#[test]
fn chord_expires_but_leader_rearms() {
    let mut state = ChordState::default();
    assert_eq!(typed(&mut state, SPACE, T0), None);
    // Too slow: no fire, but Space is still a leader so it re-arms.
    assert_eq!(typed(&mut state, SPACE, at(1000)), None);
    assert!(state.leader.is_some());
}

#[test]
fn unrelated_key_clears_leader() {
    let mut state = ChordState::default();
    assert_eq!(typed(&mut state, SPACE, T0), None);
    assert_eq!(typed(&mut state, 'j' as u32, at(50)), None);
    assert!(state.leader.is_none());
}

#[test]
fn g_digits_enter_fires_go_to_page() {
    let mut state = ChordState::default();
    assert_eq!(typed(&mut state, G, T0), None);
    // Digits collect with no time limit and do not fire.
    assert_eq!(typed(&mut state, '4' as u32, at(100)), None);
    assert_eq!(state.count, 4);
    assert_eq!(typed(&mut state, '2' as u32, at(2000)), None);
    assert_eq!(state.count, 42);
    // Enter commits as a 1-based page jump.
    assert_eq!(typed(&mut state, RETURN, at(2500)), Some(AppMsg::GoToPage(42)));
    assert_eq!(state, ChordState::default());
}

#[test]
fn go_to_page_leading_zeros_and_keypad_enter() {
    let mut state = ChordState::default();
    assert_eq!(typed(&mut state, G, T0), None);
    assert_eq!(typed(&mut state, '0' as u32, at(50)), None);
    assert_eq!(typed(&mut state, '7' as u32, at(100)), None);
    assert_eq!(typed(&mut state, KP_ENTER, at(150)), Some(AppMsg::GoToPage(7)));
}

#[test]
fn digit_without_leader_is_ignored() {
    let mut state = ChordState::default();
    // Plain typing never starts collecting; nothing fires or stores.
    assert_eq!(typed(&mut state, '5' as u32, T0), None);
    assert_eq!(state, ChordState::default());
    assert_eq!(typed(&mut state, RETURN, T0), None);
}

#[test]
fn other_key_cancels_collection_and_falls_through() {
    let mut state = ChordState::default();
    assert_eq!(typed(&mut state, G, T0), None);
    assert_eq!(typed(&mut state, '1' as u32, at(50)), None);
    assert_eq!(typed(&mut state, 'j' as u32, at(100)), None);
    assert_eq!(state, ChordState::default());
}

#[test]
fn escape_clears_collection() {
    let mut state = ChordState::default();
    assert_eq!(typed(&mut state, G, T0), None);
    assert_eq!(typed(&mut state, '9' as u32, at(50)), None);
    assert_eq!(typed(&mut state, ESCAPE, at(100)), None);
    assert_eq!(state, ChordState::default());
}

#[test]
fn long_digit_run_saturates_without_panic() {
    let mut state = ChordState::default();
    assert_eq!(typed(&mut state, G, T0), None);
    for ms in 1..40u64 {
        typed(&mut state, '9' as u32, at(ms * 10));
    }
    assert_eq!(state.count, u32::MAX);
    assert_eq!(typed(&mut state, RETURN, at(400)), Some(AppMsg::GoToPage(u32::MAX)));
}

#[test]
fn chord_window_is_half_a_second() {
    let mut state = ChordState::default();
    typed(&mut state, G, T0);
    assert_eq!(typed(&mut state, G, T0 + 500 * MS), Some(AppMsg::ScrollTop));
    typed(&mut state, G, T0);
    assert_eq!(typed(&mut state, G, T0 + 500 * MS + 1), None);
}

#[test]
fn modifier_breaks_a_chord_and_bindings_are_tried() {
    let control = ModifierType { bits: 4 };
    let none = ModifierType { bits: 0 };
    let bindings = vec![
        (AppMsg::ScrollDown, none, key('j' as u32)),
        (AppMsg::FocusSidebar, control, key('h' as u32)),
    ];
    let mut state = ChordState::default();
    assert_eq!(
        key_pressed(&chords(), &bindings, Some(key(G)), &mut state, press(G), none, T0),
        None
    );
    assert!(state.leader.is_some());
    assert_eq!(
        key_pressed(&chords(), &bindings, Some(key(G)), &mut state, press('h' as u32), control, T0),
        Some(AppMsg::FocusSidebar)
    );
    assert_eq!(state, ChordState::default());
    assert_eq!(
        key_pressed(&chords(), &bindings, Some(key(G)), &mut state, press('j' as u32), none, T0),
        Some(AppMsg::ScrollDown)
    );
    assert_eq!(
        key_pressed(&chords(), &bindings, Some(key(G)), &mut state, press('j' as u32), control, T0),
        None
    );
}
