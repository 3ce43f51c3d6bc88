//! The keys of the window and the sidebar, as the settings name them.
use vstd::prelude::*;

use crate::app::{law_same_messages_say_the_same, AppMsg};
use crate::chord::{
    binding_place, chord_place, is_sent, law_first_binding_counts, law_first_chord_counts,
    law_press_sends_its_binding, typed_digit, ChordState, KeyPress,
};
use crate::config::{is_usual_keymap, KeymapConfig};
use crate::keys::{
    asked_names, binding, chord, chord_names, is_bracket, is_plain_word, key_names,
    law_binding_is_read_as_written, law_chord_is_read_as_written, law_modifier_names,
    law_piece_names_its_key, leader, parse_binding, parse_chord, parse_leader, piece_mask, pieces,
    Key, KeyNames, ModifierType,
};
use crate::text::{lower, texts, words};
use crate::toc::SidebarBindings;

verus! {

/// The binding of one message, or none if its text names no key.
pub open spec fn bound(msg: AppMsg, text: Seq<char>, names: Map<Seq<char>, Key>) -> Seq<
    (AppMsg, ModifierType, Key),
> {
    match binding(text, names) {
        Some((modifiers, key)) => seq![(msg, modifiers, key)],
        None => Seq::empty(),
    }
}

/// The bindings of the window, in the order in which they are tried.
pub open spec fn window_bound(k: KeymapConfig, names: Map<Seq<char>, Key>) -> Seq<
    (AppMsg, ModifierType, Key),
> {
    bound(AppMsg::ScrollDown, k.scroll_down@, names)
        + bound(AppMsg::ScrollUp, k.scroll_up@, names)
        + bound(AppMsg::ScrollLeft, k.scroll_left@, names)
        + bound(AppMsg::ScrollRight, k.scroll_right@, names)
        + bound(AppMsg::ScrollBottom, k.scroll_bottom@, names)
        + bound(AppMsg::FocusSidebar, k.focus_sidebar@, names)
        + bound(AppMsg::FocusPdf, k.focus_pdf@, names)
        + bound(AppMsg::ZoomIn, k.zoom_in@, names)
        + bound(AppMsg::ZoomOut, k.zoom_out@, names)
        + bound(AppMsg::PickFile, k.pick_file@, names)
        + bound(AppMsg::OpenSearch, k.search@, names)
        + bound(AppMsg::SearchNext, k.search_next@, names)
        + bound(AppMsg::SearchPrev, k.search_prev@, names)
}

fn bind(out: &mut Vec<(AppMsg, ModifierType, Key)>, msg: AppMsg, text: &str, names: &KeyNames)
    ensures
        final(out)@ == old(out)@ + bound(msg, text@, names@),
{
    match parse_binding(text, names) {
        Some((modifiers, key)) => {
            out.push((msg, modifiers, key));
        },
        None => {},
    }
    assert(out@ =~= old(out)@ + bound(msg, text@, names@));
}

/// The bindings of the window, in the order in which they are tried. A text
/// that names no key disables its binding.
pub fn window_bindings(keymap: &KeymapConfig, names: &KeyNames) -> (r: Vec<
    (AppMsg, ModifierType, Key),
>)
    ensures
        r@ == window_bound(*keymap, names@),
{
    let mut out: Vec<(AppMsg, ModifierType, Key)> = Vec::new();
    bind(&mut out, AppMsg::ScrollDown, keymap.scroll_down.as_str(), names);
    assert(out@ =~= bound(AppMsg::ScrollDown, keymap.scroll_down@, names@));
    bind(&mut out, AppMsg::ScrollUp, keymap.scroll_up.as_str(), names);
    bind(&mut out, AppMsg::ScrollLeft, keymap.scroll_left.as_str(), names);
    bind(&mut out, AppMsg::ScrollRight, keymap.scroll_right.as_str(), names);
    bind(&mut out, AppMsg::ScrollBottom, keymap.scroll_bottom.as_str(), names);
    bind(&mut out, AppMsg::FocusSidebar, keymap.focus_sidebar.as_str(), names);
    bind(&mut out, AppMsg::FocusPdf, keymap.focus_pdf.as_str(), names);
    bind(&mut out, AppMsg::ZoomIn, keymap.zoom_in.as_str(), names);
    bind(&mut out, AppMsg::ZoomOut, keymap.zoom_out.as_str(), names);
    bind(&mut out, AppMsg::PickFile, keymap.pick_file.as_str(), names);
    bind(&mut out, AppMsg::OpenSearch, keymap.search.as_str(), names);
    bind(&mut out, AppMsg::SearchNext, keymap.search_next.as_str(), names);
    bind(&mut out, AppMsg::SearchPrev, keymap.search_prev.as_str(), names);
    out
}

/// The chord of one message, or none if its text does not name two keys.
pub open spec fn chorded(text: Seq<char>, msg: AppMsg, names: Map<Seq<char>, Key>) -> Seq<
    (Key, Key, AppMsg),
> {
    match chord(text, names) {
        Some((first, second)) => seq![(first, second, msg)],
        None => Seq::empty(),
    }
}

/// The two-key chords of the window, in the order in which they are tried.
pub open spec fn window_chorded(k: KeymapConfig, names: Map<Seq<char>, Key>) -> Seq<
    (Key, Key, AppMsg),
> {
    chorded(k.sidebar_toggle@, AppMsg::ToggleSidebar, names)
        + chorded(k.pick_file_chord@, AppMsg::PickFile, names)
        + chorded(k.scroll_top@, AppMsg::ScrollTop, names)
}

fn bind_chord(out: &mut Vec<(Key, Key, AppMsg)>, text: &str, msg: AppMsg, names: &KeyNames)
    ensures
        final(out)@ == old(out)@ + chorded(text@, msg, names@),
{
    match parse_chord(text, names) {
        Some((first, second)) => {
            out.push((first, second, msg));
        },
        None => {},
    }
    assert(out@ =~= old(out)@ + chorded(text@, msg, names@));
}

/// The two-key chords of the window, in the order in which they are tried. A
/// text that does not name two keys disables its chord.
pub fn window_chords(keymap: &KeymapConfig, names: &KeyNames) -> (r: Vec<(Key, Key, AppMsg)>)
    ensures
        r@ == window_chorded(*keymap, names@),
{
    let mut out: Vec<(Key, Key, AppMsg)> = Vec::new();
    bind_chord(&mut out, keymap.sidebar_toggle.as_str(), AppMsg::ToggleSidebar, names);
    assert(out@ =~= chorded(keymap.sidebar_toggle@, AppMsg::ToggleSidebar, names@));
    bind_chord(&mut out, keymap.pick_file_chord.as_str(), AppMsg::PickFile, names);
    bind_chord(&mut out, keymap.scroll_top.as_str(), AppMsg::ScrollTop, names);
    out
}

/// The key that page numbers are typed after: the leader of the chord that
/// goes to the start of the document.
pub fn count_leader(keymap: &KeymapConfig, names: &KeyNames) -> (r: Option<Key>)
    ensures
        r == leader(keymap.scroll_top@, names@),
{
    parse_leader(keymap.scroll_top.as_str(), names)
}

/// The keys of the sidebar.
pub fn sidebar_bindings(keymap: &KeymapConfig, names: &KeyNames) -> (r: SidebarBindings)
    ensures
        r == (SidebarBindings {
            down: binding(keymap.sidebar_down@, names@),
            up: binding(keymap.sidebar_up@, names@),
            activate: binding(keymap.sidebar_activate@, names@),
            collapse: binding(keymap.sidebar_collapse@, names@),
        }),
{
    SidebarBindings {
        down: parse_binding(keymap.sidebar_down.as_str(), names),
        up: parse_binding(keymap.sidebar_up.as_str(), names),
        activate: parse_binding(keymap.sidebar_activate.as_str(), names),
        collapse: parse_binding(keymap.sidebar_collapse.as_str(), names),
    }
}

/// The names in a chord.
pub open spec fn chord_asks(text: Seq<char>) -> Seq<Seq<char>> {
    words(text).take(
        if words(text).len() < 2 {
            words(text).len() as int
        } else {
            2
        },
    )
}

/// The names in a binding.
pub open spec fn binding_asks(text: Seq<char>) -> Seq<Seq<char>> {
    asked_names(pieces(text))
}

/// All key names that the settings mention.
pub open spec fn keymap_asks(k: KeymapConfig) -> Seq<Seq<char>> {
    binding_asks(k.scroll_down@) + binding_asks(k.scroll_up@) + binding_asks(k.scroll_left@)
        + binding_asks(k.scroll_right@) + binding_asks(k.scroll_bottom@) + binding_asks(
        k.focus_sidebar@,
    ) + binding_asks(k.focus_pdf@) + binding_asks(k.zoom_in@) + binding_asks(k.zoom_out@)
        + binding_asks(k.pick_file@) + binding_asks(k.search@) + binding_asks(k.search_next@)
        + binding_asks(k.search_prev@) + binding_asks(k.sidebar_down@) + binding_asks(
        k.sidebar_up@,
    ) + binding_asks(k.sidebar_activate@) + binding_asks(k.sidebar_collapse@) + chord_asks(
        k.sidebar_toggle@,
    ) + chord_asks(k.pick_file_chord@) + chord_asks(k.scroll_top@)
}

fn ask_binding(out: &mut Vec<String>, text: &str)
    ensures
        texts(final(out)@) == texts(old(out)@) + binding_asks(text@),
{
    let mut names = key_names(text);
    let ghost added = names@;
    out.append(&mut names);
    assert(texts(out@) =~= texts(old(out)@) + texts(added));
}

fn ask_chord(out: &mut Vec<String>, text: &str)
    ensures
        texts(final(out)@) == texts(old(out)@) + chord_asks(text@),
{
    let mut names = chord_names(text);
    let ghost added = names@;
    out.append(&mut names);
    assert(texts(out@) =~= texts(old(out)@) + texts(added));
}

/// All key names that the settings mention: whoever knows the keys looks them
/// up before the bindings are made.
pub fn keymap_names(keymap: &KeymapConfig) -> (r: Vec<String>)
    ensures
        texts(r@) == keymap_asks(*keymap),
{
    let mut out: Vec<String> = Vec::new();
    ask_binding(&mut out, keymap.scroll_down.as_str());
    assert(texts(out@) =~= binding_asks(keymap.scroll_down@));
    ask_binding(&mut out, keymap.scroll_up.as_str());
    ask_binding(&mut out, keymap.scroll_left.as_str());
    ask_binding(&mut out, keymap.scroll_right.as_str());
    ask_binding(&mut out, keymap.scroll_bottom.as_str());
    ask_binding(&mut out, keymap.focus_sidebar.as_str());
    ask_binding(&mut out, keymap.focus_pdf.as_str());
    ask_binding(&mut out, keymap.zoom_in.as_str());
    ask_binding(&mut out, keymap.zoom_out.as_str());
    ask_binding(&mut out, keymap.pick_file.as_str());
    ask_binding(&mut out, keymap.search.as_str());
    ask_binding(&mut out, keymap.search_next.as_str());
    ask_binding(&mut out, keymap.search_prev.as_str());
    ask_binding(&mut out, keymap.sidebar_down.as_str());
    ask_binding(&mut out, keymap.sidebar_up.as_str());
    ask_binding(&mut out, keymap.sidebar_activate.as_str());
    ask_binding(&mut out, keymap.sidebar_collapse.as_str());
    ask_chord(&mut out, keymap.sidebar_toggle.as_str());
    ask_chord(&mut out, keymap.pick_file_chord.as_str());
    ask_chord(&mut out, keymap.scroll_top.as_str());
    out
}

/// The setting that names the key of an action.
pub open spec fn action_text(k: KeymapConfig, msg: AppMsg) -> Option<Seq<char>> {
    match msg {
        AppMsg::ScrollDown => Some(k.scroll_down@),
        AppMsg::ScrollUp => Some(k.scroll_up@),
        AppMsg::ScrollLeft => Some(k.scroll_left@),
        AppMsg::ScrollRight => Some(k.scroll_right@),
        AppMsg::ScrollBottom => Some(k.scroll_bottom@),
        AppMsg::FocusSidebar => Some(k.focus_sidebar@),
        AppMsg::FocusPdf => Some(k.focus_pdf@),
        AppMsg::ZoomIn => Some(k.zoom_in@),
        AppMsg::ZoomOut => Some(k.zoom_out@),
        AppMsg::PickFile => Some(k.pick_file@),
        AppMsg::OpenSearch => Some(k.search@),
        AppMsg::SearchNext => Some(k.search_next@),
        AppMsg::SearchPrev => Some(k.search_prev@),
        _ => None,
    }
}

/// Which of two actions on the same key counts: the one with the lower rank.
pub open spec fn action_rank(msg: AppMsg) -> int {
    match msg {
        AppMsg::ScrollDown => 0,
        AppMsg::ScrollUp => 1,
        AppMsg::ScrollLeft => 2,
        AppMsg::ScrollRight => 3,
        AppMsg::ScrollBottom => 4,
        AppMsg::FocusSidebar => 5,
        AppMsg::FocusPdf => 6,
        AppMsg::ZoomIn => 7,
        AppMsg::ZoomOut => 8,
        AppMsg::PickFile => 9,
        AppMsg::OpenSearch => 10,
        AppMsg::SearchNext => 11,
        AppMsg::SearchPrev => 12,
        _ => 13,
    }
}

/// Whether the setting of an action spells the key with these modifiers.
pub open spec fn spells(
    k: KeymapConfig,
    names: Map<Seq<char>, Key>,
    msg: AppMsg,
    modifiers: ModifierType,
    key: Key,
) -> bool {
    action_text(k, msg) is Some && binding(action_text(k, msg)->0, names) == Some(
        (modifiers, key),
    )
}

/// The message of the first binding of a key.
spec fn sent(
    bindings: Seq<(AppMsg, ModifierType, Key)>,
    modifiers: ModifierType,
    key: Key,
) -> Option<AppMsg> {
    let place = binding_place(bindings, modifiers, key);
    if place < bindings.len() {
        Some(bindings[place].0)
    } else {
        None
    }
}

proof fn lemma_sent_bound(
    msg: AppMsg,
    text: Seq<char>,
    names: Map<Seq<char>, Key>,
    modifiers: ModifierType,
    key: Key,
)
    ensures
        sent(bound(msg, text, names), modifiers, key) == (if binding(text, names) == Some(
            (modifiers, key),
        ) {
            Some(msg)
        } else {
            None
        }),
{
    law_first_binding_counts(bound(msg, text, names), modifiers, key);
}

proof fn lemma_sent_joined(
    a: Seq<(AppMsg, ModifierType, Key)>,
    b: Seq<(AppMsg, ModifierType, Key)>,
    modifiers: ModifierType,
    key: Key,
)
    ensures
        sent(a + b, modifiers, key) == (match sent(a, modifiers, key) {
            Some(msg) => Some(msg),
            None => sent(b, modifiers, key),
        }),
{
    let whole = a + b;
    law_first_binding_counts(a, modifiers, key);
    law_first_binding_counts(b, modifiers, key);
    law_first_binding_counts(whole, modifiers, key);
    let i = binding_place(a, modifiers, key);
    let j = binding_place(b, modifiers, key);
    let n = binding_place(whole, modifiers, key);
    if i < a.len() {
        assert(whole[i] == a[i]);
        if n < i {
            assert(whole[n] == a[n]);
        }
    } else {
        if n < a.len() {
            assert(whole[n] == a[n]);
        } else if n < whole.len() {
            assert(whole[n] == b[n - a.len()]);
        }
        if j < b.len() {
            assert(whole[a.len() + j] == b[j]);
            if n > a.len() + j {
                assert(whole[a.len() + j].1 == modifiers && whole[a.len() + j].2 == key);
            }
            if a.len() <= n < a.len() + j {
                assert(b[n - a.len()].1 != modifiers || b[n - a.len()].2 != key);
            }
        }
    }
}

/// Each action is sent by the key that its own setting spells:
/// a press of that key with those modifiers finds the action, unless an action
/// of a lower rank has the same key.
#[verifier::rlimit(40)]
pub proof fn law_key_sends_the_action_that_spells_it(
    k: KeymapConfig,
    names: Map<Seq<char>, Key>,
    msg: AppMsg,
    modifiers: ModifierType,
    key: Key,
)
    requires
        spells(k, names, msg, modifiers, key),
        forall|other: AppMsg| #[trigger]
            action_rank(other) < action_rank(msg) ==> !spells(k, names, other, modifiers, key),
    ensures
        ({
            let bindings = window_bound(k, names);
            let place = binding_place(bindings, modifiers, key);
            &&& 0 <= place < bindings.len()
            &&& bindings[place].0 == msg
        }),
{
    assert(action_rank(AppMsg::ScrollDown) == 0);
    assert(action_rank(AppMsg::ScrollUp) == 1);
    assert(action_rank(AppMsg::ScrollLeft) == 2);
    assert(action_rank(AppMsg::ScrollRight) == 3);
    assert(action_rank(AppMsg::ScrollBottom) == 4);
    assert(action_rank(AppMsg::FocusSidebar) == 5);
    assert(action_rank(AppMsg::FocusPdf) == 6);
    assert(action_rank(AppMsg::ZoomIn) == 7);
    assert(action_rank(AppMsg::ZoomOut) == 8);
    assert(action_rank(AppMsg::PickFile) == 9);
    assert(action_rank(AppMsg::OpenSearch) == 10);
    assert(action_rank(AppMsg::SearchNext) == 11);
    assert(action_rank(AppMsg::SearchPrev) == 12);
    let p0 = bound(AppMsg::ScrollDown, k.scroll_down@, names);
    lemma_sent_bound(AppMsg::ScrollDown, k.scroll_down@, names, modifiers, key);
    lemma_sent_bound(AppMsg::ScrollUp, k.scroll_up@, names, modifiers, key);
    lemma_sent_bound(AppMsg::ScrollLeft, k.scroll_left@, names, modifiers, key);
    lemma_sent_bound(AppMsg::ScrollRight, k.scroll_right@, names, modifiers, key);
    lemma_sent_bound(AppMsg::ScrollBottom, k.scroll_bottom@, names, modifiers, key);
    lemma_sent_bound(AppMsg::FocusSidebar, k.focus_sidebar@, names, modifiers, key);
    lemma_sent_bound(AppMsg::FocusPdf, k.focus_pdf@, names, modifiers, key);
    lemma_sent_bound(AppMsg::ZoomIn, k.zoom_in@, names, modifiers, key);
    lemma_sent_bound(AppMsg::ZoomOut, k.zoom_out@, names, modifiers, key);
    lemma_sent_bound(AppMsg::PickFile, k.pick_file@, names, modifiers, key);
    lemma_sent_bound(AppMsg::OpenSearch, k.search@, names, modifiers, key);
    lemma_sent_bound(AppMsg::SearchNext, k.search_next@, names, modifiers, key);
    lemma_sent_bound(AppMsg::SearchPrev, k.search_prev@, names, modifiers, key);
    let b1 = bound(AppMsg::ScrollUp, k.scroll_up@, names);
    let p1 = p0 + b1;
    lemma_sent_joined(p0, b1, modifiers, key);
    let b2 = bound(AppMsg::ScrollLeft, k.scroll_left@, names);
    let p2 = p1 + b2;
    lemma_sent_joined(p1, b2, modifiers, key);
    let b3 = bound(AppMsg::ScrollRight, k.scroll_right@, names);
    let p3 = p2 + b3;
    lemma_sent_joined(p2, b3, modifiers, key);
    let b4 = bound(AppMsg::ScrollBottom, k.scroll_bottom@, names);
    let p4 = p3 + b4;
    lemma_sent_joined(p3, b4, modifiers, key);
    let b5 = bound(AppMsg::FocusSidebar, k.focus_sidebar@, names);
    let p5 = p4 + b5;
    lemma_sent_joined(p4, b5, modifiers, key);
    let b6 = bound(AppMsg::FocusPdf, k.focus_pdf@, names);
    let p6 = p5 + b6;
    lemma_sent_joined(p5, b6, modifiers, key);
    let b7 = bound(AppMsg::ZoomIn, k.zoom_in@, names);
    let p7 = p6 + b7;
    lemma_sent_joined(p6, b7, modifiers, key);
    let b8 = bound(AppMsg::ZoomOut, k.zoom_out@, names);
    let p8 = p7 + b8;
    lemma_sent_joined(p7, b8, modifiers, key);
    let b9 = bound(AppMsg::PickFile, k.pick_file@, names);
    let p9 = p8 + b9;
    lemma_sent_joined(p8, b9, modifiers, key);
    let b10 = bound(AppMsg::OpenSearch, k.search@, names);
    let p10 = p9 + b10;
    lemma_sent_joined(p9, b10, modifiers, key);
    let b11 = bound(AppMsg::SearchNext, k.search_next@, names);
    let p11 = p10 + b11;
    lemma_sent_joined(p10, b11, modifiers, key);
    let b12 = bound(AppMsg::SearchPrev, k.search_prev@, names);
    let p12 = p11 + b12;
    lemma_sent_joined(p11, b12, modifiers, key);
    assert(p12 =~= window_bound(k, names));
    law_first_binding_counts(window_bound(k, names), modifiers, key);
}

/// A key that sends an action is spelled by the setting of that very action,
/// and no key but those that the settings spell sends one.
#[verifier::rlimit(40)]
pub proof fn law_sent_action_spells_the_key(
    k: KeymapConfig,
    names: Map<Seq<char>, Key>,
    modifiers: ModifierType,
    key: Key,
)
    ensures
        ({
            let bindings = window_bound(k, names);
            let place = binding_place(bindings, modifiers, key);
            place < bindings.len() ==> spells(k, names, bindings[place].0, modifiers, key)
        }),
{
    let p0 = bound(AppMsg::ScrollDown, k.scroll_down@, names);
    lemma_sent_bound(AppMsg::ScrollDown, k.scroll_down@, names, modifiers, key);
    lemma_sent_bound(AppMsg::ScrollUp, k.scroll_up@, names, modifiers, key);
    lemma_sent_bound(AppMsg::ScrollLeft, k.scroll_left@, names, modifiers, key);
    lemma_sent_bound(AppMsg::ScrollRight, k.scroll_right@, names, modifiers, key);
    lemma_sent_bound(AppMsg::ScrollBottom, k.scroll_bottom@, names, modifiers, key);
    lemma_sent_bound(AppMsg::FocusSidebar, k.focus_sidebar@, names, modifiers, key);
    lemma_sent_bound(AppMsg::FocusPdf, k.focus_pdf@, names, modifiers, key);
    lemma_sent_bound(AppMsg::ZoomIn, k.zoom_in@, names, modifiers, key);
    lemma_sent_bound(AppMsg::ZoomOut, k.zoom_out@, names, modifiers, key);
    lemma_sent_bound(AppMsg::PickFile, k.pick_file@, names, modifiers, key);
    lemma_sent_bound(AppMsg::OpenSearch, k.search@, names, modifiers, key);
    lemma_sent_bound(AppMsg::SearchNext, k.search_next@, names, modifiers, key);
    lemma_sent_bound(AppMsg::SearchPrev, k.search_prev@, names, modifiers, key);
    let b1 = bound(AppMsg::ScrollUp, k.scroll_up@, names);
    let p1 = p0 + b1;
    lemma_sent_joined(p0, b1, modifiers, key);
    let b2 = bound(AppMsg::ScrollLeft, k.scroll_left@, names);
    let p2 = p1 + b2;
    lemma_sent_joined(p1, b2, modifiers, key);
    let b3 = bound(AppMsg::ScrollRight, k.scroll_right@, names);
    let p3 = p2 + b3;
    lemma_sent_joined(p2, b3, modifiers, key);
    let b4 = bound(AppMsg::ScrollBottom, k.scroll_bottom@, names);
    let p4 = p3 + b4;
    lemma_sent_joined(p3, b4, modifiers, key);
    let b5 = bound(AppMsg::FocusSidebar, k.focus_sidebar@, names);
    let p5 = p4 + b5;
    lemma_sent_joined(p4, b5, modifiers, key);
    let b6 = bound(AppMsg::FocusPdf, k.focus_pdf@, names);
    let p6 = p5 + b6;
    lemma_sent_joined(p5, b6, modifiers, key);
    let b7 = bound(AppMsg::ZoomIn, k.zoom_in@, names);
    let p7 = p6 + b7;
    lemma_sent_joined(p6, b7, modifiers, key);
    let b8 = bound(AppMsg::ZoomOut, k.zoom_out@, names);
    let p8 = p7 + b8;
    lemma_sent_joined(p7, b8, modifiers, key);
    let b9 = bound(AppMsg::PickFile, k.pick_file@, names);
    let p9 = p8 + b9;
    lemma_sent_joined(p8, b9, modifiers, key);
    let b10 = bound(AppMsg::OpenSearch, k.search@, names);
    let p10 = p9 + b10;
    lemma_sent_joined(p9, b10, modifiers, key);
    let b11 = bound(AppMsg::SearchNext, k.search_next@, names);
    let p11 = p10 + b11;
    lemma_sent_joined(p10, b11, modifiers, key);
    let b12 = bound(AppMsg::SearchPrev, k.search_prev@, names);
    let p12 = p11 + b12;
    lemma_sent_joined(p11, b12, modifiers, key);
    assert(p12 =~= window_bound(k, names));
}

/// The chord that shows and hides the sidebar, the one that opens the picker
/// and the one that goes to the start of the document are those that their own
/// settings spell; where two are the same, the sidebar's counts before the
/// picker's and that before the last.
pub proof fn law_chord_sends_the_action_that_spells_it(
    k: KeymapConfig,
    names: Map<Seq<char>, Key>,
    leader: Key,
    key: Key,
)
    ensures
        ({
            let chords = window_chorded(k, names);
            let place = chord_place(chords, leader, key);
            let toggles = chord(k.sidebar_toggle@, names) == Some((leader, key));
            let picks = chord(k.pick_file_chord@, names) == Some((leader, key));
            let rises = chord(k.scroll_top@, names) == Some((leader, key));
            &&& place < chords.len() <==> toggles || picks || rises
            &&& toggles ==> chords[place].2 == AppMsg::ToggleSidebar
            &&& !toggles && picks ==> chords[place].2 == AppMsg::PickFile
            &&& !toggles && !picks && rises ==> chords[place].2 == AppMsg::ScrollTop
        }),
{
    let a = chorded(k.sidebar_toggle@, AppMsg::ToggleSidebar, names);
    let b = chorded(k.pick_file_chord@, AppMsg::PickFile, names);
    let c = chorded(k.scroll_top@, AppMsg::ScrollTop, names);
    let chords = window_chorded(k, names);
    let place = chord_place(chords, leader, key);
    law_first_chord_counts(chords, leader, key);
    assert(chords == a + b + c);
    if a.len() > 0 {
        assert(chords[0] == a[0]);
    }
    if b.len() > 0 {
        assert(chords[a.len() as int] == b[0]);
    }
    if c.len() > 0 {
        assert(chords[(a.len() + b.len()) as int] == c[0]);
    }
}

proof fn lemma_joined_contains(a: Seq<Seq<char>>, b: Seq<Seq<char>>, name: Seq<char>)
    ensures
        (a + b).contains(name) <==> a.contains(name) || b.contains(name),
{
    if a.contains(name) {
        let i = choose|i: int| 0 <= i < a.len() && a[i] == name;
        assert((a + b)[i] == name);
    }
    if b.contains(name) {
        let i = choose|i: int| 0 <= i < b.len() && b[i] == name;
        assert((a + b)[a.len() + i] == name);
    }
    if (a + b).contains(name) {
        let i = choose|i: int| 0 <= i < (a + b).len() && (a + b)[i] == name;
        if i < a.len() {
            assert(a[i] == name);
        } else {
            assert(b[i - a.len()] == name);
        }
    }
}

/// Whether `text` is the setting of a single key.
pub open spec fn is_binding_text(k: KeymapConfig, text: Seq<char>) -> bool {
    ||| text == k.scroll_down@
    ||| text == k.scroll_up@
    ||| text == k.scroll_left@
    ||| text == k.scroll_right@
    ||| text == k.scroll_bottom@
    ||| text == k.focus_sidebar@
    ||| text == k.focus_pdf@
    ||| text == k.zoom_in@
    ||| text == k.zoom_out@
    ||| text == k.pick_file@
    ||| text == k.search@
    ||| text == k.search_next@
    ||| text == k.search_prev@
    ||| text == k.sidebar_down@
    ||| text == k.sidebar_up@
    ||| text == k.sidebar_activate@
    ||| text == k.sidebar_collapse@
}

/// Whether `text` is the setting of a chord.
pub open spec fn is_chord_text(k: KeymapConfig, text: Seq<char>) -> bool {
    ||| text == k.sidebar_toggle@
    ||| text == k.pick_file_chord@
    ||| text == k.scroll_top@
}

/// Every name that any setting mentions is looked up: those of single keys and
/// the first two words of chords.
#[verifier::rlimit(60)]
pub proof fn law_every_name_is_looked_up(k: KeymapConfig, text: Seq<char>, name: Seq<char>)
    ensures
        is_binding_text(k, text) && asked_names(pieces(text)).contains(name) ==> keymap_asks(
            k,
        ).contains(name),
        is_chord_text(k, text) && words(text).len() > 0 && words(text)[0] == name
            ==> keymap_asks(k).contains(name),
        is_chord_text(k, text) && words(text).len() > 1 && words(text)[1] == name
            ==> keymap_asks(k).contains(name),
{
    if words(text).len() > 0 && words(text)[0] == name {
        assert(chord_asks(text)[0] == name);
    }
    if words(text).len() > 1 && words(text)[1] == name {
        assert(chord_asks(text)[1] == name);
    }
    let q0 = binding_asks(k.scroll_down@);
    let a1 = binding_asks(k.scroll_up@);
    let q1 = q0 + a1;
    lemma_joined_contains(q0, a1, name);
    let a2 = binding_asks(k.scroll_left@);
    let q2 = q1 + a2;
    lemma_joined_contains(q1, a2, name);
    let a3 = binding_asks(k.scroll_right@);
    let q3 = q2 + a3;
    lemma_joined_contains(q2, a3, name);
    let a4 = binding_asks(k.scroll_bottom@);
    let q4 = q3 + a4;
    lemma_joined_contains(q3, a4, name);
    let a5 = binding_asks(k.focus_sidebar@);
    let q5 = q4 + a5;
    lemma_joined_contains(q4, a5, name);
    let a6 = binding_asks(k.focus_pdf@);
    let q6 = q5 + a6;
    lemma_joined_contains(q5, a6, name);
    let a7 = binding_asks(k.zoom_in@);
    let q7 = q6 + a7;
    lemma_joined_contains(q6, a7, name);
    let a8 = binding_asks(k.zoom_out@);
    let q8 = q7 + a8;
    lemma_joined_contains(q7, a8, name);
    let a9 = binding_asks(k.pick_file@);
    let q9 = q8 + a9;
    lemma_joined_contains(q8, a9, name);
    let a10 = binding_asks(k.search@);
    let q10 = q9 + a10;
    lemma_joined_contains(q9, a10, name);
    let a11 = binding_asks(k.search_next@);
    let q11 = q10 + a11;
    lemma_joined_contains(q10, a11, name);
    let a12 = binding_asks(k.search_prev@);
    let q12 = q11 + a12;
    lemma_joined_contains(q11, a12, name);
    let a13 = binding_asks(k.sidebar_down@);
    let q13 = q12 + a13;
    lemma_joined_contains(q12, a13, name);
    let a14 = binding_asks(k.sidebar_up@);
    let q14 = q13 + a14;
    lemma_joined_contains(q13, a14, name);
    let a15 = binding_asks(k.sidebar_activate@);
    let q15 = q14 + a15;
    lemma_joined_contains(q14, a15, name);
    let a16 = binding_asks(k.sidebar_collapse@);
    let q16 = q15 + a16;
    lemma_joined_contains(q15, a16, name);
    let a17 = chord_asks(k.sidebar_toggle@);
    let q17 = q16 + a17;
    lemma_joined_contains(q16, a17, name);
    let a18 = chord_asks(k.pick_file_chord@);
    let q18 = q17 + a18;
    lemma_joined_contains(q17, a18, name);
    let a19 = chord_asks(k.scroll_top@);
    let q19 = q18 + a19;
    lemma_joined_contains(q18, a19, name);
    assert(q19 =~= keymap_asks(k));
}

proof fn lemma_letter(name: Seq<char>)
    requires
        name.len() == 1,
        'A' <= name[0] <= 'z',
        !is_bracket(name[0]),
    ensures
        is_plain_word(name),
        piece_mask(name) == 0,
        lower(name) != "space"@,
{
    law_modifier_names(name);
    reveal_strlit("ctrl");
    reveal_strlit("control");
    reveal_strlit("primary");
    reveal_strlit("shift");
    reveal_strlit("alt");
    reveal_strlit("option");
    reveal_strlit("super");
    reveal_strlit("meta");
    reveal_strlit("cmd");
    reveal_strlit("space");
    assert(lower(name).len() == 1);
}

proof fn lemma_small_word(name: Seq<char>)
    requires
        name.len() > 0,
        forall|i: int| 0 <= i < name.len() ==> 'a' <= #[trigger] name[i] <= 'z',
    ensures
        lower(name) == name,
        is_plain_word(name),
{
    assert(lower(name) =~= name);
}

proof fn lemma_named_words()
    ensures
        piece_mask("slash"@) == 0,
        piece_mask("plus"@) == 0,
        piece_mask("minus"@) == 0,
        piece_mask("ctrl"@) == 4,
        piece_mask("shift"@) == 1,
        lower("slash"@) != "space"@,
        lower("plus"@) != "space"@,
        lower("minus"@) != "space"@,
{
    reveal_strlit("ctrl");
    reveal_strlit("control");
    reveal_strlit("primary");
    reveal_strlit("shift");
    reveal_strlit("alt");
    reveal_strlit("option");
    reveal_strlit("super");
    reveal_strlit("meta");
    reveal_strlit("cmd");
    reveal_strlit("space");
    reveal_strlit("slash");
    reveal_strlit("plus");
    reveal_strlit("minus");
    lemma_small_word("slash"@);
    lemma_small_word("plus"@);
    lemma_small_word("minus"@);
    lemma_small_word("ctrl"@);
    lemma_small_word("shift"@);
    law_modifier_names("slash"@);
    law_modifier_names("plus"@);
    law_modifier_names("minus"@);
    law_modifier_names("ctrl"@);
    law_modifier_names("shift"@);
    assert("slash"@[1] == 'l');
    assert("shift"@[1] == 'h');
    assert("super"@[1] == 'u');
    assert("space"@[1] == 'p');
    assert("plus"@[0] == 'p' && "plus"@.len() == 4);
    assert("ctrl"@[0] == 'c' && "meta"@[0] == 'm');
    assert("minus"@[0] == 'm' && "minus"@.len() == 5);
    assert("shift"@[0] == 's' && "super"@[0] == 's' && "space"@[0] == 's');
}

/// The keys that the usual settings stand for, whatever keys the names stand
/// for: `j`, `k`, `h` and `l` scroll, and move in the sidebar; with Shift, `G`
/// goes to the end and `N` to the previous match, `n` alone to the next and
/// slash searches; with Control, `h` and `l` change between the sidebar and the
/// document, plus and minus zoom and `o` opens the picker. Twice `g` goes to
/// the start, and the space bar with `e` shows the sidebar, twice the picker.
#[verifier::rlimit(60)]
pub proof fn law_usual_keys(k: KeymapConfig, names: Map<Seq<char>, Key>)
    requires
        is_usual_keymap(k),
        names.contains_key("G"@),
        names.contains_key("N"@),
        names.contains_key("e"@),
        names.contains_key("g"@),
        names.contains_key("h"@),
        names.contains_key("j"@),
        names.contains_key("k"@),
        names.contains_key("l"@),
        names.contains_key("n"@),
        names.contains_key("o"@),
        names.contains_key("slash"@),
        names.contains_key("plus"@),
        names.contains_key("minus"@),
        names.contains_key("space"@),
    ensures
        binding(k.scroll_down@, names) == Some((ModifierType { bits: 0 }, names["j"@])),
        binding(k.scroll_up@, names) == Some((ModifierType { bits: 0 }, names["k"@])),
        binding(k.scroll_left@, names) == Some((ModifierType { bits: 0 }, names["h"@])),
        binding(k.scroll_right@, names) == Some((ModifierType { bits: 0 }, names["l"@])),
        binding(k.search_next@, names) == Some((ModifierType { bits: 0 }, names["n"@])),
        binding(k.sidebar_down@, names) == Some((ModifierType { bits: 0 }, names["j"@])),
        binding(k.sidebar_up@, names) == Some((ModifierType { bits: 0 }, names["k"@])),
        binding(k.sidebar_activate@, names) == Some((ModifierType { bits: 0 }, names["l"@])),
        binding(k.sidebar_collapse@, names) == Some((ModifierType { bits: 0 }, names["h"@])),
        binding(k.search@, names) == Some((ModifierType { bits: 0 }, names["slash"@])),
        binding(k.scroll_bottom@, names) == Some((ModifierType { bits: 1 }, names["G"@])),
        binding(k.search_prev@, names) == Some((ModifierType { bits: 1 }, names["N"@])),
        binding(k.focus_sidebar@, names) == Some((ModifierType { bits: 4 }, names["h"@])),
        binding(k.focus_pdf@, names) == Some((ModifierType { bits: 4 }, names["l"@])),
        binding(k.pick_file@, names) == Some((ModifierType { bits: 4 }, names["o"@])),
        binding(k.zoom_in@, names) == Some((ModifierType { bits: 4 }, names["plus"@])),
        binding(k.zoom_out@, names) == Some((ModifierType { bits: 4 }, names["minus"@])),
        chord(k.scroll_top@, names) == Some((names["g"@], names["g"@])),
        chord(k.sidebar_toggle@, names) == Some((names["space"@], names["e"@])),
        chord(k.pick_file_chord@, names) == Some((names["space"@], names["space"@])),
{
    reveal_strlit("G");
    reveal_strlit("N");
    reveal_strlit("e");
    reveal_strlit("g");
    reveal_strlit("h");
    reveal_strlit("j");
    reveal_strlit("k");
    reveal_strlit("l");
    reveal_strlit("n");
    reveal_strlit("o");
    reveal_strlit("slash");
    reveal_strlit("plus");
    reveal_strlit("minus");
    reveal_strlit("space");
    reveal_strlit("ctrl");
    reveal_strlit("shift");
    reveal_strlit("shift G");
    reveal_strlit("shift N");
    reveal_strlit("ctrl h");
    reveal_strlit("ctrl l");
    reveal_strlit("ctrl o");
    reveal_strlit("ctrl plus");
    reveal_strlit("ctrl minus");
    reveal_strlit("g g");
    reveal_strlit("space e");
    reveal_strlit("space space");
    lemma_letter("G"@);
    lemma_letter("N"@);
    lemma_letter("e"@);
    lemma_letter("g"@);
    lemma_letter("h"@);
    lemma_letter("j"@);
    lemma_letter("k"@);
    lemma_letter("l"@);
    lemma_letter("n"@);
    lemma_letter("o"@);
    lemma_small_word("slash"@);
    lemma_small_word("plus"@);
    lemma_small_word("minus"@);
    lemma_small_word("space"@);
    lemma_small_word("ctrl"@);
    lemma_small_word("shift"@);
    lemma_named_words();
    law_piece_names_its_key("G"@, names);
    law_piece_names_its_key("N"@, names);
    law_piece_names_its_key("e"@, names);
    law_piece_names_its_key("g"@, names);
    law_piece_names_its_key("h"@, names);
    law_piece_names_its_key("j"@, names);
    law_piece_names_its_key("k"@, names);
    law_piece_names_its_key("l"@, names);
    law_piece_names_its_key("n"@, names);
    law_piece_names_its_key("o"@, names);
    law_piece_names_its_key("slash"@, names);
    law_piece_names_its_key("plus"@, names);
    law_piece_names_its_key("minus"@, names);
    law_binding_is_read_as_written("ctrl"@, "h"@, names);
    law_binding_is_read_as_written("ctrl"@, "j"@, names);
    law_binding_is_read_as_written("ctrl"@, "k"@, names);
    law_binding_is_read_as_written("ctrl"@, "l"@, names);
    law_binding_is_read_as_written("ctrl"@, "n"@, names);
    law_binding_is_read_as_written("ctrl"@, "slash"@, names);
    law_binding_is_read_as_written("shift"@, "G"@, names);
    assert("shift G"@ =~= "shift"@ + seq![' '] + "G"@);
    law_binding_is_read_as_written("shift"@, "N"@, names);
    assert("shift N"@ =~= "shift"@ + seq![' '] + "N"@);
    law_binding_is_read_as_written("ctrl"@, "h"@, names);
    assert("ctrl h"@ =~= "ctrl"@ + seq![' '] + "h"@);
    law_binding_is_read_as_written("ctrl"@, "l"@, names);
    assert("ctrl l"@ =~= "ctrl"@ + seq![' '] + "l"@);
    law_binding_is_read_as_written("ctrl"@, "o"@, names);
    assert("ctrl o"@ =~= "ctrl"@ + seq![' '] + "o"@);
    law_binding_is_read_as_written("ctrl"@, "plus"@, names);
    assert("ctrl plus"@ =~= "ctrl"@ + seq![' '] + "plus"@);
    law_binding_is_read_as_written("ctrl"@, "minus"@, names);
    assert("ctrl minus"@ =~= "ctrl"@ + seq![' '] + "minus"@);
    law_chord_is_read_as_written("g"@, "g"@, names);
    assert("g g"@ =~= "g"@ + seq![' '] + "g"@);
    law_chord_is_read_as_written("space"@, "e"@, names);
    assert("space e"@ =~= "space"@ + seq![' '] + "e"@);
    law_chord_is_read_as_written("space"@, "space"@, names);
    assert("space space"@ =~= "space"@ + seq![' '] + "space"@);
}

/// A press of the key that the setting of an action spells sends that action,
/// unless an action of a lower rank has the same key: at any time with a
/// modifier, and without one while no chord and no page number is begun.
#[verifier::rlimit(40)]
pub proof fn law_press_sends_the_action_that_spells_it(
    k: KeymapConfig,
    names: Map<Seq<char>, Key>,
    msg: AppMsg,
    state: ChordState,
    press: KeyPress,
    modifiers: ModifierType,
    now: u64,
    r: Option<AppMsg>,
)
    requires
        spells(k, names, msg, modifiers, press.key),
        forall|other: AppMsg| #[trigger]
            action_rank(other) < action_rank(msg) ==> !spells(
                k,
                names,
                other,
                modifiers,
                press.key,
            ),
        modifiers.bits != 0 || (state.leader is None && state.count == 0),
        is_sent(
            window_chorded(k, names),
            window_bound(k, names),
            leader(k.scroll_top@, names),
            state,
            press,
            modifiers,
            now,
            r,
        ),
    ensures
        r == Some(msg),
{
    let bindings = window_bound(k, names);
    let place = binding_place(bindings, modifiers, press.key);
    assert(0 <= place < bindings.len() && bindings[place].0 == msg) by {
        law_key_sends_the_action_that_spells_it(k, names, msg, modifiers, press.key);
    }
    lemma_press_sends(
        window_chorded(k, names),
        bindings,
        leader(k.scroll_top@, names),
        state,
        press,
        modifiers,
        now,
        r,
        msg,
    );
}

proof fn lemma_press_sends(
    chords: Seq<(Key, Key, AppMsg)>,
    bindings: Seq<(AppMsg, ModifierType, Key)>,
    count_leader: Option<Key>,
    state: ChordState,
    press: KeyPress,
    modifiers: ModifierType,
    now: u64,
    r: Option<AppMsg>,
    msg: AppMsg,
)
    requires
        modifiers.bits != 0 || (state.leader is None && state.count == 0),
        is_sent(chords, bindings, count_leader, state, press, modifiers, now, r),
        0 <= binding_place(bindings, modifiers, press.key) < bindings.len(),
        bindings[binding_place(bindings, modifiers, press.key)].0 == msg,
        action_rank(msg) < 13,
    ensures
        r == Some(msg),
{
    law_press_sends_its_binding(
        chords,
        bindings,
        count_leader,
        state,
        press,
        modifiers,
        now,
        r,
    );
    law_same_messages_say_the_same(msg, r->0);
}

/// The second key of a chord, pressed within half a second of the first, sends
/// what the setting of the chord stands for, whatever else the key is bound
/// to: the sidebar's chord before the picker's, and that before the one that
/// goes to the start. A digit is left out: after some leaders it starts a page
/// number.
pub proof fn law_chord_press_sends_its_action(
    k: KeymapConfig,
    names: Map<Seq<char>, Key>,
    first: Key,
    at: u64,
    press: KeyPress,
    now: u64,
    r: Option<AppMsg>,
)
    requires
        at <= now <= at + 500_000_000,
        typed_digit(press) is None,
        is_sent(
            window_chorded(k, names),
            window_bound(k, names),
            leader(k.scroll_top@, names),
            ChordState { leader: Some((first, at)), count: 0 },
            press,
            ModifierType { bits: 0 },
            now,
            r,
        ),
    ensures
        ({
            let toggles = chord(k.sidebar_toggle@, names) == Some((first, press.key));
            let picks = chord(k.pick_file_chord@, names) == Some((first, press.key));
            let rises = chord(k.scroll_top@, names) == Some((first, press.key));
            &&& toggles ==> r == Some(AppMsg::ToggleSidebar)
            &&& !toggles && picks ==> r == Some(AppMsg::PickFile)
            &&& !toggles && !picks && rises ==> r == Some(AppMsg::ScrollTop)
        }),
{
    law_chord_sends_the_action_that_spells_it(k, names, first, press.key);
    law_first_chord_counts(window_chorded(k, names), first, press.key);
}

} // verus!
