//! Key presses: two-key chords, page numbers and plain bindings.
use vstd::prelude::*;

use crate::app::AppMsg;
use crate::keys::{Key, ModifierType, KEY_KP_ENTER, KEY_RETURN};
use crate::text::{digits_value, is_digit};

verus! {

/// The time, in nanoseconds, within which the completing key of a chord must
/// follow its leader.
pub const CHORD_WINDOW: u64 = 500_000_000;

/// One press of a key, with the character that the key types, if any.
#[derive(Debug, Clone, Copy, PartialEq, Eq, Structural)]
pub struct KeyPress {
    pub key: Key,
    pub unicode: Option<char>,
}

/// What has been pressed so far: the armed leader with the moment of its
/// press, in nanoseconds, and, while a page number is typed after the leader
/// (`g 1 2`), the number so far.
#[derive(Debug, Clone, Copy, PartialEq, Eq)]
pub struct ChordState {
    pub leader: Option<(Key, u64)>,
    /// The page number typed so far; 0 means that none is being typed.
    pub count: u32,
}

/// Nothing has been pressed.
pub open spec fn idle() -> ChordState {
    ChordState { leader: None, count: 0 }
}

impl Default for ChordState {
    fn default() -> (r: ChordState)
        ensures
            r == idle(),
    {
        ChordState { leader: None, count: 0 }
    }
}

/// The digit that a press types.
pub open spec fn typed_digit(press: KeyPress) -> Option<u32> {
    match press.unicode {
        Some(c) => if is_digit(c) {
            Some((c as u32 - '0' as u32) as u32)
        } else {
            None
        },
        None => None,
    }
}

/// Whether `key` ends a page number.
pub open spec fn is_enter(key: Key) -> bool {
    key.value == KEY_RETURN || key.value == KEY_KP_ENTER
}

/// `count` with one more digit, held at the largest number there is.
pub open spec fn with_digit(count: u32, digit: u32) -> u32 {
    if count * 10 + digit <= u32::MAX {
        (count * 10 + digit) as u32
    } else {
        u32::MAX
    }
}

/// The place of the first chord of `leader` and `key`; past the end if there
/// is none.
pub open spec fn chord_place(chords: Seq<(Key, Key, AppMsg)>, leader: Key, key: Key) -> int
    decreases chords.len(),
{
    if chords.len() == 0 || (chords[0].0 == leader && chords[0].1 == key) {
        0
    } else {
        1 + chord_place(chords.skip(1), leader, key)
    }
}

/// Whether `key` is the leader of a chord.
pub open spec fn leads(chords: Seq<(Key, Key, AppMsg)>, key: Key) -> bool {
    exists|i: int| 0 <= i < chords.len() && (#[trigger] chords[i]).0 == key
}

/// The nanoseconds from `from` to `to`; none if `to` is the earlier moment.
pub open spec fn elapsed(from: u64, to: u64) -> int {
    if from <= to {
        to - from
    } else {
        0
    }
}

/// What a key press does.
pub enum Step {
    /// Goes on with the page number, which is now this one.
    Count(u32),
    /// Ends the page number: jump there.
    Jump(u32),
    /// Completes the chord at this place.
    Fire(int),
    /// Arms a leader.
    Arm,
    /// Nothing: whatever was armed is forgotten.
    Forget,
}

/// What a press does that does not belong to a page number.
pub open spec fn fresh_step(
    chords: Seq<(Key, Key, AppMsg)>,
    leader: Option<(Key, u64)>,
    key: Key,
    now: u64,
) -> Step {
    if leader is Some && elapsed((leader->0).1, now) <= CHORD_WINDOW && chord_place(
        chords,
        (leader->0).0,
        key,
    ) < chords.len() {
        Step::Fire(chord_place(chords, (leader->0).0, key))
    } else if leads(chords, key) {
        Step::Arm
    } else {
        Step::Forget
    }
}

/// What a press does. While a page number is typed, a digit goes on with it
/// and Enter ends it, however late; any other key gives it up and counts as a
/// fresh press. After the leader of page numbers, a digit starts one. Any
/// other press completes a chord, if it comes in time, or arms a leader.
pub open spec fn step(
    chords: Seq<(Key, Key, AppMsg)>,
    count_leader: Option<Key>,
    state: ChordState,
    press: KeyPress,
    now: u64,
) -> Step {
    if state.count > 0 {
        if typed_digit(press) is Some {
            Step::Count(with_digit(state.count, typed_digit(press)->0))
        } else if is_enter(press.key) {
            Step::Jump(state.count)
        } else {
            fresh_step(chords, None, press.key, now)
        }
    } else if state.leader is Some && count_leader == Some((state.leader->0).0) && typed_digit(
        press,
    ) is Some {
        Step::Count(typed_digit(press)->0)
    } else {
        fresh_step(chords, state.leader, press.key, now)
    }
}

/// The state after `did`, the step of a press of `key` at `now`.
pub open spec fn state_after(state: ChordState, did: Step, key: Key, now: u64) -> ChordState {
    match did {
        Step::Count(count) => ChordState { leader: state.leader, count },
        Step::Arm => ChordState { leader: Some((key, now)), count: 0 },
        _ => idle(),
    }
}

/// Whether `r` is the message of the step `did`.
pub open spec fn step_message(
    chords: Seq<(Key, Key, AppMsg)>,
    did: Step,
    r: Option<AppMsg>,
) -> bool {
    match did {
        Step::Jump(page) => r == Some(AppMsg::GoToPage(page)),
        Step::Fire(i) => r is Some && chords[i].2.same_as(r->0),
        _ => r is None,
    }
}

fn digit_of(press: KeyPress) -> (r: Option<u32>)
    ensures
        r == typed_digit(press),
{
    match press.unicode {
        Some(c) => if '0' <= c && c <= '9' {
            Some((c as u8 - '0' as u8) as u32)
        } else {
            None
        },
        None => None,
    }
}

/// The place of the first chord of `leader` and `key`.
fn find_chord(chords: &[(Key, Key, AppMsg)], leader: Key, key: Key) -> (r: Option<usize>)
    ensures
        match r {
            Some(i) => i == chord_place(chords@, leader, key) && i < chords@.len(),
            None => chord_place(chords@, leader, key) >= chords@.len(),
        },
{
    let mut i: usize = 0;
    assert(chords@.skip(0) =~= chords@);
    while i < chords.len()
        invariant
            i <= chords@.len(),
            chord_place(chords@, leader, key) == i + chord_place(
                chords@.skip(i as int),
                leader,
                key,
            ),
        decreases chords@.len() - i,
    {
        assert(chords@.skip(i as int)[0] == chords@[i as int]);
        assert(chords@.skip(i as int).skip(1) =~= chords@.skip(i + 1));
        if chords[i].0 == leader && chords[i].1 == key {
            return Some(i);
        }
        i += 1;
    }
    None
}

fn is_leader(chords: &[(Key, Key, AppMsg)], key: Key) -> (r: bool)
    ensures
        r == leads(chords@, key),
{
    let mut i: usize = 0;
    while i < chords.len()
        invariant
            i <= chords@.len(),
            forall|j: int| 0 <= j < i ==> (#[trigger] chords@[j]).0 != key,
        decreases chords@.len() - i,
    {
        if chords[i].0 == key {
            return true;
        }
        i += 1;
    }
    false
}

/// Advance the chord state on a key press. Returns the message to send if the
/// press completed something.
///
/// Two behaviours share one leader key:
/// - two-key chords (`space e`, `space space`, `g g`) complete within
///   [`CHORD_WINDOW`]; that is tried before arming, because a key can both
///   lead and complete (`space space`);
/// - while the count leader (`g`) is armed, digits add up to a page number
///   without a time limit, and Enter jumps there. Any other key gives the
///   number up and counts as a fresh press.
pub fn chord_press(
    chords: &[(Key, Key, AppMsg)],
    count_leader: Option<Key>,
    state: &mut ChordState,
    press: KeyPress,
    now: u64,
) -> (r: Option<AppMsg>)
    ensures
        step_message(chords@, step(chords@, count_leader, *old(state), press, now), r),
        *final(state) == state_after(
            *old(state),
            step(chords@, count_leader, *old(state), press, now),
            press.key,
            now,
        ),
{
    let digit = digit_of(press);
    let key = press.key;
    if state.count > 0 {
        if let Some(d) = digit {
            let wide: u64 = state.count as u64 * 10 + d as u64;
            state.count =
            if wide <= u32::MAX as u64 {
                wide as u32
            } else {
                u32::MAX
            };
            return None;
        }
        if key.value == KEY_RETURN || key.value == KEY_KP_ENTER {
            let page: u32 = state.count;
            *state = ChordState { leader: None, count: 0 };
            return Some(AppMsg::GoToPage(page));
        }
        *state = ChordState { leader: None, count: 0 };
    } else if let Some((armed, _)) = state.leader {
        if let Some(counting) = count_leader {
            if counting == armed {
                if let Some(d) = digit {
                    state.count = d;
                    return None;
                }
            }
        }
    }
    if let Some((armed, pressed)) = state.leader {
        if now.saturating_sub(pressed) <= CHORD_WINDOW {
            if let Some(i) = find_chord(chords, armed, key) {
                *state = ChordState { leader: None, count: 0 };
                return Some(chords[i].2.clone());
            }
        }
    }
    if is_leader(chords, key) {
        *state = ChordState { leader: Some((key, now)), count: 0 };
    } else {
        *state = ChordState { leader: None, count: 0 };
    }
    None
}

/// The place of the first binding of `key` with exactly `modifiers`; past the
/// end if there is none.
pub open spec fn binding_place(
    bindings: Seq<(AppMsg, ModifierType, Key)>,
    modifiers: ModifierType,
    key: Key,
) -> int
    decreases bindings.len(),
{
    if bindings.len() == 0 || (bindings[0].1 == modifiers && bindings[0].2 == key) {
        0
    } else {
        1 + binding_place(bindings.skip(1), modifiers, key)
    }
}

/// The place of the first binding of `key` with exactly `modifiers`.
fn find_binding(
    bindings: &[(AppMsg, ModifierType, Key)],
    modifiers: ModifierType,
    key: Key,
) -> (r: Option<usize>)
    ensures
        match r {
            Some(i) => i == binding_place(bindings@, modifiers, key) && i < bindings@.len(),
            None => binding_place(bindings@, modifiers, key) >= bindings@.len(),
        },
{
    let mut i: usize = 0;
    assert(bindings@.skip(0) =~= bindings@);
    while i < bindings.len()
        invariant
            i <= bindings@.len(),
            binding_place(bindings@, modifiers, key) == i + binding_place(
                bindings@.skip(i as int),
                modifiers,
                key,
            ),
        decreases bindings@.len() - i,
    {
        assert(bindings@.skip(i as int)[0] == bindings@[i as int]);
        assert(bindings@.skip(i as int).skip(1) =~= bindings@.skip(i + 1));
        if bindings[i].1 == modifiers && bindings[i].2 == key {
            return Some(i);
        }
        i += 1;
    }
    None
}

/// What a press does to the chords: nothing but clear them while a modifier
/// is held.
pub open spec fn window_step(
    chords: Seq<(Key, Key, AppMsg)>,
    count_leader: Option<Key>,
    state: ChordState,
    press: KeyPress,
    modifiers: ModifierType,
    now: u64,
) -> Step {
    if modifiers.bits == 0 {
        step(chords, count_leader, state, press, now)
    } else {
        Step::Forget
    }
}

/// Whether a step sends a message of its own.
pub open spec fn speaks(did: Step) -> bool {
    did is Jump || did is Fire
}

/// Whether `r` is what a press sends: the message of a chord or a page number
/// that it completes, or else that of the first binding of its key.
pub open spec fn is_sent(
    chords: Seq<(Key, Key, AppMsg)>,
    bindings: Seq<(AppMsg, ModifierType, Key)>,
    count_leader: Option<Key>,
    state: ChordState,
    press: KeyPress,
    modifiers: ModifierType,
    now: u64,
    r: Option<AppMsg>,
) -> bool {
    let did = window_step(chords, count_leader, state, press, modifiers, now);
    let place = binding_place(bindings, modifiers, press.key);
    if speaks(did) {
        step_message(chords, did, r)
    } else if place < bindings.len() {
        r is Some && bindings[place].0.same_as(r->0)
    } else {
        r is None
    }
}

/// A key press in the window: chords come first, the plain bindings take what
/// the chords leave. Returns the message to send, or none if the press is not
/// for the reader.
pub fn key_pressed(
    chords: &[(Key, Key, AppMsg)],
    bindings: &[(AppMsg, ModifierType, Key)],
    count_leader: Option<Key>,
    state: &mut ChordState,
    press: KeyPress,
    modifiers: ModifierType,
    now: u64,
) -> (r: Option<AppMsg>)
    ensures
        is_sent(chords@, bindings@, count_leader, *old(state), press, modifiers, now, r),
        ({
            let did = window_step(chords@, count_leader, *old(state), press, modifiers, now);
            let place = binding_place(bindings@, modifiers, press.key);
            &&& *final(state) == state_after(*old(state), did, press.key, now)
            &&& if speaks(did) {
                step_message(chords@, did, r)
            } else if place < bindings@.len() {
                r is Some && bindings@[place].0.same_as(r->0)
            } else {
                r is None
            }
        }),
{
    if modifiers.bits == 0 {
        let sent = chord_press(chords, count_leader, state, press, now);
        if sent.is_some() {
            return sent;
        }
    } else {
        *state = ChordState { leader: None, count: 0 };
    }
    match find_binding(bindings, modifiers, press.key) {
        Some(i) => Some(bindings[i].0.clone()),
        None => None,
    }
}

/// The state after a run of presses without modifiers.
pub open spec fn after_presses(
    chords: Seq<(Key, Key, AppMsg)>,
    count_leader: Option<Key>,
    state: ChordState,
    presses: Seq<(KeyPress, u64)>,
) -> ChordState
    decreases presses.len(),
{
    if presses.len() == 0 {
        state
    } else {
        let s = after_presses(chords, count_leader, state, presses.drop_last());
        let (press, now) = presses.last();
        state_after(s, step(chords, count_leader, s, press, now), press.key, now)
    }
}

/// The characters that presses type.
pub open spec fn typed(presses: Seq<(KeyPress, u64)>) -> Seq<char> {
    presses.map_values(|p: (KeyPress, u64)| p.0.unicode->0)
}

/// `n`, held at the largest page number there is.
pub open spec fn capped(n: nat) -> u32 {
    if n <= u32::MAX {
        n as u32
    } else {
        u32::MAX
    }
}

/// After the leader of page numbers, digits make up the number they spell,
/// however slowly they are typed; a number too large is held at the largest.
pub proof fn law_digits_spell_a_page_number(
    chords: Seq<(Key, Key, AppMsg)>,
    count_leader: Option<Key>,
    state: ChordState,
    presses: Seq<(KeyPress, u64)>,
)
    requires
        state.count == 0,
        state.leader is Some,
        count_leader == Some((state.leader->0).0),
        forall|i: int|
            0 <= i < presses.len() ==> (#[trigger] presses[i]).0.unicode is Some && is_digit(
                presses[i].0.unicode->0,
            ),
    ensures
        after_presses(chords, count_leader, state, presses) == (ChordState {
            leader: state.leader,
            count: capped(digits_value(typed(presses))),
        }),
    decreases presses.len(),
{
    if presses.len() > 0 {
        law_digits_spell_a_page_number(chords, count_leader, state, presses.drop_last());
        assert(typed(presses).drop_last() =~= typed(presses.drop_last()));
        assert(presses[presses.len() - 1] == presses.last());
        assert(typed(presses).last() == presses.last().0.unicode->0);
    }
}

/// Enter after a page number jumps to it, and nothing stays armed.
pub proof fn law_enter_jumps_to_the_page(
    chords: Seq<(Key, Key, AppMsg)>,
    count_leader: Option<Key>,
    state: ChordState,
    press: KeyPress,
    now: u64,
)
    requires
        state.count > 0,
        is_enter(press.key),
        typed_digit(press) is None,
    ensures
        step(chords, count_leader, state, press, now) == Step::Jump(state.count),
        state_after(state, step(chords, count_leader, state, press, now), press.key, now) == idle(),
{
}

/// While a page number is typed, a key that is neither a digit nor Enter does
/// what it would have done with nothing typed at all.
pub proof fn law_other_key_gives_up_the_number(
    chords: Seq<(Key, Key, AppMsg)>,
    count_leader: Option<Key>,
    state: ChordState,
    press: KeyPress,
    now: u64,
)
    requires
        state.count > 0,
        typed_digit(press) is None,
        !is_enter(press.key),
    ensures
        step(chords, count_leader, state, press, now) == step(
            chords,
            count_leader,
            idle(),
            press,
            now,
        ),
        state_after(state, step(chords, count_leader, state, press, now), press.key, now)
            == state_after(
            idle(),
            step(chords, count_leader, idle(), press, now),
            press.key,
            now,
        ),
{
}

/// A leader followed in time by a key it has a chord with fires that chord;
/// too late, it never does. A digit after the leader of page numbers is left
/// out: it starts a page number.
pub proof fn law_chord_fires_in_time(
    chords: Seq<(Key, Key, AppMsg)>,
    count_leader: Option<Key>,
    first: KeyPress,
    second: KeyPress,
    at: u64,
    now: u64,
)
    requires
        leads(chords, first.key),
        count_leader != Some(first.key) || typed_digit(second) is None,
    ensures
        ({
            let armed = state_after(
                idle(),
                step(chords, count_leader, idle(), first, at),
                first.key,
                at,
            );
            let place = chord_place(chords, first.key, second.key);
            let did = step(chords, count_leader, armed, second, now);
            &&& armed == (ChordState { leader: Some((first.key, at)), count: 0 })
            &&& place < chords.len() && elapsed(at, now) <= CHORD_WINDOW ==> did == Step::Fire(
                place,
            )
            &&& elapsed(at, now) > CHORD_WINDOW ==> !(did is Fire)
        }),
{
}

/// The binding that is found is the first of those with the key and exactly
/// the modifiers; none is found only if there is none.
pub proof fn law_first_binding_counts(
    bindings: Seq<(AppMsg, ModifierType, Key)>,
    modifiers: ModifierType,
    key: Key,
)
    ensures
        ({
            let place = binding_place(bindings, modifiers, key);
            &&& 0 <= place <= bindings.len()
            &&& place < bindings.len() ==> bindings[place].1 == modifiers && bindings[place].2
                == key
            &&& forall|i: int|
                0 <= i < place ==> (#[trigger] bindings[i]).1 != modifiers || bindings[i].2 != key
        }),
    decreases bindings.len(),
{
    if bindings.len() > 0 && !(bindings[0].1 == modifiers && bindings[0].2 == key) {
        let rest = bindings.skip(1);
        law_first_binding_counts(rest, modifiers, key);
        let place = binding_place(bindings, modifiers, key);
        assert(place < bindings.len() ==> bindings[place] == rest[place - 1]);
        assert forall|i: int| 0 <= i < place implies (#[trigger] bindings[i]).1 != modifiers
            || bindings[i].2 != key by {
            if i > 0 {
                assert(bindings[i] == rest[i - 1]);
            }
        }
    }
}

/// The chord that is found is the first of those with the leader and the key;
/// none is found only if there is none.
pub proof fn law_first_chord_counts(chords: Seq<(Key, Key, AppMsg)>, leader: Key, key: Key)
    ensures
        ({
            let place = chord_place(chords, leader, key);
            &&& 0 <= place <= chords.len()
            &&& place < chords.len() ==> chords[place].0 == leader && chords[place].1 == key
            &&& forall|i: int|
                0 <= i < place ==> (#[trigger] chords[i]).0 != leader || chords[i].1 != key
        }),
    decreases chords.len(),
{
    if chords.len() > 0 && !(chords[0].0 == leader && chords[0].1 == key) {
        let rest = chords.skip(1);
        law_first_chord_counts(rest, leader, key);
        let place = chord_place(chords, leader, key);
        assert(place < chords.len() ==> chords[place] == rest[place - 1]);
        assert forall|i: int| 0 <= i < place implies (#[trigger] chords[i]).0 != leader
            || chords[i].1 != key by {
            if i > 0 {
                assert(chords[i] == rest[i - 1]);
            }
        }
    }
}

/// The message of a completed chord is the chord's own, and that of a page
/// number asks for that page. Nothing else sends a message.
pub proof fn law_steps_send_what_they_stand_for(
    chords: Seq<(Key, Key, AppMsg)>,
    did: Step,
    r: Option<AppMsg>,
)
    requires
        step_message(chords, did, r),
    ensures
        did matches Step::Fire(i) ==> r is Some && chords[i].2.same_as(r->0),
        did matches Step::Jump(page) ==> r == Some(AppMsg::GoToPage(page)),
        !(did is Fire) && !(did is Jump) ==> r is None,
        speaks(did) <==> r is Some,
{
}

/// While a modifier is held, no chord is armed, completed or kept, and no page
/// number goes on.
pub proof fn law_modifiers_clear_the_chords(
    chords: Seq<(Key, Key, AppMsg)>,
    count_leader: Option<Key>,
    state: ChordState,
    press: KeyPress,
    modifiers: ModifierType,
    now: u64,
)
    requires
        modifiers.bits != 0,
    ensures
        ({
            let did = window_step(chords, count_leader, state, press, modifiers, now);
            &&& !(did is Fire) && !(did is Jump)
            &&& state_after(state, did, press.key, now).leader is None
            &&& state_after(state, did, press.key, now).count == 0
        }),
{
}

/// With nothing armed, a press arms the chords that it leads, at the moment
/// it comes, and sends no message of its own.
pub proof fn law_first_press_only_arms(
    chords: Seq<(Key, Key, AppMsg)>,
    count_leader: Option<Key>,
    state: ChordState,
    press: KeyPress,
    now: u64,
)
    requires
        state.leader is None,
        state.count == 0,
    ensures
        ({
            let did = window_step(
                chords,
                count_leader,
                state,
                press,
                ModifierType { bits: 0 },
                now,
            );
            let after = state_after(state, did, press.key, now);
            let armed = exists|i: int|
                0 <= i < chords.len() && (#[trigger] chords[i]).0 == press.key;
            &&& !(did is Fire) && !(did is Jump)
            &&& armed ==> after.leader == Some((press.key, now))
            &&& !armed ==> after.leader is None
            &&& after.count == 0
        }),
{
}

/// The second key of a chord counts for half a second after the first, and not
/// after.
pub proof fn law_chord_waits_half_a_second(
    chords: Seq<(Key, Key, AppMsg)>,
    leader: Key,
    key: Key,
    at: u64,
    now: u64,
)
    requires
        at <= now,
        exists|i: int|
            0 <= i < chords.len() && (#[trigger] chords[i]).0 == leader && chords[i].1 == key,
    ensures
        now - at <= 500_000_000 <==> fresh_step(chords, Some((leader, at)), key, now) is Fire,
        !(fresh_step(chords, None, key, now) is Fire),
{
    law_first_chord_counts(chords, leader, key);
    let i = choose|i: int|
        0 <= i < chords.len() && (#[trigger] chords[i]).0 == leader && chords[i].1 == key;
    assert(chord_place(chords, leader, key) <= i);
}

/// A digit is typed by the character that stands for it.
pub proof fn law_digit_keys(key: Key, c: char)
    ensures
        ({
            let digit = typed_digit(KeyPress { key, unicode: Some(c) });
            &&& digit is Some <==> '0' <= c <= '9'
            &&& digit matches Some(d) ==> d == c as u32 - 48 && d <= 9
            &&& typed_digit(KeyPress { key, unicode: None }) is None
            &&& is_enter(key) <==> key.value == 0xff0d || key.value == 0xff8d
        }),
{
}

/// A press that completes nothing sends the first binding of its key: so does
/// every press with a modifier, and every one while nothing is begun.
pub proof fn law_press_sends_its_binding(
    chords: Seq<(Key, Key, AppMsg)>,
    bindings: Seq<(AppMsg, ModifierType, Key)>,
    count_leader: Option<Key>,
    state: ChordState,
    press: KeyPress,
    modifiers: ModifierType,
    now: u64,
    r: Option<AppMsg>,
)
    requires
        modifiers.bits != 0 || (state.leader is None && state.count == 0),
        is_sent(chords, bindings, count_leader, state, press, modifiers, now, r),
    ensures
        ({
            let place = binding_place(bindings, modifiers, press.key);
            &&& place < bindings.len() ==> r is Some && bindings[place].0.same_as(r->0)
            &&& place >= bindings.len() ==> r is None
        }),
{
}

} // verus!
