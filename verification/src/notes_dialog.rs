//! The browser for the notes of a document.
use vstd::prelude::*;

use crate::keys::{
    Key, ModifierType, KEY_DELETE, KEY_ESCAPE, KEY_KP_ENTER, KEY_N, KEY_P, KEY_RETURN,
};
use crate::picker::row_place;
use crate::text::chars_of;

verus! {

/// One row of the browser.
#[derive(Debug)]
pub struct NotesListItem {
    pub id: u64,
    pub title: String,
    pub subtitle: String,
}

impl Clone for NotesListItem {
    fn clone(&self) -> (r: NotesListItem)
        ensures
            r == *self,
    {
        NotesListItem {
            id: self.id,
            title: self.title.clone(),
            subtitle: self.subtitle.clone(),
        }
    }
}

/// What the browser is told.
#[derive(Debug)]
pub enum NotesListInput {
    /// List these rows instead.
    Update(Vec<NotesListItem>),
    /// List the rows anew and show the browser.
    Show,
    /// Go to the note of this row and close.
    Activate(usize),
    /// Remove the note of this row.
    Delete(usize),
}

/// What the browser answers.
#[derive(Debug, Clone, Copy, PartialEq, Eq, Structural)]
pub enum NotesListOutput {
    Jumped(u64),
    Deleted(u64),
    Closed,
}

/// What the browser shows.
#[derive(Debug, Clone, Copy, PartialEq, Eq, Structural)]
pub enum NotesPage {
    Empty,
    List,
}

/// What is done on behalf of the browser.
#[derive(Debug, Clone, Copy, PartialEq, Eq, Structural)]
pub enum NotesEffect {
    /// List the rows anew.
    Rebuild,
    ShowPage(NotesPage),
    /// Select the row at this place.
    Select(usize),
    /// Put the browser on screen.
    Present,
    /// Give the keyboard to a row once the browser is on screen.
    FocusRows,
    Output(NotesListOutput),
    Close,
}

/// The browser: Return goes to a note, Delete removes it.
#[derive(Debug)]
pub struct NotesList {
    pub items: Vec<NotesListItem>,
}

/// What lists `count` rows anew; the first of them is selected.
pub open spec fn rebuilt(count: nat) -> Seq<NotesEffect> {
    if count == 0 {
        seq![NotesEffect::Rebuild, NotesEffect::ShowPage(NotesPage::Empty)]
    } else {
        seq![
            NotesEffect::Rebuild,
            NotesEffect::ShowPage(NotesPage::List),
            NotesEffect::Select(0),
        ]
    }
}

/// The rows after `msg`.
pub open spec fn items_after(items: Seq<NotesListItem>, msg: NotesListInput) -> Seq<NotesListItem> {
    match msg {
        NotesListInput::Update(new) => new@,
        _ => items,
    }
}

/// What is done for `msg`. `mapped` tells whether the rows are on screen.
pub open spec fn notes_effects(
    items: Seq<NotesListItem>,
    msg: NotesListInput,
    mapped: bool,
) -> Seq<NotesEffect> {
    match msg {
        NotesListInput::Update(new) => if mapped {
            rebuilt(new@.len()).push(NotesEffect::FocusRows)
        } else {
            rebuilt(new@.len())
        },
        NotesListInput::Show => rebuilt(items.len()) + seq![
            NotesEffect::Present,
            NotesEffect::FocusRows,
        ],
        NotesListInput::Activate(index) => if index < items.len() {
            seq![
                NotesEffect::Output(NotesListOutput::Jumped(items[index as int].id)),
                NotesEffect::Close,
            ]
        } else {
            Seq::empty()
        },
        NotesListInput::Delete(index) => if index < items.len() {
            seq![NotesEffect::Output(NotesListOutput::Deleted(items[index as int].id))]
        } else {
            Seq::empty()
        },
    }
}

/// A row as it is listed. A row without a subtitle shows none.
#[derive(Debug)]
pub struct NotesRow {
    pub title: String,
    pub subtitle: Option<String>,
}

/// Whether `row` lists `item`.
pub open spec fn is_note_row(row: NotesRow, item: NotesListItem) -> bool {
    &&& row.title == item.title
    &&& row.subtitle == (if item.subtitle@.len() == 0 {
        None
    } else {
        Some(item.subtitle)
    })
}

impl NotesList {
    /// A browser without rows.
    pub fn new() -> (r: NotesList)
        ensures
            r.items@ == Seq::<NotesListItem>::empty(),
    {
        NotesList { items: Vec::new() }
    }

    /// The rows as they are listed.
    pub fn rows(&self) -> (r: Vec<NotesRow>)
        ensures
            r@.len() == self.items@.len(),
            forall|i: int| 0 <= i < r@.len() ==> is_note_row(#[trigger] r@[i], self.items@[i]),
    {
        let mut rows: Vec<NotesRow> = Vec::new();
        let mut i: usize = 0;
        while i < self.items.len()
            invariant
                i <= self.items@.len(),
                rows@.len() == i,
                forall|j: int| 0 <= j < i ==> is_note_row(#[trigger] rows@[j], self.items@[j]),
            decreases self.items@.len() - i,
        {
            let item = &self.items[i];
            let subtitle = if chars_of(item.subtitle.as_str()).len() == 0 {
                None
            } else {
                Some(item.subtitle.clone())
            };
            rows.push(NotesRow { title: item.title.clone(), subtitle });
            i += 1;
        }
        rows
    }

    /// List the rows anew.
    fn rebuild_rows(&self) -> (r: Vec<NotesEffect>)
        ensures
            r@ == rebuilt(self.items@.len()),
    {
        let mut effects: Vec<NotesEffect> = Vec::new();
        effects.push(NotesEffect::Rebuild);
        if self.items.len() == 0 {
            effects.push(NotesEffect::ShowPage(NotesPage::Empty));
        } else {
            effects.push(NotesEffect::ShowPage(NotesPage::List));
            effects.push(NotesEffect::Select(0));
        }
        assert(effects@ =~= rebuilt(self.items@.len()));
        effects
    }

    /// Take in `msg`. `mapped` tells whether the rows are on screen.
    pub fn update(&mut self, msg: NotesListInput, mapped: bool) -> (r: Vec<NotesEffect>)
        ensures
            final(self).items@ == items_after(old(self).items@, msg),
            r@ == notes_effects(old(self).items@, msg, mapped),
    {
        let ghost wanted = notes_effects(self.items@, msg, mapped);
        let mut effects: Vec<NotesEffect> = Vec::new();
        match msg {
            NotesListInput::Update(items) => {
                self.items = items;
                effects = self.rebuild_rows();
                if mapped {
                    effects.push(NotesEffect::FocusRows);
                }
            },
            NotesListInput::Show => {
                effects = self.rebuild_rows();
                effects.push(NotesEffect::Present);
                effects.push(NotesEffect::FocusRows);
            },
            NotesListInput::Activate(index) => {
                if index < self.items.len() {
                    effects.push(NotesEffect::Output(NotesListOutput::Jumped(self.items[index].id)));
                    effects.push(NotesEffect::Close);
                }
            },
            NotesListInput::Delete(index) => {
                if index < self.items.len() {
                    effects.push(
                        NotesEffect::Output(NotesListOutput::Deleted(self.items[index].id)),
                    );
                }
            },
        }
        assert(effects@ =~= wanted);
        effects
    }
}

/// The row that gets the keyboard: the selected one, or else the first. None
/// does while the rows are off screen.
pub fn focus_row(mapped: bool, selected: Option<i32>, count: usize) -> (r: Option<i32>)
    ensures
        r == (if !mapped {
            None
        } else if selected is Some {
            selected
        } else if count > 0 {
            Some(0i32)
        } else {
            None
        }),
{
    if !mapped {
        return None;
    }
    if selected.is_some() {
        return selected;
    }
    if count > 0 {
        Some(0)
    } else {
        None
    }
}

/// What a key does in the browser.
#[derive(Debug, Clone, Copy, PartialEq, Eq, Structural)]
pub enum NotesKey {
    /// Move the selection by this many rows.
    Move(i32),
    Close,
    Activate(usize),
    Delete(usize),
    /// Leave the key to the widget that has the keyboard.
    Pass,
}

/// What a key does in the browser: Ctrl+n and Ctrl+p move the selection,
/// Escape closes, Return and Enter go to the selected note and Delete removes
/// it. Escape, Return and Enter do so only without modifiers.
pub open spec fn notes_key_action(
    key: Key,
    modifiers: ModifierType,
    selected: Option<i32>,
) -> NotesKey {
    if modifiers.has_control() {
        if key.value == KEY_N {
            NotesKey::Move(1)
        } else if key.value == KEY_P {
            NotesKey::Move((-1) as i32)
        } else {
            NotesKey::Pass
        }
    } else if key.value == KEY_ESCAPE && modifiers.bits == 0 {
        NotesKey::Close
    } else if (key.value == KEY_RETURN || key.value == KEY_KP_ENTER) && modifiers.bits == 0
        && selected is Some {
        NotesKey::Activate(row_place(selected->0) as usize)
    } else if key.value == KEY_DELETE && selected is Some {
        NotesKey::Delete(row_place(selected->0) as usize)
    } else {
        NotesKey::Pass
    }
}

/// What a key does in the browser.
pub fn notes_key(key: Key, modifiers: ModifierType, selected: Option<i32>) -> (r: NotesKey)
    ensures
        r == notes_key_action(key, modifiers, selected),
{
    if modifiers.control() {
        if key.value == KEY_N {
            return NotesKey::Move(1);
        }
        if key.value == KEY_P {
            return NotesKey::Move(-1);
        }
        return NotesKey::Pass;
    }
    if key.value == KEY_ESCAPE && modifiers.bits == 0 {
        return NotesKey::Close;
    }
    if let Some(row) = selected {
        let index: usize = if row < 0 {
            0
        } else {
            row as usize
        };
        if (key.value == KEY_RETURN || key.value == KEY_KP_ENTER) && modifiers.bits == 0 {
            return NotesKey::Activate(index);
        }
        if key.value == KEY_DELETE {
            return NotesKey::Delete(index);
        }
    }
    NotesKey::Pass
}

/// The row that a move of the selection by `delta` ends on, among `count`
/// rows. Without a selection it is the first or the last row.
pub open spec fn moved_row(current: Option<i32>, count: int, delta: int) -> Option<int> {
    if count <= 0 {
        None
    } else if current is None || current->0 < 0 {
        Some(
            if delta > 0 {
                0
            } else {
                count - 1
            },
        )
    } else if current->0 + delta < 0 {
        Some(0)
    } else if current->0 + delta > count - 1 {
        Some(count - 1)
    } else {
        Some(current->0 + delta)
    }
}

/// Move the selection by `delta` rows.
pub fn move_note_selection(current: Option<i32>, count: i32, delta: i32) -> (r: Option<i32>)
    ensures
        match moved_row(current, count as int, delta as int) {
            Some(row) => r is Some && r->0 == row,
            None => r is None,
        },
{
    if count <= 0 {
        return None;
    }
    let row: i32 = match current {
        Some(row) => row,
        None => -1,
    };
    if row < 0 {
        return Some(
            if delta > 0 {
                0
            } else {
                count - 1
            },
        );
    }
    let target: i64 = row as i64 + delta as i64;
    if target < 0 {
        Some(0)
    } else if target > (count - 1) as i64 {
        Some(count - 1)
    } else {
        Some(target as i32)
    }
}

/// A move ends on a row of the list, wherever it started.
pub proof fn law_selection_stays_in_the_list(current: Option<i32>, count: int, delta: int)
    requires
        count > 0,
    ensures
        moved_row(current, count, delta) is Some,
        0 <= moved_row(current, count, delta)->0 < count,
{
}

/// What goes out names a note of the list: the one of the row that the message
/// is about.
pub proof fn law_output_names_the_row(
    items: Seq<NotesListItem>,
    msg: NotesListInput,
    mapped: bool,
    i: int,
)
    requires
        0 <= i < notes_effects(items, msg, mapped).len(),
        notes_effects(items, msg, mapped)[i] is Output,
    ensures
        match msg {
            NotesListInput::Activate(index) => {
                &&& index < items.len()
                &&& notes_effects(items, msg, mapped)[i] == NotesEffect::Output(
                    NotesListOutput::Jumped(items[index as int].id),
                )
            },
            NotesListInput::Delete(index) => {
                &&& index < items.len()
                &&& notes_effects(items, msg, mapped)[i] == NotesEffect::Output(
                    NotesListOutput::Deleted(items[index as int].id),
                )
            },
            _ => false,
        },
{
}

/// A row that is activated sends the reader to its note and closes the
/// browser; one that is deleted gives its note up and the browser stays. A row
/// that is not there does neither.
pub proof fn law_row_stands_for_its_note(items: Seq<NotesListItem>, index: usize, mapped: bool)
    ensures
        ({
            let gone_to = notes_effects(items, NotesListInput::Activate(index), mapped);
            let given_up = notes_effects(items, NotesListInput::Delete(index), mapped);
            &&& index < items.len() ==> {
                &&& gone_to.contains(
                    NotesEffect::Output(NotesListOutput::Jumped(items[index as int].id)),
                )
                &&& gone_to.contains(NotesEffect::Close)
                &&& given_up.contains(
                    NotesEffect::Output(NotesListOutput::Deleted(items[index as int].id)),
                )
                &&& !given_up.contains(NotesEffect::Close)
            }
            &&& index >= items.len() ==> gone_to.len() == 0 && given_up.len() == 0
        }),
{
    if index < items.len() {
        let gone_to = notes_effects(items, NotesListInput::Activate(index), mapped);
        let given_up = notes_effects(items, NotesListInput::Delete(index), mapped);
        assert(gone_to[0] is Output);
        assert(gone_to[1] == NotesEffect::Close);
        assert(given_up[0] is Output);
    }
}

/// Rows are listed anew when they change or the browser comes up; the first is
/// selected, or the page for no notes shows. The browser that comes up is put
/// on screen, and a row gets the keyboard.
pub proof fn law_rows_are_listed_anew(
    items: Seq<NotesListItem>,
    new: Vec<NotesListItem>,
    mapped: bool,
)
    ensures
        ({
            let shown = notes_effects(items, NotesListInput::Show, mapped);
            let updated = notes_effects(items, NotesListInput::Update(new), mapped);
            &&& lists_anew(shown, items.len())
            &&& lists_anew(updated, new@.len())
            &&& shown.contains(NotesEffect::Present)
            &&& shown.contains(NotesEffect::FocusRows)
            &&& updated.contains(NotesEffect::FocusRows) <==> mapped
            &&& !updated.contains(NotesEffect::Present)
            &&& items_after(items, NotesListInput::Update(new)) == new@
            &&& items_after(items, NotesListInput::Show) == items
        }),
{
    let shown = notes_effects(items, NotesListInput::Show, mapped);
    let updated = notes_effects(items, NotesListInput::Update(new), mapped);
    let n = rebuilt(items.len()).len() as int;
    let k = rebuilt(new@.len()).len() as int;
    assert(shown[0] == NotesEffect::Rebuild);
    assert(shown[1] is ShowPage);
    assert(shown.contains(shown[1]));
    assert(items.len() > 0 ==> shown[2] == NotesEffect::Select(0));
    assert(shown[n] == NotesEffect::Present);
    assert(shown[n + 1] == NotesEffect::FocusRows);
    assert(updated[0] == NotesEffect::Rebuild);
    assert(updated[1] is ShowPage);
    assert(updated.contains(updated[1]));
    assert(new@.len() > 0 ==> updated[2] == NotesEffect::Select(0));
    if mapped {
        assert(updated[k] == NotesEffect::FocusRows);
    }
}

/// Whether `effects` list `count` rows anew.
pub open spec fn lists_anew(effects: Seq<NotesEffect>, count: nat) -> bool {
    &&& effects.contains(NotesEffect::Rebuild)
    &&& count == 0 ==> effects.contains(NotesEffect::ShowPage(NotesPage::Empty))
    &&& count > 0 ==> effects.contains(NotesEffect::ShowPage(NotesPage::List))
        && effects.contains(NotesEffect::Select(0))
}

/// A move of the selection goes as many rows on as was asked for, and stops at
/// the first and the last row. Without a selection it starts at the end that it
/// moves away from.
pub proof fn law_selection_moves_by_rows(row: i32, count: int, delta: int)
    requires
        0 <= row < count,
    ensures
        0 <= row + delta < count ==> moved_row(Some(row), count, delta) == Some(row + delta),
        row + delta < 0 ==> moved_row(Some(row), count, delta) == Some(0int),
        row + delta >= count ==> moved_row(Some(row), count, delta) == Some(count - 1),
        delta > 0 ==> moved_row(None, count, delta) == Some(0int),
        delta <= 0 ==> moved_row(None, count, delta) == Some(count - 1),
        moved_row(Some(row), 0, delta) is None,
{
}

/// The keys of the browser: Control with `n` goes down and with `p` up. Without
/// modifiers, Escape closes, and Return and Enter go to the selected note;
/// Delete removes it. All others pass.
pub proof fn law_browser_keys(key: Key, modifiers: ModifierType, row: i32)
    requires
        row >= 0,
    ensures
        ({
            let action = notes_key_action(key, modifiers, Some(row));
            let control = modifiers.bits & 4 == 4;
            let plain = modifiers.bits == 0;
            &&& control && key.value == 0x6e <==> action == NotesKey::Move(1)
            &&& control && key.value == 0x70 <==> action == NotesKey::Move((-1) as i32)
            &&& !control && plain && key.value == 0xff1b <==> action == NotesKey::Close
            &&& !control && plain && (key.value == 0xff0d || key.value == 0xff8d) <==> action
                == NotesKey::Activate(row as usize)
            &&& !control && key.value == 0xffff <==> action == NotesKey::Delete(row as usize)
            &&& notes_key_action(key, modifiers, None) == (if action is Activate
                || action is Delete {
                NotesKey::Pass
            } else {
                action
            })
        }),
{
}

} // verus!
