use yespanda::double::Double;
use yespanda::keys::{Key, ModifierType};
use yespanda::notes::{Note, Notes};
use yespanda::notes_dialog::{
    focus_row, move_note_selection, notes_key, NotesEffect, NotesKey, NotesList, NotesListInput,
    NotesListItem, NotesListOutput, NotesPage,
};
use yespanda::paths::FilePath;

fn d(value: f64) -> Double {
    Double { bits: value.to_bits() }
}

fn add(notes: &mut Notes, doc: &FilePath, page: usize, y: f64, text: &str) -> u64 {
    notes.add(doc, page, d(y), "2024-05-01 10:00".to_string(), text.to_string())
}

#[test]
fn add_filter_remove_roundtrip() {
    let mut notes = Notes::default();
    let book = FilePath::new("/tmp/opencode/real.pdf");
    let other = FilePath::new("/tmp/opencode/test.pdf");

    let a = add(&mut notes, &book, 10, 0.5, "middle of page 10");
    let _b = add(&mut notes, &other, 1, 0.0, "other doc");
    let c = add(&mut notes, &book, 3, 0.9, "near bottom");

    // Reading order for one document only.
    let listed = notes.for_doc(&book);
    assert_eq!(listed.len(), 2);
    assert_eq!(listed[0].page, 3);
    assert_eq!(listed[1].id, a);

    assert!(notes.update_text(a, "revised".into()));
    assert_eq!(notes.get(a).unwrap().text, "revised");

    assert!(notes.remove(c));
    assert!(!notes.remove(c));
    assert_eq!(notes.for_doc(&book).len(), 1);
}

#[test]
fn notes_are_listed_from_top_to_bottom() {
    let mut notes = Notes::default();
    let book = FilePath::new("/b.pdf");
    let low = add(&mut notes, &book, 2, 0.9, "low");
    let top = add(&mut notes, &book, 2, 0.1, "top");
    let tie = add(&mut notes, &book, 2, 0.1, "tie");
    let first = add(&mut notes, &book, 1, 1.0, "first");
    let order: Vec<u64> = notes.for_doc(&book).iter().map(|n| n.id).collect();
    assert_eq!(order, vec![first, top, tie, low]);
}

#[test]
fn ids_are_given_once() {
    let mut notes = Notes::default();
    let book = FilePath::new("/b.pdf");
    let a = add(&mut notes, &book, 1, 0.0, "a");
    assert!(notes.remove(a));
    let b = add(&mut notes, &book, 1, 0.0, "b");
    assert_ne!(a, b);
    assert!(notes.get(a).is_none());
    assert_eq!(notes.get(b).unwrap().created, "2024-05-01 10:00");
    assert!(!notes.update_text(a, "x".to_string()));
    assert_eq!(notes.next_id, 2);
}

#[test]
fn removing_takes_every_note_of_an_id() {
    let note = |id: u64, text: &str| Note {
        id,
        doc: FilePath::new("/b.pdf"),
        page: 1,
        y_frac: d(0.0),
        created: String::new(),
        text: text.to_string(),
    };
    let mut notes = Notes::load(Some(Notes {
        notes: vec![note(1, "a"), note(2, "b"), note(1, "c")],
        next_id: 3,
    }));
    let copy = notes.clone();
    assert!(notes.update_text(1, "first".to_string()));
    assert_eq!(copy.notes[0].text, "a");
    assert_eq!(copy.next_id, 3);
    assert_eq!(notes.notes[2].text, "c");
    assert!(notes.remove(1));
    assert_eq!(notes.notes.len(), 1);
    assert_eq!(notes.notes[0].text, "b");
    assert_eq!(Notes::load(None).notes.len(), 0);
    assert_eq!(Notes::path(Some(FilePath::new("/c")), None).text(), "/c/yespanda/notes.toml");
}

fn item(id: u64, subtitle: &str) -> NotesListItem {
    NotesListItem { id, title: format!("note {id}"), subtitle: subtitle.to_string() }
}

#[test]
fn browser_lists_and_answers() {
    let mut list = NotesList::new();
    assert_eq!(
        list.update(NotesListInput::Show, false),
        vec![
            NotesEffect::Rebuild,
            NotesEffect::ShowPage(NotesPage::Empty),
            NotesEffect::Present,
            NotesEffect::FocusRows,
        ]
    );
    assert_eq!(
        list.update(NotesListInput::Update(vec![item(7, ""), item(9, "p. 3")]), true),
        vec![
            NotesEffect::Rebuild,
            NotesEffect::ShowPage(NotesPage::List),
            NotesEffect::Select(0),
            NotesEffect::FocusRows,
        ]
    );
    let rows = list.rows();
    assert_eq!(rows[0].title, "note 7");
    assert_eq!(rows[0].subtitle, None);
    assert_eq!(rows[1].subtitle, Some("p. 3".to_string()));
    assert_eq!(
        list.update(NotesListInput::Activate(1), true),
        vec![NotesEffect::Output(NotesListOutput::Jumped(9)), NotesEffect::Close]
    );
    assert_eq!(
        list.update(NotesListInput::Delete(0), true),
        vec![NotesEffect::Output(NotesListOutput::Deleted(7))]
    );
    assert_eq!(list.update(NotesListInput::Delete(2), true), vec![]);
    assert_eq!(list.items[0].clone().id, 7);
}

#[test]
fn keys_of_the_browser() {
    let none = ModifierType { bits: 0 };
    let shift = ModifierType { bits: 1 };
    let control = ModifierType { bits: 4 };
    let key = |value: u32| Key { value };
    assert_eq!(notes_key(key(0x6e), control, None), NotesKey::Move(1));
    assert_eq!(notes_key(key(0x70), control, None), NotesKey::Move(-1));
    assert_eq!(notes_key(key(0xff1b), control, None), NotesKey::Pass);
    assert_eq!(notes_key(key(0xff1b), none, None), NotesKey::Close);
    assert_eq!(notes_key(key(0xff1b), shift, None), NotesKey::Pass);
    assert_eq!(notes_key(key(0xff0d), none, Some(2)), NotesKey::Activate(2));
    assert_eq!(notes_key(key(0xff8d), none, Some(-1)), NotesKey::Activate(0));
    assert_eq!(notes_key(key(0xff0d), shift, Some(2)), NotesKey::Pass);
    assert_eq!(notes_key(key(0xff0d), none, None), NotesKey::Pass);
    assert_eq!(notes_key(key(0xffff), shift, Some(1)), NotesKey::Delete(1));
    assert_eq!(notes_key(key(0xffff), none, None), NotesKey::Pass);
}

#[test]
fn selection_stays_in_the_browser() {
    assert_eq!(move_note_selection(None, 0, 1), None);
    assert_eq!(move_note_selection(None, 3, 1), Some(0));
    assert_eq!(move_note_selection(None, 3, -1), Some(2));
    assert_eq!(move_note_selection(Some(2), 3, 1), Some(2));
    assert_eq!(move_note_selection(Some(0), 3, -1), Some(0));
    assert_eq!(move_note_selection(Some(1), 3, i32::MAX), Some(2));
    assert_eq!(focus_row(false, Some(1), 3), None);
    assert_eq!(focus_row(true, Some(1), 3), Some(1));
    assert_eq!(focus_row(true, None, 3), Some(0));
    assert_eq!(focus_row(true, None, 0), None);
}
