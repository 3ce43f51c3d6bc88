//! Margin notes, each anchored to a place in a document.
use vstd::prelude::*;
use vstd::utf8::encode_utf8;

use crate::config::{settings_dir, Config};
use crate::double::Double;
use crate::history::same_path;
use crate::paths::{joined, FilePath};

verus! {

/// A margin note. `page` counts from 1; `y_frac` is the place of the anchor on
/// the page (0 is the top, 1 the bottom), whatever the zoom.
#[derive(Debug)]
pub struct Note {
    pub id: u64,
    pub doc: FilePath,
    pub page: usize,
    pub y_frac: Double,
    pub created: String,
    pub text: String,
}

/// A note, with its path as bytes and its texts as characters.
pub struct NoteView {
    pub id: u64,
    pub doc: Seq<u8>,
    pub page: usize,
    pub y_frac: Double,
    pub created: Seq<char>,
    pub text: Seq<char>,
}

impl View for Note {
    type V = NoteView;

    open spec fn view(&self) -> NoteView {
        NoteView {
            id: self.id,
            doc: self.doc@,
            page: self.page,
            y_frac: self.y_frac,
            created: self.created@,
            text: self.text@,
        }
    }
}

impl Clone for Note {
    fn clone(&self) -> (r: Note)
        ensures
            r@ == self@,
    {
        Note {
            id: self.id,
            doc: self.doc.clone(),
            page: self.page,
            y_frac: self.y_frac,
            created: self.created.clone(),
            text: self.text.clone(),
        }
    }
}

/// All notes, of every document.
#[derive(Debug)]
pub struct Notes {
    pub notes: Vec<Note>,
    pub next_id: u64,
}

/// The notes, as views.
pub open spec fn note_views(notes: Seq<Note>) -> Seq<NoteView> {
    notes.map_values(|n: Note| n@)
}

impl View for Notes {
    type V = Seq<NoteView>;

    open spec fn view(&self) -> Seq<NoteView> {
        note_views(self.notes@)
    }
}

impl Clone for Notes {
    fn clone(&self) -> (r: Notes)
        ensures
            r@ == self@,
            r.next_id == self.next_id,
    {
        let mut notes: Vec<Note> = Vec::new();
        let mut i: usize = 0;
        while i < self.notes.len()
            invariant
                i <= self.notes@.len(),
                notes@.len() == i,
                forall|j: int| 0 <= j < i ==> (#[trigger] notes@[j])@ == self.notes@[j]@,
            decreases self.notes@.len() - i,
        {
            notes.push(self.notes[i].clone());
            i += 1;
        }
        assert(note_views(notes@) =~= self@);
        Notes { notes, next_id: self.next_id }
    }
}

/// The place of the first note with this id; past the end if there is none.
pub open spec fn note_place(notes: Seq<NoteView>, id: u64) -> int
    decreases notes.len(),
{
    if notes.len() == 0 || notes[0].id == id {
        0
    } else {
        1 + note_place(notes.skip(1), id)
    }
}

proof fn lemma_note_place(notes: Seq<NoteView>, id: u64)
    ensures
        0 <= note_place(notes, id) <= notes.len(),
        note_place(notes, id) < notes.len() ==> notes[note_place(notes, id)].id == id,
        forall|i: int| 0 <= i < note_place(notes, id) ==> (#[trigger] notes[i]).id != id,
    decreases notes.len(),
{
    if notes.len() > 0 && notes[0].id != id {
        lemma_note_place(notes.skip(1), id);
        assert forall|i: int| 0 <= i < note_place(notes, id) implies (#[trigger] notes[i]).id
            != id by {
            if i > 0 {
                assert(notes[i] == notes.skip(1)[i - 1]);
            }
        }
    }
}

/// The notes without those of this id.
pub open spec fn without(notes: Seq<NoteView>, id: u64) -> Seq<NoteView>
    decreases notes.len(),
{
    if notes.len() == 0 {
        Seq::empty()
    } else if notes.last().id == id {
        without(notes.drop_last(), id)
    } else {
        without(notes.drop_last(), id).push(notes.last())
    }
}

/// The notes of one document.
pub open spec fn of_document(notes: Seq<NoteView>, doc: Seq<u8>) -> Seq<NoteView>
    decreases notes.len(),
{
    if notes.len() == 0 {
        Seq::empty()
    } else if same_path(notes.last().doc, doc) {
        of_document(notes.drop_last(), doc).push(notes.last())
    } else {
        of_document(notes.drop_last(), doc)
    }
}

/// Whether `a` is read before `b`: by page, from top to bottom, and by id
/// where the place is the same or unknown.
pub open spec fn read_before(a: NoteView, b: NoteView) -> bool {
    ||| a.page < b.page
    ||| a.page == b.page && (a.y_frac.lt(b.y_frac) || (!b.y_frac.lt(a.y_frac) && a.id < b.id))
}

/// Where `note` goes among `notes` in reading order: before the first that is
/// read after it.
pub open spec fn reading_place(notes: Seq<NoteView>, note: NoteView) -> int
    decreases notes.len(),
{
    if notes.len() == 0 || read_before(note, notes[0]) {
        0
    } else {
        1 + reading_place(notes.skip(1), note)
    }
}

/// The notes in reading order; those that nothing sets apart keep their order.
pub open spec fn in_reading_order(notes: Seq<NoteView>) -> Seq<NoteView>
    decreases notes.len(),
{
    if notes.len() == 0 {
        Seq::empty()
    } else {
        let front = in_reading_order(notes.drop_last());
        front.insert(reading_place(front, notes.last()), notes.last())
    }
}

proof fn lemma_reading_place(notes: Seq<NoteView>, note: NoteView)
    ensures
        0 <= reading_place(notes, note) <= notes.len(),
        forall|i: int| 0 <= i < reading_place(notes, note) ==> !read_before(note, #[trigger] notes[i]),
        reading_place(notes, note) < notes.len() ==> read_before(
            note,
            notes[reading_place(notes, note)],
        ),
    decreases notes.len(),
{
    if notes.len() > 0 && !read_before(note, notes[0]) {
        lemma_reading_place(notes.skip(1), note);
        assert forall|i: int| 0 <= i < reading_place(notes, note) implies !read_before(
            note,
            #[trigger] notes[i],
        ) by {
            if i > 0 {
                assert(notes[i] == notes.skip(1)[i - 1]);
            }
        }
    }
}

fn is_read_before(a: &Note, b: &Note) -> (r: bool)
    ensures
        r == read_before(a@, b@),
{
    a.page < b.page || (a.page == b.page && (a.y_frac.before(b.y_frac) || (!b.y_frac.before(
        a.y_frac,
    ) && a.id < b.id)))
}

/// The notes behind references.
pub open spec fn ref_views(notes: Seq<&Note>) -> Seq<NoteView> {
    notes.map_values(|n: &Note| n@)
}

/// Where `note` goes among `notes` in reading order.
fn reading_place_of(notes: &Vec<&Note>, note: &Note) -> (r: usize)
    ensures
        r == reading_place(ref_views(notes@), note@),
        r <= notes@.len(),
{
    let mut i: usize = 0;
    let ghost all = ref_views(notes@);
    assert(all.skip(0) =~= all);
    while i < notes.len()
        invariant
            i <= notes@.len(),
            all == ref_views(notes@),
            reading_place(all, note@) == i + reading_place(all.skip(i as int), note@),
        decreases notes@.len() - i,
    {
        assert(all.skip(i as int)[0] == notes@[i as int]@);
        assert(all.skip(i as int).skip(1) =~= all.skip(i + 1));
        if is_read_before(note, notes[i]) {
            return i;
        }
        i += 1;
    }
    i
}

impl Default for Notes {
    fn default() -> (r: Notes)
        ensures
            r@ == Seq::<NoteView>::empty(),
            r.next_id == 0,
    {
        let r = Notes { notes: Vec::new(), next_id: 0 };
        assert(r@ =~= Seq::empty());
        r
    }
}

impl Notes {
    /// The path of the file for the notes.
    pub fn path(xdg: Option<FilePath>, home: Option<FilePath>) -> (r: FilePath)
        ensures
            r@ == joined(settings_dir(xdg, home), encode_utf8("notes.toml"@)),
    {
        Config::config_dir(xdg, home).join("notes.toml")
    }

    /// The notes of a file. A file that is missing or malformed is `None` and
    /// gives no notes.
    pub fn load(parsed: Option<Notes>) -> (r: Notes)
        ensures
            match parsed {
                Some(notes) => r == notes,
                None => r@ == Seq::<NoteView>::empty() && r.next_id == 0,
            },
    {
        match parsed {
            Some(notes) => notes,
            None => Notes::default(),
        }
    }

    /// Append a note and return its id. `created` is the time of day.
    pub fn add(
        &mut self,
        doc: &FilePath,
        page: usize,
        y_frac: Double,
        created: String,
        text: String,
    ) -> (r: u64)
        requires
            old(self).next_id < u64::MAX,
        ensures
            r == old(self).next_id,
            final(self).next_id == old(self).next_id + 1,
            final(self)@ == old(self)@.push(
                NoteView {
                    id: r,
                    doc: doc@,
                    page,
                    y_frac,
                    created: created@,
                    text: text@,
                },
            ),
    {
        let id: u64 = self.next_id;
        self.next_id = self.next_id + 1;
        let ghost before = self.notes@;
        let note = Note { id, doc: doc.clone(), page, y_frac, created, text };
        let ghost added = note@;
        self.notes.push(note);
        assert(self@ =~= note_views(before).push(added));
        id
    }

    fn find(&self, id: u64) -> (r: Option<usize>)
        ensures
            match r {
                Some(i) => i == note_place(self@, id) && i < self@.len(),
                None => note_place(self@, id) >= self@.len(),
            },
    {
        let mut i: usize = 0;
        assert(self@.skip(0) =~= self@);
        while i < self.notes.len()
            invariant
                i <= self.notes@.len(),
                note_place(self@, id) == i + note_place(self@.skip(i as int), id),
            decreases self.notes@.len() - i,
        {
            assert(self@.skip(i as int)[0] == self.notes@[i as int]@);
            assert(self@.skip(i as int).skip(1) =~= self@.skip(i + 1));
            if self.notes[i].id == id {
                return Some(i);
            }
            i += 1;
        }
        None
    }

    /// Replace the text of a note; false if there is none with this id.
    pub fn update_text(&mut self, id: u64, text: String) -> (r: bool)
        ensures
            r == (note_place(old(self)@, id) < old(self)@.len()),
            final(self).next_id == old(self).next_id,
            final(self)@ == (if r {
                let i = note_place(old(self)@, id);
                old(self)@.update(i, NoteView { text: text@, ..old(self)@[i] })
            } else {
                old(self)@
            }),
    {
        match self.find(id) {
            Some(i) => {
                let ghost before = self@;
                let ghost words = text@;
                self.notes[i].text = text;
                assert(self@ =~= before.update(
                    i as int,
                    NoteView { text: words, ..before[i as int] },
                ));
                true
            },
            None => false,
        }
    }

    /// Drop the notes with this id; true when something was removed.
    pub fn remove(&mut self, id: u64) -> (r: bool)
        ensures
            r == (note_place(old(self)@, id) < old(self)@.len()),
            final(self).next_id == old(self).next_id,
            final(self)@ == without(old(self)@, id),
    {
        let found = self.find(id).is_some();
        let ghost before = self@;
        let ghost mut seen: int = 0;
        let mut i: usize = 0;
        assert(before.take(0) =~= Seq::empty());
        assert(before.skip(0) =~= before);
        assert(self@.take(0) =~= Seq::empty());
        while i < self.notes.len()
            invariant
                i <= self.notes@.len(),
                0 <= seen <= before.len(),
                self.next_id == old(self).next_id,
                self@.take(i as int) == without(before.take(seen), id),
                self@.skip(i as int) == before.skip(seen),
            decreases self.notes@.len() - i,
        {
            let ghost held = self@;
            assert(held.skip(i as int).len() == before.skip(seen).len());
            assert(held[i as int] == held.skip(i as int)[0]);
            assert(held[i as int] == before[seen]);
            assert(before.take(seen + 1).drop_last() =~= before.take(seen));
            assert(before.skip(seen + 1) =~= held.skip(i + 1)) by {
                assert(before.skip(seen + 1) =~= before.skip(seen).skip(1));
                assert(held.skip(i + 1) =~= held.skip(i as int).skip(1));
            }
            if self.notes[i].id == id {
                self.notes.remove(i);
                assert(self@ =~= held.remove(i as int));
                assert(self@.take(i as int) =~= held.take(i as int));
                assert(self@.skip(i as int) =~= held.skip(i + 1));
            } else {
                assert(held.take(i + 1) =~= held.take(i as int).push(held[i as int]));
                i += 1;
            }
            proof {
                seen = seen + 1;
            }
        }
        assert(self@.skip(i as int).len() == before.skip(seen).len());
        assert(before.take(seen) =~= before);
        assert(self@.take(i as int) =~= self@);
        found
    }

    /// The note with this id.
    pub fn get(&self, id: u64) -> (r: Option<&Note>)
        ensures
            match r {
                Some(note) => note_place(self@, id) < self@.len() && note@ == self@[note_place(
                    self@,
                    id,
                )],
                None => note_place(self@, id) >= self@.len(),
            },
    {
        match self.find(id) {
            Some(i) => Some(&self.notes[i]),
            None => None,
        }
    }

    /// The notes of one document in reading order: by page, then from top to
    /// bottom.
    pub fn for_doc(&self, doc: &FilePath) -> (r: Vec<&Note>)
        ensures
            ref_views(r@) == in_reading_order(of_document(self@, doc@)),
    {
        let mut out: Vec<&Note> = Vec::new();
        let mut i: usize = 0;
        assert(self@.take(0) =~= Seq::empty());
        assert(ref_views(out@) =~= Seq::empty());
        while i < self.notes.len()
            invariant
                i <= self.notes@.len(),
                ref_views(out@) == in_reading_order(of_document(self@.take(i as int), doc@)),
            decreases self.notes@.len() - i,
        {
            let note = &self.notes[i];
            let ghost front = of_document(self@.take(i as int), doc@);
            assert(self@.take(i + 1).drop_last() =~= self@.take(i as int));
            assert(self@.take(i + 1).last() == note@);
            if note.doc.same(doc) {
                let ghost before = ref_views(out@);
                let place: usize = reading_place_of(&out, note);
                out.insert(place, note);
                assert(front.push(note@).drop_last() =~= front);
                assert(ref_views(out@) =~= before.insert(place as int, note@));
            }
            i += 1;
        }
        assert(self@.take(i as int) =~= self@);
        out
    }
}

/// Every id is given to one note at most, and `next_id` to none.
pub open spec fn ids_are_fresh(notes: Seq<NoteView>, next_id: u64) -> bool {
    &&& forall|i: int| 0 <= i < notes.len() ==> (#[trigger] notes[i]).id < next_id
    &&& forall|i: int, j: int| 0 <= i < j < notes.len() ==> notes[i].id != notes[j].id
}

/// Adding a note under the next id keeps ids apart, and the note is found
/// again under its id, as are all others under theirs.
pub proof fn law_added_note_is_found(notes: Seq<NoteView>, next_id: u64, note: NoteView, other: u64)
    requires
        ids_are_fresh(notes, next_id),
        next_id < u64::MAX,
        note.id == next_id,
        other != next_id,
    ensures
        ids_are_fresh(notes.push(note), (next_id + 1) as u64),
        note_place(notes.push(note), next_id) == notes.len(),
        note_place(notes, other) < notes.len() ==> note_place(notes.push(note), other)
            == note_place(notes, other),
        note_place(notes, other) >= notes.len() ==> note_place(notes.push(note), other)
            == notes.len() + 1,
{
    let more = notes.push(note);
    lemma_note_place(notes, other);
    lemma_note_place(more, next_id);
    lemma_note_place(more, other);
    assert forall|i: int| 0 <= i < notes.len() implies (#[trigger] more[i]) == notes[i] by {}
    let p = note_place(more, next_id);
    let q = note_place(more, other);
    if p < notes.len() {
        assert(more[p] == notes[p]);
    }
    assert(more[notes.len() as int].id == next_id);
    if note_place(notes, other) < notes.len() {
        assert(more[note_place(notes, other)].id == other);
        if q < note_place(notes, other) {
            assert(more[q] == notes[q]);
        }
    } else if q <= notes.len() {
        assert(more[q].id == other);
        if q < notes.len() {
            assert(more[q] == notes[q]);
        }
    }
}

/// A removed note is gone: nothing is left under its id, and ids stay apart.
pub proof fn law_removed_note_is_gone(notes: Seq<NoteView>, next_id: u64, id: u64)
    ensures
        note_place(without(notes, id), id) == without(notes, id).len(),
        ids_are_fresh(notes, next_id) ==> ids_are_fresh(without(notes, id), next_id),
        without(without(notes, id), id) == without(notes, id),
{
    lemma_without(notes, id);
    lemma_note_place(without(notes, id), id);
    lemma_without_absent(without(notes, id), id);
    if ids_are_fresh(notes, next_id) {
        lemma_without_fresh(notes, next_id, id);
    }
}

/// Removing one note leaves what is found under every other id.
pub proof fn law_remove_keeps_the_others(notes: Seq<NoteView>, id: u64, other: u64)
    requires
        other != id,
    ensures
        note_place(notes, other) < notes.len() <==> note_place(without(notes, id), other)
            < without(notes, id).len(),
        note_place(notes, other) < notes.len() ==> without(notes, id)[note_place(
            without(notes, id),
            other,
        )] == notes[note_place(notes, other)],
    decreases notes.len(),
{
    lemma_note_place(notes, other);
    lemma_note_place(without(notes, id), other);
    if notes.len() > 0 {
        let front = notes.drop_last();
        law_remove_keeps_the_others(front, id, other);
        lemma_note_place(front, other);
        lemma_note_place(without(front, id), other);
        assert(notes =~= front.push(notes.last()));
        lemma_place_of_push(front, notes.last(), other);
        lemma_place_of_push(without(front, id), notes.last(), other);
    }
}

proof fn lemma_place_of_push(notes: Seq<NoteView>, note: NoteView, id: u64)
    ensures
        note_place(notes, id) < notes.len() ==> note_place(notes.push(note), id) == note_place(
            notes,
            id,
        ),
        note_place(notes, id) >= notes.len() ==> note_place(notes.push(note), id) == (if note.id
            == id {
            notes.len()
        } else {
            notes.len() + 1
        }),
    decreases notes.len(),
{
    let more = notes.push(note);
    if notes.len() > 0 && notes[0].id != id {
        lemma_place_of_push(notes.skip(1), note, id);
        assert(more.skip(1) =~= notes.skip(1).push(note));
    } else if notes.len() == 0 {
        assert(more.skip(1) =~= Seq::empty());
        assert(note_place(more.skip(1), id) == 0);
    }
}

proof fn lemma_without(notes: Seq<NoteView>, id: u64)
    ensures
        forall|i: int| 0 <= i < without(notes, id).len() ==> (#[trigger] without(notes, id)[i]).id
            != id,
        forall|i: int|
            0 <= i < without(notes, id).len() ==> notes.contains(#[trigger] without(notes, id)[i]),
    decreases notes.len(),
{
    if notes.len() > 0 {
        let front = notes.drop_last();
        lemma_without(front, id);
        assert forall|i: int| 0 <= i < without(notes, id).len() implies notes.contains(
            #[trigger] without(notes, id)[i],
        ) by {
            let kept = without(notes, id)[i];
            if i < without(front, id).len() {
                assert(kept == without(front, id)[i]);
                let k = choose|k: int| 0 <= k < front.len() && front[k] == kept;
                assert(notes[k] == kept);
            } else {
                assert(notes[notes.len() - 1] == kept);
            }
        }
    }
}

proof fn lemma_without_absent(notes: Seq<NoteView>, id: u64)
    requires
        forall|i: int| 0 <= i < notes.len() ==> (#[trigger] notes[i]).id != id,
    ensures
        without(notes, id) == notes,
    decreases notes.len(),
{
    if notes.len() > 0 {
        lemma_without_absent(notes.drop_last(), id);
        assert(notes.last() == notes[notes.len() - 1]);
        assert(notes =~= notes.drop_last().push(notes.last()));
    }
}

proof fn lemma_without_fresh(notes: Seq<NoteView>, next_id: u64, id: u64)
    requires
        ids_are_fresh(notes, next_id),
    ensures
        ids_are_fresh(without(notes, id), next_id),
    decreases notes.len(),
{
    if notes.len() > 0 {
        let front = notes.drop_last();
        lemma_without_fresh(front, next_id, id);
        lemma_without(front, id);
        let kept = without(front, id);
        assert forall|i: int| 0 <= i < kept.len() implies (#[trigger] kept[i]).id
            != notes.last().id by {
            let k = choose|k: int| 0 <= k < front.len() && front[k] == kept[i];
            assert(notes[k].id != notes[notes.len() - 1].id);
        }
    }
}

/// A note with a new text is found under its id with that text and all else
/// as it was.
pub proof fn law_updated_text_is_found(notes: Seq<NoteView>, id: u64, text: Seq<char>)
    requires
        note_place(notes, id) < notes.len(),
    ensures
        ({
            let i = note_place(notes, id);
            let after = notes.update(i, (NoteView { text, ..notes[i] }));
            note_place(after, id) == i && after[i].text == text
        }),
{
    let i = note_place(notes, id);
    lemma_note_place(notes, id);
    let after = notes.update(i, (NoteView { text, ..notes[i] }));
    lemma_note_place(after, id);
    let k = note_place(after, id);
    assert(after[i].id == id);
    if k < i {
        assert(after[k] == notes[k]);
    }
}

/// The notes listed for a document are its notes and no others, each as often
/// as it was added.
pub proof fn law_reading_order_lists_the_same_notes(notes: Seq<NoteView>)
    ensures
        in_reading_order(notes).to_multiset() == notes.to_multiset(),
        in_reading_order(notes).len() == notes.len(),
    decreases notes.len(),
{
    broadcast use vstd::seq_lib::group_to_multiset_ensures;

    if notes.len() == 0 {
        assert(notes =~= Seq::empty());
    } else {
        let front = in_reading_order(notes.drop_last());
        law_reading_order_lists_the_same_notes(notes.drop_last());
        lemma_reading_place(front, notes.last());
        vstd::seq_lib::to_multiset_insert(front, reading_place(front, notes.last()), notes.last());
        assert(notes =~= notes.drop_last().push(notes.last()));
    }
}

/// Notes are listed by page, from top to bottom, wherever all places are
/// known.
pub proof fn law_reading_order_is_ordered(notes: Seq<NoteView>)
    requires
        forall|i: int| 0 <= i < notes.len() ==> !(#[trigger] notes[i]).y_frac.is_nan(),
    ensures
        forall|i: int, j: int|
            0 <= i < j < in_reading_order(notes).len() ==> !read_before(
                #[trigger] in_reading_order(notes)[j],
                #[trigger] in_reading_order(notes)[i],
            ),
        forall|i: int|
            0 <= i < in_reading_order(notes).len() ==> !(#[trigger] in_reading_order(
                notes,
            )[i]).y_frac.is_nan(),
    decreases notes.len(),
{
    if notes.len() > 0 {
        let front = in_reading_order(notes.drop_last());
        let note = notes.last();
        assert forall|i: int| 0 <= i < notes.drop_last().len() implies !(
        #[trigger] notes.drop_last()[i]).y_frac.is_nan() by {
            assert(notes.drop_last()[i] == notes[i]);
        }
        law_reading_order_is_ordered(notes.drop_last());
        lemma_reading_place(front, note);
        let p = reading_place(front, note);
        let all = front.insert(p, note);
        assert(note == notes[notes.len() - 1]);
        assert forall|i: int, j: int| 0 <= i < j < all.len() implies !read_before(
            #[trigger] all[j],
            #[trigger] all[i],
        ) by {
            if i < p && j > p {
                assert(all[i] == front[i] && all[j] == front[j - 1]);
            } else if j < p {
                assert(all[i] == front[i] && all[j] == front[j]);
            } else if i > p {
                assert(all[i] == front[i - 1] && all[j] == front[j - 1]);
            } else if i == p {
                assert(all[j] == front[j - 1]);
                assert(read_before(note, front[p]));
                if j - 1 > p {
                    assert(!read_before(front[j - 1], front[p]));
                }
            } else {
                assert(all[i] == front[i]);
            }
        }
    }
}

/// The notes listed for a document are those anchored in it: every one of
/// them, and none of another document.
pub proof fn law_listed_notes_belong_to_the_document(
    notes: Seq<NoteView>,
    doc: Seq<u8>,
    note: NoteView,
)
    ensures
        of_document(notes, doc).contains(note) <==> notes.contains(note) && same_path(
            note.doc,
            doc,
        ),
    decreases notes.len(),
{
    if notes.len() > 0 {
        let front = notes.drop_last();
        let kept = of_document(front, doc);
        law_listed_notes_belong_to_the_document(front, doc, note);
        if front.contains(note) {
            let k = choose|k: int| 0 <= k < front.len() && front[k] == note;
            assert(notes[k] == note);
        }
        if kept.contains(note) {
            let k = choose|k: int| 0 <= k < kept.len() && kept[k] == note;
            assert(kept.push(notes.last())[k] == note);
        }
        if notes.last() == note {
            assert(notes[notes.len() - 1] == note);
            assert(kept.push(note)[kept.len() as int] == note);
        }
        if notes.contains(note) && note != notes.last() {
            let k = choose|k: int| 0 <= k < notes.len() && notes[k] == note;
            assert(front[k] == note);
        }
        if of_document(notes, doc).contains(note) && note != notes.last() {
            let all = of_document(notes, doc);
            let k = choose|k: int| 0 <= k < all.len() && all[k] == note;
            assert(kept[k] == note);
        }
    }
}

/// A note is found under its id: the first one with it, and none only if there
/// is none.
pub proof fn law_note_is_found_by_its_id(notes: Seq<NoteView>, id: u64)
    ensures
        ({
            let place = note_place(notes, id);
            &&& 0 <= place <= notes.len()
            &&& place < notes.len() ==> notes[place].id == id
            &&& forall|i: int| 0 <= i < place ==> (#[trigger] notes[i]).id != id
        }),
{
    lemma_note_place(notes, id);
}

/// Notes are listed by page; on one page from top to bottom; and at one place
/// in the order in which they were added.
pub proof fn law_notes_are_listed_from_top_to_bottom(notes: Seq<NoteView>, i: int, j: int)
    requires
        forall|k: int| 0 <= k < notes.len() ==> !(#[trigger] notes[k]).y_frac.is_nan(),
        0 <= i < j < in_reading_order(notes).len(),
    ensures
        ({
            let a = in_reading_order(notes)[i];
            let b = in_reading_order(notes)[j];
            &&& a.page <= b.page
            &&& a.page == b.page ==> a.y_frac.le(b.y_frac)
            &&& a.page == b.page && a.y_frac.same(b.y_frac) ==> a.id <= b.id
        }),
{
    law_reading_order_is_ordered(notes);
    assert(!read_before(in_reading_order(notes)[j], in_reading_order(notes)[i]));
    assert(!in_reading_order(notes)[i].y_frac.is_nan());
    assert(!in_reading_order(notes)[j].y_frac.is_nan());
}

/// How many notes have another id.
pub open spec fn other_count(notes: Seq<NoteView>, id: u64) -> nat
    decreases notes.len(),
{
    if notes.len() == 0 {
        0
    } else {
        other_count(notes.drop_last(), id) + (if notes.last().id == id {
            0nat
        } else {
            1
        })
    }
}

/// Removing a note leaves all others as they are and in their order.
pub proof fn law_removing_leaves_the_others_in_order(notes: Seq<NoteView>, id: u64, i: int)
    ensures
        without(notes, id).len() == other_count(notes, id),
        0 <= i < notes.len() && notes[i].id != id ==> {
            &&& other_count(notes.take(i), id) < without(notes, id).len()
            &&& without(notes, id)[other_count(notes.take(i), id) as int] == notes[i]
        },
    decreases notes.len(),
{
    if notes.len() > 0 {
        let front = notes.drop_last();
        law_removing_leaves_the_others_in_order(front, id, i);
        if 0 <= i < front.len() {
            assert(front[i] == notes[i]);
            assert(front.take(i) =~= notes.take(i));
        } else if i == front.len() {
            assert(notes.take(i) =~= front);
        }
    }
}

/// How many notes are anchored in a document.
pub open spec fn anchored_count(notes: Seq<NoteView>, doc: Seq<u8>) -> nat
    decreases notes.len(),
{
    if notes.len() == 0 {
        0
    } else {
        anchored_count(notes.drop_last(), doc) + (if same_path(notes.last().doc, doc) {
            1nat
        } else {
            0
        })
    }
}

/// Every note of a document is listed for it, as often as it was added.
pub proof fn law_every_note_of_the_document_is_listed(notes: Seq<NoteView>, doc: Seq<u8>)
    ensures
        of_document(notes, doc).len() == anchored_count(notes, doc),
        in_reading_order(of_document(notes, doc)).len() == anchored_count(notes, doc),
    decreases notes.len(),
{
    law_reading_order_lists_the_same_notes(of_document(notes, doc));
    if notes.len() > 0 {
        law_every_note_of_the_document_is_listed(notes.drop_last(), doc);
    }
}

} // verus!
