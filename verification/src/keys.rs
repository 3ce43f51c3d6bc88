//! Keys, modifier masks and the bindings that are spelled with their names.
use vstd::prelude::*;
use vstd::slice::slice_subrange;

use crate::text::{
    ascii_lower, chars_of, is_blank, law_text_without_blanks_is_a_word,
    law_words_are_split_at_blanks, lemma_word_len, lower, lowered, same_text, string_of, texts,
    word_len, words, words_of,
};

verus! {

/// A key, by its GDK key value.
#[derive(Debug, Clone, Copy, PartialEq, Eq, Structural)]
pub struct Key {
    pub value: u32,
}

/// The key value of the space bar.
pub const KEY_SPACE: u32 = 0x20;

/// The key value of the Return key.
pub const KEY_RETURN: u32 = 0xff0d;

/// The key value of the Enter key on the keypad.
pub const KEY_KP_ENTER: u32 = 0xff8d;

/// The key value of the Escape key.
pub const KEY_ESCAPE: u32 = 0xff1b;

/// The key value of the Delete key.
pub const KEY_DELETE: u32 = 0xffff;

/// The key value of the `a` key.
pub const KEY_A: u32 = 0x61;

/// The key value of the `b` key.
pub const KEY_B: u32 = 0x62;

/// The key value of the `e` key.
pub const KEY_E: u32 = 0x65;

/// The key value of the `f` key.
pub const KEY_F: u32 = 0x66;

/// The key value of the `n` key.
pub const KEY_N: u32 = 0x6e;

/// The key value of the `p` key.
pub const KEY_P: u32 = 0x70;

/// The modifier keys that are held, by the bits of their GDK masks.
#[derive(Debug, Clone, Copy, PartialEq, Eq, Structural)]
pub struct ModifierType {
    pub bits: u32,
}

/// The mask of the Shift key.
pub const SHIFT_MASK: u32 = 1;

/// The mask of the Control key.
pub const CONTROL_MASK: u32 = 4;

/// The mask of the Alt key.
pub const ALT_MASK: u32 = 8;

/// The mask of the Super key.
pub const SUPER_MASK: u32 = 0x400_0000;

impl ModifierType {
    /// Whether the Control key is among those that are held.
    pub open spec fn has_control(self) -> bool {
        self.bits & CONTROL_MASK == CONTROL_MASK
    }

    /// Whether the Control key is among those that are held.
    pub fn control(self) -> (r: bool)
        ensures
            r == self.has_control(),
    {
        self.bits & CONTROL_MASK == CONTROL_MASK
    }
}

/// The map that the entries `known` stand for, later ones first.
pub open spec fn name_map(known: Seq<(String, Key)>) -> Map<Seq<char>, Key>
    decreases known.len(),
{
    if known.len() == 0 {
        Map::empty()
    } else {
        name_map(known.drop_last()).insert(known.last().0@, known.last().1)
    }
}

/// The keys that names stand for, as far as they have been looked up.
#[derive(Debug)]
pub struct KeyNames {
    known: Vec<(String, Key)>,
}

impl View for KeyNames {
    type V = Map<Seq<char>, Key>;

    closed spec fn view(&self) -> Map<Seq<char>, Key> {
        name_map(self.known@)
    }
}

/// What `names` has for `name`.
pub open spec fn key_named(names: Map<Seq<char>, Key>, name: Seq<char>) -> Option<Key> {
    if names.contains_key(name) {
        Some(names[name])
    } else {
        None
    }
}

impl KeyNames {
    /// No names.
    pub fn new() -> (r: KeyNames)
        ensures
            r@ == Map::<Seq<char>, Key>::empty(),
    {
        KeyNames { known: Vec::new() }
    }

    /// Let `name` stand for `key`.
    pub fn add(&mut self, name: String, key: Key)
        ensures
            final(self)@ == old(self)@.insert(name@, key),
    {
        self.known.push((name, key));
        assert(self.known@.drop_last() =~= old(self).known@);
    }

    /// The key that `name` stands for.
    pub fn find(&self, name: &str) -> (r: Option<Key>)
        ensures
            r == key_named(self@, name@),
    {
        let mut n: usize = self.known.len();
        assert(self.known@.take(n as int) =~= self.known@);
        while n > 0
            invariant
                n <= self.known@.len(),
                key_named(self@, name@) == key_named(name_map(self.known@.take(n as int)), name@),
            decreases n,
        {
            assert(self.known@.take(n as int).drop_last() =~= self.known@.take(n - 1));
            if same_text(self.known[n - 1].0.as_str(), name) {
                return Some(self.known[n - 1].1);
            }
            n -= 1;
        }
        None
    }
}

/// The mask of the modifier that a piece names, whatever its case, or 0.
pub open spec fn piece_mask(piece: Seq<char>) -> u32 {
    let name = lower(piece);
    if name == "ctrl"@ || name == "control"@ || name == "primary"@ {
        CONTROL_MASK
    } else if name == "shift"@ {
        SHIFT_MASK
    } else if name == "alt"@ || name == "option"@ {
        ALT_MASK
    } else if name == "super"@ || name == "meta"@ || name == "cmd"@ {
        SUPER_MASK
    } else {
        0
    }
}

/// Whether `c` is an angle bracket.
pub open spec fn is_bracket(c: char) -> bool {
    c == '<' || c == '>'
}

/// `s` without the angle brackets it starts with.
pub open spec fn strip_start(s: Seq<char>) -> Seq<char>
    decreases s.len(),
{
    if s.len() > 0 && is_bracket(s[0]) {
        strip_start(s.skip(1))
    } else {
        s
    }
}

/// `s` without the angle brackets it ends with.
pub open spec fn strip_end(s: Seq<char>) -> Seq<char>
    decreases s.len(),
{
    if s.len() > 0 && is_bracket(s.last()) {
        strip_end(s.drop_last())
    } else {
        s
    }
}

/// `s` without the angle brackets at its ends.
pub open spec fn stripped(s: Seq<char>) -> Seq<char> {
    strip_end(strip_start(s))
}

/// The place of the first closing bracket; past the end if there is none.
pub open spec fn closing_place(s: Seq<char>) -> int
    decreases s.len(),
{
    if s.len() == 0 || s[0] == '>' {
        0
    } else {
        1 + closing_place(s.skip(1))
    }
}

/// Where a modifier in angle brackets ends that `word` starts with: the place
/// of its closing bracket, or 0 if there is no such modifier.
pub open spec fn modifier_end(word: Seq<char>) -> int {
    let end = closing_place(word);
    if 0 < end < word.len() && word[0] == '<' && piece_mask(word.subrange(1, end)) != 0 {
        end
    } else {
        0
    }
}

/// The pieces of one word of a binding: the modifiers in angle brackets that
/// it starts with, and what is left of it, without the brackets at its ends.
pub open spec fn word_pieces(word: Seq<char>) -> Seq<Seq<char>>
    decreases word.len(),
{
    if word.len() == 0 {
        Seq::empty()
    } else if modifier_end(word) > 0 {
        seq![word.subrange(1, modifier_end(word))] + word_pieces(word.skip(modifier_end(word) + 1))
    } else {
        seq![stripped(word)]
    }
}

/// The pieces of all words.
pub open spec fn all_pieces(words: Seq<Seq<char>>) -> Seq<Seq<char>>
    decreases words.len(),
{
    if words.len() == 0 {
        Seq::empty()
    } else {
        word_pieces(words[0]) + all_pieces(words.skip(1))
    }
}

/// The pieces of a binding, in order: its modifiers and its key names.
pub open spec fn pieces(s: Seq<char>) -> Seq<Seq<char>> {
    all_pieces(words(s))
}

/// The printed symbol that a punctuation key may be known by instead.
pub open spec fn symbol(piece: Seq<char>) -> Option<Seq<char>> {
    let name = lower(piece);
    if name == "plus"@ {
        Some("+"@)
    } else if name == "minus"@ {
        Some("-"@)
    } else if name == "equal"@ {
        Some("="@)
    } else if name == "slash"@ {
        Some("/"@)
    } else {
        None
    }
}

/// Whether a piece is a key name to be looked up: no modifier, and not the
/// space bar.
pub open spec fn is_key_name(piece: Seq<char>) -> bool {
    piece_mask(piece) == 0 && lower(piece) != "space"@
}

/// The key that a piece names, in the case it is written in, or else by its
/// printed symbol.
pub open spec fn piece_key(piece: Seq<char>, names: Map<Seq<char>, Key>) -> Option<Key> {
    if piece_mask(piece) != 0 {
        None
    } else if lower(piece) == "space"@ {
        Some(Key { value: KEY_SPACE })
    } else if names.contains_key(piece) {
        Some(names[piece])
    } else {
        match symbol(piece) {
            Some(other) => key_named(names, other),
            None => None,
        }
    }
}

/// The modifiers named among `pieces`, together.
pub open spec fn pieces_mask(pieces: Seq<Seq<char>>) -> u32
    decreases pieces.len(),
{
    if pieces.len() == 0 {
        0
    } else {
        pieces_mask(pieces.drop_last()) | piece_mask(pieces.last())
    }
}

/// The last key named among `pieces`.
pub open spec fn pieces_key(pieces: Seq<Seq<char>>, names: Map<Seq<char>, Key>) -> Option<Key>
    decreases pieces.len(),
{
    if pieces.len() == 0 {
        None
    } else {
        match piece_key(pieces.last(), names) {
            Some(key) => Some(key),
            None => pieces_key(pieces.drop_last(), names),
        }
    }
}

/// The binding that `s` spells: its modifiers and its key, if it has a key.
pub open spec fn binding(s: Seq<char>, names: Map<Seq<char>, Key>) -> Option<(ModifierType, Key)> {
    match pieces_key(pieces(s), names) {
        Some(key) => Some((ModifierType { bits: pieces_mask(pieces(s)) }, key)),
        None => None,
    }
}

fn lower_text(piece: &str) -> (r: String)
    ensures
        r@ == lower(piece@),
{
    let chars = chars_of(piece);
    let low = lowered(chars.as_slice());
    string_of(low.as_slice())
}

/// The mask of the modifier that `piece` names, or 0.
fn mask_of(piece: &str) -> (r: u32)
    ensures
        r == piece_mask(piece@),
{
    let text = lower_text(piece);
    let name = text.as_str();
    if same_text(name, "ctrl") || same_text(name, "control") || same_text(name, "primary") {
        CONTROL_MASK
    } else if same_text(name, "shift") {
        SHIFT_MASK
    } else if same_text(name, "alt") || same_text(name, "option") {
        ALT_MASK
    } else if same_text(name, "super") || same_text(name, "meta") || same_text(name, "cmd") {
        SUPER_MASK
    } else {
        0
    }
}

/// `word` without the angle brackets at its ends.
fn strip_brackets(word: &[char]) -> (r: &[char])
    ensures
        r@ == stripped(word@),
{
    let mut from: usize = 0;
    assert(word@.skip(0) =~= word@);
    while from < word.len() && (word[from] == '<' || word[from] == '>')
        invariant
            from <= word@.len(),
            strip_start(word@) == strip_start(word@.skip(from as int)),
        decreases word@.len() - from,
    {
        assert(word@.skip(from as int).skip(1) =~= word@.skip(from + 1));
        from += 1;
    }
    assert(strip_start(word@) == word@.skip(from as int));
    let mut to: usize = word.len();
    assert(word@.subrange(from as int, to as int) =~= word@.skip(from as int));
    while from < to && (word[to - 1] == '<' || word[to - 1] == '>')
        invariant
            from <= to <= word@.len(),
            stripped(word@) == strip_end(word@.subrange(from as int, to as int)),
        decreases to,
    {
        assert(word@.subrange(from as int, to as int).drop_last() =~= word@.subrange(
            from as int,
            to - 1,
        ));
        to -= 1;
    }
    slice_subrange(word, from, to)
}

/// The place of the first closing bracket.
fn closing_of(word: &[char]) -> (r: usize)
    ensures
        r == closing_place(word@),
        r <= word@.len(),
{
    let mut i: usize = 0;
    assert(word@.skip(0) =~= word@);
    while i < word.len() && word[i] != '>'
        invariant
            i <= word@.len(),
            closing_place(word@) == i + closing_place(word@.skip(i as int)),
        decreases word@.len() - i,
    {
        assert(word@.skip(i as int).skip(1) =~= word@.skip(i + 1));
        i += 1;
    }
    i
}

/// Add the pieces of one word.
fn add_pieces(out: &mut Vec<String>, word: &[char])
    ensures
        texts(final(out)@) == texts(old(out)@) + word_pieces(word@),
    decreases word@.len(),
{
    if word.len() == 0 {
        assert(texts(out@) + Seq::<Seq<char>>::empty() =~= texts(out@));
        return ;
    }
    let end: usize = closing_of(word);
    if 0 < end && end < word.len() && word[0] == '<' {
        let name = slice_subrange(word, 1, end);
        let piece = string_of(name);
        if mask_of(piece.as_str()) != 0 {
            let ghost before = texts(out@);
            let ghost added = piece@;
            out.push(piece);
            assert(texts(out@) =~= before.push(added));
            let rest = slice_subrange(word, end + 1, word.len());
            assert(rest@ =~= word@.skip(end + 1));
            add_pieces(out, rest);
            assert(before.push(added) + word_pieces(rest@) =~= before + (seq![added]
                + word_pieces(rest@)));
            return ;
        }
    }
    let piece = string_of(strip_brackets(word));
    let ghost before = texts(out@);
    let ghost added = piece@;
    out.push(piece);
    assert(texts(out@) =~= before + seq![added]);
}

/// The pieces of the binding `s`.
pub fn pieces_of(s: &str) -> (r: Vec<String>)
    ensures
        texts(r@) == pieces(s@),
{
    let chars = chars_of(s);
    let parts = words_of(chars.as_slice());
    let ghost all = words(s@);
    let mut out: Vec<String> = Vec::new();
    let mut i: usize = 0;
    assert(all.skip(0) =~= all);
    assert(texts(out@) + all_pieces(all) =~= all_pieces(all));
    while i < parts.len()
        invariant
            i <= parts@.len(),
            all == texts(parts@),
            all_pieces(all) == texts(out@) + all_pieces(all.skip(i as int)),
        decreases parts@.len() - i,
    {
        let ghost before = texts(out@);
        assert(all.skip(i as int)[0] == parts@[i as int]@);
        assert(all.skip(i as int).skip(1) =~= all.skip(i + 1));
        let word = chars_of(parts[i].as_str());
        add_pieces(&mut out, word.as_slice());
        assert(before + (word_pieces(word@) + all_pieces(all.skip(i + 1))) =~= texts(out@)
            + all_pieces(all.skip(i + 1)));
        i += 1;
    }
    assert(texts(out@) + all_pieces(all.skip(i as int)) =~= texts(out@));
    out
}

/// The printed symbol of the punctuation key `piece`.
fn symbol_of(piece: &str) -> (r: Option<String>)
    ensures
        match symbol(piece@) {
            Some(other) => r is Some && r->0@ == other,
            None => r is None,
        },
{
    let text = lower_text(piece);
    let name = text.as_str();
    if same_text(name, "plus") {
        Some("+".to_owned())
    } else if same_text(name, "minus") {
        Some("-".to_owned())
    } else if same_text(name, "equal") {
        Some("=".to_owned())
    } else if same_text(name, "slash") {
        Some("/".to_owned())
    } else {
        None
    }
}

fn key_of(piece: &str, names: &KeyNames) -> (r: Option<Key>)
    ensures
        r == piece_key(piece@, names@),
{
    if mask_of(piece) != 0 {
        return None;
    }
    let low = lower_text(piece);
    if same_text(low.as_str(), "space") {
        return Some(Key { value: KEY_SPACE });
    }
    match names.find(piece) {
        Some(key) => Some(key),
        None => match symbol_of(piece) {
            Some(other) => names.find(other.as_str()),
            None => None,
        },
    }
}

/// Parse a binding like `"ctrl h"`, `"j"` or `"<Primary>plus"` into a modifier
/// mask and a key. Modifiers (`ctrl`/`control`/`primary`, `shift`,
/// `alt`/`option`, `super`/`meta`/`cmd`) may be written with or without angle
/// brackets and in any case; in brackets, what follows needs no blank. A key
/// keeps its case: `shift G` is the key `G`.
/// The last key that is recognised counts; there is no binding without one.
pub fn parse_binding(text: &str, names: &KeyNames) -> (r: Option<(ModifierType, Key)>)
    ensures
        r == binding(text@, names@),
{
    let parts = pieces_of(text);
    let ghost all = pieces(text@);
    let mut bits: u32 = 0;
    let mut key: Option<Key> = None;
    let mut i: usize = 0;
    assert(all.take(0) =~= Seq::empty());
    while i < parts.len()
        invariant
            i <= parts@.len(),
            all == texts(parts@),
            bits == pieces_mask(all.take(i as int)),
            key == pieces_key(all.take(i as int), names@),
        decreases parts@.len() - i,
    {
        let part = parts[i].as_str();
        assert(all.take(i + 1).drop_last() =~= all.take(i as int));
        assert(all.take(i + 1).last() == part@);
        bits = bits | mask_of(part);
        match key_of(part, names) {
            Some(found) => {
                key = Some(found);
            },
            None => {},
        }
        i += 1;
    }
    assert(all.take(i as int) =~= all);
    match key {
        Some(found) => Some((ModifierType { bits }, found)),
        None => None,
    }
}

/// The names that reading a piece asks for.
pub open spec fn piece_names(piece: Seq<char>) -> Seq<Seq<char>> {
    if is_key_name(piece) {
        match symbol(piece) {
            Some(other) => seq![piece, other],
            None => seq![piece],
        }
    } else {
        Seq::empty()
    }
}

/// The names that reading `pieces` asks for.
pub open spec fn asked_names(pieces: Seq<Seq<char>>) -> Seq<Seq<char>>
    decreases pieces.len(),
{
    if pieces.len() == 0 {
        Seq::empty()
    } else {
        asked_names(pieces.drop_last()) + piece_names(pieces.last())
    }
}

/// The key names that the binding `text` depends on: whoever knows the keys
/// looks them up before the binding is parsed.
pub fn key_names(text: &str) -> (r: Vec<String>)
    ensures
        texts(r@) == asked_names(pieces(text@)),
{
    let parts = pieces_of(text);
    let ghost all = pieces(text@);
    let mut out: Vec<String> = Vec::new();
    let mut i: usize = 0;
    assert(all.take(0) =~= Seq::empty());
    assert(texts(out@) =~= Seq::empty());
    while i < parts.len()
        invariant
            i <= parts@.len(),
            all == texts(parts@),
            texts(out@) == asked_names(all.take(i as int)),
        decreases parts@.len() - i,
    {
        let part = parts[i].as_str();
        let ghost before = texts(out@);
        assert(all.take(i + 1).drop_last() =~= all.take(i as int));
        assert(all.take(i + 1).last() == part@);
        let low = lower_text(part);
        if mask_of(part) == 0 && !same_text(low.as_str(), "space") {
            out.push(part.to_owned());
            assert(texts(out@) =~= before.push(part@));
            match symbol_of(part) {
                Some(other) => {
                    out.push(other);
                },
                None => {},
            }
        }
        assert(texts(out@) =~= before + piece_names(part@));
        i += 1;
    }
    assert(all.take(i as int) =~= all);
    out
}

/// The keys of the two-key chord `s`: those that its first two words name.
pub open spec fn chord(s: Seq<char>, names: Map<Seq<char>, Key>) -> Option<(Key, Key)> {
    let w = words(s);
    if w.len() >= 2 && names.contains_key(w[0]) && names.contains_key(w[1]) {
        Some((names[w[0]], names[w[1]]))
    } else {
        None
    }
}

/// The keys of a two-key chord like `"space e"`: the leader, then the key
/// that completes it.
pub fn parse_chord(text: &str, names: &KeyNames) -> (r: Option<(Key, Key)>)
    ensures
        r == chord(text@, names@),
{
    let chars = chars_of(text);
    let parts = words_of(chars.as_slice());
    let ghost w = words(text@);
    assert(texts(parts@) == w);
    if parts.len() < 2 {
        return None;
    }
    assert(w[0] == parts@[0]@ && w[1] == parts@[1]@);
    match names.find(parts[0].as_str()) {
        Some(leader) => match names.find(parts[1].as_str()) {
            Some(key) => Some((leader, key)),
            None => None,
        },
        None => None,
    }
}

/// The key that the first word of `s` names.
pub open spec fn leader(s: Seq<char>, names: Map<Seq<char>, Key>) -> Option<Key> {
    if words(s).len() > 0 {
        key_named(names, words(s)[0])
    } else {
        None
    }
}

/// The leader of the chord `text`: the key that its first word names.
pub fn parse_leader(text: &str, names: &KeyNames) -> (r: Option<Key>)
    ensures
        r == leader(text@, names@),
{
    let chars = chars_of(text);
    let parts = words_of(chars.as_slice());
    assert(texts(parts@) == words(text@));
    if parts.len() == 0 {
        return None;
    }
    assert(words(text@)[0] == parts@[0]@);
    names.find(parts[0].as_str())
}

/// The names that the chord `text` depends on: its first two words.
pub fn chord_names(text: &str) -> (r: Vec<String>)
    ensures
        texts(r@) == words(text@).take(
            if words(text@).len() < 2 {
                words(text@).len() as int
            } else {
                2
            },
        ),
{
    let chars = chars_of(text);
    let mut parts = words_of(chars.as_slice());
    let ghost all = parts@;
    assert(texts(all) == words(text@));
    parts.truncate(2);
    assert(texts(parts@) =~= texts(all).take(parts@.len() as int));
    parts
}

/// Angle brackets around a modifier may be left out: at the start of a word,
/// `<ctrl>` reads as `ctrl` and a blank, whatever comes before and after.
#[verifier::rlimit(40)]
pub proof fn law_brackets_are_optional(
    before: Seq<char>,
    modifier: Seq<char>,
    after: Seq<char>,
    names: Map<Seq<char>, Key>,
)
    requires
        before.len() == 0 || is_blank(before.last()),
        piece_mask(modifier) != 0,
    ensures
        binding(before + seq!['<'] + modifier + seq!['>'] + after, names) == binding(
            before + modifier + seq![' '] + after,
            names,
        ),
{
    let wrapped = seq!['<'] + modifier + seq!['>'] + after;
    let plain = modifier + seq![' '] + after;
    assert(before + seq!['<'] + modifier + seq!['>'] + after =~= before + wrapped);
    assert(before + modifier + seq![' '] + after =~= before + plain);
    lemma_words_after(before, wrapped);
    lemma_words_after(before, plain);
    lemma_all_pieces_joined(words(before), words(wrapped));
    lemma_all_pieces_joined(words(before), words(plain));
    lemma_modifier_is_plain(modifier);

    // Both spell the modifier first.
    let n = word_len(after);
    lemma_word_len(after);
    let rest = after.take(n);
    let tail = after.skip(n);
    let word = seq!['<'] + modifier + seq!['>'] + rest;
    lemma_word_len_at(wrapped, modifier.len() as int + 2 + n);
    assert(wrapped.take(modifier.len() as int + 2 + n) =~= word);
    assert(wrapped.skip(modifier.len() as int + 2 + n) =~= tail);
    assert(words(wrapped) == seq![word] + words(tail));
    lemma_all_pieces_joined(seq![word], words(tail));
    lemma_one_word(word);
    lemma_closing_at(word, modifier.len() as int + 1);
    assert(word.subrange(1, modifier.len() as int + 1) =~= modifier);
    assert(word.skip(modifier.len() as int + 2) =~= rest);
    assert(word_pieces(word) == seq![modifier] + word_pieces(rest));

    lemma_word_len_at(plain, modifier.len() as int);
    assert(plain.take(modifier.len() as int) =~= modifier);
    let blank_after = plain.skip(modifier.len() as int);
    assert(blank_after[0] == ' ');
    assert(blank_after.skip(1) =~= after);
    assert(words(blank_after) == words(after));
    assert(words(plain) == seq![modifier] + words(after));
    lemma_all_pieces_joined(seq![modifier], words(after));
    lemma_one_word(modifier);
    assert(stripped(modifier) == modifier);
    assert(modifier_end(modifier) == 0);
    assert(word_pieces(modifier) == seq![modifier]);

    if n == 0 {
        assert(tail =~= after);
        assert(word_pieces(rest) =~= Seq::empty());
    } else {
        lemma_all_pieces_joined(seq![rest], words(tail));
        lemma_one_word(rest);
        assert(words(after) == seq![rest] + words(tail));
    }
    assert(seq![modifier] + word_pieces(rest) + all_pieces(words(tail)) =~= seq![modifier] + (
    word_pieces(rest) + all_pieces(words(tail))));
    assert(seq![modifier] + Seq::<Seq<char>>::empty() + all_pieces(words(tail)) =~= seq![modifier]
        + all_pieces(words(tail)));
    assert(all_pieces(words(wrapped)) == all_pieces(words(plain)));
}

/// The words of a text that starts with words of their own.
proof fn lemma_words_after(before: Seq<char>, text: Seq<char>)
    requires
        before.len() == 0 || is_blank(before.last()),
    ensures
        words(before + text) == words(before) + words(text),
    decreases before.len(),
{
    if before.len() == 0 {
        assert(before + text =~= text);
        assert(words(before) + words(text) =~= words(text));
    } else {
        let whole = before + text;
        lemma_word_len(before);
        if is_blank(before[0]) {
            assert(whole.skip(1) =~= before.skip(1) + text);
            lemma_words_after(before.skip(1), text);
        } else {
            let n = word_len(before);
            assert(n < before.len()) by {
                if n == before.len() {
                    assert(!is_blank(before[n - 1]));
                }
            }
            lemma_word_len_at(whole, n);
            assert(whole.take(n) =~= before.take(n));
            assert(whole.skip(n) =~= before.skip(n) + text);
            lemma_words_after(before.skip(n), text);
            assert(seq![before.take(n)] + (words(before.skip(n)) + words(text)) =~= seq![
                before.take(n),
            ] + words(before.skip(n)) + words(text));
        }
    }
}

/// A word ends at the first blank.
proof fn lemma_word_len_at(s: Seq<char>, n: int)
    requires
        0 <= n <= s.len(),
        forall|i: int| 0 <= i < n ==> !is_blank(#[trigger] s[i]),
        n < s.len() ==> is_blank(s[n]),
    ensures
        word_len(s) == n,
{
    lemma_word_len(s);
    if word_len(s) < n {
        assert(!is_blank(s[word_len(s)]));
    } else if word_len(s) > n {
        assert(is_blank(s[n]));
    }
}

proof fn lemma_all_pieces_joined(a: Seq<Seq<char>>, b: Seq<Seq<char>>)
    ensures
        all_pieces(a + b) == all_pieces(a) + all_pieces(b),
    decreases a.len(),
{
    if a.len() == 0 {
        assert(a + b =~= b);
        assert(all_pieces(a) + all_pieces(b) =~= all_pieces(b));
    } else {
        assert((a + b).skip(1) =~= a.skip(1) + b);
        lemma_all_pieces_joined(a.skip(1), b);
        assert(word_pieces(a[0]) + (all_pieces(a.skip(1)) + all_pieces(b)) =~= word_pieces(a[0])
            + all_pieces(a.skip(1)) + all_pieces(b));
    }
}

proof fn lemma_one_word(word: Seq<char>)
    ensures
        all_pieces(seq![word]) == word_pieces(word),
{
    assert(seq![word].skip(1) =~= Seq::<Seq<char>>::empty());
    assert(all_pieces(seq![word].skip(1)) =~= Seq::empty());
    assert(word_pieces(word) + Seq::<Seq<char>>::empty() =~= word_pieces(word));
}

proof fn lemma_closing_at(s: Seq<char>, n: int)
    requires
        0 <= n < s.len(),
        s[n] == '>',
        forall|i: int| 0 <= i < n ==> #[trigger] s[i] != '>',
    ensures
        closing_place(s) == n,
    decreases s.len(),
{
    if n > 0 {
        assert(s[0] != '>');
        assert forall|i: int| 0 <= i < n - 1 implies #[trigger] s.skip(1)[i] != '>' by {
            assert(s.skip(1)[i] == s[i + 1]);
        }
        lemma_closing_at(s.skip(1), n - 1);
    }
}

/// Whether all characters are small letters.
spec fn is_small(s: Seq<char>) -> bool {
    forall|i: int| 0 <= i < s.len() ==> 'a' <= #[trigger] s[i] <= 'z'
}

/// The name of a modifier is made of letters.
proof fn lemma_modifier_is_plain(m: Seq<char>)
    requires
        piece_mask(m) != 0,
    ensures
        m.len() > 0,
        forall|i: int| 0 <= i < m.len() ==> !is_blank(#[trigger] m[i]) && !is_bracket(m[i]),
{
    reveal_strlit("ctrl");
    reveal_strlit("control");
    reveal_strlit("primary");
    reveal_strlit("shift");
    reveal_strlit("alt");
    reveal_strlit("option");
    reveal_strlit("super");
    reveal_strlit("meta");
    reveal_strlit("cmd");
    assert("ctrl"@ =~= seq!['c', 't', 'r', 'l']);
    assert("control"@ =~= seq!['c', 'o', 'n', 't', 'r', 'o', 'l']);
    assert("primary"@ =~= seq!['p', 'r', 'i', 'm', 'a', 'r', 'y']);
    assert("shift"@ =~= seq!['s', 'h', 'i', 'f', 't']);
    assert("alt"@ =~= seq!['a', 'l', 't']);
    assert("option"@ =~= seq!['o', 'p', 't', 'i', 'o', 'n']);
    assert("super"@ =~= seq!['s', 'u', 'p', 'e', 'r']);
    assert("meta"@ =~= seq!['m', 'e', 't', 'a']);
    assert("cmd"@ =~= seq!['c', 'm', 'd']);
    let low = lower(m);
    assert(low.len() > 0 && is_small(low));
    assert forall|i: int| 0 <= i < m.len() implies !is_blank(#[trigger] m[i]) && !is_bracket(
        m[i],
    ) by {
        assert(low[i] == ascii_lower(m[i]));
        assert('a' <= low[i] <= 'z');
    }
}

/// Modifiers are recognised in any case.
pub proof fn law_modifiers_ignore_case(piece: Seq<char>)
    ensures
        piece_mask(lower(piece)) == piece_mask(piece),
{
    assert(lower(lower(piece)) =~= lower(piece));
}

/// A binding depends on the keys of its own names and on no others.
pub proof fn law_binding_depends_on_its_names(
    text: Seq<char>,
    a: Map<Seq<char>, Key>,
    b: Map<Seq<char>, Key>,
)
    requires
        forall|i: int|
            0 <= i < asked_names(pieces(text)).len() ==> key_named(
                a,
                #[trigger] asked_names(pieces(text))[i],
            ) == key_named(b, asked_names(pieces(text))[i]),
    ensures
        binding(text, a) == binding(text, b),
{
    lemma_key_depends_on_names(pieces(text), a, b);
}

proof fn lemma_key_depends_on_names(
    p: Seq<Seq<char>>,
    a: Map<Seq<char>, Key>,
    b: Map<Seq<char>, Key>,
)
    requires
        forall|i: int|
            0 <= i < asked_names(p).len() ==> key_named(a, #[trigger] asked_names(p)[i])
                == key_named(b, asked_names(p)[i]),
    ensures
        pieces_key(p, a) == pieces_key(p, b),
    decreases p.len(),
{
    if p.len() > 0 {
        let front = asked_names(p.drop_last());
        let names = piece_names(p.last());
        assert forall|i: int| 0 <= i < front.len() implies key_named(a, #[trigger] front[i])
            == key_named(b, front[i]) by {
            assert(asked_names(p)[i] == front[i]);
        }
        lemma_key_depends_on_names(p.drop_last(), a, b);
        assert forall|i: int| 0 <= i < names.len() implies key_named(a, #[trigger] names[i])
            == key_named(b, names[i]) by {
            assert(asked_names(p)[front.len() + i] == names[i]);
        }
        if is_key_name(p.last()) {
            assert(names[0] == p.last());
            assert(key_named(a, names[0]) == key_named(b, names[0]));
            match symbol(p.last()) {
                Some(other) => {
                    assert(names[1] == other);
                },
                None => {},
            }
        }
    }
}

/// The names of the modifiers, in small letters, and their masks.
pub proof fn law_modifier_names(piece: Seq<char>)
    ensures
        piece_mask(piece) == 4 <==> lower(piece) == "ctrl"@ || lower(piece) == "control"@ || lower(
            piece,
        ) == "primary"@,
        piece_mask(piece) == 1 <==> lower(piece) == "shift"@,
        piece_mask(piece) == 8 <==> lower(piece) == "alt"@ || lower(piece) == "option"@,
        piece_mask(piece) == 0x400_0000 <==> lower(piece) == "super"@ || lower(piece) == "meta"@
            || lower(piece) == "cmd"@,
        piece_mask(piece) == 0 || piece_mask(piece) == 1 || piece_mask(piece) == 4 || piece_mask(
            piece,
        ) == 8 || piece_mask(piece) == 0x400_0000,
{
    reveal_strlit("ctrl");
    reveal_strlit("control");
    reveal_strlit("primary");
    reveal_strlit("shift");
    reveal_strlit("alt");
    reveal_strlit("option");
    reveal_strlit("super");
    reveal_strlit("meta");
    reveal_strlit("cmd");
    assert("shift"@[1] == 'h');
    assert("super"@[1] == 'u');
    assert("alt"@[0] == 'a');
    assert("option"@[0] == 'o');
    assert("meta"@[0] == 'm');
    assert("cmd"@[2] == 'd');
    assert("ctrl"@[0] == 'c' && "ctrl"@[2] == 'r');
    assert("control"@[0] == 'c' && "control"@[2] == 'n');
    assert("primary"@[0] == 'p');
}

/// A modifier is held for a binding if and only if one of its pieces names it.
pub proof fn law_binding_holds_the_named_modifiers(p: Seq<Seq<char>>, mask: u32)
    requires
        mask == 1 || mask == 4 || mask == 8 || mask == 0x400_0000,
    ensures
        pieces_mask(p) & mask == mask <==> exists|i: int|
            0 <= i < p.len() && piece_mask(#[trigger] p[i]) == mask,
    decreases p.len(),
{
    if p.len() == 0 {
        assert(0u32 & mask == 0) by (bit_vector);
    } else {
        let front = p.drop_last();
        law_binding_holds_the_named_modifiers(front, mask);
        law_modifier_names(p.last());
        let a = pieces_mask(front);
        let b = piece_mask(p.last());
        assert((a | b) & mask == mask <==> a & mask == mask || b == mask) by (bit_vector)
            requires
                mask == 1 || mask == 4 || mask == 8 || mask == 0x400_0000u32,
                b == 0 || b == 1 || b == 4 || b == 8 || b == 0x400_0000u32,
        ;
        if a & mask == mask {
            let i = choose|i: int| 0 <= i < front.len() && piece_mask(#[trigger] front[i]) == mask;
            assert(p[i] == front[i]);
        }
        if b == mask {
            assert(p[p.len() - 1] == p.last());
        }
        if exists|i: int| 0 <= i < p.len() && piece_mask(#[trigger] p[i]) == mask {
            let i = choose|i: int| 0 <= i < p.len() && piece_mask(#[trigger] p[i]) == mask;
            if i < front.len() {
                assert(front[i] == p[i]);
            }
        }
    }
}

/// The key of a binding is that of its last piece that names one.
pub proof fn law_last_key_counts(p: Seq<Seq<char>>, names: Map<Seq<char>, Key>, i: int)
    requires
        0 <= i < p.len(),
        piece_key(p[i], names) is Some,
        forall|j: int| i < j < p.len() ==> piece_key(#[trigger] p[j], names) is None,
    ensures
        pieces_key(p, names) == piece_key(p[i], names),
    decreases p.len(),
{
    if i < p.len() - 1 {
        assert(piece_key(p[p.len() - 1], names) is None);
        let front = p.drop_last();
        assert forall|j: int| i < j < front.len() implies piece_key(
            #[trigger] front[j],
            names,
        ) is None by {
            assert(front[j] == p[j]);
        }
        law_last_key_counts(front, names, i);
    }
}

/// Pieces that name no key make no binding.
pub proof fn law_no_key_no_binding(p: Seq<Seq<char>>, names: Map<Seq<char>, Key>)
    requires
        forall|j: int| 0 <= j < p.len() ==> piece_key(#[trigger] p[j], names) is None,
    ensures
        pieces_key(p, names) is None,
    decreases p.len(),
{
    if p.len() > 0 {
        let front = p.drop_last();
        assert(piece_key(p[p.len() - 1], names) is None);
        assert forall|j: int| 0 <= j < front.len() implies piece_key(
            #[trigger] front[j],
            names,
        ) is None by {
            assert(front[j] == p[j]);
        }
        law_no_key_no_binding(front, names);
    }
}

/// What a piece stands for: a modifier never names a key; `space`, in any
/// case, is the space bar; any other piece is the key of that name, in the
/// case it is written in, or else of the symbol that it is printed with.
pub proof fn law_piece_names_its_key(piece: Seq<char>, names: Map<Seq<char>, Key>)
    ensures
        piece_mask(piece) != 0 ==> piece_key(piece, names) is None,
        lower(piece) == "space"@ ==> piece_key(piece, names) == Some(Key { value: 0x20 }),
        piece_mask(piece) == 0 && lower(piece) != "space"@ ==> {
            &&& names.contains_key(piece) ==> piece_key(piece, names) == Some(names[piece])
            &&& !names.contains_key(piece) ==> {
                &&& lower(piece) == "plus"@ && names.contains_key("+"@) ==> piece_key(piece, names)
                    == Some(names["+"@])
                &&& lower(piece) == "minus"@ && names.contains_key("-"@) ==> piece_key(
                    piece,
                    names,
                ) == Some(names["-"@])
                &&& lower(piece) == "equal"@ && names.contains_key("="@) ==> piece_key(
                    piece,
                    names,
                ) == Some(names["="@])
                &&& lower(piece) == "slash"@ && names.contains_key("/"@) ==> piece_key(
                    piece,
                    names,
                ) == Some(names["/"@])
                &&& lower(piece) != "plus"@ && lower(piece) != "minus"@ && lower(piece) != "equal"@
                    && lower(piece) != "slash"@ ==> piece_key(piece, names) is None
            }
        },
{
    reveal_strlit("space");
    reveal_strlit("shift");
    reveal_strlit("super");
    reveal_strlit("ctrl");
    reveal_strlit("control");
    reveal_strlit("primary");
    reveal_strlit("alt");
    reveal_strlit("option");
    reveal_strlit("meta");
    reveal_strlit("cmd");
    reveal_strlit("plus");
    reveal_strlit("minus");
    reveal_strlit("equal");
    reveal_strlit("slash");
    assert("space"@[1] == 'p');
    assert("shift"@[1] == 'h');
    assert("super"@[1] == 'u');
    assert("space"@.len() == 5 && "ctrl"@.len() == 4 && "control"@.len() == 7);
    assert("primary"@.len() == 7 && "alt"@.len() == 3 && "option"@.len() == 6);
    assert("meta"@.len() == 4 && "cmd"@.len() == 3);
    assert("plus"@[0] == 'p');
    assert("minus"@[0] == 'm');
    assert("equal"@[0] == 'e');
    assert("slash"@[0] == 's');
}

/// Whether `s` is a plain word: something without blanks and angle brackets.
pub open spec fn is_plain_word(s: Seq<char>) -> bool {
    s.len() > 0 && forall|i: int|
        0 <= i < s.len() ==> !is_blank(#[trigger] s[i]) && !is_bracket(s[i])
}

proof fn lemma_plain_pieces(w: Seq<char>)
    requires
        is_plain_word(w),
    ensures
        words(w) == seq![w],
        word_pieces(w) == seq![w],
        pieces(w) == seq![w],
{
    law_text_without_blanks_is_a_word(w);
    lemma_one_word(w);
    assert(!is_bracket(w[0]));
    assert(!is_bracket(w[w.len() - 1]));
    assert(modifier_end(w) == 0);
}

/// A key name alone is bound without modifiers; after a modifier and a blank
/// it is bound with exactly that modifier.
pub proof fn law_binding_is_read_as_written(
    modifier: Seq<char>,
    name: Seq<char>,
    names: Map<Seq<char>, Key>,
)
    requires
        piece_mask(modifier) != 0,
        is_plain_word(name),
        piece_key(name, names) is Some,
    ensures
        binding(name, names) == Some((ModifierType { bits: 0 }, piece_key(name, names)->0)),
        binding(modifier + seq![' '] + name, names) == Some(
            (ModifierType { bits: piece_mask(modifier) }, piece_key(name, names)->0),
        ),
{
    lemma_modifier_is_plain(modifier);
    lemma_plain_pieces(modifier);
    lemma_plain_pieces(name);
    law_words_are_split_at_blanks(modifier, ' ', name);
    let text = modifier + seq![' '] + name;
    assert(text =~= modifier.push(' ') + name);
    lemma_all_pieces_joined(seq![modifier], seq![name]);
    lemma_one_word(modifier);
    lemma_one_word(name);
    let p = seq![modifier, name];
    assert(pieces(text) =~= p);
    assert(p.drop_last() =~= seq![modifier]);
    assert(seq![modifier].drop_last() =~= Seq::empty());
    assert(seq![name].drop_last() =~= Seq::empty());
    let m = piece_mask(modifier);
    let n = piece_mask(name);
    law_piece_names_its_key(name, names);
    assert(n == 0);
    reveal_with_fuel(pieces_mask, 3);
    assert((0u32 | m) | 0u32 == m) by (bit_vector);
    assert(0u32 | 0u32 == 0u32) by (bit_vector);
    assert(pieces_key(p, names) == piece_key(name, names));
}

/// A chord is two key names with a blank between them: the first leads, the
/// second completes it. One name alone is no chord.
pub proof fn law_chord_is_read_as_written(
    first: Seq<char>,
    second: Seq<char>,
    names: Map<Seq<char>, Key>,
)
    requires
        is_plain_word(first),
        is_plain_word(second),
    ensures
        names.contains_key(first) && names.contains_key(second) ==> chord(
            first + seq![' '] + second,
            names,
        ) == Some((names[first], names[second])),
        !names.contains_key(first) || !names.contains_key(second) ==> chord(
            first + seq![' '] + second,
            names,
        ) is None,
        chord(first, names) is None,
        names.contains_key(first) ==> leader(first + seq![' '] + second, names) == Some(
            names[first],
        ) && leader(first, names) == Some(names[first]),
        !names.contains_key(first) ==> leader(first + seq![' '] + second, names) is None,
{
    law_text_without_blanks_is_a_word(first);
    law_text_without_blanks_is_a_word(second);
    law_words_are_split_at_blanks(first, ' ', second);
    assert(first + seq![' '] + second =~= first.push(' ') + second);
    let w = words(first + seq![' '] + second);
    assert(w =~= seq![first, second]);
    assert(w[0] == first && w[1] == second);
}

/// Angle brackets around a key name do not count.
pub proof fn law_brackets_around_a_key_are_dropped(name: Seq<char>, names: Map<Seq<char>, Key>)
    requires
        is_plain_word(name),
        piece_mask(name) == 0,
    ensures
        binding(seq!['<'] + name + seq!['>'], names) == binding(name, names),
{
    let text = seq!['<'] + name + seq!['>'];
    let n = name.len() as int;
    assert forall|i: int| 0 <= i < text.len() implies !is_blank(#[trigger] text[i]) by {
        if 0 < i <= n {
            assert(text[i] == name[i - 1]);
        }
    }
    law_text_without_blanks_is_a_word(text);
    lemma_one_word(text);
    lemma_plain_pieces(name);
    assert forall|i: int| 0 <= i < n + 1 implies #[trigger] text[i] != '>' by {
        if 0 < i {
            assert(text[i] == name[i - 1]);
        }
    }
    lemma_closing_at(text, n + 1);
    assert(text.subrange(1, n + 1) =~= name);
    assert(modifier_end(text) == 0);
    assert(text.skip(1) =~= name + seq!['>']);
    assert((name + seq!['>'])[0] == name[0]);
    assert(!is_bracket(name[0]));
    assert(strip_start(text.skip(1)) == text.skip(1));
    assert((name + seq!['>']).drop_last() =~= name);
    assert(!is_bracket(name[n - 1]));
    assert(strip_end(name) == name);
    assert(stripped(text) == name);
}

} // verus!
