//! The editing rules of a text input: where typed and committed text goes,
//! what backspace removes and how the arrow keys move the caret. The caret
//! sits after the character at `cursor`; a cursor of -1 puts it before the
//! first character. Glyph widths, caret drawing and hit testing belong to
//! the caller.
use vstd::prelude::*;
use crate::text::{char_is_control, chars_of, is_control_char, string_from_chars};

verus! {

/// What an input method hands the input: one typed character, or a string
/// it has composed.
#[derive(Debug, Clone, PartialEq, Eq)]
pub enum ImeEvent {
    ReceivedCharacter(char),
    Commit(String),
}

/// The keys an input reacts to; `Other` stands for every other key.
#[derive(Debug, Clone, Copy, PartialEq, Eq)]
pub enum EditKey {
    Backspace,
    Left,
    Right,
    Other,
}

/// What an edit changed: the text (and with it the caret), or the caret
/// alone.
#[derive(Debug, Clone, Copy, PartialEq, Eq)]
pub struct EditResult {
    pub text_changed: bool,
    pub caret_moved: bool,
}

/// The text of an input and its caret.
pub struct InputView {
    pub cursor: int,
    pub chars: Seq<char>,
}

/// Inserts a typed character after the caret and moves the caret past it;
/// control characters are ignored.
pub open spec fn spec_receive(v: InputView, c: char) -> InputView {
    if is_control_char(c) {
        v
    } else {
        InputView { cursor: v.cursor + 1, chars: v.chars.insert(v.cursor + 1, c) }
    }
}

/// Inserts a committed string after the caret (it becomes the whole text of
/// an empty input) and moves the caret by its length.
pub open spec fn spec_commit(v: InputView, s: Seq<char>) -> InputView {
    InputView {
        cursor: v.cursor + s.len(),
        chars: if v.chars.len() == 0 {
            s
        } else {
            v.chars.take(v.cursor + 1) + s + v.chars.skip(v.cursor + 1)
        },
    }
}

/// Removes the character before the caret, if the caret is after one.
pub open spec fn spec_backspace(v: InputView) -> InputView {
    if 0 <= v.cursor <= v.chars.len() {
        InputView { cursor: v.cursor - 1, chars: v.chars.remove(v.cursor) }
    } else {
        v
    }
}

/// Moves the caret one character back, unless it is before the first.
pub open spec fn spec_left(v: InputView) -> InputView {
    if v.cursor >= 0 {
        InputView { cursor: v.cursor - 1, ..v }
    } else {
        v
    }
}

/// Moves the caret one character on, unless it is after the last.
pub open spec fn spec_right(v: InputView) -> InputView {
    if v.cursor < v.chars.len() - 1 {
        InputView { cursor: v.cursor + 1, ..v }
    } else {
        v
    }
}

/// The state after an input method event.
pub open spec fn spec_ime(v: InputView, ev: ImeEvent) -> InputView {
    match ev {
        ImeEvent::ReceivedCharacter(c) => spec_receive(v, c),
        ImeEvent::Commit(s) => spec_commit(v, s@),
    }
}

/// The state after a key press.
pub open spec fn spec_key(v: InputView, key: EditKey) -> InputView {
    match key {
        EditKey::Backspace => spec_backspace(v),
        EditKey::Left => spec_left(v),
        EditKey::Right => spec_right(v),
        EditKey::Other => v,
    }
}

/// The caret lies within the text: after one of its characters or before
/// the first.
pub open spec fn caret_within(v: InputView) -> bool {
    -1 <= v.cursor < v.chars.len()
}

/// An input method event can be applied: a typed character goes at a place
/// inside the text, so does a committed string unless the text is empty,
/// and the results fit the caret's and the text's sizes.
pub open spec fn ime_ok(v: InputView, ev: ImeEvent) -> bool {
    &&& -1 <= v.cursor
    &&& match ev {
        ImeEvent::ReceivedCharacter(c) => !is_control_char(c) ==> v.cursor < v.chars.len() < i32::MAX,
        ImeEvent::Commit(s) => {
            &&& v.chars.len() > 0 ==> v.cursor < v.chars.len()
            &&& v.cursor + s@.len() <= i32::MAX
            &&& v.chars.len() + s@.len() <= i32::MAX
        },
    }
}

/// A key press can be applied: backspace is not pressed with the caret one
/// place past the end of the text.
pub open spec fn key_ok(v: InputView, key: EditKey) -> bool {
    key == EditKey::Backspace ==> !(0 <= v.cursor && v.cursor == v.chars.len())
}

/// One edit that a frame brings to the active input.
#[derive(Debug, Clone, PartialEq, Eq)]
pub enum EditEvent {
    Ime(ImeEvent),
    Key(EditKey),
}

/// The state after an edit.
pub open spec fn spec_edit(v: InputView, e: EditEvent) -> InputView {
    match e {
        EditEvent::Ime(ev) => spec_ime(v, ev),
        EditEvent::Key(k) => spec_key(v, k),
    }
}

/// The state after the edits `es`, one after the other.
pub open spec fn spec_edits(v: InputView, es: Seq<EditEvent>) -> InputView
    decreases es.len(),
{
    if es.len() == 0 {
        v
    } else {
        spec_edits(spec_edit(v, es[0]), es.drop_first())
    }
}

/// Whether an edit can be applied.
pub open spec fn edit_ok(v: InputView, e: EditEvent) -> bool {
    match e {
        EditEvent::Ime(ev) => ime_ok(v, ev),
        EditEvent::Key(k) => key_ok(v, k),
    }
}

/// Whether each of the edits `es` can be applied in its turn.
pub open spec fn edits_ok(v: InputView, es: Seq<EditEvent>) -> bool
    decreases es.len(),
{
    es.len() == 0 || (edit_ok(v, es[0]) && edits_ok(spec_edit(v, es[0]), es.drop_first()))
}

/// How many characters the edits `es` bring at most.
pub open spec fn chars_brought(es: Seq<EditEvent>) -> nat
    decreases es.len(),
{
    if es.len() == 0 {
        0
    } else {
        (match es[0] {
            EditEvent::Ime(ImeEvent::ReceivedCharacter(_)) => 1nat,
            EditEvent::Ime(ImeEvent::Commit(s)) => s@.len(),
            EditEvent::Key(_) => 0nat,
        }) + chars_brought(es.drop_first())
    }
}

/// Over a frame of edits, the caret stays within the text: from a caret
/// within the text, every edit can be applied in its turn and the caret
/// ends within the text, as long as the text stays shorter than the
/// caret's integer type allows.
pub proof fn lemma_frame_keeps_caret_within(v: InputView, es: Seq<EditEvent>)
    requires
        caret_within(v),
        v.chars.len() + chars_brought(es) < i32::MAX,
    ensures
        edits_ok(v, es),
        caret_within(spec_edits(v, es)),
        spec_edits(v, es).chars.len() <= v.chars.len() + chars_brought(es),
    decreases es.len(),
{
    if es.len() > 0 {
        let w = spec_edit(v, es[0]);
        match es[0] {
            EditEvent::Ime(ImeEvent::Commit(s)) => {
                if v.chars.len() > 0 {
                    assert(w.chars.len() == v.chars.len() + s@.len());
                }
            },
            _ => {},
        }
        lemma_frame_keeps_caret_within(w, es.drop_first());
    }
}

/// The text of an input and its caret.
pub struct InputTextCache {
    cursor: i32,
    chars: Vec<char>,
}

impl View for InputTextCache {
    type V = InputView;

    closed spec fn view(&self) -> InputView {
        InputView { cursor: self.cursor as int, chars: self.chars@ }
    }
}

impl InputTextCache {
    /// The text fits the caret's integer type.
    pub closed spec fn wf(&self) -> bool {
        self.chars.len() <= i32::MAX
    }

    /// An empty input with its caret at 0.
    pub fn new() -> (c: Self)
        ensures
            c.wf(),
            c@.cursor == 0,
            c@.chars == Seq::<char>::empty(),
    {
        InputTextCache { cursor: 0, chars: Vec::new() }
    }

    /// Replaces the text, leaving the caret where it is.
    pub fn set_text(&mut self, text: &str)
        requires
            text@.len() <= i32::MAX,
        ensures
            final(self).wf(),
            final(self)@.chars == text@,
            final(self)@.cursor == old(self)@.cursor,
    {
        self.chars = chars_of(text);
    }

    /// Where the caret is.
    pub fn cursor(&self) -> (r: i32)
        ensures
            r == self@.cursor,
    {
        self.cursor
    }

    /// How many characters the text has.
    pub fn char_count(&self) -> (r: usize)
        ensures
            r == self@.chars.len(),
    {
        self.chars.len()
    }

    /// The text.
    pub fn text(&self) -> (s: String)
        ensures
            s@ == self@.chars,
    {
        let s = string_from_chars(&self.chars, 0, self.chars.len());
        proof {
            assert(self.chars@.subrange(0, self.chars@.len() as int) =~= self.chars@);
        }
        s
    }

    /// Puts the caret where a click found it: `cursor` is the character
    /// before which the click fell, less one, or the length of the text if
    /// it fell past the end; a caret past the last character of a non-empty
    /// text is pulled back onto it.
    pub fn place_cursor(&mut self, cursor: i32)
        requires
            old(self).wf(),
            -1 <= cursor <= old(self)@.chars.len(),
        ensures
            final(self).wf(),
            final(self)@.chars == old(self)@.chars,
            final(self)@.cursor == if cursor > 0 && cursor >= old(self)@.chars.len() {
                old(self)@.chars.len() - 1
            } else {
                cursor as int
            },
    {
        self.cursor = cursor;
        if self.cursor > 0 && self.cursor as usize >= self.chars.len() {
            self.cursor = self.chars.len() as i32 - 1;
        }
    }

    /// Applies an input method event and says what changed.
    pub fn on_ime_event(&mut self, ev: ImeEvent) -> (r: EditResult)
        requires
            old(self).wf(),
            ime_ok(old(self)@, ev),
        ensures
            final(self).wf(),
            final(self)@ == spec_ime(old(self)@, ev),
            r.text_changed == (final(self)@ != old(self)@ || ev is Commit),
            r.caret_moved == r.text_changed,
    {
        match ev {
            ImeEvent::ReceivedCharacter(c) => {
                if !char_is_control(c) {
                    let idx = (self.cursor + 1) as usize;
                    self.chars.insert(idx, c);
                    self.cursor = self.cursor + 1;
                    EditResult { text_changed: true, caret_moved: true }
                } else {
                    EditResult { text_changed: false, caret_moved: false }
                }
            },
            ImeEvent::Commit(s) => {
                let new_chars = chars_of(s.as_str());
                let n = new_chars.len();
                if self.chars.len() == 0 {
                    self.chars = new_chars;
                } else {
                    let idx = (self.cursor + 1) as usize;
                    let ghost before = self.chars@;
                    let ghost cursor0 = self.cursor;
                    let mut k: usize = 0;
                    while k < n
                        invariant
                            n == new_chars.len(),
                            k <= n,
                            0 <= idx <= before.len(),
                            before.len() + n <= i32::MAX,
                            self.cursor == cursor0,
                            self.chars@ == before.take(idx as int) + new_chars@.take(k as int) + before.skip(
                                idx as int,
                            ),
                        decreases n - k,
                    {
                        let ghost prev = self.chars@;
                        self.chars.insert(idx + k, new_chars[k]);
                        proof {
                            assert(new_chars@.take(k + 1) =~= new_chars@.take(k as int).push(new_chars@[k as int]));
                            assert(self.chars@ =~= before.take(idx as int) + new_chars@.take(k + 1) + before.skip(
                                idx as int,
                            ));
                        }
                        k = k + 1;
                    }
                    proof {
                        assert(new_chars@.take(n as int) =~= new_chars@);
                    }
                }
                self.cursor = self.cursor + n as i32;
                EditResult { text_changed: true, caret_moved: true }
            },
        }
    }

    /// Applies a key press and says what changed.
    pub fn on_key(&mut self, key: EditKey) -> (r: EditResult)
        requires
            old(self).wf(),
            key_ok(old(self)@, key),
        ensures
            final(self).wf(),
            final(self)@ == spec_key(old(self)@, key),
            r.text_changed == (key == EditKey::Backspace && final(self)@ != old(self)@),
            r.caret_moved == (final(self)@ != old(self)@),
    {
        match key {
            EditKey::Backspace => {
                if self.cursor >= 0 && self.cursor as usize <= self.chars.len() {
                    self.chars.remove(self.cursor as usize);
                    self.cursor = self.cursor - 1;
                    EditResult { text_changed: true, caret_moved: true }
                } else {
                    EditResult { text_changed: false, caret_moved: false }
                }
            },
            EditKey::Left => {
                if self.cursor >= 0 {
                    self.cursor = self.cursor - 1;
                    EditResult { text_changed: false, caret_moved: true }
                } else {
                    EditResult { text_changed: false, caret_moved: false }
                }
            },
            EditKey::Right => {
                if self.cursor < self.chars.len() as i32 - 1 {
                    self.cursor = self.cursor + 1;
                    EditResult { text_changed: false, caret_moved: true }
                } else {
                    EditResult { text_changed: false, caret_moved: false }
                }
            },
            EditKey::Other => EditResult { text_changed: false, caret_moved: false },
        }
    }
}

impl InputTextCache {
    /// Applies the edits of a frame, one after the other.
    pub fn on_edits(&mut self, es: &Vec<EditEvent>)
        requires
            old(self).wf(),
            edits_ok(old(self)@, es@),
        ensures
            final(self).wf(),
            final(self)@ == spec_edits(old(self)@, es@),
    {
        let mut i: usize = 0;
        proof {
            assert(es@.skip(0) =~= es@);
        }
        while i < es.len()
            invariant
                i <= es.len(),
                self.wf(),
                edits_ok(self@, es@.skip(i as int)),
                spec_edits(old(self)@, es@) == spec_edits(self@, es@.skip(i as int)),
            decreases es.len() - i,
        {
            proof {
                assert(es@.skip(i as int).drop_first() =~= es@.skip(i + 1));
                assert(es@.skip(i as int)[0] == es@[i as int]);
            }
            match &es[i] {
                EditEvent::Ime(ImeEvent::ReceivedCharacter(c)) => {
                    self.on_ime_event(ImeEvent::ReceivedCharacter(*c));
                },
                EditEvent::Ime(ImeEvent::Commit(s)) => {
                    self.on_ime_event(ImeEvent::Commit(s.clone()));
                },
                EditEvent::Key(k) => {
                    self.on_key(*k);
                },
            }
            i = i + 1;
        }
    }
}

/// Backspace takes back a typed character: typing a character and then
/// pressing backspace leaves the text and the caret as they were.
pub proof fn lemma_backspace_undoes_typing(v: InputView, c: char)
    requires
        -1 <= v.cursor < v.chars.len(),
        !is_control_char(c),
    ensures
        spec_backspace(spec_receive(v, c)) == v,
{
    assert(spec_receive(v, c).chars.remove(v.cursor + 1) =~= v.chars);
}

/// The arrow keys undo each other: left then right, from a caret after a
/// character, and right then left, from a caret before the last character,
/// each come back to the same caret.
pub proof fn lemma_left_right_inverse(v: InputView)
    ensures
        0 <= v.cursor < v.chars.len() ==> spec_right(spec_left(v)) == v,
        -1 <= v.cursor < v.chars.len() - 1 ==> spec_left(spec_right(v)) == v,
{
}

/// Typing, backspace and the arrow keys keep the caret within the text.
pub proof fn lemma_edits_keep_caret_within(v: InputView, c: char, key: EditKey)
    requires
        caret_within(v),
    ensures
        caret_within(spec_receive(v, c)),
        caret_within(spec_key(v, key)),
{
}

/// Committing a string into a non-empty text keeps what was before and
/// after the caret around the inserted string, and the caret ends after it.
pub proof fn lemma_commit_keeps_surroundings(v: InputView, s: Seq<char>)
    requires
        caret_within(v),
        v.chars.len() > 0,
    ensures
        spec_commit(v, s).chars.len() == v.chars.len() + s.len(),
        spec_commit(v, s).chars.subrange(0, v.cursor + 1) == v.chars.subrange(0, v.cursor + 1),
        spec_commit(v, s).chars.subrange(v.cursor + 1, v.cursor + 1 + s.len()) == s,
        spec_commit(v, s).chars.skip(v.cursor + 1 + s.len()) == v.chars.skip(v.cursor + 1),
        spec_commit(v, s).cursor == v.cursor + s.len(),
{
    let w = spec_commit(v, s).chars;
    assert(w.subrange(0, v.cursor + 1) =~= v.chars.subrange(0, v.cursor + 1));
    assert(w.subrange(v.cursor + 1, v.cursor + 1 + s.len()) =~= s);
    assert(w.skip(v.cursor + 1 + s.len()) =~= v.chars.skip(v.cursor + 1));
}

} // verus!
