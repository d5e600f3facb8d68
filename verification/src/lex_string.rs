//! A character cursor over a source text that tracks the line and column of
//! what it has consumed and can look ahead without consuming.
use vstd::prelude::*;
use crate::text::{char_is_whitespace, chars_of, is_white_space, string_from_chars};

verus! {

/// A line and column in a source text. Lines count from 1; the column is the
/// number of characters consumed on the current line.
#[derive(Debug, Clone, Copy)]
pub struct Position {
    pub line: u64,
    pub column: u64,
}

impl Default for Position {
    fn default() -> (p: Self)
        ensures
            p.line == 1,
            p.column == 0,
    {
        Position { line: 1, column: 0 }
    }
}

/// Number of line feeds in `s`.
pub open spec fn newline_count(s: Seq<char>) -> nat
    decreases s.len(),
{
    if s.len() == 0 {
        0
    } else {
        newline_count(s.drop_last()) + if s.last() == '\n' { 1nat } else { 0nat }
    }
}

/// Number of characters after the last line feed of `s` (all of them if
/// there is none).
pub open spec fn column_after(s: Seq<char>) -> nat
    decreases s.len(),
{
    if s.len() == 0 {
        0
    } else if s.last() == '\n' {
        0
    } else {
        column_after(s.drop_last()) + 1
    }
}

/// The position reached after consuming `s` from the start of a text.
pub open spec fn position_after(s: Seq<char>) -> (nat, nat) {
    (1 + newline_count(s), column_after(s))
}

/// The first index `j >= i` at which `s[j]` is a stop character (one of
/// `stops`, or any white space when `ws` holds), or the end of `s`.
pub open spec fn scan_end(s: Seq<char>, i: int, stops: Seq<char>, ws: bool) -> int
    decreases s.len() - i,
{
    if i < 0 || i >= s.len() || stops.contains(s[i]) || (ws && is_white_space(s[i])) {
        i
    } else {
        scan_end(s, i + 1, stops, ws)
    }
}

/// The first index `j >= i` at which `s[j]` is white space, or the end of `s`.
pub open spec fn skip_non_white(s: Seq<char>, i: int) -> int
    decreases s.len() - i,
{
    if i < 0 || i >= s.len() || is_white_space(s[i]) {
        i
    } else {
        skip_non_white(s, i + 1)
    }
}

/// The first index `j >= i` at which `s[j]` is not white space, or the end of
/// `s`.
pub open spec fn skip_white_space(s: Seq<char>, i: int) -> int
    decreases s.len() - i,
{
    if i < 0 || i >= s.len() || !is_white_space(s[i]) {
        i
    } else {
        skip_white_space(s, i + 1)
    }
}

/// What `lookahead(count)` sees at cursor `i`: the character `count - 1`
/// places ahead, where `count == 0` names the character just consumed.
pub open spec fn peek_at(s: Seq<char>, i: int, count: int) -> Option<char> {
    let k = i + count - 1;
    if 0 <= k < s.len() {
        Some(s[k])
    } else {
        None
    }
}

pub proof fn lemma_position_step(s: Seq<char>, i: int)
    requires
        0 <= i < s.len(),
    ensures
        newline_count(s.take(i + 1)) == newline_count(s.take(i)) + if s[i] == '\n' { 1nat } else { 0nat },
        column_after(s.take(i + 1)) == if s[i] == '\n' { 0 } else { column_after(s.take(i)) + 1 },
        newline_count(s.take(i)) <= i,
        column_after(s.take(i)) <= i,
{
    assert(s.take(i + 1).drop_last() =~= s.take(i));
    lemma_counts_bounded(s.take(i));
}

pub proof fn lemma_counts_bounded(s: Seq<char>)
    ensures
        newline_count(s) <= s.len(),
        column_after(s) <= s.len(),
    decreases s.len(),
{
    if s.len() > 0 {
        lemma_counts_bounded(s.drop_last());
    }
}

/// A cursor over the characters of a source text. It holds the whole text;
/// `back_cache_count`, the size of a look-behind window, limits nothing,
/// since every character stays in view.
pub struct LexString {
    source: Vec<char>,
    pos: Position,
    cur_index: usize,
    back_cache_count: usize,
}

impl LexString {
    /// The characters of the text.
    pub closed spec fn chars(&self) -> Seq<char> {
        self.source@
    }

    /// How many characters have been consumed.
    pub closed spec fn index(&self) -> int {
        self.cur_index as int
    }

    /// The position reached so far.
    pub closed spec fn pos(&self) -> Position {
        self.pos
    }

    /// The look-behind bound the cursor was made with.
    pub closed spec fn back_cache(&self) -> usize {
        self.back_cache_count
    }

    /// The cursor lies within the text and its position is the line and
    /// column reached by consuming the text up to it.
    pub closed spec fn wf(&self) -> bool {
        &&& self.cur_index <= self.source.len()
        &&& self.source.len() < usize::MAX
        &&& self.pos.line == 1 + newline_count(self.source@.take(self.cur_index as int))
        &&& self.pos.column == column_after(self.source@.take(self.cur_index as int))
    }

    pub proof fn lemma_wf(&self)
        requires
            self.wf(),
        ensures
            0 <= self.index() <= self.chars().len(),
            self.chars().len() < usize::MAX,
            self.pos().line == position_after(self.chars().take(self.index())).0,
            self.pos().column == position_after(self.chars().take(self.index())).1,
    {
    }

    /// A cursor at the start of `string`.
    pub fn new(string: &str, back_cache_count: usize) -> (lex: LexString)
        requires
            string@.len() < usize::MAX,
        ensures
            lex.wf(),
            lex.chars() == string@,
            lex.index() == 0,
            lex.back_cache() == back_cache_count,
            lex.pos() == (Position { line: 1, column: 0 }),
    {
        let source = chars_of(string);
        proof {
            assert(source@.take(0) =~= Seq::<char>::empty());
        }
        LexString { source, pos: Position::default(), cur_index: 0, back_cache_count }
    }

    /// Consumes and returns the next character, or returns `None` at the end
    /// of the text. A line feed starts a new line; any other character moves
    /// one column on.
    pub fn next(&mut self) -> (c: Option<char>)
        requires
            old(self).wf(),
        ensures
            final(self).wf(),
            final(self).chars() == old(self).chars(),
            final(self).back_cache() == old(self).back_cache(),
            old(self).index() < old(self).chars().len() ==> {
                &&& c == Some(old(self).chars()[old(self).index()])
                &&& final(self).index() == old(self).index() + 1
            },
            old(self).index() >= old(self).chars().len() ==> {
                &&& c.is_none()
                &&& final(self).index() == old(self).index()
                &&& final(self).pos() == old(self).pos()
            },
    {
        if self.cur_index < self.source.len() {
            let chr = self.source[self.cur_index];
            proof {
                lemma_position_step(self.source@, self.cur_index as int);
            }
            if chr == '\n' {
                self.pos.line = self.pos.line + 1;
                self.pos.column = 0;
            } else {
                self.pos.column = self.pos.column + 1;
            }
            self.cur_index = self.cur_index + 1;
            Some(chr)
        } else {
            None
        }
    }

    /// The position reached so far.
    pub fn position(&self) -> (p: Position)
        ensures
            p == self.pos(),
    {
        self.pos
    }

    /// The character `count - 1` places ahead of the cursor, without
    /// consuming anything: `lookahead(1)` is the character `next` would
    /// return. `lookahead(0)` is the character consumed last.
    pub fn lookahead(&mut self, count: usize) -> (c: Option<char>)
        requires
            old(self).wf(),
        ensures
            *final(self) == *old(self),
            c == peek_at(old(self).chars(), old(self).index(), count as int),
    {
        let len = self.source.len();
        if count == 0 {
            if self.cur_index == 0 {
                None
            } else {
                Some(self.source[self.cur_index - 1])
            }
        } else if count - 1 < len - self.cur_index {
            Some(self.source[self.cur_index + (count - 1)])
        } else {
            None
        }
    }

    /// Consumes white space up to the next other character or the end.
    pub fn skip_whitespace(&mut self)
        requires
            old(self).wf(),
        ensures
            final(self).wf(),
            final(self).chars() == old(self).chars(),
            final(self).back_cache() == old(self).back_cache(),
            final(self).index() == skip_white_space(old(self).chars(), old(self).index()),
    {
        while self.cur_index < self.source.len()
            invariant
                self.wf(),
                self.chars() == old(self).chars(),
                self.back_cache() == old(self).back_cache(),
                old(self).index() <= self.index(),
                skip_white_space(self.chars(), self.index()) == skip_white_space(
                    old(self).chars(),
                    old(self).index(),
                ),
            ensures
                skip_white_space(self.chars(), self.index()) == self.index(),
            decreases self.source.len() - self.cur_index,
        {
            let chr = self.source[self.cur_index];
            if char_is_whitespace(chr) {
                self.next();
            } else {
                break;
            }
        }
    }

    /// Consumes characters up to the next white space or the end.
    pub fn skip_until_whitespace(&mut self)
        requires
            old(self).wf(),
        ensures
            final(self).wf(),
            final(self).chars() == old(self).chars(),
            final(self).back_cache() == old(self).back_cache(),
            final(self).index() == skip_non_white(old(self).chars(), old(self).index()),
    {
        while self.cur_index < self.source.len()
            invariant
                self.wf(),
                self.chars() == old(self).chars(),
                self.back_cache() == old(self).back_cache(),
                skip_non_white(self.chars(), self.index()) == skip_non_white(
                    old(self).chars(),
                    old(self).index(),
                ),
            ensures
                skip_non_white(self.chars(), self.index()) == self.index(),
            decreases self.source.len() - self.cur_index,
        {
            let chr = self.source[self.cur_index];
            if char_is_whitespace(chr) {
                break;
            } else {
                self.next();
            }
        }
    }

    /// Consumes the characters up to the first stop character (one of
    /// `stops`, or white space when `stop_at_white` holds) or the end, and
    /// returns them; returns `None`, consuming nothing, when there are none.
    pub fn take_while(&mut self, stops: &Vec<char>, stop_at_white: bool) -> (taken: Option<String>)
        requires
            old(self).wf(),
        ensures
            final(self).wf(),
            final(self).chars() == old(self).chars(),
            final(self).back_cache() == old(self).back_cache(),
            final(self).index() == scan_end(old(self).chars(), old(self).index(), stops@, stop_at_white),
            match taken {
                Some(t) => {
                    &&& old(self).index() < final(self).index()
                    &&& t@ == old(self).chars().subrange(old(self).index(), final(self).index())
                },
                None => final(self).index() == old(self).index(),
            },
    {
        let start = self.cur_index;
        while self.cur_index < self.source.len()
            invariant
                self.wf(),
                self.chars() == old(self).chars(),
                self.back_cache() == old(self).back_cache(),
                start == old(self).index() <= self.index(),
                scan_end(self.chars(), self.index(), stops@, stop_at_white) == scan_end(
                    old(self).chars(),
                    old(self).index(),
                    stops@,
                    stop_at_white,
                ),
            ensures
                scan_end(self.chars(), self.index(), stops@, stop_at_white) == self.index(),
            decreases self.source.len() - self.cur_index,
        {
            let chr = self.source[self.cur_index];
            if contains_char(stops, chr) || (stop_at_white && char_is_whitespace(chr)) {
                break;
            }
            self.next();
        }
        if self.cur_index == start {
            None
        } else {
            Some(string_from_chars(&self.source, start, self.cur_index))
        }
    }
}

/// Whether `c` occurs in `v`.
pub fn contains_char(v: &Vec<char>, c: char) -> (r: bool)
    ensures
        r == v@.contains(c),
{
    let mut i: usize = 0;
    while i < v.len()
        invariant
            i <= v.len(),
            forall|j: int| 0 <= j < i ==> v@[j] != c,
        decreases v.len() - i,
    {
        if v[i] == c {
            return true;
        }
        i = i + 1;
    }
    false
}


/// A read on a [`LexString`]: consume a character, or look ahead.
#[derive(Debug, Clone, Copy, PartialEq, Eq)]
pub enum LexRead {
    Next,
    Lookahead(usize),
}

/// How many of `reads` consume a character.
pub open spec fn count_next(reads: Seq<LexRead>) -> nat
    decreases reads.len(),
{
    if reads.len() == 0 {
        0
    } else {
        count_next(reads.drop_last()) + if reads.last() == LexRead::Next { 1nat } else { 0nat }
    }
}

/// The character at `k` of `s`, if there is one.
pub open spec fn char_at(s: Seq<char>, k: int) -> Option<char> {
    if 0 <= k < s.len() {
        Some(s[k])
    } else {
        None
    }
}

impl LexString {
    /// Performs `reads` in order and returns what each `next` among them
    /// gave. Whatever the look-aheads in between, the `next`s hand out the
    /// characters of the text in order from the cursor, then `None`.
    pub fn replay(&mut self, reads: &Vec<LexRead>) -> (got: Vec<Option<char>>)
        requires
            old(self).wf(),
        ensures
            final(self).wf(),
            final(self).chars() == old(self).chars(),
            got@.len() == count_next(reads@),
            forall|k: int| 0 <= k < got@.len() ==> #[trigger] got@[k] == char_at(old(self).chars(), old(self).index() + k),
            final(self).index() == if old(self).index() + count_next(reads@) <= old(self).chars().len() {
                old(self).index() + count_next(reads@)
            } else {
                old(self).chars().len() as int
            },
    {
        let ghost i0 = self.index();
        let ghost text = self.chars();
        let mut got: Vec<Option<char>> = Vec::new();
        let mut j: usize = 0;
        proof {
            assert(reads@.take(0) =~= Seq::<LexRead>::empty());
            self.lemma_wf();
        }
        while j < reads.len()
            invariant
                j <= reads.len(),
                self.wf(),
                self.chars() == text,
                0 <= i0 <= text.len(),
                got@.len() == count_next(reads@.take(j as int)),
                forall|k: int| 0 <= k < got@.len() ==> #[trigger] got@[k] == char_at(text, i0 + k),
                self.index() == if i0 + count_next(reads@.take(j as int)) <= text.len() {
                    i0 + count_next(reads@.take(j as int))
                } else {
                    text.len() as int
                },
            decreases reads.len() - j,
        {
            proof {
                assert(reads@.take(j + 1).drop_last() =~= reads@.take(j as int));
                assert(reads@.take(j + 1).last() == reads@[j as int]);
            }
            match reads[j] {
                LexRead::Next => {
                    let c = self.next();
                    got.push(c);
                },
                LexRead::Lookahead(count) => {
                    self.lookahead(count);
                },
            }
            j = j + 1;
        }
        proof {
            assert(reads@.take(reads.len() as int) =~= reads@);
        }
        got
    }
}

} // verus!
