//! The text console: a bounded scrollback of lines, word-wrapped at a fixed
//! column width, which drops its oldest lines to make room for new ones.

use crate::queue::{
    lines_clear, lines_get, lines_len, lines_new, lines_pop_front, lines_push_back, queued_lines,
    CONSOLE_LINES,
};
use crate::text::{fits, lemma_wrapped_fits, texts, wrap, wrapped};
use fixed_queue::VecDeque;
use vstd::prelude::*;
use vstd::string::StringExecFns;

verus! {

/// Number of characters in a console line.
pub const LINE_WIDTH: usize = 67;

/// The console. Its lines are kept oldest first.
pub struct Console {
    pub lines: VecDeque<String, 15>,
}

/// The last `capacity` of a sequence of lines.
pub open spec fn kept(lines: Seq<Seq<char>>, capacity: nat) -> Seq<Seq<char>> {
    if lines.len() <= capacity {
        lines
    } else {
        lines.skip(lines.len() - capacity)
    }
}

/// The lines of a console after `text` is printed on it: the lines that the
/// text takes come after those that were there, and of all of them the console
/// keeps the last `CONSOLE_LINES`.
pub open spec fn printed(lines: Seq<Seq<char>>, text: Seq<char>) -> Seq<Seq<char>> {
    kept(lines + wrapped(text, LINE_WIDTH as nat), CONSOLE_LINES as nat)
}

/// The text of a sequence of lines, each followed by a line break.
pub open spec fn joined(lines: Seq<Seq<char>>) -> Seq<char>
    decreases lines.len(),
{
    if lines.len() == 0 {
        Seq::empty()
    } else {
        joined(lines.drop_last()) + lines.last().push('\n')
    }
}

/// Whether a sequence of lines is what a console can show: no more lines than
/// it keeps, and each of them fits its width.
pub open spec fn well_formed(lines: Seq<Seq<char>>) -> bool {
    &&& lines.len() <= CONSOLE_LINES
    &&& forall|i: int| 0 <= i < lines.len() ==> fits(#[trigger] lines[i], LINE_WIDTH as nat)
}

impl View for Console {
    type V = Seq<Seq<char>>;

    open spec fn view(&self) -> Seq<Seq<char>> {
        queued_lines(self.lines)
    }
}

impl Console {
    /// A console with no lines.
    pub fn new() -> (console: Console)
        ensures
            console@ == Seq::<Seq<char>>::empty(),
    {
        Console { lines: lines_new() }
    }

    /// Drops every line.
    pub fn clear(&mut self)
        ensures
            final(self)@ == Seq::<Seq<char>>::empty(),
    {
        lines_clear(&mut self.lines);
    }

    /// How many lines the console holds.
    pub fn len(&self) -> (len: usize)
        ensures
            len == self@.len(),
            len <= CONSOLE_LINES,
    {
        lines_len(&self.lines)
    }

    /// The line at `index`, counted from the oldest.
    pub fn line(&self, index: usize) -> (line: Option<String>)
        ensures
            index < self@.len() ==> line is Some && line->0@ == self@[index as int],
            index >= self@.len() ==> line is None,
    {
        match lines_get(&self.lines, index) {
            Some(line) => Some(line.clone()),
            None => None,
        }
    }

    /// Prints `s`: its lines are added after those the console holds. Before
    /// that, the oldest lines leave until the new ones have room; where the
    /// text alone has more lines than the console keeps, its own first lines
    /// leave as the later ones come in.
    pub fn print(&mut self, s: &str)
        ensures
            final(self)@ == printed(old(self)@, s@),
            final(self)@.len() <= CONSOLE_LINES,
            well_formed(old(self)@) ==> well_formed(final(self)@),
    {
        proof {
            lemma_printed(self@, s@);
        }
        let split = wrap(s, LINE_WIDTH);
        self.append(&split);
    }

    /// Adds lines after those the console holds, as they are: of the old
    /// lines followed by the new, the console keeps the last `CONSOLE_LINES`.
    /// The oldest lines leave first, until the new ones have room; where
    /// there are more new lines than the console keeps, the first of them
    /// leave as the later ones come in.
    pub fn append(&mut self, lines: &Vec<String>)
        ensures
            final(self)@ == kept(old(self)@ + texts(lines@), CONSOLE_LINES as nat),
            final(self)@.len() <= CONSOLE_LINES,
    {
        let room: usize = if lines.len() >= CONSOLE_LINES {
            0
        } else {
            CONSOLE_LINES - lines.len()
        };
        let ghost before = self@;
        let ghost incoming = texts(lines@);
        let ghost mut gone: int = 0;
        while lines_len(&self.lines) > room
            invariant
                0 <= gone <= before.len(),
                self@ == before.skip(gone),
                gone > 0 ==> self@.len() >= room,
            decreases self@.len(),
        {
            let _ = lines_pop_front(&mut self.lines);
            proof {
                assert(before.skip(gone).drop_first() == before.skip(gone + 1));
                gone = gone + 1;
            }
        }
        let ghost base = self@;
        let mut i: usize = 0;
        while i < lines.len()
            invariant
                i <= lines@.len(),
                incoming == texts(lines@),
                base.len() <= CONSOLE_LINES,
                self@ == kept(base + incoming.take(i as int), CONSOLE_LINES as nat),
            decreases lines@.len() - i,
        {
            let ghost held = base + incoming.take(i as int);
            if lines_len(&self.lines) >= CONSOLE_LINES {
                let _ = lines_pop_front(&mut self.lines);
            }
            let _ = lines_push_back(&mut self.lines, lines[i].clone());
            assert(base + incoming.take(i + 1) == held.push(incoming[i as int]));
            i += 1;
        }
        assert(incoming.take(i as int) == incoming);
        assert(kept(base + incoming, CONSOLE_LINES as nat) == kept(
            before + incoming,
            CONSOLE_LINES as nat,
        ));
    }

    /// The text to lay out on the display: every line of the console, oldest
    /// first, each followed by a line break.
    pub fn flush_to_display(&self) -> (text: String)
        ensures
            text@ == joined(self@),
    {
        let mut text = String::new();
        let count: usize = lines_len(&self.lines);
        let mut i: usize = 0;
        while i < count
            invariant
                i <= count == self@.len(),
                text@ == joined(self@.take(i as int)),
            decreases count - i,
        {
            if let Some(line) = lines_get(&self.lines, i) {
                assert(self@.take(i + 1).drop_last() == self@.take(i as int));
                text.append(line.as_str());
                text.push('\n');
            }
            i += 1;
        }
        assert(self@.take(i as int) == self@);
        text
    }
}

/// Printing never leaves more lines than the console keeps, and keeps a
/// well-formed console well formed. What leaves is the oldest: the console
/// then holds the end of the old lines followed by the new ones, and all of
/// them where they fit together.
pub proof fn lemma_printed(lines: Seq<Seq<char>>, text: Seq<char>)
    ensures
        printed(lines, text).len() <= CONSOLE_LINES,
        well_formed(lines) ==> well_formed(printed(lines, text)),
        lines.len() + wrapped(text, LINE_WIDTH as nat).len() <= CONSOLE_LINES ==> printed(
            lines,
            text,
        ) == lines + wrapped(text, LINE_WIDTH as nat),
        printed(lines, text) == (lines + wrapped(text, LINE_WIDTH as nat)).skip(
            (lines + wrapped(text, LINE_WIDTH as nat)).len() - printed(lines, text).len(),
        ),
{
    let incoming = wrapped(text, LINE_WIDTH as nat);
    let all = lines + incoming;
    lemma_wrapped_fits(text, LINE_WIDTH as nat);
    if well_formed(lines) {
        assert forall|i: int| 0 <= i < all.len() implies fits(#[trigger] all[i], LINE_WIDTH as nat) by {
            if i >= lines.len() {
                assert(all[i] == incoming[i - lines.len()]);
            }
        }
    }
}

} // verus!
