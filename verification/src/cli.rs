//! The command line: a buffer edited one key at a time, a bounded history of
//! submitted commands with recall, and the dispatch of a submitted line.

use crate::console::{joined, printed, Console};
use crate::input::{bit, edge_events, input_to_vec, is_key_down, pressed_keys, rising, Key};
use crate::queue::{
    commands_get, commands_is_full, commands_len, commands_new, commands_pop_back,
    commands_push_front, queued_commands, HISTORY_LEN,
};
use crate::text::{chars_of, is_white_space};
use fixed_queue::VecDeque;
use vstd::prelude::*;
use vstd::string::StringExecFns;

verus! {

/// What the console says of a command that begins with the reserved prefix.
pub const NOT_SUPPORTED: &'static str = "Running local executables not supported yet!";

/// The command line.
pub struct Cli {
    prev_input: u64,
    pub input_buf: String,
    pub console: Console,
    command_history: VecDeque<String, 32>,
    command_history_index: u8,
}

/// What a command line holds, as plain values.
pub struct CliState {
    /// The key-state mask of the last tick.
    pub prev_input: u64,
    /// The line being edited.
    pub buffer: Seq<char>,
    /// The lines of the console, oldest first.
    pub lines: Seq<Seq<char>>,
    /// The submitted commands, newest first.
    pub history: Seq<Seq<char>>,
    /// The scrollback index: 0 for the line being edited, `n` above 0 for
    /// the command at `n - 1` of the history.
    pub index: nat,
}

/// Whether a state is one that a command line can be in: the history is no
/// longer than it may be, and the scrollback index points at the line being
/// edited or at a command of the history.
pub open spec fn well_formed(s: CliState) -> bool {
    s.index <= s.history.len() <= HISTORY_LEN
}

/// The line that the console shows for a submitted command.
pub open spec fn echo(buffer: Seq<char>) -> Seq<char> {
    "> "@ + buffer
}

/// Whether a command begins with the prefix reserved for local commands.
pub open spec fn is_local(buffer: Seq<char>) -> bool {
    buffer.len() > 0 && buffer[0] == '.'
}

/// How many characters a text has before its first white space.
pub open spec fn word_len(s: Seq<char>) -> nat
    decreases s.len(),
{
    if s.len() == 0 || is_white_space(s.first()) {
        0
    } else {
        1 + word_len(s.drop_first())
    }
}

/// The program that a command names: what stands before its first white
/// space.
pub open spec fn program_name(buffer: Seq<char>) -> Seq<char> {
    buffer.take(word_len(buffer) as int)
}

/// The path of the program that a command names.
pub open spec fn program_path(buffer: Seq<char>) -> Seq<char> {
    "bin/"@ + program_name(buffer) + ".wasm"@
}

/// The history after `command` is submitted: the command goes to the front,
/// and the oldest command leaves if the history is full.
pub open spec fn remembered(history: Seq<Seq<char>>, command: Seq<char>) -> Seq<Seq<char>> {
    if history.len() >= HISTORY_LEN {
        seq![command] + history.drop_last()
    } else {
        seq![command] + history
    }
}

/// The state after the line being edited is submitted. An empty line changes
/// nothing. Any other line is remembered, echoed on the console and cleared,
/// and the scrollback index goes back to 0; a local command also gets the
/// notice that it is not supported.
pub open spec fn submitted(s: CliState) -> CliState {
    if s.buffer.len() == 0 {
        s
    } else {
        CliState {
            prev_input: s.prev_input,
            buffer: Seq::empty(),
            lines: if is_local(s.buffer) {
                printed(printed(s.lines, echo(s.buffer)), NOT_SUPPORTED@)
            } else {
                printed(s.lines, echo(s.buffer))
            },
            history: remembered(s.history, s.buffer),
            index: 0,
        }
    }
}

/// The program to start when the line being edited is submitted: the path of
/// the program it names, unless the line is empty or a local command.
pub open spec fn launch(s: CliState) -> Option<Seq<char>> {
    if s.buffer.len() > 0 && !is_local(s.buffer) {
        Some(program_path(s.buffer))
    } else {
        None
    }
}

/// The state after one key is pressed.
pub open spec fn keyed(s: CliState, key: Key, shift: bool) -> CliState {
    match key {
        Key::Back => CliState {
            buffer: if s.buffer.len() > 0 {
                s.buffer.drop_last()
            } else {
                s.buffer
            },
            ..s
        },
        Key::Return => submitted(s),
        Key::ArrowUp => CliState {
            index: if s.index < s.history.len() {
                s.index + 1
            } else {
                s.history.len()
            },
            ..s
        },
        Key::ArrowDown => if s.index > 0 {
            CliState { index: (s.index - 1) as nat, ..s }
        } else {
            CliState { buffer: Seq::empty(), ..s }
        },
        _ => match key.typed_char(shift) {
            Some(c) => CliState { buffer: s.buffer.push(c), ..s },
            None => s,
        },
    }
}

/// The state after a sequence of keys is pressed, in order.
pub open spec fn keyed_all(s: CliState, keys: Seq<Key>, shift: bool) -> CliState
    decreases keys.len(),
{
    if keys.len() == 0 {
        s
    } else {
        keyed(keyed_all(s, keys.drop_last(), shift), keys.last(), shift)
    }
}

/// The program to start after a sequence of keys is pressed: the one that the
/// last submitting key asks for.
pub open spec fn requested(s: CliState, keys: Seq<Key>, shift: bool) -> Option<Seq<char>>
    decreases keys.len(),
{
    if keys.len() == 0 {
        None
    } else {
        let before = keyed_all(s, keys.drop_last(), shift);
        if keys.last() == Key::Return && launch(before) is Some {
            launch(before)
        } else {
            requested(s, keys.drop_last(), shift)
        }
    }
}

/// The state with the command under the scrollback index copied into the line
/// being edited; nothing changes at index 0.
pub open spec fn recalled(s: CliState) -> CliState {
    if 0 < s.index <= s.history.len() {
        CliState { buffer: s.history[s.index - 1], ..s }
    } else {
        s
    }
}

/// The keys pressed on a tick that brings the mask `new_input`, in the order
/// in which they take effect.
pub open spec fn pressed_on_tick(s: CliState, new_input: u64) -> Seq<Key> {
    pressed_keys(rising(s.prev_input, new_input))
}

/// The state after a tick that brings the key-state mask `new_input`.
pub open spec fn ticked(s: CliState, new_input: u64) -> CliState {
    recalled(
        keyed_all(
            CliState { prev_input: new_input, ..s },
            pressed_on_tick(s, new_input),
            bit(new_input, Key::Shift.id()),
        ),
    )
}

/// The program to start after a tick that brings the mask `new_input`.
pub open spec fn requested_on_tick(s: CliState, new_input: u64) -> Option<Seq<char>> {
    requested(
        CliState { prev_input: new_input, ..s },
        pressed_on_tick(s, new_input),
        bit(new_input, Key::Shift.id()),
    )
}

/// The text of an optional string.
pub open spec fn text_of(s: Option<String>) -> Option<Seq<char>> {
    match s {
        Some(s) => Some(s@),
        None => None,
    }
}

impl View for Cli {
    type V = CliState;

    closed spec fn view(&self) -> CliState {
        CliState {
            prev_input: self.prev_input,
            buffer: self.input_buf@,
            lines: self.console@,
            history: queued_commands(self.command_history),
            index: self.command_history_index as nat,
        }
    }
}

impl Cli {
    /// The state of a new command line: nothing typed, printed or remembered,
    /// and no key held.
    pub open spec fn new_state() -> CliState {
        CliState {
            prev_input: 0,
            buffer: Seq::empty(),
            lines: Seq::empty(),
            history: Seq::empty(),
            index: 0,
        }
    }

    /// A command line with an empty buffer, console and history, and no key
    /// held.
    pub fn new() -> (cli: Cli)
        ensures
            cli@ == Cli::new_state(),
    {
        Cli {
            prev_input: 0,
            input_buf: String::new(),
            console: Console::new(),
            command_history: commands_new(),
            command_history_index: 0,
        }
    }

    /// Takes the key-state mask of a tick. The keys that went down since the
    /// last tick take effect in ascending order, then the command under the
    /// scrollback index, if it is not 0, replaces the line being edited.
    /// Returns the path of the program to start, if a command was submitted
    /// that names one.
    pub fn input(&mut self, new_input: u64) -> (request: Option<String>)
        ensures
            final(self)@ == ticked(old(self)@, new_input),
            text_of(request) == requested_on_tick(old(self)@, new_input),
            well_formed(old(self)@) ==> well_formed(final(self)@),
    {
        let pressed_input: u64 = edge_events(self.prev_input, new_input);
        self.prev_input = new_input;
        let pressed = input_to_vec(pressed_input);
        let shift: bool = is_key_down(new_input, Key::Shift);
        let ghost start = self@;
        let mut request: Option<String> = None;
        let mut i: usize = 0;
        while i < pressed.len()
            invariant
                i <= pressed@.len(),
                self@ == keyed_all(start, pressed@.take(i as int), shift),
                text_of(request) == requested(start, pressed@.take(i as int), shift),
                well_formed(start) ==> well_formed(self@),
            decreases pressed@.len() - i,
        {
            let key: Key = pressed[i];
            assert(pressed@.take(i + 1).drop_last() == pressed@.take(i as int));
            match key {
                Key::Back => {
                    let _ = self.input_buf.pop();
                },
                Key::Return => {
                    let asked = self.execute();
                    if asked.is_some() {
                        request = asked;
                    }
                },
                Key::ArrowUp => {
                    let len: usize = commands_len(&self.command_history);
                    if (self.command_history_index as usize) < len {
                        self.command_history_index = self.command_history_index + 1;
                    } else {
                        self.command_history_index = len as u8;
                    }
                },
                Key::ArrowDown => {
                    if self.command_history_index > 0 {
                        self.command_history_index = self.command_history_index - 1;
                    } else {
                        self.input_buf = String::new();
                    }
                },
                _ => {
                    if let Some(c) = key.if_letter_get(shift) {
                        self.input_buf.push(c);
                    }
                },
            }
            i += 1;
        }
        assert(pressed@.take(i as int) == pressed@);
        if self.command_history_index > 0 {
            if let Some(v) = commands_get(
                &self.command_history,
                (self.command_history_index - 1) as usize,
            ) {
                self.input_buf = v.clone();
            }
        }
        request
    }

    /// Submits the line being edited. An empty line is ignored. Any other
    /// line goes to the front of the history, is echoed on the console and is
    /// cleared. A local command gets the notice that it is not supported; for
    /// any other, the path of the program it names is returned, to be started.
    pub fn execute(&mut self) -> (request: Option<String>)
        ensures
            final(self)@ == submitted(old(self)@),
            text_of(request) == launch(old(self)@),
            well_formed(old(self)@) ==> well_formed(final(self)@),
    {
        if self.input_buf.as_str().is_empty() {
            return None;
        }
        if commands_is_full(&self.command_history) {
            let _ = commands_pop_back(&mut self.command_history);
        }
        let _ = commands_push_front(&mut self.command_history, self.input_buf.clone());
        self.command_history_index = 0;
        let mut line = String::from_str("> ");
        line.append(self.input_buf.as_str());
        self.console.print(line.as_str());
        let chars = chars_of(self.input_buf.as_str());
        let request = if chars[0] == '.' {
            self.console.print(NOT_SUPPORTED);
            None
        } else {
            let mut path = String::from_str("bin/");
            let mut n: usize = 0;
            assert(chars@.skip(0) == chars@);
            while n < chars.len() && !chars[n].is_whitespace()
                invariant
                    n <= chars@.len(),
                    n + word_len(chars@.skip(n as int)) == word_len(chars@),
                    path@ == "bin/"@ + chars@.take(n as int),
                decreases chars@.len() - n,
            {
                path.push(chars[n]);
                assert(chars@.skip(n as int).drop_first() == chars@.skip(n + 1));
                assert(chars@.take(n + 1) == chars@.take(n as int).push(chars@[n as int]));
                n += 1;
            }
            assert(word_len(chars@.skip(n as int)) == 0);
            path.append(".wasm");
            Some(path)
        };
        self.input_buf = String::new();
        request
    }

    /// The scrollback index: 0 for the line being edited, `n` above 0 for
    /// the command at `n - 1` of the history.
    pub fn scrollback_index(&self) -> (index: u8)
        ensures
            index == self@.index,
    {
        self.command_history_index
    }

    /// How many commands the history holds.
    pub fn history_len(&self) -> (len: usize)
        ensures
            len == self@.history.len(),
            len <= HISTORY_LEN,
    {
        commands_len(&self.command_history)
    }

    /// Prints the description of the failure to start a program.
    pub fn launch_failed(&mut self, description: &str)
        ensures
            final(self)@ == (CliState {
                lines: printed(old(self)@.lines, description@),
                ..old(self)@
            }),
    {
        self.console.print(description);
    }

    /// The line that shows what is being edited: the echo of the buffer,
    /// followed by the cursor.
    pub fn prompt(&self, cursor: char) -> (line: String)
        ensures
            line@ == echo(self@.buffer).push(cursor),
    {
        let mut line = String::from_str("> ");
        line.append(self.input_buf.as_str());
        line.push(cursor);
        line
    }

    /// Prints what the running program has written since the last tick, if
    /// anything, and returns the text of the console to lay out on the
    /// display.
    pub fn flush_to_display(&mut self, polled: Option<String>) -> (text: String)
        ensures
            final(self)@ == (CliState {
                lines: match polled {
                    Some(s) => printed(old(self)@.lines, s@),
                    None => old(self)@.lines,
                },
                ..old(self)@
            }),
            text@ == joined(final(self)@.lines),
    {
        if let Some(s) = polled {
            self.console.print(s.as_str());
        }
        self.console.flush_to_display()
    }
}

/// Submitting an empty line is no step at all: nothing is remembered,
/// printed or started.
pub proof fn lemma_empty_submit(s: CliState, shift: bool)
    requires
        s.buffer.len() == 0,
    ensures
        submitted(s) == s,
        launch(s) is None,
        keyed(s, Key::Return, shift) == s,
{
}

/// Submitting a command to a full history drops exactly the oldest command:
/// the history stays full, the new command stands first, and every other
/// command moves one place back. One press of the up arrow then recalls the
/// new command, at scrollback index 1.
pub proof fn lemma_submit_to_full_history(s: CliState, shift: bool)
    requires
        s.history.len() == HISTORY_LEN,
        s.buffer.len() > 0,
    ensures
        submitted(s).history.len() == HISTORY_LEN,
        submitted(s).history[0] == s.buffer,
        forall|i: int| 1 <= i < HISTORY_LEN ==> submitted(s).history[i] == s.history[i - 1],
        recalled(keyed(submitted(s), Key::ArrowUp, shift)).index == 1,
        recalled(keyed(submitted(s), Key::ArrowUp, shift)).buffer == s.buffer,
{
}

/// A submitted command is recalled by one press of the up arrow, whatever the
/// history held.
pub proof fn lemma_recall_last(s: CliState, shift: bool)
    requires
        s.buffer.len() > 0,
    ensures
        submitted(s).history.len() > 0,
        submitted(s).history[0] == s.buffer,
        recalled(keyed(submitted(s), Key::ArrowUp, shift)).index == 1,
        recalled(keyed(submitted(s), Key::ArrowUp, shift)).buffer == s.buffer,
{
}

/// The arrows at the ends of the scrollback: at index 0 the down arrow clears
/// the line being edited and stays at 0, and at the oldest command the up
/// arrow stays there. A well-formed state stays well formed under any key,
/// so that a recall never reads outside the history.
pub proof fn lemma_arrows(s: CliState, key: Key, shift: bool)
    ensures
        s.index == 0 ==> keyed(s, Key::ArrowDown, shift).buffer == Seq::<char>::empty() && keyed(
            s,
            Key::ArrowDown,
            shift,
        ).index == 0,
        s.index > 0 ==> keyed(s, Key::ArrowDown, shift).index == s.index - 1 && keyed(
            s,
            Key::ArrowDown,
            shift,
        ).buffer == s.buffer,
        s.index >= s.history.len() ==> keyed(s, Key::ArrowUp, shift).index == s.history.len(),
        s.index < s.history.len() ==> keyed(s, Key::ArrowUp, shift).index == s.index + 1,
        well_formed(s) ==> well_formed(keyed(s, key, shift)),
        well_formed(s) ==> well_formed(recalled(s)),
        well_formed(s) && s.index > 0 ==> recalled(s).buffer == s.history[s.index - 1],
{
}

/// A well-formed state stays well formed over a whole tick.
pub proof fn lemma_ticked_well_formed(s: CliState, new_input: u64)
    requires
        well_formed(s),
    ensures
        well_formed(ticked(s, new_input)),
{
    let start = CliState { prev_input: new_input, ..s };
    lemma_keyed_all_well_formed(
        start,
        pressed_on_tick(s, new_input),
        bit(new_input, Key::Shift.id()),
    );
}

/// A well-formed state stays well formed under any sequence of keys.
pub proof fn lemma_keyed_all_well_formed(s: CliState, keys: Seq<Key>, shift: bool)
    requires
        well_formed(s),
    ensures
        well_formed(keyed_all(s, keys, shift)),
    decreases keys.len(),
{
    if keys.len() > 0 {
        lemma_keyed_all_well_formed(s, keys.drop_last(), shift);
        lemma_arrows(keyed_all(s, keys.drop_last(), shift), keys.last(), shift);
    }
}

} // verus!
