//! The session: the state machine that decides, tick by tick, what runs and
//! what is drawn, and the step that publishes the framebuffer.

use crate::cli::{echo, requested_on_tick, text_of, ticked, Cli, CliState};
use crate::console::printed;
use crate::display::Display;
use crate::BUFFER_LEN;
use vstd::prelude::*;

verus! {

/// How long the splashscreen stays, in microseconds: four and a half seconds.
pub const SPLASH_MICROS: u64 = 4_500_000;

/// One second, in microseconds.
pub const SECOND_MICROS: u64 = 1_000_000;

/// Where a session stands.
#[derive(Debug, Copy, Clone, PartialEq, Eq, Structural)]
pub enum State {
    Init,
    Splashscreen,
    CommandLineInterface,
}

/// A program that the host has started.
pub struct Program {
    pub id: u64,
    wasm_bytes: Vec<u8>,
}

/// What is to be drawn on the framebuffer for a tick.
pub enum Scene {
    /// Nothing; the framebuffer is left as it was.
    Blank,
    /// The splashscreen image, on a cleared framebuffer.
    Splash,
    /// The console and, on the bottom line, `prompt`, on a cleared
    /// framebuffer.
    Terminal { prompt: String },
}

/// The session.
pub struct Os {
    input: u64,
    total_time: u64,
    state: State,
    splash: bool,
    pub display: Display,
    pub cli: Cli,
    pub running_program: Option<Program>,
}

/// What a session holds, as plain values.
pub struct OsState {
    /// The key-state mask of the last tick.
    pub input: u64,
    /// The time that has passed, in microseconds.
    pub total_time: u64,
    /// Where the session stands.
    pub state: State,
    /// Whether the session shows the splashscreen before the command line.
    pub splash: bool,
    /// The framebuffer.
    pub display: Seq<u8>,
    /// The command line.
    pub cli: CliState,
    /// The program that runs, if any.
    pub running_program: Option<Program>,
}

/// The time after `delta` more microseconds; it stops at the largest value
/// that can be held.
pub open spec fn later(total_time: u64, delta: u64) -> u64 {
    if total_time + delta > u64::MAX {
        u64::MAX
    } else {
        (total_time + delta) as u64
    }
}

/// The state that follows `state` once the time stands at `total_time`. The
/// first tick leaves `Init`, for the splashscreen if the session has one and
/// for the command line if not; the splashscreen gives way to the command
/// line once it has been up for more than `SPLASH_MICROS`; the command line
/// stays.
pub open spec fn next_state(state: State, splash: bool, total_time: u64) -> State {
    match state {
        State::Init => if splash {
            State::Splashscreen
        } else {
            State::CommandLineInterface
        },
        State::Splashscreen => if total_time > SPLASH_MICROS {
            State::CommandLineInterface
        } else {
            State::Splashscreen
        },
        State::CommandLineInterface => State::CommandLineInterface,
    }
}

/// The cursor at a time: an underscore in the second half of each second, a
/// blank in the first.
pub open spec fn cursor_at(total_time: u64) -> char {
    if total_time % SECOND_MICROS > SECOND_MICROS / 2 {
        '_'
    } else {
        ' '
    }
}

impl Program {
    /// The handle that the host gave for the program.
    pub closed spec fn handle(&self) -> u64 {
        self.id
    }

    /// The bytes of the program.
    pub closed spec fn bytes(&self) -> Seq<u8> {
        self.wasm_bytes@
    }

    /// A started program: the handle that the host gave, and the bytes that
    /// were loaded.
    pub fn new(id: u64, wasm_bytes: Vec<u8>) -> (program: Program)
        ensures
            program.handle() == id,
            program.bytes() == wasm_bytes@,
    {
        Program { id, wasm_bytes }
    }
}

impl View for Os {
    type V = OsState;

    closed spec fn view(&self) -> OsState {
        OsState {
            input: self.input,
            total_time: self.total_time,
            state: self.state,
            splash: self.splash,
            display: self.display@,
            cli: self.cli@,
            running_program: self.running_program,
        }
    }
}

impl Os {
    /// A session that goes from `Init` straight to the command line.
    pub fn new() -> (os: Os)
        ensures
            os@.input == 0,
            os@.total_time == 0,
            os@.state == State::Init,
            !os@.splash,
            os@.display == Seq::new(BUFFER_LEN as nat, |i: int| 0u8),
            os@.cli == Cli::new_state(),
            os@.running_program is None,
    {
        Os {
            input: 0,
            total_time: 0,
            state: State::Init,
            splash: false,
            display: Display::new(),
            cli: Cli::new(),
            running_program: None,
        }
    }

    /// A session that shows the splashscreen before the command line.
    pub fn with_splashscreen() -> (os: Os)
        ensures
            os@.input == 0,
            os@.total_time == 0,
            os@.state == State::Init,
            os@.splash,
            os@.display == Seq::new(BUFFER_LEN as nat, |i: int| 0u8),
            os@.cli == Cli::new_state(),
            os@.running_program is None,
    {
        Os {
            input: 0,
            total_time: 0,
            state: State::Init,
            splash: true,
            display: Display::new(),
            cli: Cli::new(),
            running_program: None,
        }
    }

    /// Where the session stands.
    pub fn state(&self) -> (state: State)
        ensures
            state == self@.state,
    {
        self.state
    }

    /// The time that has passed, in microseconds.
    pub fn total_time(&self) -> (total_time: u64)
        ensures
            total_time == self@.total_time,
    {
        self.total_time
    }

    /// Leaves `Init` for the state that the session starts in.
    pub fn initialize(&mut self)
        ensures
            final(self)@ == (OsState {
                state: if old(self)@.splash {
                    State::Splashscreen
                } else {
                    State::CommandLineInterface
                },
                ..old(self)@
            }),
    {
        if self.splash {
            self.state = State::Splashscreen;
        } else {
            self.state = State::CommandLineInterface;
        }
    }

    /// Takes the key-state mask of a tick and hands it to the command line.
    /// Returns the path of the program to start, if a command was submitted
    /// that names one.
    pub fn update_input(&mut self, input: u64) -> (request: Option<String>)
        ensures
            final(self)@ == (OsState {
                input,
                cli: ticked(old(self)@.cli, input),
                ..old(self)@
            }),
            text_of(request) == requested_on_tick(old(self)@.cli, input),
    {
        self.input = input;
        self.cli.input(self.input)
    }

    /// Lets `delta` microseconds pass, and moves to the next state where it
    /// is due.
    pub fn update(&mut self, delta: u64)
        ensures
            final(self)@ == (OsState {
                total_time: later(old(self)@.total_time, delta),
                state: next_state(
                    old(self)@.state,
                    old(self)@.splash,
                    later(old(self)@.total_time, delta),
                ),
                ..old(self)@
            }),
    {
        self.total_time = self.total_time.saturating_add(delta);
        match self.state {
            State::Init => self.initialize(),
            State::Splashscreen => if self.total_time > SPLASH_MICROS {
                self.state = State::CommandLineInterface;
            },
            _ => {},
        }
    }

    /// Prepares the framebuffer for the tick and says what is to be drawn on
    /// it. The splashscreen and the command line are drawn on a cleared
    /// framebuffer; in `Init` nothing is drawn and nothing is cleared.
    pub fn draw(&mut self) -> (scene: Scene)
        ensures
            final(self)@ == (OsState {
                display: if old(self)@.state == State::Init {
                    old(self)@.display
                } else {
                    Seq::new(BUFFER_LEN as nat, |i: int| 0u8)
                },
                ..old(self)@
            }),
            match old(self)@.state {
                State::Init => scene is Blank,
                State::Splashscreen => scene is Splash,
                State::CommandLineInterface => scene is Terminal && scene->prompt@ == echo(
                    old(self)@.cli.buffer,
                ).push(cursor_at(old(self)@.total_time)),
            },
    {
        match self.state {
            State::Splashscreen => {
                self.display.clear_black();
                Scene::Splash
            },
            State::CommandLineInterface => {
                self.display.clear_black();
                let cursor: char = if self.total_time % SECOND_MICROS > SECOND_MICROS / 2 {
                    '_'
                } else {
                    ' '
                };
                Scene::Terminal { prompt: self.cli.prompt(cursor) }
            },
            _ => Scene::Blank,
        }
    }

    /// Publishes the framebuffer: copies it into the shared surface, if the
    /// surface could be had for this tick, and skips the copy if not. Says
    /// whether the copy was made.
    pub fn publish(&self, surface: Option<&mut [u8]>) -> (published: bool)
        requires
            surface matches Some(dest) ==> dest@.len() == BUFFER_LEN,
        ensures
            published == surface is Some,
            surface matches Some(dest) ==> final(dest)@ == self@.display,
    {
        match surface {
            Some(dest) => {
                self.display.flush(dest);
                true
            },
            None => false,
        }
    }

    /// Takes what came of starting a program: the program runs from now on,
    /// or the description of the failure is printed on the console.
    pub fn start_program(&mut self, started: Result<Program, String>) -> (done: Result<(), String>)
        ensures
            match started {
                Ok(program) => done is Ok && final(self)@ == (OsState {
                    running_program: Some(program),
                    ..old(self)@
                }),
                Err(description) => done == Err::<(), String>(description) && final(self)@ == (
                OsState {
                    cli: CliState {
                        lines: printed(old(self)@.cli.lines, description@),
                        ..old(self)@.cli
                    },
                    ..old(self)@
                }),
            },
    {
        match started {
            Ok(program) => {
                self.running_program = Some(program);
                Ok(())
            },
            Err(description) => {
                self.cli.launch_failed(description.as_str());
                Err(description)
            },
        }
    }
}

/// How far along a state is.
pub open spec fn rank(state: State) -> int {
    match state {
        State::Init => 0,
        State::Splashscreen => 1,
        State::CommandLineInterface => 2,
    }
}

/// A session never goes back: `Init` is left on the first tick and never
/// entered again, the splashscreen is left only for the command line, and
/// only once its time is up, and the command line is never left.
pub proof fn lemma_next_state(state: State, splash: bool, total_time: u64)
    ensures
        next_state(state, splash, total_time) != State::Init,
        rank(next_state(state, splash, total_time)) >= rank(state),
        state == State::CommandLineInterface ==> next_state(state, splash, total_time)
            == State::CommandLineInterface,
        state == State::Splashscreen ==> (next_state(state, splash, total_time)
            == State::CommandLineInterface <==> total_time > SPLASH_MICROS),
        next_state(state, splash, total_time) == State::Splashscreen ==> splash || state
            == State::Splashscreen,
{
}

/// Time never runs backwards.
pub proof fn lemma_later(total_time: u64, delta: u64)
    ensures
        later(total_time, delta) >= total_time,
        total_time + delta <= u64::MAX ==> later(total_time, delta) == total_time + delta,
{
}

} // verus!
