//! The interactive session: one tape and output buffer that live across
//! lines, each line a command or a program of its own.
use vstd::prelude::*;

use crate::compiler::{compile, raw_code_to_token_vec};
use crate::errors::MyError;
use crate::interpreter::{run_spec, step_spec, supply_spec, Event, Machine, MachineView};
use crate::io::{line_value, trim, trim_of, OutputMode};
use crate::memory::MemoryView;

verus! {

/// What a trimmed session line asks for.
#[derive(Clone, Copy, Debug, PartialEq, Eq, Structural)]
pub enum ReplCommand {
    /// `exit`: end the session.
    Exit,
    /// `clear`: back to one zero cell and an empty output buffer.
    Clear,
    /// `v`: trace each instruction.
    Verbose,
    /// `uv`: stop tracing.
    Quiet,
    /// `?` or `help`: show the commands.
    Help,
    /// Anything else: a program, now loaded.
    Code,
}

/// The command that trimmed line `t` names.
pub open spec fn command_of(t: Seq<char>) -> ReplCommand {
    if t == seq!['e', 'x', 'i', 't'] {
        ReplCommand::Exit
    } else if t == seq!['c', 'l', 'e', 'a', 'r'] {
        ReplCommand::Clear
    } else if t == seq!['v'] {
        ReplCommand::Verbose
    } else if t == seq!['u', 'v'] {
        ReplCommand::Quiet
    } else if t == seq!['?'] || t == seq!['h', 'e', 'l', 'p'] {
        ReplCommand::Help
    } else {
        ReplCommand::Code
    }
}

/// Whether `s` is the word `w`.
fn is_word(s: &str, w: &[char]) -> (r: bool)
    ensures
        r == (s@ == w@),
{
    let n = s.unicode_len();
    if n != w.len() {
        return false;
    }
    let mut i: usize = 0;
    while i < n
        invariant
            n == s@.len(),
            n == w@.len(),
            i <= n,
            forall|k: int| 0 <= k < i ==> s@[k] == w@[k],
        decreases n - i,
    {
        if s.get_char(i) != w[i] {
            return false;
        }
        i = i + 1;
    }
    assert(s@ =~= w@);
    true
}

/// The command that trimmed line `t` names.
pub fn command(t: &str) -> (r: ReplCommand)
    ensures
        r == command_of(t@),
{
    let exit = ['e', 'x', 'i', 't'];
    let clear = ['c', 'l', 'e', 'a', 'r'];
    let verbose = ['v'];
    let quiet = ['u', 'v'];
    let question = ['?'];
    let help = ['h', 'e', 'l', 'p'];
    assert(exit@ =~= seq!['e', 'x', 'i', 't']);
    assert(clear@ =~= seq!['c', 'l', 'e', 'a', 'r']);
    assert(verbose@ =~= seq!['v']);
    assert(quiet@ =~= seq!['u', 'v']);
    assert(question@ =~= seq!['?']);
    assert(help@ =~= seq!['h', 'e', 'l', 'p']);
    if is_word(t, exit.as_slice()) {
        ReplCommand::Exit
    } else if is_word(t, clear.as_slice()) {
        ReplCommand::Clear
    } else if is_word(t, verbose.as_slice()) {
        ReplCommand::Verbose
    } else if is_word(t, quiet.as_slice()) {
        ReplCommand::Quiet
    } else if is_word(t, question.as_slice()) || is_word(t, help.as_slice()) {
        ReplCommand::Help
    } else {
        ReplCommand::Code
    }
}

pub struct SessionView {
    pub machine: MachineView,
    pub verbose: bool,
}

/// The session after trimmed line `t`, and what the line asked for: a
/// command acts on the session; any other text is compiled and, when it
/// compiles, loaded to run from its first instruction on the tape and
/// buffer as they stand. A line that fails to compile changes nothing.
pub open spec fn handle_spec(s: SessionView, t: Seq<char>) -> (SessionView, Result<ReplCommand, MyError>) {
    match command_of(t) {
        ReplCommand::Clear => (
            SessionView {
                machine: MachineView {
                    mem: MemoryView::initial(s.machine.mem.cell_max),
                    out: Seq::empty(),
                    ..s.machine
                },
                ..s
            },
            Ok(ReplCommand::Clear),
        ),
        ReplCommand::Verbose => (SessionView { verbose: true, ..s }, Ok(ReplCommand::Verbose)),
        ReplCommand::Quiet => (SessionView { verbose: false, ..s }, Ok(ReplCommand::Quiet)),
        ReplCommand::Code => match compile(t) {
            Ok(prog) => (
                SessionView { machine: MachineView { prog, ip: 0, ..s.machine }, ..s },
                Ok(ReplCommand::Code),
            ),
            Err(e) => (s, Err(MyError::Compile(e))),
        },
        c => (s, Ok(c)),
    }
}

/// A session: the machine that its lines share and whether it traces.
pub struct Session {
    machine: Machine,
    verbose: bool,
}

impl View for Session {
    type V = SessionView;

    closed spec fn view(&self) -> SessionView {
        SessionView { machine: self.machine@, verbose: self.verbose }
    }
}

impl Session {
    pub closed spec fn wf(&self) -> bool {
        self.machine.wf()
    }

    pub closed spec fn mode(&self) -> OutputMode {
        self.machine.mode()
    }

    /// A session on a fresh tape of ceiling `cell_max`, with no program.
    pub fn new(cell_max: u32, output_mode: OutputMode, verbose: bool) -> (r: Session)
        ensures
            r.wf(),
            r@ == (SessionView {
                machine: MachineView {
                    mem: MemoryView::initial(cell_max),
                    out: Seq::empty(),
                    prog: Seq::empty(),
                    ip: 0,
                },
                verbose,
            }),
            r.mode() == output_mode,
    {
        Session { machine: Machine::new(cell_max, output_mode, Vec::new()), verbose }
    }

    pub fn verbose(&self) -> (r: bool)
        ensures
            r == self@.verbose,
    {
        self.verbose
    }

    pub fn machine(&self) -> (r: &Machine)
        requires
            self.wf(),
        ensures
            r@ == self@.machine,
            r.wf(),
            r.mode() == self.mode(),
    {
        &self.machine
    }

    /// Carries out trimmed line `t`.
    pub fn handle_trimmed(&mut self, t: &str) -> (r: Result<ReplCommand, MyError>)
        requires
            old(self).wf(),
            t@.len() < u32::MAX,
        ensures
            final(self).wf(),
            final(self).mode() == old(self).mode(),
            (final(self)@, r) == handle_spec(old(self)@, t@),
    {
        let c = command(t);
        match c {
            ReplCommand::Clear => self.machine.clear(),
            ReplCommand::Verbose => self.verbose = true,
            ReplCommand::Quiet => self.verbose = false,
            ReplCommand::Code => {
                match raw_code_to_token_vec(t) {
                    Ok(v) => self.machine.load(v),
                    Err(e) => return Err(e),
                }
            },
            _ => {},
        }
        Ok(c)
    }

    /// Carries out one line of the session, trimmed first.
    pub fn handle_line(&mut self, line: &str) -> (r: Result<ReplCommand, MyError>)
        requires
            old(self).wf(),
            line@.len() < u32::MAX,
        ensures
            final(self).wf(),
            final(self).mode() == old(self).mode(),
            (final(self)@, r) == handle_spec(old(self)@, trim_of(line@)),
    {
        let t = trim(line);
        self.handle_trimmed(t)
    }

    /// Runs the current instruction of the loaded line.
    pub fn step(&mut self) -> (r: Result<Event, MyError>)
        requires
            old(self).wf(),
        ensures
            final(self).wf(),
            final(self).mode() == old(self).mode(),
            final(self)@.verbose == old(self)@.verbose,
            (final(self)@.machine, r) == step_spec(old(self)@.machine),
    {
        self.machine.step()
    }

    /// Runs at most `fuel` instructions of the loaded line.
    pub fn run(&mut self, fuel: u64) -> (r: Result<Event, MyError>)
        requires
            old(self).wf(),
        ensures
            final(self).wf(),
            final(self).mode() == old(self).mode(),
            final(self)@.verbose == old(self)@.verbose,
            (final(self)@.machine, r) == run_spec(old(self)@.machine, fuel as nat),
    {
        self.machine.run(fuel)
    }

    /// Completes the current read instruction with one line of input.
    pub fn input_line(&mut self, line: &str) -> (r: Result<bool, MyError>)
        requires
            old(self).wf(),
            old(self)@.machine.awaiting_input(),
        ensures
            final(self).wf(),
            final(self).mode() == old(self).mode(),
            final(self)@.verbose == old(self)@.verbose,
            match line_value(line@, trim_of(line@)) {
                Some(p) => (final(self)@.machine, r) == supply_spec(old(self)@.machine, p),
                None => (r matches Err(MyError::Parse(_))) && final(self)@.machine == old(self)@.machine,
            },
    {
        self.machine.input_line(line)
    }
}

} // verus!
